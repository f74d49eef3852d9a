//! DNS queries: the record types that can be asked for.

use vstd::prelude::*;

verus! {

broadcast use vstd::string::group_string_axioms;

/// DNS record types.
#[derive(Debug, Clone, Copy, PartialEq, Eq, Structural)]
pub enum DnsRecordType {
    /// IPv4 address.
    A,
    /// IPv6 address.
    Aaaa,
    /// Mail exchange.
    Mx,
    /// Canonical name (alias).
    Cname,
    /// Name server.
    Ns,
    /// Text.
    Txt,
}

/// The conventional name of a record type.
pub open spec fn record_type_name(t: DnsRecordType) -> Seq<char> {
    match t {
        DnsRecordType::A => "A"@,
        DnsRecordType::Aaaa => "AAAA"@,
        DnsRecordType::Mx => "MX"@,
        DnsRecordType::Cname => "CNAME"@,
        DnsRecordType::Ns => "NS"@,
        DnsRecordType::Txt => "TXT"@,
    }
}

impl DnsRecordType {
    /// The conventional (upper-case) name of this record type.
    pub fn label(&self) -> (name: &'static str)
        ensures
            name@ == record_type_name(*self),
    {
        match self {
            DnsRecordType::A => "A",
            DnsRecordType::Aaaa => "AAAA",
            DnsRecordType::Mx => "MX",
            DnsRecordType::Cname => "CNAME",
            DnsRecordType::Ns => "NS",
            DnsRecordType::Txt => "TXT",
        }
    }
}

} // verus!
