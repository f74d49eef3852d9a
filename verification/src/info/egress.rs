//! Egress detection: which interface carries the outgoing traffic.

use vstd::prelude::*;
use super::interface::{InterfaceInfo, InterfaceRecord, interface_views};

verus! {

/// The position of the first interface whose IPv4 address is `ip`, if any.
pub open spec fn first_with_ipv4(ifaces: Seq<InterfaceRecord>, ip: Seq<char>) -> Option<int>
    decreases ifaces.len(),
{
    if ifaces.len() == 0 {
        None
    } else if ifaces[0].ipv4 == ip {
        Some(0)
    } else {
        match first_with_ipv4(ifaces.drop_first(), ip) {
            Some(k) => Some(k + 1),
            None => None,
        }
    }
}

/// The name of the first interface whose IPv4 address is `ip`.
pub open spec fn egress_name(ifaces: Seq<InterfaceRecord>, ip: Seq<char>) -> Option<Seq<char>> {
    match first_with_ipv4(ifaces, ip) {
        Some(k) => Some(ifaces[k].name),
        None => None,
    }
}

proof fn lemma_first_with_ipv4(ifaces: Seq<InterfaceRecord>, ip: Seq<char>, k: int)
    requires
        0 <= k <= ifaces.len(),
        forall|j: int| 0 <= j < k ==> ifaces[j].ipv4 != ip,
        k == ifaces.len() || ifaces[k].ipv4 == ip,
    ensures
        first_with_ipv4(ifaces, ip) == (if k < ifaces.len() { Some(k) } else { None::<int> }),
    decreases k,
{
    if ifaces.len() > 0 && k > 0 {
        assert forall|j: int| 0 <= j < k - 1 implies ifaces.drop_first()[j].ipv4 != ip by {
            assert(ifaces.drop_first()[j] == ifaces[j + 1]);
        }
        lemma_first_with_ipv4(ifaces.drop_first(), ip, k - 1);
    }
}

/// Finds the interface carrying the egress address `egress_ip` (in its
/// textual form): the name of the first interface with that IPv4 address.
pub fn find_egress_interface(egress_ip: &str, interfaces: &[InterfaceInfo]) -> (name: Option<String>)
    ensures
        name matches Some(n) ==> egress_name(interface_views(interfaces@), egress_ip@) == Some(n@),
        name is None ==> egress_name(interface_views(interfaces@), egress_ip@) is None,
{
    let ghost vs = interface_views(interfaces@);
    let target = egress_ip.to_owned();
    let mut i: usize = 0;
    while i < interfaces.len()
        invariant
            i <= interfaces@.len(),
            vs == interface_views(interfaces@),
            target@ == egress_ip@,
            forall|j: int| 0 <= j < i ==> vs[j].ipv4 != egress_ip@,
        decreases interfaces@.len() - i,
    {
        assert(vs[i as int] == interfaces@[i as int]@);
        if interfaces[i].ipv4 == target {
            proof {
                lemma_first_with_ipv4(vs, egress_ip@, i as int);
            }
            return Some(interfaces[i].name.clone());
        }
        i = i + 1;
    }
    proof {
        lemma_first_with_ipv4(vs, egress_ip@, i as int);
    }
    None
}


/// The egress interface is the first interface holding the egress address:
/// when a name is found, some interface has that address and that name and
/// no interface before it has the address; none is found exactly when no
/// interface has the address.
pub proof fn lemma_egress_is_first_holder(ifaces: Seq<InterfaceRecord>, ip: Seq<char>)
    ensures
        egress_name(ifaces, ip) matches Some(n) ==> exists|k: int|
            0 <= k < ifaces.len() && #[trigger] ifaces[k].ipv4 == ip && ifaces[k].name == n && forall|j: int|
                0 <= j < k ==> ifaces[j].ipv4 != ip,
        egress_name(ifaces, ip) is None <==> forall|k: int| 0 <= k < ifaces.len() ==> #[trigger] ifaces[k].ipv4 != ip,
{
    if exists|k: int| 0 <= k < ifaces.len() && #[trigger] ifaces[k].ipv4 == ip {
        let w = choose|k: int| 0 <= k < ifaces.len() && #[trigger] ifaces[k].ipv4 == ip;
        lemma_least_holder(ifaces, ip, w);
    } else {
        lemma_first_with_ipv4(ifaces, ip, ifaces.len() as int);
    }
}

proof fn lemma_least_holder(ifaces: Seq<InterfaceRecord>, ip: Seq<char>, w: int)
    requires
        0 <= w < ifaces.len(),
        ifaces[w].ipv4 == ip,
    ensures
        exists|k: int|
            0 <= k < ifaces.len() && #[trigger] ifaces[k].ipv4 == ip && forall|j: int| 0 <= j < k ==> ifaces[j].ipv4 != ip,
        egress_name(ifaces, ip) matches Some(n) ==> exists|k: int|
            0 <= k < ifaces.len() && #[trigger] ifaces[k].ipv4 == ip && ifaces[k].name == n && forall|j: int|
                0 <= j < k ==> ifaces[j].ipv4 != ip,
        egress_name(ifaces, ip) is Some,
    decreases w,
{
    if exists|j: int| 0 <= j < w && #[trigger] ifaces[j].ipv4 == ip {
        let v = choose|j: int| 0 <= j < w && #[trigger] ifaces[j].ipv4 == ip;
        lemma_least_holder(ifaces, ip, v);
    } else {
        lemma_first_with_ipv4(ifaces, ip, w);
        assert(ifaces[w].ipv4 == ip && forall|j: int| 0 <= j < w ==> ifaces[j].ipv4 != ip);
    }
}

} // verus!
