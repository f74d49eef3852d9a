//! Port scanning: the well-known services, the default port list, and the
//! report of the open ports found.

use vstd::prelude::*;
use vstd::multiset::Multiset;
use crate::text::{
    chars_of, decimal_digits, decimal_string, find_char, first_index_of, parse_u16, parsed_u16,
    split_all, split_every, sub_chars, trim, trimmed, views, free_of, joined_with,
    lemma_decimal_free_of, lemma_decimal_parse_roundtrip, lemma_decimal_trimmed, lemma_first_index_of_unique,
    lemma_split_all_joined,
};

verus! {

broadcast use vstd::string::group_string_axioms;

/// The well-known service on `port`, or `"unknown"`.
pub open spec fn service_of(port: u16) -> Seq<char> {
    if port == 21 {
        "FTP"@
    } else if port == 22 {
        "SSH"@
    } else if port == 23 {
        "Telnet"@
    } else if port == 25 {
        "SMTP"@
    } else if port == 53 {
        "DNS"@
    } else if port == 80 {
        "HTTP"@
    } else if port == 110 {
        "POP3"@
    } else if port == 143 {
        "IMAP"@
    } else if port == 443 {
        "HTTPS"@
    } else if port == 445 {
        "SMB"@
    } else if port == 993 {
        "IMAPS"@
    } else if port == 995 {
        "POP3S"@
    } else if port == 1433 {
        "SQL Server"@
    } else if port == 3306 {
        "MySQL"@
    } else if port == 3389 {
        "RDP"@
    } else if port == 5432 {
        "PostgreSQL"@
    } else if port == 6379 {
        "Redis"@
    } else if port == 8080 {
        "HTTP Alt"@
    } else if port == 8443 {
        "HTTPS Alt"@
    } else if port == 9090 {
        "Prometheus"@
    } else {
        "unknown"@
    }
}

/// Names the well-known service on `port` (see [`service_of`]).
pub fn service_name(port: u16) -> (name: &'static str)
    ensures
        name@ == service_of(port),
{
    match port {
        21 => "FTP",
        22 => "SSH",
        23 => "Telnet",
        25 => "SMTP",
        53 => "DNS",
        80 => "HTTP",
        110 => "POP3",
        143 => "IMAP",
        443 => "HTTPS",
        445 => "SMB",
        993 => "IMAPS",
        995 => "POP3S",
        1433 => "SQL Server",
        3306 => "MySQL",
        3389 => "RDP",
        5432 => "PostgreSQL",
        6379 => "Redis",
        8080 => "HTTP Alt",
        8443 => "HTTPS Alt",
        9090 => "Prometheus",
        _ => "unknown",
    }
}

/// The ports scanned when none are given: the well-known services' ports, ascending.
pub open spec fn default_ports() -> Seq<u16> {
    seq![
        21u16, 22, 23, 25, 53, 80, 110, 143, 443, 445, 993, 995, 1433, 3306, 3389, 5432, 6379, 8080,
        8443, 9090,
    ]
}

/// The ports to scan when none are given (see [`default_ports`]).
pub fn common_ports() -> (ports: Vec<u16>)
    ensures
        ports@ == default_ports(),
{
    let ports = vec![
        21u16, 22, 23, 25, 53, 80, 110, 143, 443, 445, 993, 995, 1433, 3306, 3389, 5432, 6379, 8080,
        8443, 9090,
    ];
    assert(ports@ =~= default_ports());
    ports
}

/// The outcome of probing one port.
pub struct ScanResult {
    pub port: u16,
    pub open: bool,
}

/// The ports found open among `results`, in the order of the results.
pub open spec fn open_ports_of(results: Seq<ScanResult>) -> Seq<u16>
    decreases results.len(),
{
    if results.len() == 0 {
        seq![]
    } else {
        let before = open_ports_of(results.drop_last());
        if results.last().open {
            before.push(results.last().port)
        } else {
            before
        }
    }
}

/// `s` is in ascending order.
pub open spec fn ascending(s: Seq<u16>) -> bool {
    forall|i: int, j: int| 0 <= i <= j < s.len() ==> s[i] <= s[j]
}

/// Inserts `p` into the ascending vector `v`, after any equal elements.
fn insert_sorted(v: &mut Vec<u16>, p: u16)
    requires
        ascending(old(v)@),
    ensures
        ascending(final(v)@),
        final(v)@.to_multiset() == old(v)@.to_multiset().insert(p),
{
    let mut i = v.len();
    while i > 0 && v[i - 1] > p
        invariant
            i <= v@.len(),
            v@ == old(v)@,
            forall|j: int| i <= j < v@.len() ==> v@[j] > p,
        decreases i,
    {
        i = i - 1;
    }
    proof {
        broadcast use vstd::seq_lib::group_seq_properties, vstd::multiset::group_multiset_properties;
    }
    let ghost before = v@;
    v.insert(i, p);
    proof {
        assert(v@ =~= before.subrange(0, i as int).push(p) + before.subrange(i as int, before.len() as int));
        assert(before =~= before.subrange(0, i as int) + before.subrange(i as int, before.len() as int));
        vstd::seq_lib::lemma_multiset_commutative(before.subrange(0, i as int).push(p), before.subrange(i as int, before.len() as int));
        vstd::seq_lib::lemma_multiset_commutative(before.subrange(0, i as int), before.subrange(i as int, before.len() as int));
        assert forall|a: int, b: int| 0 <= a <= b < v@.len() implies v@[a] <= v@[b] by {
            if a < i && b > i {
                assert(before[a] <= before[b - 1]);
            } else if a < i && b == i {
                assert(before[a] <= p || i == 0) by {
                    if a < i {
                        assert(before[a] <= before[i - 1]);
                    }
                }
            }
        }
    }
}

/// The open ports among `results`, ascending (the order the scan report lists them in).
pub fn open_ports_sorted(results: &[ScanResult]) -> (ports: Vec<u16>)
    ensures
        ascending(ports@),
        ports@.to_multiset() == open_ports_of(results@).to_multiset(),
{
    let mut ports: Vec<u16> = Vec::new();
    let mut i: usize = 0;
    while i < results.len()
        invariant
            i <= results@.len(),
            ascending(ports@),
            ports@.to_multiset() == open_ports_of(results@.take(i as int)).to_multiset(),
        decreases results@.len() - i,
    {
        proof {
            assert(results@.take(i + 1).drop_last() =~= results@.take(i as int));
            broadcast use vstd::seq_lib::group_seq_properties, vstd::multiset::group_multiset_properties;
        }
        if results[i].open {
            insert_sorted(&mut ports, results[i].port);
        }
        i = i + 1;
    }
    assert(results@.take(results@.len() as int) =~= results@);
    ports
}

/// A row of the scan report: the port, `"open"`, and its service.
pub open spec fn open_port_row(port: u16) -> Seq<Seq<char>> {
    seq![decimal_digits(port as nat), "open"@, service_of(port)]
}

/// Builds the scan report's row for an open `port` (see [`open_port_row`]).
pub fn port_row(port: u16) -> (row: Vec<String>)
    ensures
        row@.len() == 3,
        row@[0]@ == open_port_row(port)[0],
        row@[1]@ == open_port_row(port)[1],
        row@[2]@ == open_port_row(port)[2],
{
    let mut row: Vec<String> = Vec::new();
    row.push(decimal_string(port as u32));
    row.push("open".to_string());
    row.push(service_name(port).to_string());
    row
}


/// The ports `a` to `b`, inclusive, ascending.
pub open spec fn port_range(a: u16, b: u16) -> Seq<u16> {
    Seq::new((b - a + 1) as nat, |i: int| (a + i) as u16)
}

/// The ports one item of a port list names: a port, or a range `a-b`
/// with `a <= b` (each bound trimmed); none when the item is malformed.
pub open spec fn port_item(item: Seq<char>) -> Option<Seq<u16>> {
    let k = first_index_of(item, '-');
    if k >= item.len() {
        match parsed_u16(trimmed(item)) {
            Some(p) => Some(seq![p]),
            None => None,
        }
    } else {
        match (parsed_u16(trimmed(item.take(k))), parsed_u16(trimmed(item.skip(k + 1)))) {
            (Some(a), Some(b)) => if a <= b {
                Some(port_range(a, b))
            } else {
                None
            },
            _ => None,
        }
    }
}

/// The ports the items name, in order, ranges expanded; none when any item is malformed.
pub open spec fn port_items(items: Seq<Seq<char>>) -> Option<Seq<u16>>
    decreases items.len(),
{
    if items.len() == 0 {
        Some(seq![])
    } else {
        match (port_items(items.drop_last()), port_item(items.last())) {
            (Some(before), Some(these)) => Some(before + these),
            _ => None,
        }
    }
}

/// The ports a port list such as `80-100,443,8080-8090` names (see [`port_items`]).
pub open spec fn port_list(spec: Seq<char>) -> Option<Seq<u16>> {
    port_items(split_all(spec, ','))
}

fn push_range(out: &mut Vec<u16>, a: u16, b: u16)
    requires
        a <= b,
    ensures
        final(out)@ == old(out)@ + port_range(a, b),
{
    let mut p: u32 = a as u32;
    while p <= b as u32
        invariant
            a <= p <= b as u32 + 1,
            out@ == old(out)@ + Seq::new((p - a) as nat, |i: int| (a + i) as u16),
        decreases b as u32 + 1 - p,
    {
        out.push(p as u16);
        p = p + 1;
        assert(out@ =~= old(out)@ + Seq::new((p - a) as nat, |i: int| (a + i) as u16));
    }
    assert(Seq::new((p - a) as nat, |i: int| (a + i) as u16) =~= port_range(a, b));
}

fn read_item(item: &[char]) -> (ports: Option<Vec<u16>>)
    ensures
        match ports {
            Some(v) => port_item(item@) == Some(v@),
            None => port_item(item@) is None,
        },
{
    let k = find_char(item, '-');
    if k == item.len() {
        match parse_u16(&trim(item)) {
            Some(p) => {
                let mut v: Vec<u16> = Vec::new();
                v.push(p);
                assert(v@ =~= seq![p]);
                Some(v)
            },
            None => None,
        }
    } else {
        proof {
            crate::text::lemma_first_index_of(item@, '-');
        }
        let lo = sub_chars(item, 0, k);
        let hi = sub_chars(item, k + 1, item.len());
        assert(lo@ =~= item@.take(k as int));
        assert(hi@ =~= item@.skip(k + 1));
        match (parse_u16(&trim(&lo)), parse_u16(&trim(&hi))) {
            (Some(a), Some(b)) => {
                if a <= b {
                    let mut v: Vec<u16> = Vec::new();
                    push_range(&mut v, a, b);
                    assert(v@ =~= port_range(a, b));
                    Some(v)
                } else {
                    None
                }
            },
            _ => None,
        }
    }
}

/// Reads a port list: comma-separated ports and inclusive ranges `a-b`,
/// e.g. `80-100,443,8080-8090`, expanded in the order given (see [`port_list`]);
/// `None` when an item is not a port or a range whose start does not exceed its end.
pub fn parse_port_list(spec: &str) -> (ports: Option<Vec<u16>>)
    ensures
        match ports {
            Some(v) => port_list(spec@) == Some(v@),
            None => port_list(spec@) is None,
        },
{
    let chars = chars_of(spec);
    let items = split_every(&chars, ',');
    let ghost iv = views(items@);
    let mut out: Vec<u16> = Vec::new();
    let mut i: usize = 0;
    assert(iv.take(0) =~= Seq::<Seq<char>>::empty());
    while i < items.len()
        invariant
            i <= items@.len(),
            iv == views(items@),
            iv == split_all(spec@, ','),
            port_items(iv.take(i as int)) == Some(out@),
        decreases items@.len() - i,
    {
        proof {
            assert(iv.take(i + 1).drop_last() =~= iv.take(i as int));
            assert(iv.take(i + 1).last() == items@[i as int]@);
        }
        match read_item(&items[i]) {
            Some(v) => {
                let mut k: usize = 0;
                let ghost start = out@;
                while k < v.len()
                    invariant
                        k <= v@.len(),
                        out@ == start + v@.take(k as int),
                    decreases v@.len() - k,
                {
                    out.push(v[k]);
                    k = k + 1;
                    assert(out@ =~= start + v@.take(k as int));
                }
                assert(v@.take(v@.len() as int) =~= v@);
            },
            None => {
                proof {
                    assert(port_items(iv.take(i + 1)) is None);
                    lemma_port_items_stays_none(iv, i + 1);
                    assert(iv.take(iv.len() as int) =~= iv);
                }
                return None;
            },
        }
        i = i + 1;
    }
    assert(iv.take(items@.len() as int) =~= iv);
    Some(out)
}

proof fn lemma_port_items_stays_none(items: Seq<Seq<char>>, n: int)
    requires
        0 <= n <= items.len(),
        port_items(items.take(n)) is None,
    ensures
        port_items(items) is None,
    decreases items.len() - n,
{
    if n < items.len() {
        assert(items.take(n + 1).drop_last() =~= items.take(n));
        lemma_port_items_stays_none(items, n + 1);
    } else {
        assert(items.take(n) =~= items);
    }
}


/// The open ports are exactly the ports of the results that were found open:
/// a port is listed if and only if some result for it is open.
pub proof fn lemma_open_ports_are_open_results(results: Seq<ScanResult>, p: u16)
    ensures
        open_ports_of(results).contains(p) <==> exists|i: int|
            0 <= i < results.len() && #[trigger] results[i].port == p && results[i].open,
    decreases results.len(),
{
    if results.len() > 0 {
        let init = results.drop_last();
        lemma_open_ports_are_open_results(init, p);
        let before = open_ports_of(init);
        let n = results.len() - 1;
        if exists|i: int| 0 <= i < results.len() && #[trigger] results[i].port == p && results[i].open {
            let i = choose|i: int| 0 <= i < results.len() && #[trigger] results[i].port == p && results[i].open;
            if i < n {
                assert(init[i].port == p && init[i].open);
                let j = choose|j: int| 0 <= j < before.len() && before[j] == p;
                if results.last().open {
                    assert(before.push(results.last().port)[j] == p);
                }
            } else {
                assert(open_ports_of(results).last() == p);
            }
        }
        if open_ports_of(results).contains(p) {
            let j = choose|j: int| 0 <= j < open_ports_of(results).len() && open_ports_of(results)[j] == p;
            if j < before.len() {
                assert(before[j] == p);
                let i = choose|i: int| 0 <= i < init.len() && #[trigger] init[i].port == p && init[i].open;
                assert(results[i] == init[i]);
            } else {
                assert(results[n].port == p && results[n].open);
            }
        }
    }
}


/// The two forms of a port-list item, read back: a port written in decimal
/// names that port; a range `a-b` written in decimal names the ports `a` to
/// `b` in ascending order when `a <= b`, and is rejected when `a > b`.
pub proof fn lemma_port_item_forms(a: u16, b: u16)
    ensures
        port_item(decimal_digits(a as nat)) == Some(seq![a]),
        ({
            let item = decimal_digits(a as nat) + seq!['-'] + decimal_digits(b as nat);
            &&& a <= b ==> (port_item(item) matches Some(ps) && ps.len() == b - a + 1 && forall|i: int|
                0 <= i < ps.len() ==> #[trigger] ps[i] == a + i)
            &&& a > b ==> port_item(item) is None
        }),
{
    let da = decimal_digits(a as nat);
    let db = decimal_digits(b as nat);
    lemma_decimal_free_of(a as u32, '-');
    lemma_decimal_parse_roundtrip(a as u32);
    lemma_decimal_parse_roundtrip(b as u32);
    lemma_decimal_trimmed(a as u32);
    lemma_decimal_trimmed(b as u32);
    lemma_first_index_of_unique(da, '-', da.len() as int);
    let item = da + seq!['-'] + db;
    assert forall|j: int| 0 <= j < da.len() implies item[j] != '-' by {
        assert(item[j] == da[j]);
    }
    lemma_first_index_of_unique(item, '-', da.len() as int);
    assert(item.take(da.len() as int) =~= da);
    assert(item.skip(da.len() + 1int) =~= db);
}

/// A port list is read item by item: joining items that hold no `','` with
/// commas gives a list that names, in order, the ports the items name, and
/// is rejected exactly when some item is.
pub proof fn lemma_port_list_reads_items(items: Seq<Seq<char>>)
    requires
        items.len() >= 1,
        forall|i: int| 0 <= i < items.len() ==> free_of(#[trigger] items[i], ','),
    ensures
        port_list(joined_with(items, ',')) == port_items(items),
        port_items(items) is None <==> exists|i: int| 0 <= i < items.len() && #[trigger] port_item(items[i]) is None,
{
    lemma_split_all_joined(items, ',');
    lemma_port_items_none(items);
}

proof fn lemma_port_items_none(items: Seq<Seq<char>>)
    ensures
        port_items(items) is None <==> exists|i: int| 0 <= i < items.len() && #[trigger] port_item(items[i]) is None,
    decreases items.len(),
{
    if items.len() > 0 {
        let init = items.drop_last();
        lemma_port_items_none(init);
        if exists|i: int| 0 <= i < init.len() && #[trigger] port_item(init[i]) is None {
            let i = choose|i: int| 0 <= i < init.len() && #[trigger] port_item(init[i]) is None;
            assert(port_item(items[i]) is None);
        }
        if exists|i: int| 0 <= i < items.len() && #[trigger] port_item(items[i]) is None {
            let i = choose|i: int| 0 <= i < items.len() && #[trigger] port_item(items[i]) is None;
            if i < init.len() {
                assert(init[i] == items[i]);
            }
        }
    }
}

} // verus!
