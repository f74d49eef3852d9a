//! Traceroute: the identifiers carried by the probes, the decision of how
//! far the trace goes, and the row shown for each hop.

use vstd::prelude::*;
use crate::table::string_views;
use crate::text::{chars_of, decimal_digits, decimal_string, same_chars};

verus! {

/// The ICMP identifier of our probes: the low 16 bits of the process id.
pub fn probe_ident(process_id: u32) -> (ident: u16)
    ensures
        ident == process_id % 0x10000,
{
    assert((process_id & 0xFFFFu32) as u16 == process_id % 0x10000) by (bit_vector);
    (process_id & 0xFFFF) as u16
}

/// The sequence number of probe `probe_seq` of hop `ttl`: `probe_seq + 10 * ttl`,
/// keeping its low 16 bits (distinct within a hop and across the first hops).
pub fn probe_sequence(ttl: u32, probe_seq: u32) -> (seq: u16)
    requires
        probe_seq + ttl * 10 <= u32::MAX,
    ensures
        seq == (probe_seq + ttl * 10) % 0x10000,
{
    let v = probe_seq + ttl * 10;
    assert(v as u16 == v % 0x10000) by (bit_vector);
    v as u16
}

/// How many probes are sent for each hop.
pub const PROBES_PER_HOP: u32 = 3;

/// The first TTL a trace of at most `max_hops` hops probes, if any.
pub fn first_hop(max_hops: u32) -> (ttl: Option<u32>)
    ensures
        ttl == (if max_hops >= 1 { Some(1u32) } else { None::<u32> }),
{
    if max_hops >= 1 { Some(1) } else { None }
}

/// What the trace does after hop `ttl` was probed: the next TTL, or stop
/// (when the target answered, or the hop limit is used up).
pub fn after_hop(ttl: u32, max_hops: u32, reached: bool) -> (next: Option<u32>)
    requires
        1 <= ttl <= max_hops,
    ensures
        next == (if reached || ttl == max_hops { None } else { Some((ttl + 1) as u32) }),
{
    if reached || ttl == max_hops {
        None
    } else {
        Some(ttl + 1)
    }
}

/// The hops a trace probes from hop `ttl` on, when the probes of hop `t`
/// reach the target exactly when `reached[t - 1]`: each step goes as
/// [`after_hop`] decides, on to the next hop or stop.
pub open spec fn probed_from(ttl: u32, max_hops: u32, reached: Seq<bool>) -> Seq<u32>
    decreases max_hops - ttl,
{
    if ttl < 1 || ttl > max_hops {
        seq![]
    } else if reached[ttl - 1] || ttl == max_hops {
        seq![ttl]
    } else {
        seq![ttl] + probed_from((ttl + 1) as u32, max_hops, reached)
    }
}

proof fn lemma_probed_from(ttl: u32, max_hops: u32, reached: Seq<bool>)
    requires
        1 <= ttl <= max_hops,
        reached.len() >= max_hops,
    ensures
        ({
            let s = probed_from(ttl, max_hops, reached);
            &&& s.len() >= 1
            &&& ttl + s.len() - 1 <= max_hops
            &&& forall|i: int| 0 <= i < s.len() ==> #[trigger] s[i] == ttl + i
            &&& forall|i: int| 0 <= i < s.len() - 1 ==> !#[trigger] reached[ttl - 1 + i]
            &&& (s.last() == max_hops || reached[s.last() - 1])
        }),
    decreases max_hops - ttl,
{
    if !(reached[ttl - 1] || ttl == max_hops) {
        let n = (ttl + 1) as u32;
        lemma_probed_from(n, max_hops, reached);
        let rest = probed_from(n, max_hops, reached);
        let s = probed_from(ttl, max_hops, reached);
        assert(s == seq![ttl] + rest);
        assert forall|i: int| 0 <= i < s.len() implies #[trigger] s[i] == ttl + i by {
            if i > 0 {
                assert(s[i] == rest[i - 1]);
            }
        }
        assert forall|i: int| 0 <= i < s.len() - 1 implies !#[trigger] reached[ttl - 1 + i] by {
            if i > 0 {
                assert(reached[ttl - 1 + i] == reached[n - 1 + (i - 1)]);
            }
        }
        assert(s.last() == rest.last());
    }
}

/// How far a trace goes: starting at the first hop and stepping as
/// [`after_hop`] decides, it probes the hops 1, 2, ... one after the other,
/// none before the last reaching the target, and it stops at the first hop
/// that reaches the target, or at `max_hops` when none does.
pub proof fn lemma_trace_stops_at_first_reaching_hop(max_hops: u32, reached: Seq<bool>)
    requires
        max_hops >= 1,
        reached.len() >= max_hops,
    ensures
        ({
            let s = probed_from(1, max_hops, reached);
            &&& 1 <= s.len() <= max_hops
            &&& forall|i: int| 0 <= i < s.len() ==> #[trigger] s[i] == i + 1
            &&& forall|i: int| 0 <= i < s.len() - 1 ==> !#[trigger] reached[i]
            &&& (s.len() == max_hops || reached[s.len() - 1])
        }),
{
    lemma_probed_from(1, max_hops, reached);
    let s = probed_from(1, max_hops, reached);
    assert(s[s.len() - 1] == s.len());
    assert forall|i: int| 0 <= i < s.len() - 1 implies !#[trigger] reached[i] by {
        assert(reached[1 - 1 + i] == reached[i]);
    }
}

/// Some probe of the hop was answered by the target itself (addresses compared as text).
pub open spec fn answered_by(ips: Seq<Option<String>>, target: Seq<char>) -> bool {
    exists|i: int| 0 <= i < ips.len() && ips[i] is Some && #[trigger] ips[i]->0@ == target
}

/// Whether the hop reached the target: some probe's answer came from `target`.
pub fn hop_reached(ips: &[Option<String>], target: &str) -> (reached: bool)
    ensures
        reached == answered_by(ips@, target@),
{
    let t = chars_of(target);
    let mut i: usize = 0;
    while i < ips.len()
        invariant
            i <= ips@.len(),
            t@ == target@,
            forall|j: int| 0 <= j < i ==> !(ips@[j] is Some && #[trigger] ips@[j]->0@ == target@),
        decreases ips@.len() - i,
    {
        if let Some(ip) = &ips[i] {
            let c = chars_of(ip.as_str());
            if same_chars(&c, &t) {
                assert(ips@[i as int] is Some && ips@[i as int]->0@ == target@);
                return true;
            }
        }
        i = i + 1;
    }
    false
}

/// The address shown for a hop: the first probe that was answered, or `*`.
pub open spec fn first_answer(ips: Seq<Option<String>>) -> Seq<char>
    decreases ips.len(),
{
    if ips.len() == 0 {
        "*"@
    } else if ips[0] is Some {
        ips[0]->0@
    } else {
        first_answer(ips.drop_first())
    }
}

/// The cell of probe `i`: its round-trip time as written, or `*` when it had none.
pub open spec fn rtt_cell(rtts: Seq<Option<String>>, i: int) -> Seq<char> {
    if 0 <= i < rtts.len() && rtts[i] is Some {
        rtts[i]->0@
    } else {
        "*"@
    }
}

/// The row of a hop: its TTL, the answering address, and one cell per probe.
pub open spec fn hop_row_cells(ttl: u32, ips: Seq<Option<String>>, rtts: Seq<Option<String>>) -> Seq<
    Seq<char>,
> {
    seq![
        decimal_digits(ttl as nat),
        first_answer(ips),
        rtt_cell(rtts, 0),
        rtt_cell(rtts, 1),
        rtt_cell(rtts, 2),
    ]
}

fn first_answer_text(ips: &[Option<String>]) -> (s: String)
    ensures
        s@ == first_answer(ips@),
{
    let mut i: usize = 0;
    assert(ips@.skip(0) =~= ips@);
    while i < ips.len()
        invariant
            i <= ips@.len(),
            first_answer(ips@.skip(i as int)) == first_answer(ips@),
        decreases ips@.len() - i,
    {
        assert(ips@.skip(i as int).drop_first() =~= ips@.skip(i + 1));
        if let Some(ip) = &ips[i] {
            return ip.clone();
        }
        i = i + 1;
    }
    "*".to_string()
}

fn rtt_text(rtts: &[Option<String>], i: usize) -> (s: String)
    ensures
        s@ == rtt_cell(rtts@, i as int),
{
    if i < rtts.len() {
        if let Some(t) = &rtts[i] {
            return t.clone();
        }
    }
    "*".to_string()
}

/// The table row of hop `ttl`: `[ttl, address, rtt 1, rtt 2, rtt 3]`, with
/// the address of the first answered probe and each probe's round-trip text
/// (already formatted), `*` standing for a probe with no answer.
pub fn hop_row(ttl: u32, ips: &[Option<String>], rtt_texts: &[Option<String>]) -> (row: Vec<String>)
    ensures
        string_views(row@) == hop_row_cells(ttl, ips@, rtt_texts@),
{
    let mut row: Vec<String> = Vec::new();
    row.push(decimal_string(ttl));
    row.push(first_answer_text(ips));
    row.push(rtt_text(rtt_texts, 0));
    row.push(rtt_text(rtt_texts, 1));
    row.push(rtt_text(rtt_texts, 2));
    assert(string_views(row@) =~= hop_row_cells(ttl, ips@, rtt_texts@));
    row
}


/// The address a hop's row shows is that of the first probe that was
/// answered, and `*` when no probe was; each round-trip cell shows its
/// probe's time, or `*` for a probe with no answer or no probe at all.
pub proof fn lemma_hop_row_cells(ttl: u32, ips: Seq<Option<String>>, rtts: Seq<Option<String>>)
    ensures
        ({
            let row = hop_row_cells(ttl, ips, rtts);
            &&& row.len() == 5
            &&& crate::text::parsed_u32(row[0]) == Some(ttl)
            &&& (forall|i: int| 0 <= i < ips.len() ==> ips[i] is None) ==> row[1] == "*"@
            &&& forall|k: int|
                0 <= k < ips.len() && ips[k] is Some && (forall|j: int| 0 <= j < k ==> ips[j] is None)
                    ==> row[1] == (#[trigger] ips[k])->0@
            &&& forall|i: int| 0 <= i < 3 ==> (#[trigger] row[i + 2] == (if i < rtts.len() && rtts[i] is Some {
                rtts[i]->0@
            } else {
                "*"@
            }))
        }),
{
    crate::text::lemma_decimal_parse_roundtrip(ttl);
    lemma_first_answer(ips);
    let row = hop_row_cells(ttl, ips, rtts);
    assert(row[2] == rtt_cell(rtts, 0));
    assert(row[3] == rtt_cell(rtts, 1));
    assert(row[4] == rtt_cell(rtts, 2));
}

proof fn lemma_first_answer(ips: Seq<Option<String>>)
    ensures
        (forall|i: int| 0 <= i < ips.len() ==> ips[i] is None) ==> first_answer(ips) == "*"@,
        forall|k: int|
            0 <= k < ips.len() && ips[k] is Some && (forall|j: int| 0 <= j < k ==> ips[j] is None)
                ==> first_answer(ips) == (#[trigger] ips[k])->0@,
    decreases ips.len(),
{
    if ips.len() > 0 {
        let rest = ips.drop_first();
        lemma_first_answer(rest);
        assert forall|k: int|
            0 <= k < ips.len() && ips[k] is Some && (forall|j: int| 0 <= j < k ==> ips[j] is None)
                implies first_answer(ips) == (#[trigger] ips[k])->0@ by {
            if k > 0 {
                assert(ips[0] is None);
                assert(rest[k - 1] == ips[k]);
                assert forall|j: int| 0 <= j < k - 1 implies rest[j] is None by {
                    assert(rest[j] == ips[j + 1]);
                }
            }
        }
        if forall|i: int| 0 <= i < ips.len() ==> ips[i] is None {
            assert(ips[0] is None);
            assert forall|i: int| 0 <= i < rest.len() implies rest[i] is None by {
                assert(rest[i] == ips[i + 1]);
            }
        }
    }
}

} // verus!
