//! ICMP helpers shared by traceroute and link diagnosis: building Echo
//! Requests, the Internet checksum, and recognising replies to our probes.

use vstd::prelude::*;

verus! {

/// The big-endian 16-bit value of the two bytes `hi`, `lo`.
pub open spec fn be16(hi: u8, lo: u8) -> nat {
    (hi as nat) * 256 + (lo as nat)
}

/// Sum of the big-endian 16-bit words of `data`; a trailing odd byte
/// counts as the high half of a word whose low half is zero.
pub open spec fn word_sum(data: Seq<u8>) -> nat
    decreases data.len(),
{
    if data.len() == 0 {
        0
    } else if data.len() == 1 {
        (data[0] as nat) * 256
    } else {
        be16(data[0], data[1]) + word_sum(data.skip(2))
    }
}

/// Repeatedly adds the carries above bit 16 back into the low 16 bits
/// (end-around carry) until the value fits in 16 bits.
pub open spec fn fold_carries(x: nat) -> nat
    decreases x,
{
    if x < 0x10000 {
        x
    } else {
        proof {
            assert(x % 0x10000 + x / 0x10000 < x) by (nonlinear_arith)
                requires x >= 0x10000;
        }
        fold_carries(x % 0x10000 + x / 0x10000)
    }
}

/// The 16-bit one's-complement sum of `data`.
pub open spec fn ones_complement_sum(data: Seq<u8>) -> nat {
    fold_carries(word_sum(data))
}

/// The Internet checksum of `data`: the complement of its one's-complement sum.
pub open spec fn checksum_of(data: Seq<u8>) -> int {
    0xFFFF - ones_complement_sum(data)
}

/// Folding carries keeps the value below 2^16, keeps zero at zero and a
/// positive value positive, and preserves the residue modulo 0xFFFF.
pub proof fn lemma_fold_carries(x: nat)
    ensures
        fold_carries(x) <= 0xFFFF,
        fold_carries(x) % 0xFFFF == x % 0xFFFF,
        x == 0 <==> fold_carries(x) == 0,
    decreases x,
{
    if x >= 0x10000 {
        let y = x % 0x10000 + x / 0x10000;
        assert(y < x && y > 0 && y % 0xFFFF == x % 0xFFFF) by (nonlinear_arith)
            requires x >= 0x10000, y == x % 0x10000 + x / 0x10000;
        lemma_fold_carries(y);
    }
}

/// Adding a word into two zero bytes at an even offset `k` adds its value to the word sum.
pub proof fn lemma_word_sum_fill(data: Seq<u8>, k: int, hi: u8, lo: u8)
    requires
        0 <= k,
        k % 2 == 0,
        k + 1 < data.len(),
        data[k] == 0,
        data[k + 1] == 0,
    ensures
        word_sum(data.update(k, hi).update(k + 1, lo)) == word_sum(data) + be16(hi, lo),
    decreases k,
{
    let filled = data.update(k, hi).update(k + 1, lo);
    if k == 0 {
        assert(filled.skip(2) =~= data.skip(2));
    } else {
        assert(filled.skip(2) =~= data.skip(2).update(k - 2, hi).update(k - 1, lo));
        lemma_word_sum_fill(data.skip(2), k - 2, hi, lo);
    }
}

/// The word sum of `n` bytes is at most 0xFFFF per (started) word.
pub proof fn lemma_word_sum_bound(data: Seq<u8>)
    ensures
        word_sum(data) <= 0xFFFF * ((data.len() + 1) / 2),
    decreases data.len(),
{
    if data.len() >= 2 {
        lemma_word_sum_bound(data.skip(2));
        assert(((data.len() - 2 + 1) / 2) + 1 == (data.len() + 1) / 2);
    }
}

/// The high byte of a 16-bit value.
pub open spec fn hi_byte(v: u16) -> u8 {
    (v / 256) as u8
}

/// The low byte of a 16-bit value.
pub open spec fn lo_byte(v: u16) -> u8 {
    (v % 256) as u8
}

/// The payload carried by our Echo Requests: the bytes 0, 1, ..., 31.
pub open spec fn echo_payload() -> Seq<u8> {
    Seq::new(32, |i: int| i as u8)
}

/// An Echo Request (type 8, code 0) for `ident`/`seq` whose checksum field is still zero.
pub open spec fn echo_request_unsummed(ident: u16, seq: u16) -> Seq<u8> {
    seq![8u8, 0u8, 0u8, 0u8, hi_byte(ident), lo_byte(ident), hi_byte(seq), lo_byte(seq)]
        + echo_payload()
}

/// The complete Echo Request for `ident`/`seq`: the unsummed packet with
/// its Internet checksum written big-endian into bytes 2 and 3.
pub open spec fn echo_request(ident: u16, seq: u16) -> Seq<u8> {
    let body = echo_request_unsummed(ident, seq);
    let c = checksum_of(body) as u16;
    body.update(2, hi_byte(c)).update(3, lo_byte(c))
}

/// `a` and `b` as one big-endian 16-bit word, widened to 32 bits.
fn word_at(a: u8, b: u8) -> (w: u32)
    ensures
        w == be16(a, b),
{
    assert((((a as u32) << 8u32) | (b as u32)) == (a as u32) * 256 + (b as u32)) by (bit_vector);
    ((a as u32) << 8) | (b as u32)
}

/// `a` as the high half of a word whose low half is zero.
fn high_word_at(a: u8) -> (w: u32)
    ensures
        w == (a as nat) * 256,
{
    assert((a as u32) << 8u32 == (a as u32) * 256) by (bit_vector);
    (a as u32) << 8
}

/// Sums the big-endian 16-bit words of `data` (see [`word_sum`]).
fn sum_words(data: &[u8]) -> (sum: u32)
    requires
        word_sum(data@) <= u32::MAX,
    ensures
        sum == word_sum(data@),
{
    let mut sum: u32 = 0;
    let mut i: usize = 0;
    assert(data@.skip(0) =~= data@);
    while i < data.len() && data.len() - i >= 2
        invariant
            i <= data.len(),
            sum + word_sum(data@.skip(i as int)) == word_sum(data@),
            word_sum(data@) <= u32::MAX,
        decreases data.len() - i,
    {
        let w = word_at(data[i], data[i + 1]);
        proof {
            let rest = data@.skip(i as int);
            assert(rest[0] == data@[i as int] && rest[1] == data@[i + 1]);
            assert(rest.skip(2) =~= data@.skip(i + 2));
        }
        sum = sum + w;
        i = i + 2;
    }
    if i < data.len() {
        assert(data@.skip(i as int).len() == 1);
        sum = sum + high_word_at(data[i]);
    } else {
        assert(data@.skip(i as int).len() == 0);
    }
    sum
}

/// Folds the carries of `sum` into 16 bits and returns the complement.
fn fold_and_complement(sum: u32) -> (r: u16)
    ensures
        r == 0xFFFF - fold_carries(sum as nat),
{
    let mut acc = sum;
    while (acc >> 16) != 0
        invariant
            fold_carries(acc as nat) == fold_carries(sum as nat),
        decreases acc,
    {
        proof {
            assert(acc >> 16u32 == acc / 0x10000 && acc & 0xFFFFu32 == acc % 0x10000) by (bit_vector);
            assert(acc % 0x10000 + acc / 0x10000 < acc) by (nonlinear_arith)
                requires acc >= 0x10000;
        }
        acc = (acc & 0xFFFF) + (acc >> 16);
    }
    assert(acc >> 16u32 == 0 ==> acc < 0x10000) by (bit_vector);
    let low = acc as u16;
    assert(acc < 0x10000 ==> low == acc) by (bit_vector)
        requires low == acc as u16;
    assert(!low == 0xFFFF - low) by (bit_vector);
    !low
}

/// The high byte of `v`.
fn high_byte_of(v: u16) -> (b: u8)
    ensures
        b == hi_byte(v),
{
    assert((v >> 8u16) as u8 == hi_byte(v)) by (bit_vector);
    (v >> 8) as u8
}

/// The low byte of `v`.
fn low_byte_of(v: u16) -> (b: u8)
    ensures
        b == lo_byte(v),
{
    assert((v & 0xFFu16) as u8 == lo_byte(v)) by (bit_vector);
    (v & 0xFF) as u8
}

/// An Echo Request for `ident`/`seq` with the checksum field left zero.
fn echo_request_template(ident: u16, seq: u16) -> (packet: Vec<u8>)
    ensures
        packet@ == echo_request_unsummed(ident, seq),
{
    let mut packet = vec![0u8; 8 + 32];
    packet[0] = 8;
    packet[1] = 0;
    packet[4] = high_byte_of(ident);
    packet[5] = low_byte_of(ident);
    packet[6] = high_byte_of(seq);
    packet[7] = low_byte_of(seq);
    for i in 0..32
        invariant
            packet@.len() == 40,
            packet@.take(8) =~= echo_request_unsummed(ident, seq).take(8),
            forall|j: int| 0 <= j < i ==> #[trigger] packet@[8 + j] == j as u8,
    {
        packet[8 + i] = i as u8;
    }
    assert(packet@ =~= echo_request_unsummed(ident, seq)) by {
        assert forall|j: int| 0 <= j < 40 implies packet@[j] == echo_request_unsummed(ident, seq)[j] by {
            if j >= 8 {
                assert(packet@[8 + (j - 8)] == (j - 8) as u8);
            } else {
                assert(packet@.take(8)[j] == packet@[j]);
            }
        }
    }
    packet
}

/// Computes the Internet checksum (RFC 1071) of `data`: the complement of
/// the one's-complement sum of its big-endian 16-bit words.
pub fn icmp_checksum(data: &[u8]) -> (checksum: u16)
    requires
        word_sum(data@) <= u32::MAX,
    ensures
        checksum == checksum_of(data@),
{
    let sum = sum_words(data);
    fold_and_complement(sum)
}

/// Builds an ICMP Echo Request (type 8, code 0) carrying `ident` and `seq`
/// big-endian and the 32-byte payload 0, 1, ..., 31, with its checksum filled in.
pub fn build_icmp_echo_request(ident: u16, seq: u16) -> (packet: Vec<u8>)
    ensures
        packet@ == echo_request(ident, seq),
{
    let mut packet = echo_request_template(ident, seq);
    proof {
        lemma_word_sum_bound(packet@);
    }
    let checksum = icmp_checksum(&packet);
    packet[2] = high_byte_of(checksum);
    packet[3] = low_byte_of(checksum);
    packet
}

/// The length in bytes of an IPv4 header whose first byte is `first`
/// (the IHL field, in 32-bit words, times four).
pub open spec fn ip_header_len(first: u8) -> int {
    ((first % 16) * 4) as int
}

/// The big-endian 16-bit value at offset `off` of `b`.
pub open spec fn be16_at(b: Seq<u8>, off: int) -> nat {
    be16(b[off], b[off + 1])
}

/// The ICMP message starting at `at` is an Echo Reply (type 0) carrying `ident` and `seq`.
pub open spec fn echo_reply_at(b: Seq<u8>, at: int, ident: u16, seq: u16) -> bool {
    &&& b[at] == 0
    &&& be16_at(b, at + 4) == ident
    &&& be16_at(b, at + 6) == seq
}

/// The body of a Time Exceeded message, quoting an IP datagram from `inner` on,
/// is consistent with our request: either it is too short to hold the quoted
/// IP header and ICMP header (it is then given the benefit of the doubt), or
/// the quoted ICMP message is an Echo Request carrying `ident` and `seq`.
pub open spec fn quotes_request_at(b: Seq<u8>, inner: int, ident: u16, seq: u16) -> bool {
    b.len() < inner + 28 || {
        let off = inner + ip_header_len(b[inner]);
        b.len() < off + 8 || {
            &&& b[off] == 8
            &&& be16_at(b, off + 4) == ident
            &&& be16_at(b, off + 6) == seq
        }
    }
}

/// `b`, an IPv4 datagram as a raw socket delivers it, answers our Echo Request
/// `ident`/`seq`: an Echo Reply carrying them, or a Time Exceeded message (type 11)
/// that quotes our request.
pub open spec fn answers_request(b: Seq<u8>, ident: u16, seq: u16) -> bool {
    b.len() >= 20 && {
        let ihl = ip_header_len(b[0]);
        b.len() >= ihl + 8 && {
            ||| echo_reply_at(b, ihl, ident, seq)
            ||| b[ihl] == 11 && quotes_request_at(b, ihl + 8, ident, seq)
        }
    }
}

/// The IPv4 header length announced by the first header byte `first`.
fn header_len_of(first: u8) -> (n: usize)
    ensures
        n == ip_header_len(first),
        n <= 60,
{
    assert((first & 0x0Fu8) == first % 16) by (bit_vector);
    ((first & 0x0F) * 4) as usize
}

/// The big-endian 16-bit value of `buf[off]`, `buf[off + 1]`.
fn be16_of(buf: &[u8], off: usize) -> (v: u16)
    requires
        off + 1 < buf@.len(),
    ensures
        v == be16_at(buf@, off as int),
{
    let hi = buf[off];
    let lo = buf[off + 1];
    assert((((hi as u16) << 8u16) | (lo as u16)) == (hi as u16) * 256 + (lo as u16)) by (bit_vector);
    ((hi as u16) << 8) | (lo as u16)
}

/// Decides whether `buf`, an IPv4 datagram received on a raw ICMP socket,
/// answers our Echo Request `ident`/`seq` (see [`answers_request`]): `Some(())`
/// for an Echo Reply carrying them or a Time Exceeded message quoting our
/// request, `None` for anything else.
pub fn parse_icmp_response(buf: &[u8], ident: u16, seq: u16) -> (r: Option<()>)
    ensures
        r is Some <==> answers_request(buf@, ident, seq),
{
    if buf.len() < 20 {
        return None;
    }
    let ihl = header_len_of(buf[0]);
    if buf.len() < ihl + 8 {
        return None;
    }
    let kind = buf[ihl];
    if kind == 0 {
        let recv_ident = be16_of(buf, ihl + 4);
        let recv_seq = be16_of(buf, ihl + 6);
        if recv_ident == ident && recv_seq == seq {
            Some(())
        } else {
            None
        }
    } else if kind == 11 {
        let inner_start = ihl + 8;
        if buf.len() < inner_start + 20 + 8 {
            return Some(());
        }
        let inner_ihl = header_len_of(buf[inner_start]);
        let quoted = inner_start + inner_ihl;
        if buf.len() < quoted + 8 {
            return Some(());
        }
        if buf[quoted] != 8 {
            return None;
        }
        let orig_ident = be16_of(buf, quoted + 4);
        let orig_seq = be16_of(buf, quoted + 6);
        if orig_ident == ident && orig_seq == seq {
            Some(())
        } else {
            None
        }
    } else {
        None
    }
}

proof fn lemma_bytes_of_word(v: u16)
    ensures
        be16(hi_byte(v), lo_byte(v)) == v,
{
}

/// Writing a message's Internet checksum, big-endian, into a zeroed 16-bit
/// word of it (two zero bytes at an even offset `k`) makes the one's-complement
/// sum of the whole message 0xFFFF, so that a receiver recomputing the
/// checksum over it gets 0.
pub proof fn lemma_checksum_slot_verifies(data: Seq<u8>, k: int)
    requires
        0 <= k,
        k % 2 == 0,
        k + 1 < data.len(),
        data[k] == 0,
        data[k + 1] == 0,
    ensures
        ({
            let c = checksum_of(data) as u16;
            let filled = data.update(k, hi_byte(c)).update(k + 1, lo_byte(c));
            ones_complement_sum(filled) == 0xFFFF && checksum_of(filled) == 0
        }),
{
    let s = word_sum(data);
    lemma_fold_carries(s);
    let f = fold_carries(s);
    let c = checksum_of(data) as u16;
    assert(c == 0xFFFF - f);
    lemma_bytes_of_word(c);
    lemma_word_sum_fill(data, k, hi_byte(c), lo_byte(c));
    let filled = data.update(k, hi_byte(c)).update(k + 1, lo_byte(c));
    let x = word_sum(filled);
    assert(x == s + 0xFFFF - f);
    assert(x % 0xFFFF == 0 && x > 0) by (nonlinear_arith)
        requires
            x == s + 0xFFFF - f,
            s % 0xFFFF == f % 0xFFFF,
            f <= 0xFFFF,
            s == 0 <==> f == 0,
    ;
    lemma_fold_carries(x);
    let g = fold_carries(x);
    assert(g == 0xFFFF) by (nonlinear_arith)
        requires
            g % 0xFFFF == 0,
            0 < g <= 0xFFFF,
    ;
}

/// The ICMP case of [`lemma_checksum_slot_verifies`]: the checksum written
/// into the zeroed checksum field (bytes 2 and 3) makes the message verify.
pub proof fn lemma_checksum_field_verifies(data: Seq<u8>)
    requires
        data.len() >= 4,
        data[2] == 0,
        data[3] == 0,
    ensures
        ({
            let c = checksum_of(data) as u16;
            let filled = data.update(2, hi_byte(c)).update(3, lo_byte(c));
            ones_complement_sum(filled) == 0xFFFF && checksum_of(filled) == 0
        }),
{
    lemma_checksum_slot_verifies(data, 2);
}

/// Every Echo Request that [`build_icmp_echo_request`] produces passes
/// checksum verification: its one's-complement sum is 0xFFFF and its checksum is 0.
pub proof fn lemma_echo_request_checksum_verifies(ident: u16, seq: u16)
    ensures
        ones_complement_sum(echo_request(ident, seq)) == 0xFFFF,
        checksum_of(echo_request(ident, seq)) == 0,
{
    lemma_checksum_field_verifies(echo_request_unsummed(ident, seq));
}

/// The layout of our Echo Requests: 40 bytes, type 8, code 0, the identifier
/// and sequence number big-endian at offsets 4 and 6, payload 0, 1, ..., 31.
pub proof fn lemma_echo_request_layout(ident: u16, seq: u16)
    ensures
        echo_request(ident, seq).len() == 40,
        echo_request(ident, seq)[0] == 8,
        echo_request(ident, seq)[1] == 0,
        be16_at(echo_request(ident, seq), 4) == ident,
        be16_at(echo_request(ident, seq), 6) == seq,
        forall|i: int| 0 <= i < 32 ==> #[trigger] echo_request(ident, seq)[8 + i] == i,
{
    lemma_bytes_of_word(ident);
    lemma_bytes_of_word(seq);
}

/// A datagram with a plain 20-byte IPv4 header carrying an Echo Reply is taken
/// as an answer exactly when the reply carries our identifier and sequence number.
pub proof fn lemma_echo_reply_recognised(header: Seq<u8>, reply: Seq<u8>, ident: u16, seq: u16)
    requires
        header.len() == 20,
        ip_header_len(header[0]) == 20,
        reply.len() >= 8,
        reply[0] == 0,
    ensures
        answers_request(header + reply, ident, seq) <==> (be16_at(reply, 4) == ident
            && be16_at(reply, 6) == seq),
{
    let b = header + reply;
    assert(b[0] == header[0]);
    assert(b[20] == reply[0] && b[24] == reply[4] && b[25] == reply[5] && b[26] == reply[6]
        && b[27] == reply[7]);
}

/// The answer a peer sends to one of our Echo Requests (the same message
/// with its type changed to Echo Reply, whatever checksum it then carries)
/// is recognised as an answer to that request.
pub proof fn lemma_reply_to_own_request(header: Seq<u8>, ident: u16, seq: u16, c1: u8, c2: u8)
    requires
        header.len() == 20,
        ip_header_len(header[0]) == 20,
    ensures
        answers_request(
            header + echo_request(ident, seq).update(0, 0u8).update(2, c1).update(3, c2),
            ident,
            seq,
        ),
{
    lemma_echo_request_layout(ident, seq);
    let reply = echo_request(ident, seq).update(0, 0u8).update(2, c1).update(3, c2);
    assert(be16_at(reply, 4) == be16_at(echo_request(ident, seq), 4));
    assert(be16_at(reply, 6) == be16_at(echo_request(ident, seq), 6));
    lemma_echo_reply_recognised(header, reply, ident, seq);
}

/// A Time Exceeded message (after a plain 20-byte header, with an 8-byte ICMP
/// header) that quotes a 20-byte IP header and at least the first 8 bytes of an
/// Echo Request is taken as an answer exactly when the quoted request carries
/// our identifier and sequence number.
pub proof fn lemma_time_exceeded_recognised(
    header: Seq<u8>,
    icmp_head: Seq<u8>,
    quoted_header: Seq<u8>,
    quoted: Seq<u8>,
    ident: u16,
    seq: u16,
)
    requires
        header.len() == 20,
        ip_header_len(header[0]) == 20,
        icmp_head.len() == 8,
        icmp_head[0] == 11,
        quoted_header.len() == 20,
        ip_header_len(quoted_header[0]) == 20,
        quoted.len() >= 8,
        quoted[0] == 8,
    ensures
        answers_request(header + icmp_head + quoted_header + quoted, ident, seq) <==> (be16_at(
            quoted,
            4,
        ) == ident && be16_at(quoted, 6) == seq),
{
    let b = header + icmp_head + quoted_header + quoted;
    assert(b[0] == header[0]);
    assert(b[20] == icmp_head[0]);
    assert(b[28] == quoted_header[0]);
    assert(b[48] == quoted[0] && b[52] == quoted[4] && b[53] == quoted[5] && b[54] == quoted[6]
        && b[55] == quoted[7]);
}

/// A router's Time Exceeded message quoting our own Echo Request (or at least
/// its first 8 bytes, as RFC 792 requires) is recognised as an answer to it.
pub proof fn lemma_time_exceeded_for_own_request(
    header: Seq<u8>,
    icmp_head: Seq<u8>,
    quoted_header: Seq<u8>,
    ident: u16,
    seq: u16,
    n: int,
)
    requires
        header.len() == 20,
        ip_header_len(header[0]) == 20,
        icmp_head.len() == 8,
        icmp_head[0] == 11,
        quoted_header.len() == 20,
        ip_header_len(quoted_header[0]) == 20,
        8 <= n <= 40,
    ensures
        answers_request(header + icmp_head + quoted_header + echo_request(ident, seq).take(n), ident, seq),
{
    lemma_echo_request_layout(ident, seq);
    let q = echo_request(ident, seq).take(n);
    assert(be16_at(q, 4) == ident && be16_at(q, 6) == seq && q[0] == 8);
    lemma_time_exceeded_recognised(header, icmp_head, quoted_header, q, ident, seq);
}

} // verus!
