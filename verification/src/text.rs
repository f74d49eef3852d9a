//! Character-level text handling shared by the parsers and renderers:
//! substring search, trimming, splitting and decimal numbers.

use vstd::prelude::*;

verus! {

broadcast use vstd::string::group_string_axioms;

/// `p` occurs in `s` starting at index `i`.
pub open spec fn occurs_at(s: Seq<char>, p: Seq<char>, i: int) -> bool {
    0 <= i && i + p.len() <= s.len() && s.subrange(i, i + p.len()) == p
}

/// `p` occurs somewhere in `s` (as `str::contains` with a string pattern).
pub open spec fn has_substring(s: Seq<char>, p: Seq<char>) -> bool {
    exists|i: int| occurs_at(s, p, i)
}

/// The characters of `s`, in order.
pub fn chars_of(s: &str) -> (v: Vec<char>)
    ensures
        v@ == s@,
{
    let mut v: Vec<char> = Vec::new();
    for c in it: s.chars()
        invariant
            v@ == it.seq().take(it.index() as int),
    {
        v.push(c);
    }
    assert(v@ =~= s@);
    v
}

/// Appends the characters of `s` to `out`.
pub(crate) fn push_str(out: &mut Vec<char>, s: &str)
    ensures
        final(out)@ == old(out)@ + s@,
{
    let cs = chars_of(s);
    let mut i: usize = 0;
    while i < cs.len()
        invariant
            i <= cs@.len(),
            cs@ == s@,
            out@ == old(out)@ + cs@.take(i as int),
        decreases cs@.len() - i,
    {
        out.push(cs[i]);
        i = i + 1;
        assert(out@ =~= old(out)@ + cs@.take(i as int));
    }
    assert(cs@.take(i as int) =~= cs@);
}

/// The index of the first `c` in `s`, or `s.len()` when `s` has none.
pub open spec fn first_index_of(s: Seq<char>, c: char) -> int
    decreases s.len(),
{
    if s.len() == 0 {
        0
    } else if s[0] == c {
        0
    } else {
        1 + first_index_of(s.drop_first(), c)
    }
}

/// [`first_index_of`] is the first position holding `c`, and `s.len()` exactly when there is none.
pub proof fn lemma_first_index_of(s: Seq<char>, c: char)
    ensures
        0 <= first_index_of(s, c) <= s.len(),
        forall|j: int| 0 <= j < first_index_of(s, c) ==> s[j] != c,
        first_index_of(s, c) < s.len() ==> s[first_index_of(s, c)] == c,
    decreases s.len(),
{
    if s.len() > 0 && s[0] != c {
        lemma_first_index_of(s.drop_first(), c);
        assert forall|j: int| 0 <= j < first_index_of(s, c) implies s[j] != c by {
            if j > 0 {
                assert(s[j] == s.drop_first()[j - 1]);
            }
        }
    }
}

/// A position `k` before which `s` has no `c`, and which holds `c` or is the
/// end of `s`, is [`first_index_of`].
pub proof fn lemma_first_index_of_unique(s: Seq<char>, c: char, k: int)
    requires
        0 <= k <= s.len(),
        forall|j: int| 0 <= j < k ==> s[j] != c,
        k == s.len() || s[k] == c,
    ensures
        first_index_of(s, c) == k,
    decreases s.len(),
{
    if s.len() > 0 && k > 0 {
        assert(s[0] != c);
        assert forall|j: int| 0 <= j < k - 1 implies s.drop_first()[j] != c by {
            assert(s.drop_first()[j] == s[j + 1]);
        }
        lemma_first_index_of_unique(s.drop_first(), c, k - 1);
    }
}

/// The index of the first `c` in `s` (or `s.len()`).
pub fn find_char(s: &[char], c: char) -> (k: usize)
    ensures
        k == first_index_of(s@, c),
{
    let mut i: usize = 0;
    while i < s.len() && s[i] != c
        invariant
            i <= s@.len(),
            forall|j: int| 0 <= j < i ==> s@[j] != c,
        decreases s@.len() - i,
    {
        i = i + 1;
    }
    proof {
        lemma_first_index_of_unique(s@, c, i as int);
    }
    i
}

/// `p` occurs in `s` at index `i` (checked character by character).
fn matches_at(s: &[char], p: &[char], i: usize) -> (r: bool)
    requires
        i + p@.len() <= s@.len(),
    ensures
        r == occurs_at(s@, p@, i as int),
{
    let n = s.len();
    let mut j: usize = 0;
    while j < p.len()
        invariant
            n == s@.len(),
            j <= p@.len(),
            i + p@.len() <= s@.len(),
            forall|k: int| 0 <= k < j ==> s@[i + k] == p@[k],
        decreases p@.len() - j,
    {
        assert(i + j < s@.len());
        if s[i + j] != p[j] {
            assert(s@.subrange(i as int, i + p@.len())[j as int] != p@[j as int]);
            return false;
        }
        j = j + 1;
    }
    assert(s@.subrange(i as int, i + p@.len()) =~= p@);
    true
}

/// Whether `p` occurs in `s`.
pub fn contains(s: &[char], p: &[char]) -> (r: bool)
    ensures
        r == has_substring(s@, p@),
{
    if p.len() > s.len() {
        return false;
    }
    let mut i: usize = 0;
    let last = s.len() - p.len();
    loop
        invariant
            p@.len() <= s@.len(),
            last == s@.len() - p@.len(),
            i <= last,
            forall|k: int| 0 <= k < i ==> !occurs_at(s@, p@, k),
        decreases last - i,
    {
        if matches_at(s, p, i) {
            return true;
        }
        if i == last {
            assert forall|k: int| !occurs_at(s@, p@, k) by {
                if 0 <= k <= last {
                    assert(k < i || k == i);
                }
            }
            return false;
        }
        i = i + 1;
    }
}

/// Whether `a` and `b` hold the same characters.
pub fn same_chars(a: &[char], b: &[char]) -> (r: bool)
    ensures
        r == (a@ == b@),
{
    if a.len() != b.len() {
        return false;
    }
    let r = matches_at(a, b, 0);
    assert(a@.subrange(0, a@.len() as int) =~= a@);
    r
}

/// The characters `s[lo..hi]` as a vector of their own.
pub fn sub_chars(s: &[char], lo: usize, hi: usize) -> (v: Vec<char>)
    requires
        lo <= hi <= s@.len(),
    ensures
        v@ == s@.subrange(lo as int, hi as int),
{
    let mut v: Vec<char> = Vec::new();
    let mut i = lo;
    while i < hi
        invariant
            lo <= i <= hi <= s@.len(),
            v@ == s@.subrange(lo as int, i as int),
        decreases hi - i,
    {
        v.push(s[i]);
        i = i + 1;
        assert(v@ =~= s@.subrange(lo as int, i as int));
    }
    v
}

/// Collects characters into a `String` (std's `FromIterator<char>` for `String`),
/// which holds exactly those characters in order.
#[verifier::external_body]
pub(crate) fn string_of(chars: &[char]) -> (s: String)
    ensures
        s@ == chars@,
{
    chars.iter().collect()
}

/// The Unicode lowercase mapping of `s`, as `str::to_lowercase` computes it.
pub uninterp spec fn lowercase_of(s: Seq<char>) -> Seq<char>;

/// `str::to_lowercase`: the lowercase form of `s` under the Unicode `Lowercase`
/// mapping. Its result depends on `s` alone, and is named [`lowercase_of`];
/// the Unicode tables themselves are not restated here.
#[verifier::external_body]
pub(crate) fn to_lowercase(s: &str) -> (r: String)
    ensures
        r@ == lowercase_of(s@),
{
    s.to_lowercase()
}

/// `line` without one trailing carriage return.
pub open spec fn strip_cr(line: Seq<char>) -> Seq<char> {
    if line.len() > 0 && line.last() == '\r' {
        line.drop_last()
    } else {
        line
    }
}

/// The lines of `s` as `str::lines` yields them: split at `'\n'`, a `'\r'`
/// just before a `'\n'` dropped, and no empty line after a final `'\n'`.
pub open spec fn text_lines(s: Seq<char>) -> Seq<Seq<char>>
    decreases s.len(),
{
    if s.len() == 0 {
        seq![]
    } else {
        let k = first_index_of(s, '\n');
        if k >= s.len() || k < 0 {
            seq![s]
        } else {
            seq![strip_cr(s.take(k))] + text_lines(s.skip(k + 1))
        }
    }
}

/// At most `n` pieces of `s` split at `c`, the last piece holding the rest
/// of `s` (as `str::splitn(n, c)` yields them).
pub open spec fn split_n(s: Seq<char>, n: nat, c: char) -> Seq<Seq<char>>
    decreases n,
{
    if n == 0 {
        seq![]
    } else if n == 1 {
        seq![s]
    } else {
        let k = first_index_of(s, c);
        if k >= s.len() || k < 0 {
            seq![s]
        } else {
            seq![s.take(k)] + split_n(s.skip(k + 1), (n - 1) as nat, c)
        }
    }
}

/// The views of a vector of character vectors.
pub open spec fn views(v: Seq<Vec<char>>) -> Seq<Seq<char>> {
    v.map_values(|x: Vec<char>| x@)
}

/// Splits `s` into its lines (see [`text_lines`]).
pub fn lines(s: &[char]) -> (r: Vec<Vec<char>>)
    ensures
        views(r@) == text_lines(s@),
{
    let mut r: Vec<Vec<char>> = Vec::new();
    let n = s.len();
    let mut start: usize = 0;
    assert(s@.skip(0) =~= s@);
    while start < n
        invariant
            n == s@.len(),
            start <= n,
            views(r@) + text_lines(s@.skip(start as int)) == text_lines(s@),
        decreases n - start,
    {
        let rest = sub_chars(s, start, n);
        assert(rest@ == s@.skip(start as int));
        let k = find_char(&rest, '\n');
        proof {
            lemma_first_index_of(rest@, '\n');
        }
        if k == rest.len() {
            let ghost before = r@;
            r.push(rest);
            proof {
                assert(views(r@) =~= views(before) + seq![s@.skip(start as int)]);
                assert(s@.skip(n as int) =~= Seq::<char>::empty());
            }
            start = n;
        } else {
            let mut end = k;
            if k > 0 && rest[k - 1] == '\r' {
                end = k - 1;
            }
            let line = sub_chars(&rest, 0, end);
            proof {
                assert(line@ =~= strip_cr(rest@.take(k as int)));
                assert(rest@.skip(k + 1) =~= s@.skip(start + k + 1));
            }
            let ghost before = r@;
            r.push(line);
            assert(views(r@) =~= views(before) + seq![line@]);
            start = start + k + 1;
        }
    }
    assert(s@.skip(start as int) =~= Seq::<char>::empty());
    assert(views(r@) =~= text_lines(s@));
    r
}

/// All pieces of `s` split at `c` (as `str::split(c)` yields them).
pub open spec fn split_all(s: Seq<char>, c: char) -> Seq<Seq<char>>
    decreases s.len(),
{
    let k = first_index_of(s, c);
    if k >= s.len() || k < 0 {
        seq![s]
    } else {
        seq![s.take(k)] + split_all(s.skip(k + 1), c)
    }
}

/// Splits `s` at every `c` (see [`split_all`]).
pub fn split_every(s: &[char], c: char) -> (r: Vec<Vec<char>>)
    ensures
        views(r@) == split_all(s@, c),
{
    let mut r: Vec<Vec<char>> = Vec::new();
    let len = s.len();
    let mut start: usize = 0;
    assert(s@.skip(0) =~= s@);
    loop
        invariant
            len == s@.len(),
            start <= len,
            views(r@) + split_all(s@.skip(start as int), c) == split_all(s@, c),
        decreases len - start,
    {
        let rest = sub_chars(s, start, len);
        assert(rest@ == s@.skip(start as int));
        let k = find_char(&rest, c);
        proof {
            lemma_first_index_of(rest@, c);
        }
        if k == rest.len() {
            let ghost before = r@;
            r.push(rest);
            assert(views(r@) =~= views(before) + seq![rest@]);
            return r;
        }
        let piece = sub_chars(&rest, 0, k);
        proof {
            assert(piece@ =~= rest@.take(k as int));
            assert(rest@.skip(k + 1) =~= s@.skip(start + k + 1));
        }
        let ghost before = r@;
        r.push(piece);
        assert(views(r@) =~= views(before) + seq![piece@]);
        start = start + k + 1;
    }
}

/// Splits `s` at `c` into at most `n` pieces (see [`split_n`]).
pub fn split_at_most(s: &[char], n: usize, c: char) -> (r: Vec<Vec<char>>)
    ensures
        views(r@) == split_n(s@, n as nat, c),
{
    let mut r: Vec<Vec<char>> = Vec::new();
    if n == 0 {
        return r;
    }
    let len = s.len();
    let mut start: usize = 0;
    let mut left: usize = n;
    assert(s@.skip(0) =~= s@);
    loop
        invariant
            len == s@.len(),
            start <= len,
            1 <= left <= n,
            views(r@) + split_n(s@.skip(start as int), left as nat, c) == split_n(s@, n as nat, c),
        decreases left,
    {
        let rest = sub_chars(s, start, len);
        assert(rest@ == s@.skip(start as int));
        if left == 1 {
            let ghost before = r@;
            r.push(rest);
            assert(views(r@) =~= views(before) + seq![rest@]);
            return r;
        }
        let k = find_char(&rest, c);
        proof {
            lemma_first_index_of(rest@, c);
        }
        if k == rest.len() {
            let ghost before = r@;
            r.push(rest);
            assert(views(r@) =~= views(before) + seq![rest@]);
            return r;
        }
        let piece = sub_chars(&rest, 0, k);
        proof {
            assert(piece@ =~= rest@.take(k as int));
            assert(rest@.skip(k + 1) =~= s@.skip(start + k + 1));
        }
        let ghost before = r@;
        r.push(piece);
        assert(views(r@) =~= views(before) + seq![piece@]);
        start = start + k + 1;
        left = left - 1;
    }
}

/// The Unicode `White_Space` characters (what `char::is_whitespace` accepts).
pub open spec fn is_white_space(c: char) -> bool {
    ||| '\u{9}' <= c <= '\u{D}'
    ||| c == ' '
    ||| c == '\u{85}'
    ||| c == '\u{A0}'
    ||| c == '\u{1680}'
    ||| '\u{2000}' <= c <= '\u{200A}'
    ||| c == '\u{2028}'
    ||| c == '\u{2029}'
    ||| c == '\u{202F}'
    ||| c == '\u{205F}'
    ||| c == '\u{3000}'
}

/// Whether `c` is a Unicode `White_Space` character.
pub fn white_space(c: char) -> (r: bool)
    ensures
        r == is_white_space(c),
{
    ('\u{9}' <= c && c <= '\u{D}') || c == ' ' || c == '\u{85}' || c == '\u{A0}' || c == '\u{1680}'
        || ('\u{2000}' <= c && c <= '\u{200A}') || c == '\u{2028}' || c == '\u{2029}' || c
        == '\u{202F}' || c == '\u{205F}' || c == '\u{3000}'
}

/// `s` without its leading white space.
pub open spec fn trim_start(s: Seq<char>) -> Seq<char>
    decreases s.len(),
{
    if s.len() > 0 && is_white_space(s[0]) {
        trim_start(s.drop_first())
    } else {
        s
    }
}

/// `s` without its trailing white space.
pub open spec fn trim_end(s: Seq<char>) -> Seq<char>
    decreases s.len(),
{
    if s.len() > 0 && is_white_space(s.last()) {
        trim_end(s.drop_last())
    } else {
        s
    }
}

/// `s` without leading and trailing white space (as `str::trim`).
pub open spec fn trimmed(s: Seq<char>) -> Seq<char> {
    trim_end(trim_start(s))
}

/// `trim_start` drops exactly the leading white space before position `a`.
pub proof fn lemma_trim_start_at(s: Seq<char>, a: int)
    requires
        0 <= a <= s.len(),
        forall|j: int| 0 <= j < a ==> is_white_space(s[j]),
        a == s.len() || !is_white_space(s[a]),
    ensures
        trim_start(s) == s.skip(a),
    decreases a,
{
    if a == 0 {
        assert(s.skip(0) =~= s);
    } else {
        assert forall|j: int| 0 <= j < a - 1 implies is_white_space(s.drop_first()[j]) by {
            assert(s.drop_first()[j] == s[j + 1]);
        }
        lemma_trim_start_at(s.drop_first(), a - 1);
        assert(s.drop_first().skip(a - 1) =~= s.skip(a));
    }
}

proof fn lemma_trim_end_at(s: Seq<char>, b: int)
    requires
        0 <= b <= s.len(),
        forall|j: int| b <= j < s.len() ==> is_white_space(s[j]),
        b == 0 || !is_white_space(s[b - 1]),
    ensures
        trim_end(s) == s.take(b),
    decreases s.len() - b,
{
    if b == s.len() {
        assert(s.take(b) =~= s);
    } else {
        assert forall|j: int| b <= j < s.len() - 1 implies is_white_space(s.drop_last()[j]) by {
            assert(s.drop_last()[j] == s[j]);
        }
        lemma_trim_end_at(s.drop_last(), b);
        assert(s.drop_last().take(b) =~= s.take(b));
    }
}

/// `s` without leading and trailing white space (see [`trimmed`]).
pub fn trim(s: &[char]) -> (r: Vec<char>)
    ensures
        r@ == trimmed(s@),
{
    let n = s.len();
    let mut a: usize = 0;
    while a < n && white_space(s[a])
        invariant
            n == s@.len(),
            a <= n,
            forall|j: int| 0 <= j < a ==> is_white_space(s@[j]),
        decreases n - a,
    {
        a = a + 1;
    }
    proof {
        lemma_trim_start_at(s@, a as int);
    }
    let ghost t = s@.skip(a as int);
    let mut b: usize = n;
    while b > a && white_space(s[b - 1])
        invariant
            n == s@.len(),
            a <= b <= n,
            forall|j: int| b <= j < n ==> is_white_space(s@[j]),
        decreases b,
    {
        b = b - 1;
    }
    proof {
        assert forall|j: int| b - a <= j < t.len() implies is_white_space(t[j]) by {
            assert(t[j] == s@[a + j]);
        }
        if b > a {
            assert(t[b - a - 1] == s@[b - 1]);
        }
        lemma_trim_end_at(t, b - a);
        assert(t.take(b - a) =~= s@.subrange(a as int, b as int));
    }
    sub_chars(s, a, b)
}

/// Whether `c` is an ASCII decimal digit.
pub open spec fn is_digit(c: char) -> bool {
    '0' <= c <= '9'
}

/// The value of the decimal digit `c`.
pub open spec fn digit_value(c: char) -> nat {
    ((c as int) - ('0' as int)) as nat
}

/// The value of the decimal numeral `s` (most significant digit first).
pub open spec fn decimal_value(s: Seq<char>) -> nat
    decreases s.len(),
{
    if s.len() == 0 {
        0
    } else {
        decimal_value(s.drop_last()) * 10 + digit_value(s.last())
    }
}

/// `s` without one leading `'+'`.
pub open spec fn unsigned_digits(s: Seq<char>) -> Seq<char> {
    if s.len() > 0 && s[0] == '+' {
        s.drop_first()
    } else {
        s
    }
}

/// Every character of `s` is a decimal digit.
pub open spec fn all_digits(s: Seq<char>) -> bool {
    forall|i: int| 0 <= i < s.len() ==> is_digit(#[trigger] s[i])
}

/// What `str::parse::<u32>` yields: an optional `'+'` followed by one or more
/// decimal digits whose value fits in a `u32`; `None` for anything else.
pub open spec fn parsed_u32(s: Seq<char>) -> Option<u32> {
    let digits = unsigned_digits(s);
    if digits.len() > 0 && all_digits(digits) && decimal_value(digits) <= u32::MAX {
        Some(decimal_value(digits) as u32)
    } else {
        None
    }
}

proof fn lemma_decimal_value_grows(s: Seq<char>, i: int, j: int)
    requires
        0 <= i <= j <= s.len(),
    ensures
        decimal_value(s.take(i)) <= decimal_value(s.take(j)),
    decreases j - i,
{
    if i < j {
        lemma_decimal_value_grows(s, i, j - 1);
        assert(s.take(j).drop_last() =~= s.take(j - 1));
    }
}

/// The value of a decimal digit character.
fn digit_of(c: char) -> (d: u32)
    requires
        is_digit(c),
    ensures
        d == digit_value(c),
        d <= 9,
{
    (c as u32) - ('0' as u32)
}

/// Parses `s` as `str::parse::<u32>` does (see [`parsed_u32`]).
pub fn parse_u32(s: &[char]) -> (r: Option<u32>)
    ensures
        r == parsed_u32(s@),
{
    let n = s.len();
    let mut i: usize = 0;
    if n > 0 && s[0] == '+' {
        i = 1;
    }
    let ghost digits = unsigned_digits(s@);
    let start = i;
    assert(digits =~= s@.skip(start as int));
    if start == n {
        return None;
    }
    let mut acc: u32 = 0;
    while i < n
        invariant
            n == s@.len(),
            start <= i <= n,
            digits == s@.skip(start as int),
            digits == unsigned_digits(s@),
            acc == decimal_value(digits.take(i - start)),
            forall|k: int| 0 <= k < i - start ==> is_digit(#[trigger] digits[k]),
        decreases n - i,
    {
        let c = s[i];
        if !('0' <= c && c <= '9') {
            assert(!is_digit(digits[i - start]));
            assert(!all_digits(digits));
            return None;
        }
        let d = digit_of(c);
        proof {
            assert(digits.take(i - start + 1).drop_last() =~= digits.take(i - start));
            assert(digits.take(i - start + 1).last() == c);
        }
        match acc.checked_mul(10) {
            Some(m) => match m.checked_add(d) {
                Some(v) => {
                    acc = v;
                },
                None => {
                    proof {
                        assert(decimal_value(digits.take(i - start + 1)) == m + d);
                        lemma_decimal_value_grows(digits, i - start + 1, digits.len() as int);
                        assert(digits.take(digits.len() as int) =~= digits);
                    }
                    return None;
                },
            },
            None => {
                proof {
                    assert(decimal_value(digits.take(i - start + 1)) == acc * 10 + d);
                    lemma_decimal_value_grows(digits, i - start + 1, digits.len() as int);
                    assert(digits.take(digits.len() as int) =~= digits);
                }
                return None;
            },
        }
        i = i + 1;
    }
    assert(digits.take(n - start) =~= digits);
    Some(acc)
}

/// The character of the decimal digit `d`.
pub open spec fn digit_char(d: nat) -> char {
    (('0' as nat) + d) as char
}

/// The decimal numeral of `n`, without leading zeros (as `u32`'s `Display` writes it).
pub open spec fn decimal_digits(n: nat) -> Seq<char>
    decreases n,
{
    if n < 10 {
        seq![digit_char(n)]
    } else {
        decimal_digits(n / 10).push(digit_char(n % 10))
    }
}

fn digit_char_of(d: u32) -> (c: char)
    requires
        d <= 9,
    ensures
        c == digit_char(d as nat),
{
    if d == 0 { '0' } else if d == 1 { '1' } else if d == 2 { '2' } else if d == 3 { '3' } else if d
        == 4 { '4' } else if d == 5 { '5' } else if d == 6 { '6' } else if d == 7 { '7' } else if d
        == 8 { '8' } else { '9' }
}

/// Appends the decimal numeral of `n` to `out`.
pub(crate) fn push_decimal(out: &mut Vec<char>, n: u32)
    ensures
        final(out)@ == old(out)@ + decimal_digits(n as nat),
    decreases n,
{
    if n >= 10 {
        push_decimal(out, n / 10);
    }
    out.push(digit_char_of(n % 10));
    proof {
        if n < 10 {
            assert(n % 10 == n);
        }
    }
}

/// The decimal numeral of `n` (see [`decimal_digits`]).
pub fn decimal_string(n: u32) -> (s: String)
    ensures
        s@ == decimal_digits(n as nat),
{
    let mut v: Vec<char> = Vec::new();
    push_decimal(&mut v, n);
    assert(v@ =~= decimal_digits(n as nat));
    string_of(&v)
}

/// The index of the first occurrence of `p` in `s`, or `s.len()` when there is none.
pub open spec fn first_occurrence(s: Seq<char>, p: Seq<char>) -> int
    decreases s.len(),
{
    if occurs_at(s, p, 0) || s.len() == 0 {
        0
    } else {
        1 + first_occurrence(s.drop_first(), p)
    }
}

proof fn lemma_occurs_shift(s: Seq<char>, p: Seq<char>, j: int)
    requires
        s.len() > 0,
        0 <= j,
    ensures
        occurs_at(s.drop_first(), p, j) == occurs_at(s, p, j + 1),
{
    if j + 1 + p.len() <= s.len() {
        assert(s.drop_first().subrange(j, j + p.len()) =~= s.subrange(j + 1, j + 1 + p.len()));
    }
}

/// A position `k` before which `p` does not occur, and at which it occurs or
/// which is the end of `s`, is [`first_occurrence`].
pub proof fn lemma_first_occurrence_unique(s: Seq<char>, p: Seq<char>, k: int)
    requires
        0 <= k <= s.len(),
        forall|j: int| 0 <= j < k ==> !occurs_at(s, p, j),
        k == s.len() || occurs_at(s, p, k),
    ensures
        first_occurrence(s, p) == k,
    decreases s.len(),
{
    if k == 0 {
        if s.len() > 0 {
            assert(occurs_at(s, p, 0));
        }
    } else {
        assert(!occurs_at(s, p, 0));
        assert forall|j: int| 0 <= j < k - 1 implies !occurs_at(s.drop_first(), p, j) by {
            lemma_occurs_shift(s, p, j);
        }
        if k < s.len() {
            lemma_occurs_shift(s, p, k - 1);
        }
        lemma_first_occurrence_unique(s.drop_first(), p, k - 1);
    }
}

/// [`first_occurrence`] lies within `s`, and `p` occurs there unless it is `s.len()`.
pub proof fn lemma_first_occurrence(s: Seq<char>, p: Seq<char>)
    ensures
        0 <= first_occurrence(s, p) <= s.len(),
        first_occurrence(s, p) < s.len() ==> occurs_at(s, p, first_occurrence(s, p)),
        forall|j: int| 0 <= j < first_occurrence(s, p) ==> !occurs_at(s, p, j),
    decreases s.len(),
{
    if !(occurs_at(s, p, 0) || s.len() == 0) {
        lemma_first_occurrence(s.drop_first(), p);
        let k = first_occurrence(s.drop_first(), p);
        if k < s.len() - 1 {
            lemma_occurs_shift(s, p, k);
        }
        assert forall|j: int| 0 <= j < first_occurrence(s, p) implies !occurs_at(s, p, j) by {
            if j > 0 {
                lemma_occurs_shift(s, p, j - 1);
            }
        }
    }
}

/// The index of the first occurrence of `p` in `s` (or `s.len()`).
pub fn find_pattern(s: &[char], p: &[char]) -> (k: usize)
    ensures
        k == first_occurrence(s@, p@),
{
    let n = s.len();
    let mut i: usize = 0;
    while i < n
        invariant
            n == s@.len(),
            i <= n,
            forall|j: int| 0 <= j < i ==> !occurs_at(s@, p@, j),
        decreases n - i,
    {
        if p.len() <= n - i && matches_at(s, p, i) {
            proof {
                lemma_first_occurrence_unique(s@, p@, i as int);
            }
            return i;
        }
        i = i + 1;
    }
    proof {
        lemma_first_occurrence_unique(s@, p@, n as int);
    }
    n
}

/// The index of the last `c` in `s`, or -1 when `s` has none.
pub open spec fn last_index_of(s: Seq<char>, c: char) -> int
    decreases s.len(),
{
    if s.len() == 0 {
        -1
    } else if s.last() == c {
        s.len() - 1
    } else {
        last_index_of(s.drop_last(), c)
    }
}

/// A position after which `c` does not occur, and at which it occurs or which is -1, is [`last_index_of`].
pub proof fn lemma_last_index_of_unique(s: Seq<char>, c: char, k: int)
    requires
        -1 <= k < s.len(),
        forall|j: int| k < j < s.len() ==> s[j] != c,
        k == -1 || s[k] == c,
    ensures
        last_index_of(s, c) == k,
    decreases s.len(),
{
    if s.len() > 0 && k < s.len() - 1 {
        assert(s.last() != c);
        assert forall|j: int| k < j < s.len() - 1 implies s.drop_last()[j] != c by {
            assert(s.drop_last()[j] == s[j]);
        }
        lemma_last_index_of_unique(s.drop_last(), c, k);
    }
}

/// The index of the last `c` in `s`, if any.
pub fn rfind_char(s: &[char], c: char) -> (k: Option<usize>)
    ensures
        match k {
            Some(i) => last_index_of(s@, c) == i && i < s@.len() && s@[i as int] == c,
            None => last_index_of(s@, c) == -1,
        },
{
    let mut i: usize = s.len();
    while i > 0 && s[i - 1] != c
        invariant
            i <= s@.len(),
            forall|j: int| i <= j < s@.len() ==> s@[j] != c,
        decreases i,
    {
        i = i - 1;
    }
    if i == 0 {
        proof {
            lemma_last_index_of_unique(s@, c, -1);
        }
        None
    } else {
        proof {
            lemma_last_index_of_unique(s@, c, i - 1);
        }
        Some(i - 1)
    }
}

/// Whether `s` starts with `p`.
pub fn starts_with(s: &[char], p: &[char]) -> (r: bool)
    ensures
        r == occurs_at(s@, p@, 0),
{
    p.len() <= s.len() && matches_at(s, p, 0)
}

/// What `str::parse::<u16>` yields: as for `u32`, with values above 65535 refused.
pub open spec fn parsed_u16(s: Seq<char>) -> Option<u16> {
    match parsed_u32(s) {
        Some(v) => if v <= 65535 {
            Some(v as u16)
        } else {
            None
        },
        None => None,
    }
}

/// Parses `s` as `str::parse::<u16>` does (see [`parsed_u16`]).
pub fn parse_u16(s: &[char]) -> (r: Option<u16>)
    ensures
        r == parsed_u16(s@),
{
    match parse_u32(s) {
        Some(v) => if v <= 65535 {
            Some(v as u16)
        } else {
            None
        },
        None => None,
    }
}

/// A decimal numeral is a non-empty run of digits whose value is the number.
pub proof fn lemma_decimal_digits_shape(n: nat)
    ensures
        decimal_digits(n).len() > 0,
        all_digits(decimal_digits(n)),
        decimal_value(decimal_digits(n)) == n,
    decreases n,
{
    if n < 10 {
        let d = digit_char(n);
        assert(d as int == '0' as int + n);
        assert(decimal_digits(n).drop_last() =~= Seq::<char>::empty());
        assert(decimal_value(Seq::<char>::empty()) == 0);
    } else {
        lemma_decimal_digits_shape(n / 10);
        let d = digit_char(n % 10);
        assert(d as int == '0' as int + n % 10);
        let s = decimal_digits(n);
        assert(s.drop_last() =~= decimal_digits(n / 10));
        assert forall|i: int| 0 <= i < s.len() implies is_digit(#[trigger] s[i]) by {
            if i < s.len() - 1 {
                assert(s[i] == decimal_digits(n / 10)[i]);
            }
        }
    }
}

/// Printing a number in decimal and parsing it back gives the number again.
pub proof fn lemma_decimal_parse_roundtrip(n: u32)
    ensures
        parsed_u32(decimal_digits(n as nat)) == Some(n),
{
    lemma_decimal_digits_shape(n as nat);
    let s = decimal_digits(n as nat);
    assert(is_digit(s[0]));
    assert(unsigned_digits(s) == s);
}

/// `fields` joined with the separator `c`.
pub open spec fn joined_with(fields: Seq<Seq<char>>, c: char) -> Seq<char>
    decreases fields.len(),
{
    if fields.len() == 0 {
        seq![]
    } else if fields.len() == 1 {
        fields[0]
    } else {
        fields[0] + seq![c] + joined_with(fields.drop_first(), c)
    }
}

/// `s` does not contain `c`.
pub open spec fn free_of(s: Seq<char>, c: char) -> bool {
    forall|i: int| 0 <= i < s.len() ==> s[i] != c
}

/// Splitting fields that were joined with a separator none of them contains
/// gives the fields back.
pub proof fn lemma_split_joined(fields: Seq<Seq<char>>, c: char)
    requires
        fields.len() >= 1,
        forall|i: int| 0 <= i < fields.len() ==> free_of(#[trigger] fields[i], c),
    ensures
        split_n(joined_with(fields, c), fields.len() as nat, c) == fields,
    decreases fields.len(),
{
    if fields.len() == 1 {
        assert(split_n(joined_with(fields, c), 1, c) =~= fields);
    } else {
        let f0 = fields[0];
        let rest = fields.drop_first();
        let s = joined_with(fields, c);
        assert(s == f0 + seq![c] + joined_with(rest, c));
        assert(free_of(f0, c));
        assert forall|j: int| 0 <= j < f0.len() implies s[j] != c by {
            assert(s[j] == f0[j]);
        }
        assert(s[f0.len() as int] == c);
        lemma_first_index_of_unique(s, c, f0.len() as int);
        assert(s.take(f0.len() as int) =~= f0);
        assert(s.skip(f0.len() as int + 1) =~= joined_with(rest, c));
        assert forall|i: int| 0 <= i < rest.len() implies free_of(#[trigger] rest[i], c) by {
            assert(rest[i] == fields[i + 1]);
        }
        lemma_split_joined(rest, c);
        assert(split_n(s, fields.len() as nat, c) =~= seq![f0] + rest);
        assert(seq![f0] + rest =~= fields);
    }
}

/// Joining fields that are free of `d` with a separator other than `d` gives a text free of `d`.
pub proof fn lemma_joined_free_of(fields: Seq<Seq<char>>, c: char, d: char)
    requires
        c != d,
        forall|i: int| 0 <= i < fields.len() ==> free_of(#[trigger] fields[i], d),
    ensures
        free_of(joined_with(fields, c), d),
        fields.len() >= 2 ==> joined_with(fields, c).len() > 0,
    decreases fields.len(),
{
    if fields.len() >= 2 {
        let rest = fields.drop_first();
        assert forall|i: int| 0 <= i < rest.len() implies free_of(#[trigger] rest[i], d) by {
            assert(rest[i] == fields[i + 1]);
        }
        lemma_joined_free_of(rest, c, d);
        let f0 = fields[0];
        let j = f0 + seq![c] + joined_with(rest, c);
        assert(free_of(f0, d));
        assert forall|i: int| 0 <= i < j.len() implies j[i] != d by {
            if i < f0.len() {
                assert(j[i] == f0[i]);
            } else if i > f0.len() {
                assert(j[i] == joined_with(rest, c)[i - f0.len() - 1]);
            }
        }
    } else if fields.len() == 1 {
        assert(free_of(fields[0], d));
    }
}

/// A text without line breaks and not ending in a carriage return is a single line.
pub proof fn lemma_single_line(s: Seq<char>)
    requires
        s.len() > 0,
        free_of(s, '\n'),
    ensures
        text_lines(s) == seq![s],
{
    lemma_first_index_of_unique(s, '\n', s.len() as int);
}

/// A decimal numeral has no surrounding white space.
pub proof fn lemma_decimal_trimmed(n: u32)
    ensures
        trimmed(decimal_digits(n as nat)) == decimal_digits(n as nat),
{
    lemma_decimal_digits_shape(n as nat);
    let s = decimal_digits(n as nat);
    assert(is_digit(s[0]) && is_digit(s.last()));
    assert(trim_start(s) == s);
    assert(trim_end(s) == s);
}


/// Splitting at every `c` a text of fields joined with `c`, none of which
/// contains `c`, gives the fields back.
pub proof fn lemma_split_all_joined(fields: Seq<Seq<char>>, c: char)
    requires
        fields.len() >= 1,
        forall|i: int| 0 <= i < fields.len() ==> free_of(#[trigger] fields[i], c),
    ensures
        split_all(joined_with(fields, c), c) == fields,
    decreases fields.len(),
{
    let f0 = fields[0];
    assert(free_of(f0, c));
    if fields.len() == 1 {
        lemma_first_index_of_unique(f0, c, f0.len() as int);
        assert(split_all(f0, c) =~= fields);
    } else {
        let rest = fields.drop_first();
        let s = joined_with(fields, c);
        assert(s == f0 + seq![c] + joined_with(rest, c));
        assert forall|j: int| 0 <= j < f0.len() implies s[j] != c by {
            assert(s[j] == f0[j]);
        }
        assert(s[f0.len() as int] == c);
        lemma_first_index_of_unique(s, c, f0.len() as int);
        assert(s.take(f0.len() as int) =~= f0);
        assert(s.skip(f0.len() as int + 1) =~= joined_with(rest, c));
        assert forall|i: int| 0 <= i < rest.len() implies free_of(#[trigger] rest[i], c) by {
            assert(rest[i] == fields[i + 1]);
        }
        lemma_split_all_joined(rest, c);
        assert(split_all(s, c) =~= seq![f0] + rest);
        assert(seq![f0] + rest =~= fields);
    }
}

/// A decimal numeral holds only digits, so neither a `'-'` nor a `','`.
pub proof fn lemma_decimal_free_of(n: u32, c: char)
    requires
        !is_digit(c),
    ensures
        free_of(decimal_digits(n as nat), c),
{
    lemma_decimal_digits_shape(n as nat);
    let s = decimal_digits(n as nat);
    assert forall|i: int| 0 <= i < s.len() implies s[i] != c by {
        assert(is_digit(s[i]));
    }
}

} // verus!
