//! Table rendering aligned by display width, so that wide (CJK) and
//! narrow characters line up in the same columns.

use unicode_width::UnicodeWidthChar;
use vstd::prelude::*;
use crate::text::{chars_of, push_str, string_of};

verus! {

/// The display width that unicode-width assigns to the character `c`
/// (`None` for control characters).
pub uninterp spec fn char_width(c: char) -> Option<usize>;

/// `UnicodeWidthChar::width` of unicode-width: the number of terminal columns
/// `c` occupies, `None` for a control character. Its source returns `Some(1)`
/// for U+0020..U+007E, `None` for U+0000..U+001F and U+007F..U+009F, and
/// otherwise a table value of at most 3, which is 2 for every CJK Unified
/// Ideograph U+4E00..U+9FFF; the rest of the table is not restated.
#[verifier::external_body]
fn width_of_char(c: char) -> (w: Option<usize>)
    ensures
        w == char_width(c),
        (' ' <= c && c <= '~') ==> w == Some(1usize),
        (c < ' ' || ('\u{7F}' <= c && c < '\u{A0}')) ==> w is None,
        w matches Some(n) ==> n <= 3,
        ('\u{4E00}' <= c && c <= '\u{9FFF}') ==> w == Some(2usize),
{
    c.width()
}

/// The columns a single character occupies in a table cell (control characters occupy none).
pub open spec fn columns_of(c: char) -> nat {
    match char_width(c) {
        Some(w) => w as nat,
        None => 0,
    }
}

/// The display width of `s`: the sum of its characters' widths.
pub open spec fn text_width(s: Seq<char>) -> nat
    decreases s.len(),
{
    if s.len() == 0 {
        0
    } else {
        text_width(s.drop_last()) + columns_of(s.last())
    }
}

/// Display width adds up over concatenation.
pub proof fn lemma_text_width_concat(a: Seq<char>, b: Seq<char>)
    ensures
        text_width(a + b) == text_width(a) + text_width(b),
    decreases b.len(),
{
    if b.len() == 0 {
        assert(a + b =~= a);
    } else {
        lemma_text_width_concat(a, b.drop_last());
        assert((a + b).drop_last() =~= a + b.drop_last());
    }
}

/// A printable ASCII character (U+0020 to U+007E).
pub open spec fn is_printable_ascii(c: char) -> bool {
    ' ' <= c && c <= '~'
}

/// A CJK Unified Ideograph of the basic block (U+4E00 to U+9FFF).
pub open spec fn is_cjk_ideograph(c: char) -> bool {
    '\u{4E00}' <= c && c <= '\u{9FFF}'
}

/// Every character of `s` is printable ASCII.
pub open spec fn printable_ascii(s: Seq<char>) -> bool {
    forall|i: int| 0 <= i < s.len() ==> is_printable_ascii(#[trigger] s[i])
}

/// Every character of `s` is printable ASCII or a CJK ideograph.
pub open spec fn ascii_or_cjk(s: Seq<char>) -> bool {
    forall|i: int| 0 <= i < s.len() ==> is_printable_ascii(#[trigger] s[i]) || is_cjk_ideograph(s[i])
}

/// The width of a text of printable ASCII and CJK ideographs: one column per
/// ASCII character, two per ideograph.
pub open spec fn ascii_cjk_width(s: Seq<char>) -> nat
    decreases s.len(),
{
    if s.len() == 0 {
        0
    } else {
        ascii_cjk_width(s.drop_last()) + if is_cjk_ideograph(s.last()) {
            2nat
        } else {
            1nat
        }
    }
}

/// A text of printable ASCII and CJK ideographs is as wide as
/// [`ascii_cjk_width`] says: one column per ASCII character, two per ideograph.
pub open spec fn ascii_cjk_width_holds(s: Seq<char>) -> bool {
    ascii_or_cjk(s) ==> text_width(s) == ascii_cjk_width(s)
}

/// A text of printable ASCII is as wide as it is long.
pub proof fn lemma_ascii_width_is_length(s: Seq<char>)
    requires
        printable_ascii(s),
    ensures
        ascii_or_cjk(s),
        ascii_cjk_width(s) == s.len(),
    decreases s.len(),
{
    if s.len() > 0 {
        assert(printable_ascii(s.drop_last())) by {
            assert forall|i: int| 0 <= i < s.drop_last().len() implies is_printable_ascii(
                #[trigger] s.drop_last()[i],
            ) by {
                assert(s.drop_last()[i] == s[i]);
            }
        }
        lemma_ascii_width_is_length(s.drop_last());
        assert(is_printable_ascii(s[s.len() - 1]));
    }
}

/// The total of per-character widths, a missing width (a control character) counting zero.
pub open spec fn widths_total(widths: Seq<Option<usize>>) -> nat
    decreases widths.len(),
{
    if widths.len() == 0 {
        0
    } else {
        widths_total(widths.drop_last()) + match widths.last() {
            Some(n) => n as nat,
            None => 0,
        }
    }
}

/// Adds up per-character widths (see [`widths_total`]); each is at most 3
/// columns, as unicode-width gives them.
pub fn total_width(widths: &[Option<usize>]) -> (w: usize)
    requires
        widths@.len() <= usize::MAX / 4,
        forall|i: int| 0 <= i < widths@.len() ==> (#[trigger] widths@[i] matches Some(n) ==> n <= 3),
    ensures
        w == widths_total(widths@),
        w <= 3 * widths@.len(),
{
    let mut w: usize = 0;
    let mut i: usize = 0;
    while i < widths.len()
        invariant
            i <= widths@.len() <= usize::MAX / 4,
            forall|j: int| 0 <= j < widths@.len() ==> (#[trigger] widths@[j] matches Some(n) ==> n <= 3),
            w == widths_total(widths@.take(i as int)),
            w <= 3 * i,
        decreases widths@.len() - i,
    {
        assert(widths@.take(i + 1).drop_last() =~= widths@.take(i as int));
        assert(widths@.take(i + 1).last() == widths@[i as int]);
        match widths[i] {
            Some(n) => {
                w = w + n;
            },
            None => {},
        }
        i = i + 1;
    }
    assert(widths@.take(i as int) =~= widths@);
    w
}

proof fn lemma_widths_total_is_text_width(s: Seq<char>, widths: Seq<Option<usize>>)
    requires
        widths.len() == s.len(),
        forall|j: int| 0 <= j < s.len() ==> #[trigger] widths[j] == char_width(s[j]),
        forall|j: int| 0 <= j < s.len() && is_printable_ascii(s[j]) ==> #[trigger] widths[j] == Some(1usize),
        forall|j: int| 0 <= j < s.len() && is_cjk_ideograph(s[j]) ==> #[trigger] widths[j] == Some(2usize),
    ensures
        widths_total(widths) == text_width(s),
        ascii_cjk_width_holds(s),
    decreases s.len(),
{
    if s.len() > 0 {
        let n = (s.len() - 1) as int;
        assert forall|j: int| 0 <= j < s.drop_last().len() implies #[trigger] widths.drop_last()[j] == char_width(
            s.drop_last()[j],
        ) by {
            assert(widths.drop_last()[j] == widths[j]);
        }
        assert forall|j: int| 0 <= j < s.drop_last().len() && is_printable_ascii(s.drop_last()[j]) implies #[trigger] widths.drop_last()[j] == Some(1usize) by {
            assert(widths.drop_last()[j] == widths[j]);
            assert(s.drop_last()[j] == s[j]);
        }
        assert forall|j: int| 0 <= j < s.drop_last().len() && is_cjk_ideograph(s.drop_last()[j]) implies #[trigger] widths.drop_last()[j] == Some(2usize) by {
            assert(widths.drop_last()[j] == widths[j]);
            assert(s.drop_last()[j] == s[j]);
        }
        lemma_widths_total_is_text_width(s.drop_last(), widths.drop_last());
        assert(widths[n] == char_width(s[n]));
        if ascii_or_cjk(s) {
            assert(ascii_or_cjk(s.drop_last())) by {
                assert forall|i: int| 0 <= i < s.drop_last().len() implies is_printable_ascii(
                    #[trigger] s.drop_last()[i],
                ) || is_cjk_ideograph(s.drop_last()[i]) by {
                    assert(s.drop_last()[i] == s[i]);
                }
            }
            assert(is_printable_ascii(s[n]) || is_cjk_ideograph(s[n]));
        }
    }
}

/// The width unicode-width gives each character of `s`.
fn char_widths(s: &[char]) -> (widths: Vec<Option<usize>>)
    ensures
        widths@.len() == s@.len(),
        forall|j: int| 0 <= j < s@.len() ==> #[trigger] widths@[j] == char_width(s@[j]),
        forall|j: int| 0 <= j < s@.len() ==> (#[trigger] widths@[j] matches Some(n) ==> n <= 3),
        forall|j: int| 0 <= j < s@.len() && is_printable_ascii(s@[j]) ==> #[trigger] widths@[j] == Some(1usize),
        forall|j: int| 0 <= j < s@.len() && is_cjk_ideograph(s@[j]) ==> #[trigger] widths@[j] == Some(2usize),
{
    let mut widths: Vec<Option<usize>> = Vec::new();
    let mut i: usize = 0;
    while i < s.len()
        invariant
            i <= s@.len(),
            widths@.len() == i,
            forall|j: int| 0 <= j < i ==> #[trigger] widths@[j] == char_width(s@[j]),
            forall|j: int| 0 <= j < i ==> (#[trigger] widths@[j] matches Some(n) ==> n <= 3),
            forall|j: int| 0 <= j < i && is_printable_ascii(s@[j]) ==> #[trigger] widths@[j] == Some(1usize),
            forall|j: int| 0 <= j < i && is_cjk_ideograph(s@[j]) ==> #[trigger] widths@[j] == Some(2usize),
        decreases s@.len() - i,
    {
        widths.push(width_of_char(s[i]));
        i = i + 1;
    }
    widths
}

/// The display width of `s`, computed character by character.
fn width_of_chars(s: &[char]) -> (w: usize)
    requires
        s@.len() <= usize::MAX / 4,
    ensures
        w == text_width(s@),
        w <= 3 * s@.len(),
        ascii_cjk_width_holds(s@),
{
    let widths = char_widths(s);
    proof {
        lemma_widths_total_is_text_width(s@, widths@);
    }
    total_width(&widths)
}

/// Computes the display width of `s`: the sum of its characters' widths as
/// unicode-width gives them, control characters counting zero. Printable
/// ASCII characters take one column each and CJK ideographs two.
pub fn display_width(s: &str) -> (w: usize)
    requires
        s@.len() <= usize::MAX / 4,
    ensures
        w == text_width(s@),
        w <= 3 * s@.len(),
        ascii_or_cjk(s@) ==> w == ascii_cjk_width(s@),
        printable_ascii(s@) ==> w == s@.len(),
{
    let chars = chars_of(s);
    let w = width_of_chars(&chars);
    proof {
        if printable_ascii(s@) {
            lemma_ascii_width_is_length(s@);
        }
    }
    w
}

/// `n` spaces.
pub open spec fn spaces(n: nat) -> Seq<char> {
    Seq::new(n, |_i: int| ' ')
}

/// `n` dashes.
pub open spec fn dashes(n: nat) -> Seq<char> {
    Seq::new(n, |_i: int| '-')
}

/// The spaces a cell of display width `visible` needs to fill a column of width `w`.
pub open spec fn padding(visible: nat, w: nat) -> nat {
    if visible < w {
        (w - visible) as nat
    } else {
        0
    }
}

/// A cell as it stands in its column: a space, the text, the padding, a space.
pub open spec fn padded_cell(cell: Seq<char>, w: nat) -> Seq<char> {
    seq![' '] + cell + spaces(padding(text_width(cell), w)) + seq![' ']
}

/// The first `n` padded cells, separated by `'|'`.
pub open spec fn joined_cells(cells: Seq<Seq<char>>, widths: Seq<nat>, n: nat) -> Seq<char>
    decreases n,
{
    if n == 0 {
        seq![]
    } else if n == 1 {
        padded_cell(cells[0], widths[0])
    } else {
        joined_cells(cells, widths, (n - 1) as nat) + seq!['|'] + padded_cell(
            cells[n - 1],
            widths[n - 1],
        )
    }
}

/// The smaller of two numbers.
pub open spec fn min_nat(a: nat, b: nat) -> nat {
    if a <= b {
        a
    } else {
        b
    }
}

/// A table line holding `cells`, each padded to its column's width; cells
/// beyond the number of columns (and columns beyond the number of cells) are left out.
pub open spec fn row_line(cells: Seq<Seq<char>>, widths: Seq<nat>) -> Seq<char> {
    seq!['|'] + joined_cells(cells, widths, min_nat(cells.len(), widths.len())) + seq!['|']
}

/// The first `n` column rules (`w + 2` dashes each), separated by `'+'`.
pub open spec fn joined_rules(widths: Seq<nat>, n: nat) -> Seq<char>
    decreases n,
{
    if n == 0 {
        seq![]
    } else if n == 1 {
        dashes(widths[0] + 2)
    } else {
        joined_rules(widths, (n - 1) as nat) + seq!['+'] + dashes(widths[n - 1] + 2)
    }
}

/// The horizontal rule of a table with the given column widths.
pub open spec fn rule_line(widths: Seq<nat>) -> Seq<char> {
    seq!['+'] + joined_rules(widths, widths.len()) + seq!['+']
}

/// The character views of a sequence of strings.
pub open spec fn string_views(v: Seq<String>) -> Seq<Seq<char>> {
    v.map_values(|x: String| x@)
}

/// The character views of a sequence of string slices.
pub open spec fn str_views(v: Seq<&str>) -> Seq<Seq<char>> {
    v.map_values(|x: &str| x@)
}

/// Column widths as numbers.
pub open spec fn nats(v: Seq<usize>) -> Seq<nat> {
    v.map_values(|x: usize| x as nat)
}

/// Every text in `v` is short enough for its width to be computed in a `usize`.
pub open spec fn all_measurable(v: Seq<Seq<char>>) -> bool {
    forall|i: int| 0 <= i < v.len() ==> (#[trigger] v[i]).len() <= usize::MAX / 4
}

fn push_repeated(out: &mut Vec<char>, c: char, n: usize)
    ensures
        final(out)@ == old(out)@ + Seq::new(n as nat, |_i: int| c),
{
    let mut i: usize = 0;
    while i < n
        invariant
            i <= n,
            out@ == old(out)@ + Seq::new(i as nat, |_i: int| c),
        decreases n - i,
    {
        out.push(c);
        i = i + 1;
        assert(out@ =~= old(out)@ + Seq::new(i as nat, |_i: int| c));
    }
}

/// Renders one table line from cells given as text, padding each cell to its column width.
fn render_row(Ghost(cells): Ghost<Seq<Seq<char>>>, texts: &[&str], widths: &[usize]) -> (line: Vec<char>)
    requires
        texts@.len() == cells.len(),
        forall|i: int| 0 <= i < cells.len() ==> (#[trigger] texts@[i])@ == cells[i],
        all_measurable(cells),
    ensures
        line@ == row_line(cells, nats(widths@)),
        forall|i: int| 0 <= i < min_nat(cells.len(), widths@.len()) ==> ascii_cjk_width_holds(#[trigger] cells[i]),
{
    let n = if texts.len() <= widths.len() { texts.len() } else { widths.len() };
    let ghost ws = nats(widths@);
    let mut out: Vec<char> = Vec::new();
    out.push('|');
    let mut i: usize = 0;
    while i < n
        invariant
            n == min_nat(cells.len(), ws.len()),
            i <= n,
            ws == nats(widths@),
            texts@.len() == cells.len(),
            forall|k: int| 0 <= k < cells.len() ==> (#[trigger] texts@[k])@ == cells[k],
            all_measurable(cells),
            out@ == seq!['|'] + joined_cells(cells, ws, i as nat),
            forall|k: int| 0 <= k < i ==> ascii_cjk_width_holds(#[trigger] cells[k]),
        decreases n - i,
    {
        let ghost before = out@;
        if i > 0 {
            out.push('|');
        }
        out.push(' ');
        let cell = texts[i];
        assert(cell@ == cells[i as int]);
        push_str(&mut out, cell);
        let cell_chars = chars_of(cell);
        let cw = width_of_chars(&cell_chars);
        let w = widths[i];
        let pad = if cw < w { w - cw } else { 0 };
        push_repeated(&mut out, ' ', pad);
        out.push(' ');
        proof {
            assert(Seq::new(pad as nat, |_i: int| ' ') =~= spaces(padding(text_width(cells[i as int]), ws[i as int])));
            if i == 0 {
                assert(out@ =~= seq!['|'] + joined_cells(cells, ws, 1));
            } else {
                assert(out@ =~= seq!['|'] + joined_cells(cells, ws, (i + 1) as nat));
            }
        }
        i = i + 1;
    }
    out.push('|');
    out
}

/// Renders a data row of a table: each cell between single spaces and padded
/// with spaces to its column's display width, cells separated and enclosed by `'|'`.
pub fn format_row(cells: &[String], widths: &[usize]) -> (line: String)
    requires
        all_measurable(string_views(cells@)),
    ensures
        line@ == row_line(string_views(cells@), nats(widths@)),
        forall|i: int|
            0 <= i < min_nat(cells@.len(), widths@.len()) ==> ascii_cjk_width_holds(
                #[trigger] string_views(cells@)[i],
            ),
{
    let mut texts: Vec<&str> = Vec::new();
    let mut i: usize = 0;
    while i < cells.len()
        invariant
            i <= cells@.len(),
            texts@.len() == i,
            forall|k: int| 0 <= k < i ==> (#[trigger] texts@[k])@ == cells@[k]@,
        decreases cells@.len() - i,
    {
        texts.push(cells[i].as_str());
        i = i + 1;
    }
    let out = render_row(Ghost(string_views(cells@)), &texts, widths);
    string_of(&out)
}

/// A header row is laid out exactly as a data row holding the same texts.
pub proof fn lemma_header_row_is_data_row(headers: Seq<&str>, cells: Seq<String>, widths: Seq<usize>)
    requires
        str_views(headers) == string_views(cells),
    ensures
        row_line(str_views(headers), nats(widths)) == row_line(string_views(cells), nats(widths)),
{
}

/// Renders the header row of a table, laid out as [`format_row`] lays out data rows.
pub fn format_header_row(headers: &[&str], widths: &[usize]) -> (line: String)
    requires
        all_measurable(str_views(headers@)),
    ensures
        line@ == row_line(str_views(headers@), nats(widths@)),
        forall|i: int|
            0 <= i < min_nat(headers@.len(), widths@.len()) ==> ascii_cjk_width_holds(
                #[trigger] str_views(headers@)[i],
            ),
{
    let out = render_row(Ghost(str_views(headers@)), headers, widths);
    string_of(&out)
}

/// The character views of table rows.
pub open spec fn row_views(rows: Seq<Vec<String>>) -> Seq<Seq<Seq<char>>> {
    rows.map_values(|r: Vec<String>| string_views(r@))
}

/// The display width of cell `i` of `row`, or 0 when the row has no such cell.
pub open spec fn cell_width_or_zero(row: Seq<Seq<char>>, i: int) -> nat {
    if 0 <= i < row.len() {
        text_width(row[i])
    } else {
        0
    }
}

/// The larger of two numbers.
pub open spec fn max_nat(a: nat, b: nat) -> nat {
    if a >= b {
        a
    } else {
        b
    }
}

/// The width of column `i`: the widest of its header and of the cells the rows hold in it.
pub open spec fn column_width(headers: Seq<Seq<char>>, rows: Seq<Seq<Seq<char>>>, i: int) -> nat
    decreases rows.len(),
{
    if rows.len() == 0 {
        text_width(headers[i])
    } else {
        max_nat(column_width(headers, rows.drop_last(), i), cell_width_or_zero(rows.last(), i))
    }
}

/// The widths of all columns (one per header).
pub open spec fn column_widths(headers: Seq<Seq<char>>, rows: Seq<Seq<Seq<char>>>) -> Seq<nat> {
    Seq::new(headers.len(), |i: int| column_width(headers, rows, i))
}

/// The lines of a rendered table: a rule, the header row, a rule, the data
/// rows, a rule; nothing at all when there are no rows.
pub open spec fn table_lines(headers: Seq<Seq<char>>, rows: Seq<Seq<Seq<char>>>) -> Seq<Seq<char>> {
    if rows.len() == 0 {
        seq![]
    } else {
        let ws = column_widths(headers, rows);
        let rule = rule_line(ws);
        seq![rule, row_line(headers, ws), rule] + Seq::new(rows.len(), |k: int| row_line(rows[k], ws))
            + seq![rule]
    }
}

/// Every header and every cell of every row can be measured.
pub open spec fn table_measurable(headers: Seq<Seq<char>>, rows: Seq<Seq<Seq<char>>>) -> bool {
    &&& all_measurable(headers)
    &&& forall|k: int| 0 <= k < rows.len() ==> all_measurable(#[trigger] rows[k])
}

/// A column of a table with rows is at least as wide as its header and as each
/// row's cell in it.
proof fn lemma_column_width_covers(headers: Seq<Seq<char>>, rows: Seq<Seq<Seq<char>>>, i: int, k: int)
    requires
        0 <= k < rows.len(),
    ensures
        text_width(headers[i]) <= column_width(headers, rows, i),
        cell_width_or_zero(rows[k], i) <= column_width(headers, rows, i),
    decreases rows.len(),
{
    if k < rows.len() - 1 {
        lemma_column_width_covers(headers, rows.drop_last(), i, k);
        assert(rows.drop_last()[k] == rows[k]);
    } else if rows.len() > 1 {
        lemma_column_width_covers(headers, rows.drop_last(), i, 0);
    } else {
        assert(column_width(headers, rows.drop_last(), i) == text_width(headers[i]));
    }
}

/// The widths of all columns of `headers`/`rows`, as [`column_widths`] defines them.
fn measure_columns(headers: &[&str], rows: &[Vec<String>]) -> (widths: Vec<usize>)
    requires
        table_measurable(str_views(headers@), row_views(rows@)),
    ensures
        nats(widths@) == column_widths(str_views(headers@), row_views(rows@)),
        forall|i: int| 0 <= i < widths@.len() ==> #[trigger] widths@[i] <= 3 * (usize::MAX / 4),
        forall|i: int| 0 <= i < headers@.len() ==> ascii_cjk_width_holds(#[trigger] str_views(headers@)[i]),
        forall|k: int, j: int|
            0 <= k < rows@.len() && 0 <= j < headers@.len() && j < row_views(rows@)[k].len()
                ==> ascii_cjk_width_holds(#[trigger] row_views(rows@)[k][j]),
{
    let ghost hs = str_views(headers@);
    let ghost rs = row_views(rows@);
    let mut widths: Vec<usize> = Vec::new();
    let mut i: usize = 0;
    while i < headers.len()
        invariant
            i <= headers@.len(),
            hs == str_views(headers@),
            all_measurable(hs),
            widths@.len() == i,
            forall|k: int| 0 <= k < i ==> #[trigger] widths@[k] == text_width(hs[k]),
            forall|k: int| 0 <= k < i ==> #[trigger] widths@[k] <= 3 * (usize::MAX / 4),
            forall|k: int| 0 <= k < i ==> ascii_cjk_width_holds(#[trigger] hs[k]),
        decreases headers@.len() - i,
    {
        assert(headers@[i as int]@ == hs[i as int]);
        assert(hs[i as int].len() <= usize::MAX / 4);
        widths.push(display_width(headers[i]));
        i = i + 1;
    }
    let mut r: usize = 0;
    assert(rs.take(0) =~= Seq::<Seq<Seq<char>>>::empty());
    while r < rows.len()
        invariant
            r <= rows@.len(),
            hs == str_views(headers@),
            rs == row_views(rows@),
            table_measurable(hs, rs),
            widths@.len() == hs.len(),
            forall|k: int| 0 <= k < hs.len() ==> #[trigger] widths@[k] == column_width(hs, rs.take(r as int), k),
            forall|k: int| 0 <= k < hs.len() ==> #[trigger] widths@[k] <= 3 * (usize::MAX / 4),
            forall|k: int| 0 <= k < hs.len() ==> ascii_cjk_width_holds(#[trigger] hs[k]),
            forall|kk: int, j: int|
                0 <= kk < r && 0 <= j < hs.len() && j < rs[kk].len() ==> ascii_cjk_width_holds(#[trigger] rs[kk][j]),
        decreases rows@.len() - r,
    {
        let row = &rows[r];
        let ghost cells = rs[r as int];
        assert(cells == string_views(row@));
        assert(all_measurable(rs[r as int]));
        let ghost done = rs.take(r + 1);
        assert(done.drop_last() =~= rs.take(r as int));
        assert(done.last() == cells);
        let mut j: usize = 0;
        while j < row.len()
            invariant
                j <= row@.len(),
                cells == string_views(row@),
                all_measurable(cells),
                done.drop_last() == rs.take(r as int),
                done.last() == cells,
                done.len() > 0,
                widths@.len() == hs.len(),
                forall|k: int| 0 <= k < hs.len() && k < j ==> #[trigger] widths@[k] == column_width(hs, done, k),
                forall|k: int| 0 <= k < hs.len() && k >= j ==> #[trigger] widths@[k] == column_width(hs, done.drop_last(), k),
                forall|k: int| 0 <= k < hs.len() ==> #[trigger] widths@[k] <= 3 * (usize::MAX / 4),
                forall|jj: int| 0 <= jj < j && jj < hs.len() ==> ascii_cjk_width_holds(#[trigger] cells[jj]),
            decreases row@.len() - j,
        {
            if j < widths.len() {
                assert(cells[j as int] == row@[j as int]@);
                assert(cells[j as int].len() <= usize::MAX / 4);
                let cw = display_width(row[j].as_str());
                if cw > widths[j] {
                    widths[j] = cw;
                }
            }
            j = j + 1;
        }
        proof {
            assert forall|kk: int, jj: int|
                0 <= kk < r + 1 && 0 <= jj < hs.len() && jj < rs[kk].len() implies ascii_cjk_width_holds(
                #[trigger] rs[kk][jj],
            ) by {
                if kk == r {
                    assert(rs[kk] == cells);
                }
            }
            assert forall|k: int| 0 <= k < hs.len() implies #[trigger] widths@[k] == column_width(hs, rs.take(r + 1), k) by {
                if k >= row@.len() {
                    assert(cell_width_or_zero(cells, k) == 0);
                }
            }
        }
        r = r + 1;
    }
    assert(rs.take(rows@.len() as int) =~= rs);
    assert(nats(widths@) =~= column_widths(hs, rs));
    widths
}

/// The horizontal rule for columns of the given widths.
fn render_rule(widths: &[usize]) -> (line: Vec<char>)
    requires
        forall|i: int| 0 <= i < widths@.len() ==> #[trigger] widths@[i] <= 3 * (usize::MAX / 4),
    ensures
        line@ == rule_line(nats(widths@)),
{
    let ghost ws = nats(widths@);
    let mut out: Vec<char> = Vec::new();
    out.push('+');
    let mut i: usize = 0;
    while i < widths.len()
        invariant
            i <= widths@.len(),
            ws == nats(widths@),
            forall|k: int| 0 <= k < widths@.len() ==> #[trigger] widths@[k] <= 3 * (usize::MAX / 4),
            out@ == seq!['+'] + joined_rules(ws, i as nat),
        decreases widths@.len() - i,
    {
        if i > 0 {
            out.push('+');
        }
        push_repeated(&mut out, '-', widths[i] + 2);
        proof {
            assert(Seq::new((widths@[i as int] + 2) as nat, |_i: int| '-') =~= dashes(ws[i as int] + 2));
            if i == 0 {
                assert(out@ =~= seq!['+'] + joined_rules(ws, 1));
            } else {
                assert(out@ =~= seq!['+'] + joined_rules(ws, (i + 1) as nat));
            }
        }
        i = i + 1;
    }
    out.push('+');
    out
}

/// Lays out a table with columns as wide as their widest header or cell
/// (in display width): the lines `print_table` prints, top rule, header row,
/// rule, one line per row, bottom rule; no lines at all when there are no rows.
pub fn render_table(headers: &[&str], rows: &[Vec<String>]) -> (lines: Vec<String>)
    requires
        table_measurable(str_views(headers@), row_views(rows@)),
    ensures
        string_views(lines@) == table_lines(str_views(headers@), row_views(rows@)),
        rows@.len() > 0 ==> forall|i: int|
            0 <= i < headers@.len() ==> ascii_cjk_width_holds(#[trigger] str_views(headers@)[i]),
        forall|k: int, j: int|
            0 <= k < rows@.len() && 0 <= j < headers@.len() && j < row_views(rows@)[k].len()
                ==> ascii_cjk_width_holds(#[trigger] row_views(rows@)[k][j]),
        (forall|k: int| 0 <= k < rows@.len() ==> (#[trigger] rows@[k]).len() >= headers@.len())
            ==> forall|l: int|
            0 <= l < lines@.len() ==> #[trigger] text_width(lines@[l]@) == layout_width(
                column_widths(str_views(headers@), row_views(rows@)),
                headers@.len(),
            ) + 2,
{
    let mut lines: Vec<String> = Vec::new();
    if rows.len() == 0 {
        assert(string_views(lines@) =~= table_lines(str_views(headers@), row_views(rows@)));
        return lines;
    }
    let ghost hs = str_views(headers@);
    let ghost rs = row_views(rows@);
    let widths = measure_columns(headers, rows);
    let ghost ws = nats(widths@);
    let rule = string_of(&render_rule(&widths));
    lines.push(rule.clone());
    lines.push(format_header_row(headers, &widths));
    lines.push(rule.clone());
    let mut k: usize = 0;
    while k < rows.len()
        invariant
            k <= rows@.len(),
            rs == row_views(rows@),
            hs == str_views(headers@),
            table_measurable(hs, rs),
            ws == nats(widths@),
            ws == column_widths(hs, rs),
            rule@ == rule_line(ws),
            string_views(lines@) == seq![rule_line(ws), row_line(hs, ws), rule_line(ws)] + Seq::new(
                k as nat,
                |j: int| row_line(rs[j], ws),
            ),
        decreases rows@.len() - k,
    {
        assert(all_measurable(rs[k as int]));
        assert(rs[k as int] == string_views(rows@[k as int]@));
        let line = format_row(&rows[k], &widths);
        let ghost before = lines@;
        lines.push(line);
        assert(string_views(lines@) =~= string_views(before).push(line@));
        k = k + 1;
        assert(string_views(lines@) =~= seq![rule_line(ws), row_line(hs, ws), rule_line(ws)] + Seq::new(
            k as nat,
            |j: int| row_line(rs[j], ws),
        ));
    }
    let ghost before = lines@;
    lines.push(rule);
    assert(string_views(lines@) =~= string_views(before).push(rule@));
    assert(string_views(lines@) =~= table_lines(hs, rs));
    let _ = width_of_char(' ');
    let _ = width_of_char('|');
    let _ = width_of_char('+');
    let _ = width_of_char('-');
    proof {
        if forall|k: int| 0 <= k < rows@.len() ==> (#[trigger] rows@[k]).len() >= headers@.len() {
            assert forall|k: int| 0 <= k < rs.len() implies (#[trigger] rs[k]).len() >= hs.len() by {
                assert(rs[k] == string_views(rows@[k]@));
                assert(rows@[k].len() >= headers@.len());
            }
            lemma_table_lines_same_width(hs, rs);
            assert forall|l: int| 0 <= l < lines@.len() implies #[trigger] text_width(lines@[l]@)
                == layout_width(column_widths(hs, rs), hs.len()) + 2 by {
                assert(lines@[l]@ == string_views(lines@)[l]);
            }
        }
    }
    lines
}

/// Alignment of a rendered table: in every column, the header and the cell of
/// every row that reaches that column, together with their padding, take up
/// exactly the column's width.
pub proof fn lemma_cells_fill_columns(headers: Seq<Seq<char>>, rows: Seq<Seq<Seq<char>>>)
    ensures
        forall|i: int|
            0 <= i < headers.len() ==> #[trigger] text_width(headers[i]) + padding(
                text_width(headers[i]),
                column_widths(headers, rows)[i],
            ) == column_widths(headers, rows)[i],
        forall|k: int, i: int|
            0 <= k < rows.len() && 0 <= i < headers.len() && i < rows[k].len() ==> #[trigger] text_width(
                rows[k][i],
            ) + padding(text_width(rows[k][i]), column_widths(headers, rows)[i])
                == column_widths(headers, rows)[i],
{
    assert forall|i: int| 0 <= i < headers.len() implies #[trigger] text_width(headers[i]) + padding(
        text_width(headers[i]),
        column_widths(headers, rows)[i],
    ) == column_widths(headers, rows)[i] by {
        if rows.len() > 0 {
            lemma_column_width_covers(headers, rows, i, 0);
        }
    }
    assert forall|k: int, i: int|
        0 <= k < rows.len() && 0 <= i < headers.len() && i < rows[k].len() implies #[trigger] text_width(
            rows[k][i],
        ) + padding(text_width(rows[k][i]), column_widths(headers, rows)[i])
            == column_widths(headers, rows)[i] by {
        lemma_column_width_covers(headers, rows, i, k);
    }
}

/// The display width of a line laid out over the first `n` of the columns `ws`
/// (each column `w + 2` wide, with one separator between columns).
pub open spec fn layout_width(ws: Seq<nat>, n: nat) -> nat
    decreases n,
{
    if n == 0 {
        0
    } else if n == 1 {
        ws[0] + 2
    } else {
        layout_width(ws, (n - 1) as nat) + 1 + ws[n - 1] + 2
    }
}

proof fn lemma_repeat_width(c: char, n: nat)
    requires
        columns_of(c) == 1,
    ensures
        text_width(Seq::new(n, |_i: int| c)) == n,
    decreases n,
{
    if n > 0 {
        lemma_repeat_width(c, (n - 1) as nat);
        assert(Seq::new(n, |_i: int| c).drop_last() =~= Seq::new((n - 1) as nat, |_i: int| c));
    }
}

proof fn lemma_joined_cells_width(cells: Seq<Seq<char>>, ws: Seq<nat>, n: nat)
    requires
        n <= cells.len(),
        n <= ws.len(),
        forall|i: int| 0 <= i < n ==> text_width(#[trigger] cells[i]) <= ws[i],
        columns_of(' ') == 1,
        columns_of('|') == 1,
    ensures
        text_width(joined_cells(cells, ws, n)) == layout_width(ws, n),
    decreases n,
{
    if n > 0 {
        let c = cells[n - 1];
        let w = ws[n - 1];
        let pad = padding(text_width(c), w);
        lemma_repeat_width(' ', pad);
        assert(spaces(pad) =~= Seq::new(pad, |_i: int| ' '));
        lemma_text_width_concat(seq![' '], c);
        lemma_text_width_concat(seq![' '] + c, spaces(pad));
        lemma_text_width_concat(seq![' '] + c + spaces(pad), seq![' ']);
        lemma_single_width(' ');
        assert(text_width(padded_cell(c, w)) == w + 2);
        if n > 1 {
            lemma_joined_cells_width(cells, ws, (n - 1) as nat);
            let prefix = joined_cells(cells, ws, (n - 1) as nat);
            lemma_text_width_concat(prefix, seq!['|']);
            lemma_text_width_concat(prefix + seq!['|'], padded_cell(c, w));
            lemma_single_width('|');
        }
    }
}

proof fn lemma_joined_rules_width(ws: Seq<nat>, n: nat)
    requires
        n <= ws.len(),
        columns_of('-') == 1,
        columns_of('+') == 1,
    ensures
        text_width(joined_rules(ws, n)) == layout_width(ws, n),
    decreases n,
{
    if n > 0 {
        lemma_repeat_width('-', ws[n - 1] + 2);
        assert(dashes(ws[n - 1] + 2) =~= Seq::new(ws[n - 1] + 2, |_i: int| '-'));
        if n > 1 {
            lemma_joined_rules_width(ws, (n - 1) as nat);
            let prefix = joined_rules(ws, (n - 1) as nat);
            lemma_text_width_concat(prefix, seq!['+']);
            lemma_text_width_concat(prefix + seq!['+'], dashes(ws[n - 1] + 2));
            lemma_single_width('+');
        }
    }
}

proof fn lemma_framed_width(c: char, body: Seq<char>)
    requires
        columns_of(c) == 1,
    ensures
        text_width(seq![c] + body + seq![c]) == text_width(body) + 2,
{
    lemma_text_width_concat(seq![c], body);
    lemma_text_width_concat(seq![c] + body, seq![c]);
    lemma_single_width(c);
}

proof fn lemma_single_width(c: char)
    ensures
        text_width(seq![c]) == columns_of(c),
{
    let s = seq![c];
    assert(s.drop_last() =~= Seq::<char>::empty());
    assert(text_width(Seq::<char>::empty()) == 0);
    assert(s.last() == c);
}

/// Every line of a rendered table has the same display width, provided every
/// row has a cell for each column and the frame characters `' '`, `'|'`, `'+'`
/// and `'-'` are one column wide (as unicode-width makes them): rules, header
/// row and data rows all span `layout_width` of the columns plus the two borders.
pub proof fn lemma_table_lines_same_width(headers: Seq<Seq<char>>, rows: Seq<Seq<Seq<char>>>)
    requires
        forall|k: int| 0 <= k < rows.len() ==> (#[trigger] rows[k]).len() >= headers.len(),
        columns_of(' ') == 1,
        columns_of('|') == 1,
        columns_of('+') == 1,
        columns_of('-') == 1,
    ensures
        forall|l: int|
            0 <= l < table_lines(headers, rows).len() ==> #[trigger] text_width(
                table_lines(headers, rows)[l],
            ) == layout_width(column_widths(headers, rows), headers.len()) + 2,
{
    if rows.len() > 0 {
        let ws = column_widths(headers, rows);
        let n = headers.len();
        lemma_cells_fill_columns(headers, rows);
        lemma_joined_rules_width(ws, n);
        lemma_framed_width('+', joined_rules(ws, n));
        assert(forall|i: int| 0 <= i < n ==> text_width(#[trigger] headers[i]) <= ws[i]);
        lemma_joined_cells_width(headers, ws, n);
        lemma_framed_width('|', joined_cells(headers, ws, n));
        assert forall|k: int| 0 <= k < rows.len() implies #[trigger] text_width(row_line(rows[k], ws))
            == layout_width(ws, n) + 2 by {
            assert(forall|i: int| 0 <= i < n ==> text_width(#[trigger] rows[k][i]) <= ws[i]);
            lemma_joined_cells_width(rows[k], ws, n);
            assert(min_nat(rows[k].len(), ws.len()) == n);
            lemma_framed_width('|', joined_cells(rows[k], ws, n));
        }
        let lines = table_lines(headers, rows);
        assert forall|l: int| 0 <= l < lines.len() implies #[trigger] text_width(lines[l]) == layout_width(
            ws,
            n,
        ) + 2 by {
            if 3 <= l < 3 + rows.len() {
                assert(lines[l] == row_line(rows[l - 3], ws));
            }
        }
    }
}

} // verus!
