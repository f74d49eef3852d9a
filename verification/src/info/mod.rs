//! Network information: interfaces, routes, egress and proxy settings.

pub mod interface;
pub mod egress;
pub mod route;
pub mod proxy;

use vstd::prelude::*;
use crate::table::{display_width, text_width};
use crate::text::{chars_of, string_of};

verus! {

/// The box drawn around a banner title: a top border, the title between
/// `"│  "` and `"  │"`, and a bottom border, the borders `"─"` repeated
/// for the title's display width plus four.
pub open spec fn banner_box(title: Seq<char>) -> Seq<Seq<char>> {
    let border = Seq::new(text_width(title) + 4, |_i: int| '─');
    seq![
        seq!['┌'] + border + seq!['┐'],
        seq!['│', ' ', ' '] + title + seq![' ', ' ', '│'],
        seq!['└'] + border + seq!['┘'],
    ]
}

fn framed(left: char, middle: &Vec<char>, right: char) -> (s: String)
    ensures
        s@ == seq![left] + middle@ + seq![right],
{
    let mut v: Vec<char> = Vec::new();
    v.push(left);
    let mut i: usize = 0;
    while i < middle.len()
        invariant
            i <= middle@.len(),
            v@ == seq![left] + middle@.take(i as int),
        decreases middle@.len() - i,
    {
        v.push(middle[i]);
        i = i + 1;
        assert(v@ =~= seq![left] + middle@.take(i as int));
    }
    v.push(right);
    assert(v@ =~= seq![left] + middle@ + seq![right]);
    string_of(&v)
}

/// The three lines of the box `print_banner` draws around `title` (see [`banner_box`]).
pub fn banner_lines(title: &str) -> (lines: Vec<String>)
    requires
        title@.len() <= usize::MAX / 4,
    ensures
        lines@.len() == 3,
        forall|i: int| 0 <= i < 3 ==> #[trigger] lines@[i]@ == banner_box(title@)[i],
{
    let inner = display_width(title) + 4;
    let mut border: Vec<char> = Vec::new();
    let mut i: usize = 0;
    while i < inner
        invariant
            i <= inner,
            border@ == Seq::new(i as nat, |_i: int| '─'),
        decreases inner - i,
    {
        border.push('─');
        i = i + 1;
        assert(border@ =~= Seq::new(i as nat, |_i: int| '─'));
    }
    let mut middle: Vec<char> = Vec::new();
    middle.push(' ');
    middle.push(' ');
    let t = chars_of(title);
    let mut j: usize = 0;
    while j < t.len()
        invariant
            j <= t@.len(),
            middle@ == seq![' ', ' '] + t@.take(j as int),
        decreases t@.len() - j,
    {
        middle.push(t[j]);
        j = j + 1;
        assert(middle@ =~= seq![' ', ' '] + t@.take(j as int));
    }
    middle.push(' ');
    middle.push(' ');
    assert(t@.take(t@.len() as int) =~= t@);
    let mut lines: Vec<String> = Vec::new();
    lines.push(framed('┌', &border, '┐'));
    lines.push(framed('│', &middle, '│'));
    lines.push(framed('└', &border, '┘'));
    assert(seq!['│'] + middle@ + seq!['│'] =~= seq!['│', ' ', ' '] + title@ + seq![' ', ' ', '│']);
    lines
}

} // verus!
