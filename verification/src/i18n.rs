//! Display languages, and the choice of one from the system locale.

use vstd::prelude::*;
use crate::text::chars_of;

verus! {

/// The language in which labels are shown.
#[derive(Debug, Clone, Copy, PartialEq, Eq, Structural)]
pub enum Lang {
    /// Simplified Chinese.
    Zh,
    /// English.
    En,
}

/// `c` is the letter `lower` in either case.
pub open spec fn is_letter(c: char, lower: char, upper: char) -> bool {
    c == lower || c == upper
}

/// The language a locale name (such as `zh_CN.UTF-8` or `en-US`) asks for:
/// Chinese when its language code is `zh` (in either case), English otherwise.
pub open spec fn lang_of_locale(locale: Seq<char>) -> Lang {
    if locale.len() >= 2 && is_letter(locale[0], 'z', 'Z') && is_letter(locale[1], 'h', 'H') && (
    locale.len() == 2 || !(('a' <= locale[2] && locale[2] <= 'z') || ('A' <= locale[2] && locale[2]
        <= 'Z'))) {
        Lang::Zh
    } else {
        Lang::En
    }
}

/// Chooses the display language from a locale name (see [`lang_of_locale`]).
pub fn lang_from_locale(locale: &str) -> (lang: Lang)
    ensures
        lang == lang_of_locale(locale@),
{
    let cs = chars_of(locale);
    if cs.len() >= 2 && (cs[0] == 'z' || cs[0] == 'Z') && (cs[1] == 'h' || cs[1] == 'H') {
        if cs.len() == 2 {
            return Lang::Zh;
        }
        let c = cs[2];
        if ('a' <= c && c <= 'z') || ('A' <= c && c <= 'Z') {
            Lang::En
        } else {
            Lang::Zh
        }
    } else {
        Lang::En
    }
}

/// Reads a `--lang` value: `zh` or `en` (in either case); none for anything else.
pub open spec fn lang_of_name(name: Seq<char>) -> Option<Lang> {
    if name.len() == 2 && is_letter(name[0], 'z', 'Z') && is_letter(name[1], 'h', 'H') {
        Some(Lang::Zh)
    } else if name.len() == 2 && is_letter(name[0], 'e', 'E') && is_letter(name[1], 'n', 'N') {
        Some(Lang::En)
    } else {
        None
    }
}

/// Parses the language named on the command line (see [`lang_of_name`]).
pub fn parse_lang(name: &str) -> (lang: Option<Lang>)
    ensures
        lang == lang_of_name(name@),
{
    let cs = chars_of(name);
    if cs.len() != 2 {
        return None;
    }
    if (cs[0] == 'z' || cs[0] == 'Z') && (cs[1] == 'h' || cs[1] == 'H') {
        Some(Lang::Zh)
    } else if (cs[0] == 'e' || cs[0] == 'E') && (cs[1] == 'n' || cs[1] == 'N') {
        Some(Lang::En)
    } else {
        None
    }
}

} // verus!
