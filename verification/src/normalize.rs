//! The line normalizer: removes terminal escape/style sequences and trims
//! surrounding whitespace, so that the parsers downstream only ever see plain
//! text.

use vstd::prelude::*;
use crate::strutil::{trim_spec, trim_str};

verus! {

/// What `fast_strip_ansi::strip_ansi_string` returns for a given character
/// sequence. The stripping is a pure function of its input; its exact value
/// is not restated here.
pub uninterp spec fn ansi_stripped(s: Seq<char>) -> Seq<char>;

/// A character that the escape-sequence stripper passes through untouched:
/// ordinary text, tabs and line breaks, but no other control characters.
pub open spec fn is_plain_char(c: char) -> bool {
    c == '\t' || c == '\n' || c == '\r' || (c as u32 >= 0x20 && c as u32 != 0x7f)
}

pub open spec fn all_plain(s: Seq<char>) -> bool {
    forall|i: int| 0 <= i < s.len() ==> is_plain_char(#[trigger] s[i])
}

/// Relies on `fast_strip_ansi::strip_ansi_string`: it removes ANSI
/// escape/style sequences, is a pure function of the input, and returns the
/// input unchanged when there is nothing to strip (its parser consumes only
/// escape sequences, `C0` control characters and `DEL`).
#[verifier::external_body]
pub(crate) fn strip_ansi(s: &str) -> (r: String)
    ensures
        r@ == ansi_stripped(s@),
        all_plain(s@) ==> r@ == s@,
{
    fast_strip_ansi::strip_ansi_string(s).into_owned()
}

/// A normalized line: escape sequences stripped, then whitespace trimmed from
/// both ends. Normalizing a line that is already plain and trimmed returns it
/// unchanged.
pub fn normalize_line(line: &str) -> (r: String)
    ensures
        r@ == trim_spec(ansi_stripped(line@)),
        all_plain(line@) && trim_spec(line@) == line@ ==> r@ == line@,
{
    let stripped = strip_ansi(line);
    let trimmed = trim_str(stripped.as_str());
    trimmed.to_owned()
}

} // verus!
