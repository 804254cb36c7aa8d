//! Turning a command string into an argument vector: the shell-style word
//! split, and the checks around it. Spawning the process happens outside the
//! library, on the vector this module hands back.

use vstd::prelude::*;
use crate::error::Error;
use crate::strutil::{trim_spec, trim_str};

verus! {

/// What `shlex::split` returns for a given character sequence: the
/// shell-style words, or nothing for erroneous input (an unclosed quote or a
/// trailing backslash). A pure function of its input.
pub uninterp spec fn shlex_words(s: Seq<char>) -> Option<Seq<Seq<char>>>;

/// Relies on `shlex::split`: it splits a string into shell words, returning
/// `None` when the input is erroneous, as a pure function of the input.
#[verifier::external_body]
fn split_words(s: &str) -> (r: Option<Vec<String>>)
    ensures
        r.deep_view() == shlex_words(s@),
{
    shlex::split(s)
}

/// Parses a command string into its argument vector: the trimmed command is
/// split into shell words; an empty command, a malformed one, and one
/// without any word are each their own error.
pub fn parse_args(command: &str) -> (r: Result<Vec<String>, Error>)
    ensures
        match r {
            Ok(args) => trim_spec(command@).len() > 0 && shlex_words(trim_spec(command@))
                == Some(args.deep_view()) && args.deep_view().len() > 0,
            Err(e) => (trim_spec(command@).len() == 0 || shlex_words(trim_spec(command@)) is None
                || shlex_words(trim_spec(command@)) == Some(Seq::<Seq<char>>::empty())) && e is Unknown,
        },
{
    let trimmed = trim_str(command);
    if trimmed.is_empty() {
        return Err(
            Error::Unknown { code: 1, message: String::from_str("Command was empty") },
        );
    }
    let words = split_words(trimmed);
    match words {
        None => Err(
            Error::Unknown {
                code: 1,
                message: String::from_str("malformed command, cannot be parsed"),
            },
        ),
        Some(args) => {
            if args.is_empty() {
                proof {
                    assert(args.deep_view() =~= Seq::<Seq<char>>::empty());
                }
                return Err(
                    Error::Unknown { code: 1, message: String::from_str("Command was empty") },
                );
            }
            Ok(args)
        },
    }
}

} // verus!
