//! The error type shared by the whole library, with its user-visible message
//! and the process exit code each kind carries.

use vstd::prelude::*;
use crate::strutil::join_spec;

verus! {

/// Everything that can go wrong across the library's operations.
#[derive(Debug)]
pub enum Error {
    Unknown { code: i32, message: String },
    UnknownOption { option: String },
    InvalidOption { option: String, conflicts_with: Option<String> },
    NotSpecified { kind: String },
    CommandFailed { code: i32 },
    FailedRollback,
    FailedJsonSerialization,
    NoPackageFound,
}

/// The message text an error displays; the variants without a message of
/// their own display nothing.
pub open spec fn message_spec(e: Error) -> Seq<char> {
    match e {
        Error::Unknown { code, message } => message@,
        Error::FailedRollback => "failed to rollback versions"@,
        Error::NoPackageFound => "no package(s) found"@,
        Error::FailedJsonSerialization => "failed to serialize output"@,
        Error::NotSpecified { kind } => "no "@ + kind@ + " specified (use -h for help)"@,
        Error::UnknownOption { option } => "unrecognized option '"@ + option@
            + "' (use -h for help)"@,
        Error::InvalidOption { option, conflicts_with } => match conflicts_with {
            Option::None => "invalid option: '"@ + option@ + "' (use -h for help)"@,
            Option::Some(conflict) => "invalid option: '"@ + option@ + "' and '--"@ + conflict@
                + "' may not be used together"@,
        },
        Error::CommandFailed { code } => ""@,
    }
}

impl Error {
    /// The user-visible message for this error.
    pub fn message(&self) -> (r: String)
        ensures
            r@ == message_spec(*self),
    {
        match self {
            Error::Unknown { code: _, message } => message.clone(),
            Error::FailedRollback => String::from_str("failed to rollback versions"),
            Error::NoPackageFound => String::from_str("no package(s) found"),
            Error::FailedJsonSerialization => String::from_str("failed to serialize output"),
            Error::NotSpecified { kind } => {
                let mut s = String::from_str("no ");
                s.append(kind.as_str());
                s.append(" specified (use -h for help)");
                s
            },
            Error::UnknownOption { option } => {
                let mut s = String::from_str("unrecognized option '");
                s.append(option.as_str());
                s.append("' (use -h for help)");
                s
            },
            Error::InvalidOption { option, conflicts_with } => {
                match conflicts_with {
                    Option::None => {
                        let mut s = String::from_str("invalid option: '");
                        s.append(option.as_str());
                        s.append("' (use -h for help)");
                        s
                    },
                    Option::Some(conflict) => {
                        let mut s = String::from_str("invalid option: '");
                        s.append(option.as_str());
                        s.append("' and '--");
                        s.append(conflict.as_str());
                        s.append("' may not be used together");
                        s
                    },
                }
            },
            Error::CommandFailed { code: _ } => {
                let s = String::new();
                proof {
                    reveal_strlit("");
                    assert(s@ =~= ""@);
                }
                s
            },
        }
    }

    /// The process exit code this error carries: the command's own code where
    /// one exists, otherwise 1.
    pub fn exit_code(&self) -> (r: i32)
        ensures
            r == match *self {
                Error::CommandFailed { code } => code,
                Error::Unknown { code, .. } => code,
                _ => 1,
            },
    {
        match self {
            Error::CommandFailed { code } => *code,
            Error::Unknown { code, message: _ } => *code,
            _ => 1,
        }
    }
}

} // verus!
