//! The parsed command line as the library sees it: plain flags and values,
//! and the verified assembly of the external tool's argument strings.

use vstd::prelude::*;

verus! {

/// The flake used when none is named.
pub const DEFAULT_FLAKE: &'static str = "flake:nixpkgs";

/// Every flag and value of the command line, as plain data.
#[derive(Debug)]
pub struct Cli {
    pub help: bool,
    pub history: bool,
    pub query: bool,
    pub remove: bool,
    pub sync: bool,
    pub version: bool,
    pub clean: bool,
    pub flake: Option<String>,
    pub impure: bool,
    pub info: bool,
    pub json: bool,
    pub noconfirm: bool,
    pub profile: Option<String>,
    pub quiet: bool,
    pub refresh: bool,
    pub rollback: bool,
    pub search: bool,
    pub upgrade: bool,
    pub wipe: Option<String>,
    pub packages: Vec<String>,
}

/// The ` --profile <p>` suffix a named, non-empty profile contributes.
pub open spec fn profile_suffix_spec(profile: Option<Seq<char>>) -> Seq<char> {
    match profile {
        Some(p) => if p.len() > 0 {
            " --profile "@ + p
        } else {
            Seq::empty()
        },
        None => Seq::empty(),
    }
}

/// A base command with the flags the command line asks for appended:
/// `--impure`, `--refresh`, `--quiet` or `--verbose`, and the profile.
pub open spec fn prepare_command_spec(cli: Cli, base: Seq<char>) -> Seq<char> {
    base + (if cli.impure {
        " --impure"@
    } else {
        Seq::<char>::empty()
    }) + (if cli.refresh {
        " --refresh"@
    } else {
        Seq::<char>::empty()
    }) + (if cli.quiet {
        " --quiet"@
    } else {
        " --verbose"@
    }) + profile_suffix_spec(cli.profile.deep_view())
}

impl Cli {
    /// The flake to install from: the named one, or the default.
    pub fn flake_url(&self) -> (r: &str)
        ensures
            r@ == match self.flake {
                Some(f) => f@,
                None => DEFAULT_FLAKE@,
            },
    {
        match &self.flake {
            Some(f) => f.as_str(),
            None => DEFAULT_FLAKE,
        }
    }

    /// The ` --profile <p>` suffix for the named profile, empty when none
    /// (or an empty one) is named.
    pub fn profile(&self) -> (r: String)
        ensures
            r@ == profile_suffix_spec(self.profile.deep_view()),
    {
        match &self.profile {
            Some(p) => {
                if !p.as_str().is_empty() {
                    let mut s = String::from_str(" --profile ");
                    s.append(p.as_str());
                    s
                } else {
                    let s = String::new();
                    proof {
                        assert(s@ =~= profile_suffix_spec(self.profile.deep_view()));
                    }
                    s
                }
            },
            None => {
                let s = String::new();
                proof {
                    assert(s@ =~= profile_suffix_spec(self.profile.deep_view()));
                }
                s
            },
        }
    }

    /// A base command with this command line's flags appended, as
    /// `prepare_command_spec` describes it.
    pub fn prepare_command(&self, command: &str) -> (r: String)
        ensures
            r@ == prepare_command_spec(*self, command@),
    {
        let mut cmd = command.to_owned();
        if self.impure {
            cmd.append(" --impure");
        }
        if self.refresh {
            cmd.append(" --refresh");
        }
        if self.quiet {
            cmd.append(" --quiet");
        } else {
            cmd.append(" --verbose");
        }
        let profile = self.profile();
        if !profile.as_str().is_empty() {
            cmd.append(profile.as_str());
        }
        proof {
            assert(cmd@ =~= prepare_command_spec(*self, command@));
        }
        cmd
    }
}

} // verus!
