//! The operations of the front end: the operation table, the pure decision
//! and formatting logic of each operation, and the assembly of the external
//! tool's command strings. Spawning those commands happens outside the
//! library.

use vstd::prelude::*;
use crate::cli::{Cli, DEFAULT_FLAKE, prepare_command_spec};
use crate::error::Error;
use crate::history::HistoryPackage;
use crate::normalize::{ansi_stripped, strip_ansi};
use crate::strutil::{
    all_digits, contains_str, contains_sub, digits_val, ends_with_str, join_spec, join_strs,
    lines_spec, parse_usize, split_lines, split_tokens, starts_with_str, str_eq, tokens_spec,
};
use crate::package::last_token;

verus! {

/// The name this front end goes by.
pub const CLI_NAME: &'static str = "nixpm";

/// The front end's own version.
pub const CLI_VERSION: &'static str = "0.1.0";

/// The operations the front end offers.
#[derive(Debug, Clone, Copy, PartialEq, Eq, Structural)]
pub enum Operations {
    Sync,
    Remove,
    Query,
    Version,
    Help,
    History,
}

/// The operations in their display order.
pub open spec fn operations_order() -> Seq<Operations> {
    seq![
        Operations::Help,
        Operations::History,
        Operations::Query,
        Operations::Remove,
        Operations::Sync,
        Operations::Version,
    ]
}

pub open spec fn op_short_spec(op: Operations) -> char {
    match op {
        Operations::Sync => 'S',
        Operations::Remove => 'R',
        Operations::Query => 'Q',
        Operations::Version => 'V',
        Operations::History => 'H',
        Operations::Help => 'h',
    }
}

pub open spec fn op_long_spec(op: Operations) -> Seq<char> {
    match op {
        Operations::Sync => "sync"@,
        Operations::Remove => "remove"@,
        Operations::Query => "query"@,
        Operations::Version => "version"@,
        Operations::History => "history"@,
        Operations::Help => "help"@,
    }
}

pub open spec fn op_arguments_spec(op: Operations) -> Seq<char> {
    match op {
        Operations::Sync => "[options] <package(s)>"@,
        Operations::Query => "[options] <package(s)>"@,
        Operations::Remove => "<package(s)>"@,
        Operations::History => "[options] <rollback generation>"@,
        _ => ""@,
    }
}

/// The usage text of an operation: its flag pair, then its arguments.
pub open spec fn op_usage_spec(op: Operations) -> Seq<char> {
    let flags = "{-"@ + seq![op_short_spec(op)] + " --"@ + op_long_spec(op) + "}"@;
    if op_arguments_spec(op).len() == 0 {
        flags
    } else {
        flags + " "@ + op_arguments_spec(op)
    }
}

impl Operations {
    /// All operations, in display order.
    pub fn all() -> (r: Vec<Operations>)
        ensures
            r@ == operations_order(),
    {
        let mut v: Vec<Operations> = Vec::new();
        v.push(Operations::Help);
        v.push(Operations::History);
        v.push(Operations::Query);
        v.push(Operations::Remove);
        v.push(Operations::Sync);
        v.push(Operations::Version);
        proof {
            assert(v@ =~= operations_order());
        }
        v
    }

    /// The operation's one-letter flag.
    pub fn short(&self) -> (r: char)
        ensures
            r == op_short_spec(*self),
    {
        match self {
            Operations::Sync => 'S',
            Operations::Remove => 'R',
            Operations::Query => 'Q',
            Operations::Version => 'V',
            Operations::History => 'H',
            Operations::Help => 'h',
        }
    }

    /// The operation's long flag.
    pub fn long(&self) -> (r: &'static str)
        ensures
            r@ == op_long_spec(*self),
    {
        match self {
            Operations::Sync => "sync",
            Operations::Remove => "remove",
            Operations::Query => "query",
            Operations::Version => "version",
            Operations::History => "history",
            Operations::Help => "help",
        }
    }

    /// The operation's argument synopsis.
    pub fn arguments(&self) -> (r: &'static str)
        ensures
            r@ == op_arguments_spec(*self),
    {
        match self {
            Operations::Sync => "[options] <package(s)>",
            Operations::Query => "[options] <package(s)>",
            Operations::Remove => "<package(s)>",
            Operations::History => "[options] <rollback generation>",
            _ => "",
        }
    }

    /// The usage text of the operation, as `op_usage_spec` describes it.
    pub fn usage(&self) -> (r: String)
        ensures
            r@ == op_usage_spec(*self),
    {
        proof {
            reveal_strlit("{-S --sync}");
            reveal_strlit("{-R --remove}");
            reveal_strlit("{-Q --query}");
            reveal_strlit("{-V --version}");
            reveal_strlit("{-H --history}");
            reveal_strlit("{-h --help}");
            reveal_strlit("{-");
            reveal_strlit(" --");
            reveal_strlit("}");
            reveal_strlit("sync");
            reveal_strlit("remove");
            reveal_strlit("query");
            reveal_strlit("version");
            reveal_strlit("history");
            reveal_strlit("help");
        }
        let flags: &str = match self {
            Operations::Sync => "{-S --sync}",
            Operations::Remove => "{-R --remove}",
            Operations::Query => "{-Q --query}",
            Operations::Version => "{-V --version}",
            Operations::History => "{-H --history}",
            Operations::Help => "{-h --help}",
        };
        proof {
            assert(flags@ =~= "{-"@ + seq![op_short_spec(*self)] + " --"@ + op_long_spec(*self)
                + "}"@);
        }
        let args = self.arguments();
        if args.is_empty() {
            flags.to_owned()
        } else {
            let mut s = flags.to_owned();
            s.append(" ");
            s.append(args);
            s
        }
    }
}

// ---------------------------------------------------------------------------
// The listing text: grouping `nix profile list` output into entries.
// ---------------------------------------------------------------------------

/// Grouping the informational listing output: lines accumulate into a block
/// (each with a newline appended); an empty line closes the block, even an
/// empty one; a non-empty trailing block is kept.
pub open spec fn info_blocks(
    lines: Seq<Seq<char>>,
    cur: Seq<char>,
    acc: Seq<Seq<char>>,
) -> Seq<Seq<char>>
    decreases lines.len(),
{
    if lines.len() == 0 {
        if cur.len() > 0 {
            acc.push(cur)
        } else {
            acc
        }
    } else if lines.first().len() == 0 {
        info_blocks(lines.drop_first(), Seq::empty(), acc.push(cur))
    } else {
        info_blocks(lines.drop_first(), cur + lines.first() + seq!['\n'], acc)
    }
}

/// Collecting the plain listing output: every line that mentions `Name`
/// contributes its last whitespace token, with escape sequences stripped.
pub open spec fn name_entries(lines: Seq<Seq<char>>, acc: Seq<Seq<char>>) -> Seq<Seq<char>>
    decreases lines.len(),
{
    if lines.len() == 0 {
        acc
    } else if contains_sub(lines.first(), "Name"@) && tokens_spec(lines.first()).len() > 0 {
        name_entries(lines.drop_first(), acc.push(ansi_stripped(last_token(lines.first()))))
    } else {
        name_entries(lines.drop_first(), acc)
    }
}

/// Groups the raw text of a listing into package entries: whole info blocks
/// when `with_info` is set, otherwise the package names alone.
pub fn list_packages(with_info: bool, output: &str) -> (r: Vec<String>)
    ensures
        with_info ==> r.deep_view() == info_blocks(
            lines_spec(output@),
            Seq::empty(),
            Seq::empty(),
        ),
        !with_info ==> r.deep_view() == name_entries(lines_spec(output@), Seq::empty()),
{
    let lines = split_lines(output);
    let ghost gl = lines_spec(output@);
    let mut packages: Vec<String> = Vec::new();
    let n = lines.len();
    let mut i: usize = 0;
    if with_info {
        let mut package = String::new();
        proof {
            assert(gl.skip(0) =~= gl);
            assert(package@ =~= Seq::<char>::empty());
            assert(packages.deep_view() =~= Seq::<Seq<char>>::empty());
        }
        while i < n
            invariant
                0 <= i <= n,
                n == lines@.len(),
                lines.deep_view() == gl,
                info_blocks(gl, Seq::empty(), Seq::empty()) == info_blocks(
                    gl.skip(i as int),
                    package@,
                    packages.deep_view(),
                ),
            decreases n - i,
        {
            proof {
                assert(gl.skip(i as int).first() == lines@[i as int]@);
                assert(gl.skip(i as int).drop_first() =~= gl.skip(i + 1));
            }
            if lines[i].as_str().is_empty() {
                let ghost accv = packages.deep_view();
                let ghost curv = package@;
                let done = package;
                package = String::new();
                packages.push(done);
                proof {
                    assert(packages.deep_view() =~= accv.push(curv));
                    assert(package@ =~= Seq::<char>::empty());
                }
            } else {
                let ghost curv = package@;
                package.append(lines[i].as_str());
                package.append("\n");
                proof {
                    reveal_strlit("\n");
                    assert("\n"@ =~= seq!['\n']);
                    assert(package@ =~= curv + gl.skip(i as int).first() + seq!['\n']);
                }
            }
            i += 1;
        }
        proof {
            assert(gl.skip(n as int) =~= Seq::<Seq<char>>::empty());
        }
        if !package.as_str().is_empty() {
            packages.push(package);
        }
        packages
    } else {
        proof {
            assert(gl.skip(0) =~= gl);
            assert(packages.deep_view() =~= Seq::<Seq<char>>::empty());
        }
        while i < n
            invariant
                0 <= i <= n,
                n == lines@.len(),
                lines.deep_view() == gl,
                name_entries(gl, Seq::empty()) == name_entries(
                    gl.skip(i as int),
                    packages.deep_view(),
                ),
            decreases n - i,
        {
            proof {
                assert(gl.skip(i as int).first() == lines@[i as int]@);
                assert(gl.skip(i as int).drop_first() =~= gl.skip(i + 1));
            }
            if contains_str(lines[i].as_str(), "Name") {
                let toks = split_tokens(lines[i].as_str());
                match toks.last() {
                    Some(t) => {
                        let stripped = strip_ansi(t.as_str());
                        let ghost accv = packages.deep_view();
                        proof {
                            assert(toks.deep_view().last() == toks@[toks@.len() - 1]@);
                            assert(stripped@ == ansi_stripped(last_token(gl.skip(i as int)[0])));
                        }
                        packages.push(stripped);
                        proof {
                            assert(packages.deep_view() =~= accv.push(
                                ansi_stripped(last_token(gl.skip(i as int)[0])),
                            ));
                        }
                    },
                    None => {},
                }
            }
            i += 1;
        }
        proof {
            assert(gl.skip(n as int) =~= Seq::<Seq<char>>::empty());
        }
        packages
    }
}


// ---------------------------------------------------------------------------
// Searching listing entries by pattern.
// ---------------------------------------------------------------------------

/// The first line of the block that begins with the prefix.
pub open spec fn first_pref_line(lines: Seq<Seq<char>>, pre: Seq<char>) -> Option<Seq<char>>
    decreases lines.len(),
{
    if lines.len() == 0 {
        None
    } else if pre.len() <= lines.first().len() && lines.first().take(pre.len() as int) == pre {
        Some(lines.first())
    } else {
        first_pref_line(lines.drop_first(), pre)
    }
}

/// The last whitespace token of the block's first line with the given
/// prefix, empty when the block has no such line.
pub open spec fn block_field(pkg: Seq<char>, pre: Seq<char>) -> Seq<char> {
    match first_pref_line(lines_spec(pkg), pre) {
        Some(l) => last_token(l),
        None => Seq::empty(),
    }
}

/// Some pattern occurs in the haystack.
pub open spec fn any_contains(patterns: Seq<Seq<char>>, hay: Seq<char>) -> bool {
    exists|i: int| 0 <= i < patterns.len() && contains_sub(hay, patterns[i])
}

/// Whether a listing entry survives a pattern search: an entry without a
/// name line matches on its whole text; one with a name but no flake
/// attribute is dropped; otherwise the patterns are sought in the name and
/// the attribute.
pub open spec fn keeps_entry(pkg: Seq<char>, patterns: Seq<Seq<char>>) -> bool {
    let name = block_field(pkg, "Name:"@);
    if name.len() == 0 {
        any_contains(patterns, pkg)
    } else {
        let attr = block_field(pkg, "Flake attribute:"@);
        if attr.len() == 0 {
            false
        } else {
            any_contains(patterns, name) || any_contains(patterns, attr)
        }
    }
}

/// The entries that survive the search, in order.
pub open spec fn kept_entries(values: Seq<Seq<char>>, patterns: Seq<Seq<char>>) -> Seq<Seq<char>>
    decreases values.len(),
{
    if values.len() == 0 {
        Seq::empty()
    } else if keeps_entry(values.first(), patterns) {
        seq![values.first()] + kept_entries(values.drop_first(), patterns)
    } else {
        kept_entries(values.drop_first(), patterns)
    }
}

/// The block's field under the given prefix: the last token of its first
/// line beginning with that prefix.
fn block_field_exec(pkg: &str, pre: &str) -> (r: String)
    ensures
        r@ == block_field(pkg@, pre@),
{
    let lines = split_lines(pkg);
    let ghost gl = lines_spec(pkg@);
    let n = lines.len();
    let mut i: usize = 0;
    proof {
        assert(gl.skip(0) =~= gl);
    }
    while i < n
        invariant
            0 <= i <= n,
            n == lines@.len(),
            lines.deep_view() == gl,
            gl == lines_spec(pkg@),
            first_pref_line(gl, pre@) == first_pref_line(gl.skip(i as int), pre@),
        decreases n - i,
    {
        proof {
            assert(gl.skip(i as int).first() == lines@[i as int]@);
            assert(gl.skip(i as int).drop_first() =~= gl.skip(i + 1));
        }
        if starts_with_str(lines[i].as_str(), pre) {
            let toks = split_tokens(lines[i].as_str());
            match toks.last() {
                Some(t) => {
                    proof {
                        assert(toks.deep_view().last() == toks@[toks@.len() - 1]@);
                    }
                    return t.clone();
                },
                None => {
                    let e = String::new();
                    proof {
                        assert(e@ =~= last_token(gl.skip(i as int).first()));
                    }
                    return e;
                },
            }
        }
        i += 1;
    }
    proof {
        assert(gl.skip(n as int) =~= Seq::<Seq<char>>::empty());
    }
    let e = String::new();
    proof {
        assert(e@ =~= Seq::<char>::empty());
    }
    e
}

/// Does any pattern occur in the haystack?
fn any_contains_exec(patterns: &Vec<String>, hay: &str) -> (r: bool)
    ensures
        r == any_contains(patterns.deep_view(), hay@),
{
    let n = patterns.len();
    let mut i: usize = 0;
    while i < n
        invariant
            0 <= i <= n,
            n == patterns@.len(),
            forall|j: int| 0 <= j < i ==> !contains_sub(hay@, #[trigger] patterns.deep_view()[j]),
        decreases n - i,
    {
        if contains_str(hay, patterns[i].as_str()) {
            proof {
                assert(contains_sub(hay@, patterns.deep_view()[i as int]));
            }
            return true;
        }
        i += 1;
    }
    false
}

/// Does one listing entry survive the search, as `keeps_entry` describes it?
pub fn entry_matches(pkg: &str, patterns: &Vec<String>) -> (r: bool)
    ensures
        r == keeps_entry(pkg@, patterns.deep_view()),
{
    let name = block_field_exec(pkg, "Name:");
    if name.as_str().is_empty() {
        any_contains_exec(patterns, pkg)
    } else {
        let attr = block_field_exec(pkg, "Flake attribute:");
        if attr.as_str().is_empty() {
            false
        } else {
            any_contains_exec(patterns, name.as_str()) || any_contains_exec(
                patterns,
                attr.as_str(),
            )
        }
    }
}

/// Keeps exactly the listing entries that match the patterns, in order.
pub fn pattern_match(values: &mut Vec<String>, patterns: &Vec<String>)
    ensures
        final(values).deep_view() == kept_entries(old(values).deep_view(), patterns.deep_view()),
{
    let mut rest = values.split_off(0);
    let ghost olds = old(values).deep_view();
    proof {
        assert(values.deep_view() =~= Seq::<Seq<char>>::empty());
        assert(rest.deep_view() == olds);
    }
    while rest.len() > 0
        invariant
            kept_entries(olds, patterns.deep_view()) == values.deep_view() + kept_entries(
                rest.deep_view(),
                patterns.deep_view(),
            ),
        decreases rest@.len(),
    {
        let ghost rv = rest.deep_view();
        let entry = rest.remove(0);
        proof {
            assert(rv.first() == entry@);
            assert(rv.drop_first() =~= rest.deep_view());
        }
        if entry_matches(entry.as_str(), patterns) {
            let ghost acc = values.deep_view();
            values.push(entry);
            proof {
                assert(values.deep_view() =~= acc.push(rv.first()));
                assert(acc.push(rv.first()) =~= acc + seq![rv.first()]);
            }
        }
    }
    proof {
        assert(rest.deep_view() =~= Seq::<Seq<char>>::empty());
    }
}


// ---------------------------------------------------------------------------
// Display formatting and command assembly for the operations.
// ---------------------------------------------------------------------------

/// A version slot as the history display shows it: the version itself, or
/// the unset mark.
pub open spec fn version_or_unset(v: Option<Seq<char>>) -> Seq<char> {
    match v {
        Some(s) => s,
        None => "\u{2205}"@,
    }
}

/// One change as the history display shows it:
/// `<url>#<attribute>: <previous> -> <current>`, with the unset mark for an
/// absent version.
pub fn format_change(change: &HistoryPackage) -> (r: String)
    ensures
        r@ == change.flake_url@ + "#"@ + change.flake_attribute@ + ": "@ + version_or_unset(
            change.previous_version.deep_view(),
        ) + " -> "@ + version_or_unset(change.current_version.deep_view()),
{
    let mut s = change.flake_url.clone();
    s.append("#");
    s.append(change.flake_attribute.as_str());
    s.append(": ");
    match &change.previous_version {
        Some(p) => s.append(p.as_str()),
        None => s.append("\u{2205}"),
    }
    s.append(" -> ");
    match &change.current_version {
        Some(c) => s.append(c.as_str()),
        None => s.append("\u{2205}"),
    }
    s
}

/// The front end's version banner: its own name and version, then what the
/// external tool reported of itself.
pub fn version_banner(tool_version: &str) -> (r: String)
    ensures
        r@ == CLI_NAME@ + " "@ + CLI_VERSION@ + " - "@ + tool_version@,
{
    let mut s = String::from_str(CLI_NAME);
    s.append(" ");
    s.append(CLI_VERSION);
    s.append(" - ");
    s.append(tool_version);
    s
}

/// The `--profile <p>` argument (no leading space) a named, non-empty
/// profile contributes to a plain listing or history command.
pub fn profile_argument(profile: &Option<String>) -> (r: String)
    ensures
        r@ == match profile.deep_view() {
            Some(p) => if p.len() > 0 {
                "--profile "@ + p
            } else {
                p
            },
            None => Seq::<char>::empty(),
        },
{
    match profile {
        Some(p) => {
            if !p.as_str().is_empty() {
                let mut s = String::from_str("--profile ");
                s.append(p.as_str());
                s
            } else {
                p.clone()
            }
        },
        None => {
            let s = String::new();
            proof {
                assert(s@ =~= Seq::<char>::empty());
            }
            s
        },
    }
}

/// The search command: the flake, the optional `--json`, and the patterns,
/// space-separated; without patterns there is nothing to search for.
pub fn search_command(cli: &Cli) -> (r: Result<String, Error>)
    ensures
        match r {
            Ok(cmd) => cli.packages@.len() > 0 && cmd@ == "nix search "@ + (match cli.flake {
                Some(f) => f@,
                None => DEFAULT_FLAKE@,
            }) + " "@ + (if cli.json {
                "--json"@
            } else {
                Seq::<char>::empty()
            }) + " -- "@ + join_spec(cli.packages.deep_view(), " "@),
            Err(e) => cli.packages@.len() == 0 && (e matches Error::NotSpecified { kind }
                && kind@ == "pattern(s)"@),
        },
{
    if cli.packages.is_empty() {
        return Err(Error::NotSpecified { kind: String::from_str("pattern(s)") });
    }
    let mut s = String::from_str("nix search ");
    s.append(cli.flake_url());
    s.append(" ");
    if cli.json {
        s.append("--json");
    }
    s.append(" -- ");
    let joined = join_strs(&cli.packages, " ");
    s.append(joined.as_str());
    proof {
        if cli.json {
            assert(s@ =~= "nix search "@ + (match cli.flake {
                Some(f) => f@,
                None => DEFAULT_FLAKE@,
            }) + " "@ + "--json"@ + " -- "@ + join_spec(cli.packages.deep_view(), " "@));
        } else {
            assert(s@ =~= "nix search "@ + (match cli.flake {
                Some(f) => f@,
                None => DEFAULT_FLAKE@,
            }) + " "@ + Seq::<char>::empty() + " -- "@ + join_spec(
                cli.packages.deep_view(),
                " "@,
            ));
        }
    }
    Ok(s)
}

/// The upgrade command: base flags as asked for, then the packages.
pub fn upgrade_command(cli: &Cli, packages: &Vec<String>) -> (r: String)
    ensures
        r@ == "nix profile upgrade --verbose"@ + (if cli.impure {
            " --impure"@
        } else {
            Seq::<char>::empty()
        }) + (if cli.refresh {
            " --refresh"@
        } else {
            Seq::<char>::empty()
        }) + " -- "@ + join_spec(packages.deep_view(), " "@),
{
    let mut s = String::from_str("nix profile upgrade --verbose");
    if cli.impure {
        s.append(" --impure");
    }
    if cli.refresh {
        s.append(" --refresh");
    }
    s.append(" -- ");
    let joined = join_strs(packages, " ");
    s.append(joined.as_str());
    proof {
        if cli.impure {
            assert(s@ =~= "nix profile upgrade --verbose"@ + " --impure"@ + (if cli.refresh {
                " --refresh"@
            } else {
                Seq::<char>::empty()
            }) + " -- "@ + join_spec(packages.deep_view(), " "@));
        } else {
            assert(s@ =~= "nix profile upgrade --verbose"@ + Seq::<char>::empty() + (
            if cli.refresh {
                " --refresh"@
            } else {
                Seq::<char>::empty()
            }) + " -- "@ + join_spec(packages.deep_view(), " "@));
        }
    }
    s
}

/// The wipe-history command: the prepared base, then the age bound when one
/// was given.
pub fn wipe_history_command(cli: &Cli) -> (r: String)
    ensures
        r@ == prepare_command_spec(*cli, "nix profile wipe-history"@) + (
        match cli.wipe.deep_view() {
            Some(age) => if age.len() > 0 {
                " --older-than "@ + age
            } else {
                Seq::<char>::empty()
            },
            None => Seq::<char>::empty(),
        }),
{
    let mut s = cli.prepare_command("nix profile wipe-history");
    match &cli.wipe {
        Some(age) => {
            if !age.as_str().is_empty() {
                s.append(" --older-than ");
                s.append(age.as_str());
            } else {
                proof {
                    assert(s@ =~= s@ + Seq::<char>::empty());
                }
            }
        },
        None => {
            proof {
                assert(s@ =~= s@ + Seq::<char>::empty());
            }
        },
    }
    s
}

/// The rollback command: the prepared base, then the target generation.
pub fn rollback_command(cli: &Cli, target: &str) -> (r: String)
    ensures
        r@ == prepare_command_spec(*cli, "nix profile rollback"@) + " --to "@ + target@,
{
    let mut s = cli.prepare_command("nix profile rollback");
    s.append(" --to ");
    s.append(target);
    s
}

/// The add command for one package: the prepared base, then the flake
/// target.
pub fn add_command(cli: &Cli, flake_url: &str, package: &str) -> (r: String)
    ensures
        r@ == prepare_command_spec(*cli, "nix profile add"@) + " -- "@ + flake_url@ + "#"@
            + package@,
{
    let mut s = cli.prepare_command("nix profile add");
    s.append(" -- ");
    s.append(flake_url);
    s.append("#");
    s.append(package);
    s
}

/// The remove command: the prepared base, then the packages.
pub fn remove_command(cli: &Cli, packages: &Vec<String>) -> (r: String)
    ensures
        r@ == prepare_command_spec(*cli, "nix profile remove"@) + " -- "@ + join_spec(
            packages.deep_view(),
            " "@,
        ),
{
    let mut s = cli.prepare_command("nix profile remove");
    s.append(" -- ");
    let joined = join_strs(packages, " ");
    s.append(joined.as_str());
    s
}

/// A package shown with its version, `<name>-<version>`.
pub fn format_target(name: &str, version: &str) -> (r: String)
    ensures
        r@ == name@ + "-"@ + version@,
{
    let mut s = name.to_owned();
    s.append("-");
    s.append(version);
    s
}

/// An install target shown in full, `<url>#<attribute>-<version>`.
pub fn format_flake_target(url: &str, attribute: &str, version: &str) -> (r: String)
    ensures
        r@ == url@ + "#"@ + attribute@ + "-"@ + version@,
{
    let mut s = url.to_owned();
    s.append("#");
    s.append(attribute);
    s.append("-");
    s.append(version);
    s
}

/// The offline evaluation command for a package's latest version.
pub fn eval_version_command(flake: &str, attribute: &str) -> (r: String)
    ensures
        r@ == "nix eval --raw --offline -- "@ + flake@ + "#"@ + attribute@ + ".version"@,
{
    let mut s = String::from_str("nix eval --raw --offline -- ");
    s.append(flake);
    s.append("#");
    s.append(attribute);
    s.append(".version");
    s
}

/// An installed package is up to date when its version ends with the latest
/// one and no refresh was asked for.
pub fn is_up_to_date(installed_version: &str, latest: &str, refresh: bool) -> (r: bool)
    ensures
        r == (latest@.len() <= installed_version@.len() && installed_version@.skip(
            installed_version@.len() - latest@.len(),
        ) == latest@ && !refresh),
{
    ends_with_str(installed_version, latest) && !refresh
}

/// The synchronisation targets: the named packages; with none named, the
/// `default` attribute of a non-default flake, and an error on the default
/// flake, where there is nothing to install.
pub fn sync_targets(packages: Vec<String>, flake_url: &str) -> (r: Result<Vec<String>, Error>)
    ensures
        match r {
            Ok(targets) => (packages@.len() > 0 && targets == packages) || (packages@.len() == 0
                && flake_url@ != DEFAULT_FLAKE@ && targets.deep_view() == seq!["default"@]),
            Err(e) => packages@.len() == 0 && flake_url@ == DEFAULT_FLAKE@ && (e matches
                Error::NotSpecified { kind } && kind@ == "target(s)"@),
        },
{
    if packages.is_empty() {
        if str_eq(flake_url, DEFAULT_FLAKE) {
            return Err(Error::NotSpecified { kind: String::from_str("target(s)") });
        }
        let mut targets: Vec<String> = Vec::new();
        targets.push(String::from_str("default"));
        proof {
            assert(targets.deep_view() =~= seq!["default"@]);
        }
        return Ok(targets);
    }
    Ok(packages)
}

/// Whether a key stands among the installed names.
pub open spec fn among(installed: Seq<Seq<char>>, key: Seq<char>) -> bool {
    exists|i: int| 0 <= i < installed.len() && installed[i] == key
}

/// The requested targets that are not installed, in request order.
pub open spec fn missing_spec(requested: Seq<Seq<char>>, installed: Seq<Seq<char>>) -> Seq<
    Seq<char>,
>
    decreases requested.len(),
{
    if requested.len() == 0 {
        Seq::empty()
    } else if among(installed, requested.first()) {
        missing_spec(requested.drop_first(), installed)
    } else {
        seq![requested.first()] + missing_spec(requested.drop_first(), installed)
    }
}

/// Is this name among the installed ones?
fn is_installed(installed: &Vec<String>, key: &str) -> (r: bool)
    ensures
        r == among(installed.deep_view(), key@),
{
    let n = installed.len();
    let mut i: usize = 0;
    while i < n
        invariant
            0 <= i <= n,
            n == installed@.len(),
            forall|j: int| 0 <= j < i ==> #[trigger] installed.deep_view()[j] != key@,
        decreases n - i,
    {
        if str_eq(installed[i].as_str(), key) {
            proof {
                assert(installed.deep_view()[i as int] == key@);
            }
            return true;
        }
        i += 1;
    }
    false
}

/// The requested targets that are not installed, in request order.
pub fn missing_targets(requested: &Vec<String>, installed: &Vec<String>) -> (r: Vec<String>)
    ensures
        r.deep_view() == missing_spec(requested.deep_view(), installed.deep_view()),
{
    let mut out: Vec<String> = Vec::new();
    let n = requested.len();
    let mut i: usize = 0;
    proof {
        assert(requested.deep_view().skip(0) =~= requested.deep_view());
        assert(missing_spec(requested.deep_view(), installed.deep_view()) =~= out.deep_view()
            + missing_spec(requested.deep_view().skip(0), installed.deep_view()));
    }
    while i < n
        invariant
            0 <= i <= n,
            n == requested@.len(),
            missing_spec(requested.deep_view(), installed.deep_view()) == out.deep_view()
                + missing_spec(requested.deep_view().skip(i as int), installed.deep_view()),
        decreases n - i,
    {
        proof {
            assert(requested.deep_view().skip(i as int).first() == requested@[i as int]@);
            assert(requested.deep_view().skip(i as int).drop_first() =~= requested.deep_view().skip(
                i + 1,
            ));
        }
        if !is_installed(installed, requested[i].as_str()) {
            let ghost acc = out.deep_view();
            out.push(requested[i].clone());
            proof {
                assert(out.deep_view() =~= acc.push(requested.deep_view()[i as int]));
                assert(acc.push(requested.deep_view()[i as int]) =~= acc + seq![
                    requested.deep_view()[i as int],
                ]);
            }
        }
        i += 1;
    }
    proof {
        assert(requested.deep_view().skip(n as int) =~= Seq::<Seq<char>>::empty());
    }
    out
}

/// A history generation argument: a decimal generation number; anything
/// else is the invalid-version-number error.
pub fn parse_generation(arg: &str) -> (r: Result<usize, Error>)
    ensures
        match r {
            Ok(v) => arg@.len() > 0 && all_digits(arg@) && digits_val(arg@) == v,
            Err(e) => (arg@.len() == 0 || !all_digits(arg@) || digits_val(arg@) > usize::MAX)
                && (e matches Error::Unknown { code, .. } && code == 1),
        },
{
    match parse_usize(arg) {
        Some(v) => Ok(v),
        None => Err(
            Error::Unknown { code: 1, message: String::from_str("invalid version number") },
        ),
    }
}

/// The selection step of a query: with a search, patterns are required and
/// the entries are filtered by them; an empty result is the no-package
/// error.
pub fn query_select(packages: Vec<String>, search: bool, patterns: &Vec<String>) -> (r: Result<
    Vec<String>,
    Error,
>)
    ensures
        match r {
            Ok(kept) => (if search {
                patterns@.len() > 0 && kept.deep_view() == kept_entries(
                    packages.deep_view(),
                    patterns.deep_view(),
                )
            } else {
                kept == packages
            }) && kept.deep_view().len() > 0,
            Err(e) => match e {
                Error::NotSpecified { kind } => search && patterns@.len() == 0 && kind@
                    == "pattern(s)"@,
                Error::NoPackageFound => (if search {
                    patterns@.len() > 0 && kept_entries(
                        packages.deep_view(),
                        patterns.deep_view(),
                    ).len() == 0
                } else {
                    packages.deep_view().len() == 0
                }),
                _ => false,
            },
        },
{
    let mut packages = packages;
    if search {
        if patterns.is_empty() {
            return Err(Error::NotSpecified { kind: String::from_str("pattern(s)") });
        }
        pattern_match(&mut packages, patterns);
    }
    if packages.is_empty() {
        return Err(Error::NoPackageFound);
    }
    Ok(packages)
}


/// The overall help text, line by line: the usage banner, each operation's
/// usage, and the one option that works without an operation.
pub fn global_help_lines() -> (r: Vec<String>)
    ensures
        r@.len() == 11,
        r@[0]@ == "usage:  "@ + CLI_NAME@ + " <operation> [...]"@,
        r@[1]@ == "operations:"@,
        forall|k: int|
            0 <= k < 6 ==> #[trigger] r@[2 + k]@ == "  "@ + CLI_NAME@ + " "@ + op_usage_spec(
                operations_order()[k],
            ),
        r@[8]@ == Seq::<char>::empty(),
        r@[9]@ == "options without operations:"@,
        r@[10]@ == "  "@ + crate::options::option_line_spec(crate::options::Options::Clean),
{
    let mut out: Vec<String> = Vec::new();
    let mut banner = String::from_str("usage:  ");
    banner.append(CLI_NAME);
    banner.append(" <operation> [...]");
    out.push(banner);
    out.push(String::from_str("operations:"));
    let ops = Operations::all();
    let n = ops.len();
    let mut i: usize = 0;
    while i < n
        invariant
            0 <= i <= n,
            n == 6,
            ops@ == operations_order(),
            out@.len() == 2 + i,
            out@[0]@ == "usage:  "@ + CLI_NAME@ + " <operation> [...]"@,
            out@[1]@ == "operations:"@,
            forall|k: int|
                0 <= k < i ==> #[trigger] out@[2 + k]@ == "  "@ + CLI_NAME@ + " "@ + op_usage_spec(
                    operations_order()[k],
                ),
        decreases n - i,
    {
        let mut line = String::from_str("  ");
        line.append(CLI_NAME);
        line.append(" ");
        let u = ops[i].usage();
        line.append(u.as_str());
        out.push(line);
        i += 1;
    }
    out.push(String::new());
    out.push(String::from_str("options without operations:"));
    let mut clean_line = String::from_str("  ");
    let d = crate::options::Options::Clean.display_line();
    clean_line.append(d.as_str());
    out.push(clean_line);
    proof {
        assert(out@[8]@ =~= Seq::<char>::empty());
    }
    out
}

/// The closing hint of the overall help text.
pub fn global_help_hint() -> (r: String)
    ensures
        r@ == "use '"@ + CLI_NAME@ + " "@ + op_usage_spec(Operations::Help)
            + "' with an operation for available options"@,
{
    let mut s = String::from_str("use '");
    s.append(CLI_NAME);
    s.append(" ");
    let u = Operations::Help.usage();
    s.append(u.as_str());
    s.append("' with an operation for available options");
    s
}

} // verus!
