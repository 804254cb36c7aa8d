//! The option table: which options exist, which each operation accepts,
//! which pairs conflict, and the validation of a parsed command line against
//! all of that.

use vstd::prelude::*;
use crate::cli::Cli;
use crate::error::Error;
use crate::operations::Operations;

verus! {

/// The options the front end knows.
#[derive(Debug, Clone, Copy, PartialEq, Eq, Structural)]
pub enum Options {
    Clean,
    Flake,
    Impure,
    Info,
    Json,
    NoConfirm,
    Profile,
    Quiet,
    Refresh,
    Rollback,
    Search,
    Upgrade,
    Wipe,
}

/// The options in their fixed enumeration order.
pub open spec fn option_order() -> Seq<Options> {
    seq![
        Options::Clean,
        Options::Flake,
        Options::Impure,
        Options::Info,
        Options::Json,
        Options::NoConfirm,
        Options::Profile,
        Options::Quiet,
        Options::Refresh,
        Options::Rollback,
        Options::Search,
        Options::Upgrade,
        Options::Wipe,
    ]
}

/// The option's one-letter flag; a space stands for none.
pub open spec fn opt_short_spec(o: Options) -> char {
    match o {
        Options::Clean => 'c',
        Options::Refresh => 'y',
        Options::Search => 's',
        Options::Upgrade => 'u',
        Options::Info => 'i',
        Options::Quiet => 'q',
        _ => ' ',
    }
}

pub open spec fn opt_long_spec(o: Options) -> Seq<char> {
    match o {
        Options::Upgrade => "upgrade"@,
        Options::Flake => "flake"@,
        Options::Search => "search"@,
        Options::Info => "info"@,
        Options::Impure => "impure"@,
        Options::Json => "json"@,
        Options::Refresh => "refresh"@,
        Options::Clean => "clean"@,
        Options::Quiet => "quiet"@,
        Options::Profile => "profile"@,
        Options::Wipe => "wipe"@,
        Options::NoConfirm => "noconfirm"@,
        Options::Rollback => "rollback"@,
    }
}

pub open spec fn opt_arguments_spec(o: Options) -> Seq<char> {
    match o {
        Options::Flake => "<path>"@,
        Options::Profile => "<path>"@,
        Options::Search => "<pattern(s)>"@,
        Options::Wipe => "[age:<N>d]"@,
        _ => ""@,
    }
}

pub open spec fn opt_description_spec(o: Options) -> Seq<char> {
    match o {
        Options::Clean => "delete unreachable store objects"@,
        Options::Flake => "specify a new default flake to install packages from"@,
        Options::Impure => "allow access to mutable paths and repositories"@,
        Options::Info => "display useful metadata"@,
        Options::Json => "produces output in JSON format"@,
        Options::NoConfirm => "do not ask for any confirmation"@,
        Options::Profile => "the profile to operate on"@,
        Options::Quiet => "decrease the logging output"@,
        Options::Refresh => "consider all previously downloaded files out-of-date"@,
        Options::Rollback => "roll back to another version"@,
        Options::Search => "search for packages matching patterns"@,
        Options::Upgrade => "upgrade all installed packages"@,
        Options::Wipe => "delete non-current versions older than the specified age"@,
    }
}

/// The options an operation accepts.
pub open spec fn allowed_spec(op: Operations) -> Seq<Options> {
    match op {
        Operations::Query => seq![
            Options::Info,
            Options::Flake,
            Options::Json,
            Options::Profile,
            Options::Quiet,
            Options::Search,
        ],
        Operations::Remove => seq![
            Options::Clean,
            Options::Flake,
            Options::NoConfirm,
            Options::Profile,
            Options::Quiet,
        ],
        Operations::History => seq![
            Options::Clean,
            Options::Json,
            Options::NoConfirm,
            Options::Profile,
            Options::Quiet,
            Options::Rollback,
            Options::Wipe,
        ],
        Operations::Sync => seq![
            Options::Clean,
            Options::Flake,
            Options::Impure,
            Options::Json,
            Options::NoConfirm,
            Options::Profile,
            Options::Quiet,
            Options::Refresh,
            Options::Search,
            Options::Upgrade,
        ],
        _ => Seq::empty(),
    }
}

/// The conflict table of an operation: an option with the options it may
/// not stand beside.
pub open spec fn conflicts_spec(op: Operations) -> Seq<(Options, Seq<Options>)> {
    match op {
        Operations::History => seq![
            (Options::Json, seq![Options::Wipe, Options::Rollback, Options::Clean]),
        ],
        Operations::Query => seq![(Options::Json, seq![Options::Info, Options::Quiet])],
        _ => Seq::empty(),
    }
}

/// Is the option given on this command line?
pub open spec fn opt_set(cli: Cli, o: Options) -> bool {
    match o {
        Options::Clean => cli.clean,
        Options::Flake => cli.flake is Some,
        Options::Impure => cli.impure,
        Options::Info => cli.info,
        Options::Json => cli.json,
        Options::NoConfirm => cli.noconfirm,
        Options::Profile => cli.profile is Some,
        Options::Quiet => cli.quiet,
        Options::Refresh => cli.refresh,
        Options::Rollback => cli.rollback,
        Options::Search => cli.search,
        Options::Upgrade => cli.upgrade,
        Options::Wipe => cli.wipe is Some,
    }
}

pub open spec fn in_opts(s: Seq<Options>, o: Options) -> bool {
    exists|i: int| 0 <= i < s.len() && s[i] == o
}

/// The first option of the list that is set on this command line.
pub open spec fn first_set(cli: Cli, s: Seq<Options>) -> Option<Options>
    decreases s.len(),
{
    if s.len() == 0 {
        None
    } else if opt_set(cli, s.first()) {
        Some(s.first())
    } else {
        first_set(cli, s.drop_first())
    }
}

/// The conflict list of an option under an operation: the first matching
/// entry of the conflict table, empty when there is none.
pub open spec fn conflict_entry(op: Operations, o: Options) -> Seq<Options>
    decreases conflicts_spec(op).len(),
{
    conflict_entry_in(conflicts_spec(op), o)
}

pub open spec fn conflict_entry_in(table: Seq<(Options, Seq<Options>)>, o: Options) -> Seq<
    Options,
>
    decreases table.len(),
{
    if table.len() == 0 {
        Seq::empty()
    } else if table.first().0 == o {
        table.first().1
    } else {
        conflict_entry_in(table.drop_first(), o)
    }
}

/// What a set option offends against: nothing, the allow-list (no
/// conflicting option named), or a conflict with a named option.
pub open spec fn offense_of(cli: Cli, op: Operations, o: Options) -> Option<Option<Options>> {
    if !opt_set(cli, o) {
        None
    } else if !in_opts(allowed_spec(op), o) {
        Some(None)
    } else {
        match first_set(cli, conflict_entry(op, o)) {
            Some(c) => Some(Some(c)),
            None => None,
        }
    }
}

/// The first offense among the options, in enumeration order.
pub open spec fn first_offense(cli: Cli, op: Operations, opts: Seq<Options>) -> Option<
    (Options, Option<Options>),
>
    decreases opts.len(),
{
    if opts.len() == 0 {
        None
    } else {
        match offense_of(cli, op, opts.first()) {
            Some(cw) => Some((opts.first(), cw)),
            None => first_offense(cli, op, opts.drop_first()),
        }
    }
}

impl Options {
    /// All options, in enumeration order.
    pub fn all() -> (r: Vec<Options>)
        ensures
            r@ == option_order(),
    {
        let mut v: Vec<Options> = Vec::new();
        v.push(Options::Clean);
        v.push(Options::Flake);
        v.push(Options::Impure);
        v.push(Options::Info);
        v.push(Options::Json);
        v.push(Options::NoConfirm);
        v.push(Options::Profile);
        v.push(Options::Quiet);
        v.push(Options::Refresh);
        v.push(Options::Rollback);
        v.push(Options::Search);
        v.push(Options::Upgrade);
        v.push(Options::Wipe);
        proof {
            assert(v@ =~= option_order());
        }
        v
    }

    /// The options an operation accepts.
    pub fn partial(operation: &Operations) -> (r: Vec<Options>)
        ensures
            r@ == allowed_spec(*operation),
    {
        let mut v: Vec<Options> = Vec::new();
        match operation {
            Operations::Query => {
                v.push(Options::Info);
                v.push(Options::Flake);
                v.push(Options::Json);
                v.push(Options::Profile);
                v.push(Options::Quiet);
                v.push(Options::Search);
            },
            Operations::Remove => {
                v.push(Options::Clean);
                v.push(Options::Flake);
                v.push(Options::NoConfirm);
                v.push(Options::Profile);
                v.push(Options::Quiet);
            },
            Operations::History => {
                v.push(Options::Clean);
                v.push(Options::Json);
                v.push(Options::NoConfirm);
                v.push(Options::Profile);
                v.push(Options::Quiet);
                v.push(Options::Rollback);
                v.push(Options::Wipe);
            },
            Operations::Sync => {
                v.push(Options::Clean);
                v.push(Options::Flake);
                v.push(Options::Impure);
                v.push(Options::Json);
                v.push(Options::NoConfirm);
                v.push(Options::Profile);
                v.push(Options::Quiet);
                v.push(Options::Refresh);
                v.push(Options::Search);
                v.push(Options::Upgrade);
            },
            _ => {},
        }
        proof {
            assert(v@ =~= allowed_spec(*operation));
        }
        v
    }

    /// The conflict table of an operation.
    pub fn get_conflicts(operation: &Operations) -> (r: Vec<(Options, Vec<Options>)>)
        ensures
            r@.len() == conflicts_spec(*operation).len(),
            forall|i: int|
                0 <= i < r@.len() ==> #[trigger] r@[i].0 == conflicts_spec(*operation)[i].0
                    && r@[i].1@ == conflicts_spec(*operation)[i].1,
    {
        let mut v: Vec<(Options, Vec<Options>)> = Vec::new();
        match operation {
            Operations::History => {
                let mut c: Vec<Options> = Vec::new();
                c.push(Options::Wipe);
                c.push(Options::Rollback);
                c.push(Options::Clean);
                proof {
                    assert(c@ =~= seq![Options::Wipe, Options::Rollback, Options::Clean]);
                }
                v.push((Options::Json, c));
            },
            Operations::Query => {
                let mut c: Vec<Options> = Vec::new();
                c.push(Options::Info);
                c.push(Options::Quiet);
                proof {
                    assert(c@ =~= seq![Options::Info, Options::Quiet]);
                }
                v.push((Options::Json, c));
            },
            _ => {},
        }
        v
    }

    /// The option's one-letter flag; a space stands for none.
    pub fn short(&self) -> (r: char)
        ensures
            r == opt_short_spec(*self),
    {
        match self {
            Options::Clean => 'c',
            Options::Refresh => 'y',
            Options::Search => 's',
            Options::Upgrade => 'u',
            Options::Info => 'i',
            Options::Quiet => 'q',
            _ => ' ',
        }
    }

    /// The option's long flag.
    pub fn long(&self) -> (r: &'static str)
        ensures
            r@ == opt_long_spec(*self),
    {
        match self {
            Options::Upgrade => "upgrade",
            Options::Flake => "flake",
            Options::Search => "search",
            Options::Info => "info",
            Options::Impure => "impure",
            Options::Json => "json",
            Options::Refresh => "refresh",
            Options::Clean => "clean",
            Options::Quiet => "quiet",
            Options::Profile => "profile",
            Options::Wipe => "wipe",
            Options::NoConfirm => "noconfirm",
            Options::Rollback => "rollback",
        }
    }

    /// The option's argument synopsis.
    pub fn arguments(&self) -> (r: &'static str)
        ensures
            r@ == opt_arguments_spec(*self),
    {
        match self {
            Options::Flake => "<path>",
            Options::Profile => "<path>",
            Options::Search => "<pattern(s)>",
            Options::Wipe => "[age:<N>d]",
            _ => "",
        }
    }

    /// The option's help description.
    pub fn description(&self) -> (r: &'static str)
        ensures
            r@ == opt_description_spec(*self),
    {
        match self {
            Options::Clean => "delete unreachable store objects",
            Options::Flake => "specify a new default flake to install packages from",
            Options::Impure => "allow access to mutable paths and repositories",
            Options::Info => "display useful metadata",
            Options::Json => "produces output in JSON format",
            Options::NoConfirm => "do not ask for any confirmation",
            Options::Profile => "the profile to operate on",
            Options::Quiet => "decrease the logging output",
            Options::Refresh => "consider all previously downloaded files out-of-date",
            Options::Rollback => "roll back to another version",
            Options::Search => "search for packages matching patterns",
            Options::Upgrade => "upgrade all installed packages",
            Options::Wipe => "delete non-current versions older than the specified age",
        }
    }

    /// Is the option given on this command line?
    pub fn is_set(&self, cli: &Cli) -> (r: bool)
        ensures
            r == opt_set(*cli, *self),
    {
        match self {
            Options::Clean => cli.clean,
            Options::Flake => cli.flake.is_some(),
            Options::Impure => cli.impure,
            Options::Info => cli.info,
            Options::Json => cli.json,
            Options::NoConfirm => cli.noconfirm,
            Options::Profile => cli.profile.is_some(),
            Options::Quiet => cli.quiet,
            Options::Refresh => cli.refresh,
            Options::Rollback => cli.rollback,
            Options::Search => cli.search,
            Options::Upgrade => cli.upgrade,
            Options::Wipe => cli.wipe.is_some(),
        }
    }

    /// Checks the set options of a command line against an operation: the
    /// first offense, in enumeration order, decides the error. A help
    /// request skips validation.
    pub fn validate_options(cli: &Cli, operation: Operations) -> (r: Result<(), Error>)
        ensures
            cli.help ==> r is Ok,
            !cli.help ==> match first_offense(*cli, operation, option_order()) {
                None => r is Ok,
                Some((o, cw)) => match r {
                    Err(e) => e matches Error::InvalidOption { option, conflicts_with }
                        && option@ == "--"@ + opt_long_spec(o) && conflicts_with.deep_view()
                        == match cw {
                        Some(c) => Some(opt_long_spec(c)),
                        None => None,
                    },
                    Ok(_) => false,
                },
            },
    {
        if cli.help {
            return Ok(());
        }
        let order = Options::all();
        let allowed = Options::partial(&operation);
        let conflict_table = Options::get_conflicts(&operation);
        let n = order.len();
        let mut i: usize = 0;
        proof {
            assert(option_order().skip(0) =~= option_order());
        }
        while i < n
            invariant
                0 <= i <= n,
                !cli.help,
                n == order@.len(),
                order@ == option_order(),
                allowed@ == allowed_spec(operation),
                conflict_table@.len() == conflicts_spec(operation).len(),
                forall|t: int|
                    0 <= t < conflict_table@.len() ==> #[trigger] conflict_table@[t].0
                        == conflicts_spec(operation)[t].0 && conflict_table@[t].1@
                        == conflicts_spec(operation)[t].1,
                first_offense(*cli, operation, option_order()) == first_offense(
                    *cli,
                    operation,
                    option_order().skip(i as int),
                ),
            decreases n - i,
        {
            let o = order[i];
            proof {
                assert(option_order().skip(i as int).first() == o);
                assert(option_order().skip(i as int).drop_first() =~= option_order().skip(i + 1));
            }
            if o.is_set(cli) {
                if !contains_option(&allowed, o) {
                    let mut option = String::from_str("--");
                    option.append(o.long());
                    return Err(Error::InvalidOption { option, conflicts_with: None });
                }
                proof {
                    assert(conflict_table@.map_values(
                        |e: (Options, Vec<Options>)| (e.0, e.1@),
                    ) =~= conflicts_spec(operation));
                }
                match find_conflict(cli, &conflict_table, o) {
                    Some(c) => {
                        let mut option = String::from_str("--");
                        option.append(o.long());
                        return Err(
                            Error::InvalidOption {
                                option,
                                conflicts_with: Some(c.long().to_owned()),
                            },
                        );
                    },
                    None => {},
                }
            }
            i += 1;
        }
        proof {
            assert(option_order().skip(n as int) =~= Seq::<Options>::empty());
        }
        Ok(())
    }
}

/// Is the option among the listed ones?
fn contains_option(list: &Vec<Options>, o: Options) -> (r: bool)
    ensures
        r == in_opts(list@, o),
{
    let n = list.len();
    let mut i: usize = 0;
    while i < n
        invariant
            0 <= i <= n,
            n == list@.len(),
            forall|j: int| 0 <= j < i ==> list@[j] != o,
        decreases n - i,
    {
        if list[i] == o {
            return true;
        }
        i += 1;
    }
    false
}

/// The first set option of the conflict list of `o` in the table, if any.
fn find_conflict(cli: &Cli, table: &Vec<(Options, Vec<Options>)>, o: Options) -> (r: Option<
    Options,
>)
    ensures
        r == first_set(
            *cli,
            conflict_entry_in(
                table@.map_values(|e: (Options, Vec<Options>)| (e.0, e.1@)),
                o,
            ),
        ),
{
    let ghost spec_table = table@.map_values(|e: (Options, Vec<Options>)| (e.0, e.1@));
    let n = table.len();
    let mut i: usize = 0;
    proof {
        assert(spec_table.skip(0) =~= spec_table);
    }
    while i < n
        invariant
            0 <= i <= n,
            n == table@.len(),
            spec_table == table@.map_values(|e: (Options, Vec<Options>)| (e.0, e.1@)),
            conflict_entry_in(spec_table, o) == conflict_entry_in(
                spec_table.skip(i as int),
                o,
            ),
        decreases n - i,
    {
        proof {
            assert(spec_table.skip(i as int).first() == (table@[i as int].0, table@[i as int].1@));
            assert(spec_table.skip(i as int).drop_first() =~= spec_table.skip(i + 1));
        }
        if table[i].0 == o {
            return first_set_exec(cli, &table[i].1);
        }
        i += 1;
    }
    proof {
        assert(spec_table.skip(n as int) =~= Seq::<(Options, Seq<Options>)>::empty());
    }
    None
}

/// The first option of the list that is set on this command line.
fn first_set_exec(cli: &Cli, list: &Vec<Options>) -> (r: Option<Options>)
    ensures
        r == first_set(*cli, list@),
{
    let n = list.len();
    let mut i: usize = 0;
    proof {
        assert(list@.skip(0) =~= list@);
    }
    while i < n
        invariant
            0 <= i <= n,
            n == list@.len(),
            first_set(*cli, list@) == first_set(*cli, list@.skip(i as int)),
        decreases n - i,
    {
        proof {
            assert(list@.skip(i as int).first() == list@[i as int]);
            assert(list@.skip(i as int).drop_first() =~= list@.skip(i + 1));
        }
        if list[i].is_set(cli) {
            return Some(list[i]);
        }
        i += 1;
    }
    proof {
        assert(list@.skip(n as int) =~= Seq::<Options>::empty());
    }
    None
}


// ---------------------------------------------------------------------------
// Help display.
// ---------------------------------------------------------------------------

/// The width of an option's flag column: three characters for the short
/// flag, a space, the two dashes and the long flag, and the argument
/// synopsis where there is one.
pub open spec fn opt_len_spec(o: Options) -> int {
    6 + opt_long_spec(o).len() as int + (if opt_arguments_spec(o).len() == 0 {
        0int
    } else {
        1 + opt_arguments_spec(o).len() as int
    })
}

/// The widest flag column among the options.
pub open spec fn max_in(s: Seq<Options>) -> int
    decreases s.len(),
{
    if s.len() == 0 {
        0
    } else {
        let rest = max_in(s.drop_first());
        if opt_len_spec(s.first()) >= rest {
            opt_len_spec(s.first())
        } else {
            rest
        }
    }
}

/// `n` spaces (none for a negative width).
pub open spec fn space_seq(n: int) -> Seq<char> {
    Seq::new(if n < 0 {
        0
    } else {
        n as nat
    }, |i: int| ' ')
}

proof fn lemma_reveal_option_table()
    ensures
        forall|o: Options| 4 <= (#[trigger] opt_long_spec(o)).len() <= 9,
        forall|o: Options| (#[trigger] opt_arguments_spec(o)).len() <= 12,
{
    reveal_strlit("upgrade");
    reveal_strlit("flake");
    reveal_strlit("search");
    reveal_strlit("info");
    reveal_strlit("impure");
    reveal_strlit("json");
    reveal_strlit("refresh");
    reveal_strlit("clean");
    reveal_strlit("quiet");
    reveal_strlit("profile");
    reveal_strlit("wipe");
    reveal_strlit("noconfirm");
    reveal_strlit("rollback");
    reveal_strlit("<path>");
    reveal_strlit("<pattern(s)>");
    reveal_strlit("[age:<N>d]");
    reveal_strlit("");
    assert forall|o: Options| 4 <= (#[trigger] opt_long_spec(o)).len() <= 9 by {
        match o {
            Options::Upgrade => assert(opt_long_spec(o).len() == 7),
            Options::Flake => assert(opt_long_spec(o).len() == 5),
            Options::Search => assert(opt_long_spec(o).len() == 6),
            Options::Info => assert(opt_long_spec(o) =~= "info"@),
            Options::Impure => assert(opt_long_spec(o).len() == 6),
            Options::Json => assert(opt_long_spec(o) =~= "json"@),
            Options::Refresh => assert(opt_long_spec(o).len() == 7),
            Options::Clean => assert(opt_long_spec(o).len() == 5),
            Options::Quiet => assert(opt_long_spec(o).len() == 5),
            Options::Profile => assert(opt_long_spec(o).len() == 7),
            Options::Wipe => assert(opt_long_spec(o) =~= "wipe"@),
            Options::NoConfirm => assert(opt_long_spec(o).len() == 9),
            Options::Rollback => assert(opt_long_spec(o).len() == 8),
        }
    }
    assert forall|o: Options| (#[trigger] opt_arguments_spec(o)).len() <= 12 by {
        match o {
            Options::Flake => assert(opt_arguments_spec(o).len() == 6),
            Options::Profile => assert(opt_arguments_spec(o).len() == 6),
            Options::Search => assert(opt_arguments_spec(o).len() == 12),
            Options::Wipe => assert(opt_arguments_spec(o).len() == 10),
            _ => assert(opt_arguments_spec(o).len() == 0),
        }
    }
}

impl Options {
    /// The flag-column width of this option.
    pub fn len(&self) -> (r: usize)
        ensures
            r == opt_len_spec(*self),
    {
        proof {
            lemma_reveal_option_table();
        }
        let long_len = self.long().unicode_len();
        let args = self.arguments();
        if args.is_empty() {
            6 + long_len
        } else {
            6 + long_len + 1 + args.unicode_len()
        }
    }

    /// The widest flag column among all options.
    pub fn max_len() -> (r: usize)
        ensures
            r == max_in(option_order()),
    {
        proof {
            lemma_reveal_option_table();
        }
        let order = Options::all();
        let n = order.len();
        let mut best: usize = 0;
        let mut i: usize = n;
        proof {
            assert(option_order().skip(n as int) =~= Seq::<Options>::empty());
        }
        while i > 0
            invariant
                0 <= i <= n,
                n == order@.len(),
                order@ == option_order(),
                best == max_in(option_order().skip(i as int)),
                best <= 100,
            decreases i,
        {
            proof {
                lemma_reveal_option_table();
                assert(option_order().skip(i - 1).first() == option_order()[i - 1]);
                assert(option_order().skip(i - 1).drop_first() =~= option_order().skip(i as int));
            }
            let l = order[i - 1].len();
            if l >= best {
                best = l;
            }
            i -= 1;
        }
        proof {
            assert(option_order().skip(0) =~= option_order());
        }
        best
    }

    /// The option's help line: the short flag (or blanks), the long flag,
    /// its argument synopsis, padding to the common width, and the
    /// description.
    pub fn display_line(&self) -> (r: String)
        ensures
            r@ == (if opt_short_spec(*self) == ' ' {
                "  "@
            } else {
                seq!['-', opt_short_spec(*self)]
            }) + " --"@ + opt_long_spec(*self) + (if opt_arguments_spec(*self).len() == 0 {
                Seq::<char>::empty()
            } else {
                " "@ + opt_arguments_spec(*self)
            }) + space_seq(max_in(option_order()) - opt_len_spec(*self)) + " "@
                + opt_description_spec(*self),
    {
        proof {
            reveal_strlit("-c");
            reveal_strlit("-y");
            reveal_strlit("-s");
            reveal_strlit("-u");
            reveal_strlit("-i");
            reveal_strlit("-q");
            reveal_strlit("  ");
            lemma_reveal_option_table();
        }
        let short_part: &str = match self {
            Options::Clean => "-c",
            Options::Refresh => "-y",
            Options::Search => "-s",
            Options::Upgrade => "-u",
            Options::Info => "-i",
            Options::Quiet => "-q",
            _ => "  ",
        };
        proof {
            if opt_short_spec(*self) == ' ' {
                assert(short_part@ =~= "  "@);
            } else {
                assert(short_part@ =~= seq!['-', opt_short_spec(*self)]);
            }
        }
        let mut s = short_part.to_owned();
        s.append(" --");
        s.append(self.long());
        let args = self.arguments();
        if !args.is_empty() {
            s.append(" ");
            s.append(args);
        }
        let maxw = Options::max_len();
        let own = self.len();
        let ghost mid = s@;
        if maxw > own {
            let pad = crate::strutil::spaces(maxw - own);
            s.append(pad.as_str());
            proof {
                assert(pad@ =~= space_seq(max_in(option_order()) - opt_len_spec(*self)));
            }
        } else {
            proof {
                assert(space_seq(max_in(option_order()) - opt_len_spec(*self))
                    =~= Seq::<char>::empty());
                assert(s@ =~= mid + space_seq(max_in(option_order()) - opt_len_spec(*self)));
            }
        }
        s.append(" ");
        s.append(self.description());
        proof {
            if opt_arguments_spec(*self).len() == 0 {
                assert(s@ =~= (if opt_short_spec(*self) == ' ' {
                    "  "@
                } else {
                    seq!['-', opt_short_spec(*self)]
                }) + " --"@ + opt_long_spec(*self) + Seq::<char>::empty() + space_seq(
                    max_in(option_order()) - opt_len_spec(*self),
                ) + " "@ + opt_description_spec(*self));
            } else {
                assert(s@ =~= (if opt_short_spec(*self) == ' ' {
                    "  "@
                } else {
                    seq!['-', opt_short_spec(*self)]
                }) + " --"@ + opt_long_spec(*self) + (" "@ + opt_arguments_spec(*self))
                    + space_seq(max_in(option_order()) - opt_len_spec(*self)) + " "@
                    + opt_description_spec(*self));
            }
        }
        s
    }

    /// The help lines of an operation: its usage line, then its options,
    /// one line each, under an `options:` heading.
    pub fn print_help_lines(operation: Operations) -> (r: Vec<String>)
        ensures
            r@.len() >= 1,
            r@[0]@ == "usage: "@ + crate::operations::CLI_NAME@ + " "@
                + crate::operations::op_usage_spec(operation),
            allowed_spec(operation).len() == 0 ==> r@.len() == 1,
            allowed_spec(operation).len() > 0 ==> r@.len() == 3 + allowed_spec(operation).len()
                && r@[1]@ == Seq::<char>::empty() && r@[2]@ == "options:"@ && forall|k: int|
                0 <= k < allowed_spec(operation).len() ==> #[trigger] r@[3 + k]@ == "  "@
                    + option_line_spec(allowed_spec(operation)[k]),
    {
        let mut out: Vec<String> = Vec::new();
        let mut usage_line = String::from_str("usage: ");
        usage_line.append(crate::operations::CLI_NAME);
        usage_line.append(" ");
        let u = operation.usage();
        usage_line.append(u.as_str());
        out.push(usage_line);
        let opts = Options::partial(&operation);
        if opts.is_empty() {
            return out;
        }
        out.push(String::new());
        out.push(String::from_str("options:"));
        let n = opts.len();
        let mut i: usize = 0;
        while i < n
            invariant
                0 <= i <= n,
                n == opts@.len(),
                opts@ == allowed_spec(operation),
                out@.len() == 3 + i,
                out@[0]@ == "usage: "@ + crate::operations::CLI_NAME@ + " "@
                    + crate::operations::op_usage_spec(operation),
                out@[1]@ == Seq::<char>::empty(),
                out@[2]@ == "options:"@,
                forall|k: int|
                    0 <= k < i ==> #[trigger] out@[3 + k]@ == "  "@ + option_line_spec(
                        allowed_spec(operation)[k],
                    ),
            decreases n - i,
        {
            let mut line = String::from_str("  ");
            let d = opts[i].display_line();
            line.append(d.as_str());
            out.push(line);
            i += 1;
        }
        out
    }
}

/// The body of an option's help line, as `display_line` builds it.
pub open spec fn option_line_spec(o: Options) -> Seq<char> {
    (if opt_short_spec(o) == ' ' {
        "  "@
    } else {
        seq!['-', opt_short_spec(o)]
    }) + " --"@ + opt_long_spec(o) + (if opt_arguments_spec(o).len() == 0 {
        Seq::<char>::empty()
    } else {
        " "@ + opt_arguments_spec(o)
    }) + space_seq(max_in(option_order()) - opt_len_spec(o)) + " "@ + opt_description_spec(o)
}

} // verus!
