use nixpm::cli::{Cli, DEFAULT_FLAKE};
use nixpm::command::parse_args;
use nixpm::error::Error;
use nixpm::history::HistoryPackage;
use nixpm::operations::{
    add_command, entry_matches, eval_version_command, format_change, format_flake_target,
    format_target, global_help_hint, global_help_lines, is_up_to_date, list_packages,
    missing_targets, parse_generation, pattern_match, profile_argument, query_select,
    remove_command, rollback_command, search_command, sync_targets, upgrade_command,
    version_banner, wipe_history_command, Operations, CLI_NAME, CLI_VERSION,
};
use nixpm::options::Options;

fn bare_cli() -> Cli {
    Cli {
        help: false,
        history: false,
        query: false,
        remove: false,
        sync: false,
        version: false,
        clean: false,
        flake: None,
        impure: false,
        info: false,
        json: false,
        noconfirm: false,
        profile: None,
        quiet: false,
        refresh: false,
        rollback: false,
        search: false,
        upgrade: false,
        wipe: None,
        packages: Vec::new(),
    }
}

#[test]
fn operation_usage_strings() {
    assert_eq!(Operations::Sync.usage(), "{-S --sync} [options] <package(s)>");
    assert_eq!(Operations::Help.usage(), "{-h --help}");
    assert_eq!(Operations::History.usage(), "{-H --history} [options] <rollback generation>");
    assert_eq!(Operations::Sync.short(), 'S');
    assert_eq!(Operations::Help.long(), "help");
    assert_eq!(Operations::Remove.arguments(), "<package(s)>");
    assert_eq!(Operations::all().len(), 6);
}

#[test]
fn prepare_command_appends_flags() {
    let mut cli = bare_cli();
    cli.impure = true;
    cli.quiet = true;
    cli.profile = Some(String::from("work"));
    assert_eq!(
        cli.prepare_command("nix profile add"),
        "nix profile add --impure --quiet --profile work"
    );
    let cli2 = bare_cli();
    assert_eq!(cli2.prepare_command("nix profile add"), "nix profile add --verbose");
}

#[test]
fn flake_url_defaults() {
    let cli = bare_cli();
    assert_eq!(cli.flake_url(), DEFAULT_FLAKE);
    let mut cli2 = bare_cli();
    cli2.flake = Some(String::from("flake:mine"));
    assert_eq!(cli2.flake_url(), "flake:mine");
}

#[test]
fn profile_suffix_and_argument() {
    let mut cli = bare_cli();
    cli.profile = Some(String::from("dev"));
    assert_eq!(cli.profile(), " --profile dev");
    assert_eq!(profile_argument(&cli.profile), "--profile dev");
    assert_eq!(profile_argument(&None), "");
    assert_eq!(profile_argument(&Some(String::new())), "");
}

#[test]
fn command_builders_compose_exact_strings() {
    let cli = bare_cli();
    assert_eq!(
        rollback_command(&cli, "3"),
        "nix profile rollback --verbose --to 3"
    );
    assert_eq!(
        add_command(&cli, "flake:nixpkgs", "hello"),
        "nix profile add --verbose -- flake:nixpkgs#hello"
    );
    let pkgs = vec![String::from("hello"), String::from("zsh")];
    assert_eq!(
        remove_command(&cli, &pkgs),
        "nix profile remove --verbose -- hello zsh"
    );
    assert_eq!(
        upgrade_command(&cli, &pkgs),
        "nix profile upgrade --verbose -- hello zsh"
    );
    assert_eq!(
        eval_version_command("flake:nixpkgs", "hello"),
        "nix eval --raw --offline -- flake:nixpkgs#hello.version"
    );
}

#[test]
fn wipe_command_appends_age_bound() {
    let mut cli = bare_cli();
    cli.wipe = Some(String::from("30d"));
    assert_eq!(
        wipe_history_command(&cli),
        "nix profile wipe-history --verbose --older-than 30d"
    );
    cli.wipe = Some(String::new());
    assert_eq!(wipe_history_command(&cli), "nix profile wipe-history --verbose");
}

#[test]
fn search_command_requires_patterns() {
    let mut cli = bare_cli();
    let r = search_command(&cli);
    assert!(matches!(r, Err(Error::NotSpecified { .. })));
    cli.packages = vec![String::from("hello")];
    cli.json = true;
    assert_eq!(
        search_command(&cli).unwrap(),
        "nix search flake:nixpkgs --json -- hello"
    );
}

#[test]
fn sync_targets_decide_defaults() {
    let r = sync_targets(Vec::new(), DEFAULT_FLAKE);
    assert!(matches!(r, Err(Error::NotSpecified { .. })));
    let r2 = sync_targets(Vec::new(), "flake:mine").unwrap();
    assert_eq!(r2, vec![String::from("default")]);
    let named = vec![String::from("hello")];
    assert_eq!(sync_targets(named.clone(), DEFAULT_FLAKE).unwrap(), named);
}

#[test]
fn missing_targets_keep_request_order() {
    let requested = vec![String::from("a"), String::from("b"), String::from("c")];
    let installed = vec![String::from("b")];
    assert_eq!(
        missing_targets(&requested, &installed),
        vec![String::from("a"), String::from("c")]
    );
}

#[test]
fn up_to_date_checks_suffix_and_refresh() {
    assert!(is_up_to_date("hello-2.10", "2.10", false));
    assert!(!is_up_to_date("hello-2.10", "2.10", true));
    assert!(!is_up_to_date("hello-2.10", "2.12", false));
}

#[test]
fn target_formatting() {
    assert_eq!(format_target("hello", "2.10"), "hello-2.10");
    assert_eq!(
        format_flake_target("flake:nixpkgs", "hello", "2.10"),
        "flake:nixpkgs#hello-2.10"
    );
}

#[test]
fn parse_generation_validates_numbers() {
    assert_eq!(parse_generation("12").unwrap(), 12);
    assert!(matches!(parse_generation("12x"), Err(Error::Unknown { code: 1, .. })));
    assert!(matches!(parse_generation(""), Err(Error::Unknown { code: 1, .. })));
}

#[test]
fn change_formatting_substitutes_the_unset_mark() {
    let added = HistoryPackage::from_line("nixpkgs#hello: \u{2205} -> 2.10");
    assert_eq!(format_change(&added), "nixpkgs#hello: \u{2205} -> 2.10");
    let upgraded = HistoryPackage::from_line("nixpkgs#hello: 2.10 -> 2.12");
    assert_eq!(format_change(&upgraded), "nixpkgs#hello: 2.10 -> 2.12");
    let removed = HistoryPackage::from_line("nixpkgs#hello: 2.10 -> \u{2205}");
    assert_eq!(format_change(&removed), "nixpkgs#hello: 2.10 -> \u{2205}");
}

#[test]
fn listing_text_groups_blocks() {
    let text = "Name: hello\nVersion: 2.10\n\nName: zsh\nVersion: 5.9\n";
    let blocks = list_packages(true, text);
    assert_eq!(blocks.len(), 2);
    assert_eq!(blocks[0], "Name: hello\nVersion: 2.10\n");
    assert_eq!(blocks[1], "Name: zsh\nVersion: 5.9\n");
}

#[test]
fn listing_text_collects_names() {
    let text = "Name: \u{1b}[1mhello\u{1b}[0m\nStore paths: /x\nName: zsh\n";
    let names = list_packages(false, text);
    assert_eq!(names, vec![String::from("hello"), String::from("zsh")]);
}

#[test]
fn pattern_match_filters_blocks() {
    let mut blocks = vec![
        String::from("Name: hello\nFlake attribute: pkgs.hello\n"),
        String::from("Name: zsh\nFlake attribute: pkgs.zsh\n"),
        String::from("free text mentioning fish\n"),
    ];
    let patterns = vec![String::from("zsh")];
    pattern_match(&mut blocks, &patterns);
    assert_eq!(blocks.len(), 1);
    assert!(blocks[0].starts_with("Name: zsh"));
}

#[test]
fn pattern_match_without_name_searches_whole_block() {
    let mut blocks = vec![String::from("free text mentioning fish\n")];
    let patterns = vec![String::from("fish")];
    pattern_match(&mut blocks, &patterns);
    assert_eq!(blocks.len(), 1);
    assert!(entry_matches("free text mentioning fish\n", &patterns));
}

#[test]
fn pattern_match_drops_named_block_without_attribute() {
    let mut blocks = vec![String::from("Name: hello\nno attribute line\n")];
    let patterns = vec![String::from("hello")];
    pattern_match(&mut blocks, &patterns);
    assert!(blocks.is_empty());
}

#[test]
fn query_select_requires_patterns_and_results() {
    let blocks = vec![String::from("Name: hello\nFlake attribute: pkgs.hello\n")];
    let r = query_select(blocks.clone(), true, &Vec::new());
    assert!(matches!(r, Err(Error::NotSpecified { .. })));
    let r2 = query_select(blocks.clone(), true, &vec![String::from("nosuch")]);
    assert!(matches!(r2, Err(Error::NoPackageFound)));
    let r3 = query_select(blocks.clone(), true, &vec![String::from("hello")]).unwrap();
    assert_eq!(r3.len(), 1);
    let r4 = query_select(Vec::new(), false, &Vec::new());
    assert!(matches!(r4, Err(Error::NoPackageFound)));
}

#[test]
fn parse_args_splits_shell_words() {
    let args = parse_args("nix profile 'a b'").unwrap();
    assert_eq!(args, vec![String::from("nix"), String::from("profile"), String::from("a b")]);
    assert!(parse_args("   ").is_err());
    assert!(parse_args("nix 'unclosed").is_err());
}

#[test]
fn error_messages_and_exit_codes() {
    let e = Error::NotSpecified { kind: String::from("operation") };
    assert_eq!(e.message(), "no operation specified (use -h for help)");
    assert_eq!(e.exit_code(), 1);
    let u = Error::UnknownOption { option: String::from("--bogus") };
    assert_eq!(u.message(), "unrecognized option '--bogus' (use -h for help)");
    let c = Error::CommandFailed { code: 7 };
    assert_eq!(c.message(), "");
    assert_eq!(c.exit_code(), 7);
    let k = Error::Unknown { code: 3, message: String::from("boom") };
    assert_eq!(k.message(), "boom");
    assert_eq!(k.exit_code(), 3);
    assert_eq!(Error::FailedRollback.message(), "failed to rollback versions");
    assert_eq!(Error::NoPackageFound.message(), "no package(s) found");
    assert_eq!(Error::FailedJsonSerialization.message(), "failed to serialize output");
    let i = Error::InvalidOption { option: String::from("--json"), conflicts_with: None };
    assert_eq!(i.message(), "invalid option: '--json' (use -h for help)");
    let i2 = Error::InvalidOption {
        option: String::from("--json"),
        conflicts_with: Some(String::from("info")),
    };
    assert_eq!(i2.message(), "invalid option: '--json' and '--info' may not be used together");
}

#[test]
fn validate_accepts_allowed_options() {
    let mut cli = bare_cli();
    cli.json = true;
    assert!(Options::validate_options(&cli, Operations::History).is_ok());
}

#[test]
fn validate_rejects_unknown_option_for_operation() {
    let mut cli = bare_cli();
    cli.impure = true;
    let r = Options::validate_options(&cli, Operations::Query);
    match r {
        Err(Error::InvalidOption { option, conflicts_with }) => {
            assert_eq!(option, "--impure");
            assert_eq!(conflicts_with, None);
        },
        _ => panic!("expected an invalid-option error"),
    }
}

#[test]
fn validate_rejects_conflicting_options() {
    let mut cli = bare_cli();
    cli.json = true;
    cli.info = true;
    let r = Options::validate_options(&cli, Operations::Query);
    match r {
        Err(Error::InvalidOption { option, conflicts_with }) => {
            assert_eq!(option, "--json");
            assert_eq!(conflicts_with.as_deref(), Some("info"));
        },
        _ => panic!("expected a conflict error"),
    }
}

#[test]
fn validate_skips_on_help() {
    let mut cli = bare_cli();
    cli.help = true;
    cli.impure = true;
    assert!(Options::validate_options(&cli, Operations::Query).is_ok());
}

#[test]
fn option_tables() {
    assert_eq!(Options::all().len(), 13);
    assert_eq!(Options::partial(&Operations::Remove).len(), 5);
    assert_eq!(Options::partial(&Operations::Version).len(), 0);
    assert_eq!(Options::Clean.short(), 'c');
    assert_eq!(Options::NoConfirm.long(), "noconfirm");
    assert_eq!(Options::Wipe.arguments(), "[age:<N>d]");
    assert_eq!(Options::Quiet.description(), "decrease the logging output");
    assert_eq!(Options::Clean.len(), "-c, --clean".len());
    assert_eq!(Options::Search.len(), "-s, --search <pattern(s)>".len());
    assert!(Options::max_len() >= Options::Search.len());
}

#[test]
fn option_display_lines_are_padded_to_equal_width() {
    let a = Options::Clean.display_line();
    let b = Options::Search.display_line();
    assert!(a.starts_with("-c --clean"));
    assert!(b.starts_with("-s --search <pattern(s)>"));
    let a_col = a.find("delete unreachable").unwrap();
    let b_col = b.find("search for packages").unwrap();
    assert_eq!(a_col, b_col);
}

#[test]
fn help_lines_cover_all_operations() {
    let lines = global_help_lines();
    assert_eq!(lines.len(), 11);
    assert_eq!(lines[0], "usage:  nixpm <operation> [...]");
    assert_eq!(lines[2], "  nixpm {-h --help}");
    assert_eq!(
        global_help_hint(),
        "use 'nixpm {-h --help}' with an operation for available options"
    );
    let op_lines = Options::print_help_lines(Operations::Remove);
    assert_eq!(op_lines[0], "usage: nixpm {-R --remove} <package(s)>");
    assert_eq!(op_lines.len(), 3 + 5);
}

#[test]
fn version_banner_names_the_tool() {
    assert_eq!(
        version_banner("nix (Nix) 2.18.1\n"),
        format!("{CLI_NAME} {CLI_VERSION} - nix (Nix) 2.18.1\n")
    );
}
