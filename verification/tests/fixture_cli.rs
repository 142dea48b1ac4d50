use lua_rust::fixture::cli::{
    check_requested_cases, default_artifact_relative_path, parse_cli, run_report_text,
    validation_summary_text, CliCommand, DEFAULT_MANIFEST_PATH,
};
use lua_rust::fixture::{FixtureCase, FixtureInventory, FixtureKind, FixtureManifest, Oracle, RunSummary, Suite};

fn args(list: &[&str]) -> Vec<String> {
    list.iter().map(|s| s.to_string()).collect()
}

fn case(id: &str, path: &str) -> FixtureCase {
    FixtureCase {
        id: id.to_owned(),
        path: path.to_owned(),
        kind: FixtureKind::Entry,
        working_directory: "repository".to_owned(),
        args: vec![],
        environment: vec![],
        expected_exit: 0,
        timeout_ms: 1000,
        compare_stdout: true,
        compare_stderr: true,
        compare_side_effects: false,
        side_effects: vec![],
        normalizations: vec![],
        oracles: vec![Oracle::LuaRust],
    }
}

fn manifest() -> FixtureManifest {
    FixtureManifest {
        schema_version: 1,
        fixture_root: "tests/lua".to_owned(),
        inventory: FixtureInventory { m0_baseline: 125, added_differential: 1, current_total: 3 },
        cases: vec![
            case("plain", "tests/lua/plain.lua"),
            case("off", "tests\\lua\\official\\off.lua"),
            case("diff", "tests/lua/differential/d.lua"),
        ],
    }
}

#[test]
fn defaults_apply_without_arguments() {
    match parse_cli(&args(&[])) {
        Ok(CliCommand::Run(cli)) => {
            assert_eq!(cli.suite, Suite::NonOfficial);
            assert!(cli.case_ids.is_empty());
            assert!(cli.repo_root.is_none() && !cli.validate_only && !cli.rust_only);
        }
        other => panic!("unexpected {other:?}"),
    }
}

#[test]
fn options_are_read_in_order() {
    let parsed = parse_cli(&args(&[
        "--repo-root", "/r", "--suite", "all", "--case", "b", "--case", "a", "--rust", "x",
        "--include-helpers", "--allow-differences", "--artifact", "out.json",
    ]));
    match parsed {
        Ok(CliCommand::Run(cli)) => {
            assert_eq!(cli.repo_root, Some("/r".to_owned()));
            assert_eq!(cli.suite, Suite::All);
            assert_eq!(cli.case_ids, vec!["a".to_owned(), "b".to_owned()]);
            assert_eq!(cli.rust, Some("x".to_owned()));
            assert_eq!(cli.artifact, Some("out.json".to_owned()));
            assert!(cli.include_helpers && cli.allow_differences);
        }
        other => panic!("unexpected {other:?}"),
    }
}

#[test]
fn help_stops_the_parse() {
    assert!(matches!(parse_cli(&args(&["--suite", "all", "-h", "--bogus"])), Ok(CliCommand::Help)));
    assert!(matches!(parse_cli(&args(&["--help"])), Ok(CliCommand::Help)));
    assert_eq!(parse_cli(&args(&["--bogus", "--help"])).unwrap_err(), "unknown argument '--bogus'; use --help");
}

#[test]
fn errors_name_the_offending_argument() {
    assert_eq!(parse_cli(&args(&["--manifest"])).unwrap_err(), "--manifest requires a value");
    assert_eq!(parse_cli(&args(&["--case", "a", "--case", "a"])).unwrap_err(), "duplicate --case 'a'");
    assert_eq!(
        parse_cli(&args(&["--suite", "nope"])).unwrap_err(),
        "invalid suite 'nope'; expected non-official, differential, official, or all"
    );
    assert_eq!(
        parse_cli(&args(&["--rust-only", "--cpp", "c"])).unwrap_err(),
        "--rust-only cannot be combined with --cpp"
    );
    assert_eq!(
        parse_cli(&args(&["--validate-only", "--case", "a"])).unwrap_err(),
        "--validate-only only accepts --repo-root, --manifest, and --suite"
    );
    assert!(matches!(
        parse_cli(&args(&["--validate-only", "--manifest", "m", "--suite", "official"])),
        Ok(CliCommand::Run(_))
    ));
}

#[test]
fn requested_cases_must_exist_in_the_suite() {
    let m = manifest();
    assert_eq!(check_requested_cases(&m, Suite::NonOfficial, &args(&["plain"])), Ok(()));
    assert_eq!(
        check_requested_cases(&m, Suite::NonOfficial, &args(&["missing"])),
        Err("unknown --case 'missing'".to_owned())
    );
    assert_eq!(
        check_requested_cases(&m, Suite::NonOfficial, &args(&["off"])),
        Err("--case 'off' is not in the 'non-official' suite".to_owned())
    );
    assert_eq!(check_requested_cases(&m, Suite::Official, &args(&["off"])), Ok(()));
}

#[test]
fn validation_summary_counts_suites() {
    assert_eq!(
        validation_summary_text(&manifest()),
        "manifest valid: 3 fixtures (M0 baseline 125, +1 differential; 1 non-official, 1 official)"
    );
}

#[test]
fn default_paths_and_run_report() {
    assert_eq!(DEFAULT_MANIFEST_PATH, "tests/compatibility/lua_fixtures.json");
    assert_eq!(default_artifact_relative_path(Suite::Differential), "target/compatibility/lua-fixtures-differential.json");
    let mut s = RunSummary::new();
    s.selected = 3;
    s.executed = 2;
    s.matches = 1;
    s.helpers_skipped = 1;
    s.differences = 1;
    assert_eq!(
        run_report_text("/a.json", &s),
        "artifact: /a.json\nselected=3 executed=2 matched=1 rust-only-expected=0 differences=1 runner-errors=0 helpers-skipped=1 timed-out=0"
    );
}
