//! The runner's command line: option parsing, the check of requested case
//! identifiers against the manifest, and the texts the command prints.

use vstd::prelude::*;
use crate::text::{
    char_views, chars_equal, chars_of, decimal, lemma_sorted_insert, push_all, push_decimal,
    push_str_chars, sorted_insert, sorted_insert_spec, strictly_ascending, string_from_chars,
};
use super::{FixtureCase, FixtureManifest, RunSummary, Suite};
use super::manifest::string_views;
use super::paths::{differential_prefix, forward_slashes, official_prefix};
use super::run::opt_view;

verus! {

/// Manifest location, relative to the repository root, used when none is given.
pub const DEFAULT_MANIFEST_PATH: &'static str = "tests/compatibility/lua_fixtures.json";

/// Parsed command-line options, as plain values.
pub struct CliModel {
    pub repo_root: Option<Seq<char>>,
    pub manifest: Option<Seq<char>>,
    pub rust: Option<Seq<char>>,
    pub cpp: Option<Seq<char>>,
    pub artifact: Option<Seq<char>>,
    pub suite: Suite,
    /// Requested case identifiers, distinct and in ascending order.
    pub case_ids: Seq<Seq<char>>,
    pub include_helpers: bool,
    pub rust_only: bool,
    pub validate_only: bool,
    pub allow_differences: bool,
}

/// Parsed command-line options.
#[derive(Clone, Debug)]
pub struct Cli {
    pub repo_root: Option<String>,
    pub manifest: Option<String>,
    pub rust: Option<String>,
    pub cpp: Option<String>,
    pub artifact: Option<String>,
    pub suite: Suite,
    /// Requested case identifiers, distinct and in ascending order.
    pub case_ids: Vec<String>,
    pub include_helpers: bool,
    pub rust_only: bool,
    pub validate_only: bool,
    pub allow_differences: bool,
}

impl Cli {
    /// These options as plain values.
    pub open spec fn model(self) -> CliModel {
        CliModel {
            repo_root: opt_view(self.repo_root),
            manifest: opt_view(self.manifest),
            rust: opt_view(self.rust),
            cpp: opt_view(self.cpp),
            artifact: opt_view(self.artifact),
            suite: self.suite,
            case_ids: string_views(self.case_ids@),
            include_helpers: self.include_helpers,
            rust_only: self.rust_only,
            validate_only: self.validate_only,
            allow_differences: self.allow_differences,
        }
    }
}

/// What the command line asks for.
#[derive(Clone, Debug)]
pub enum CliCommand {
    /// Print the usage text and stop.
    Help,
    /// Run (or only validate) with these options.
    Run(Cli),
}

/// Options before any argument is read.
pub open spec fn initial_cli() -> CliModel {
    CliModel {
        repo_root: None,
        manifest: None,
        rust: None,
        cpp: None,
        artifact: None,
        suite: Suite::NonOfficial,
        case_ids: Seq::empty(),
        include_helpers: false,
        rust_only: false,
        validate_only: false,
        allow_differences: false,
    }
}

/// Whether `option` is one that takes a value.
pub open spec fn takes_value(option: Seq<char>) -> bool {
    option == "--repo-root"@ || option == "--manifest"@ || option == "--rust"@ || option
        == "--cpp"@ || option == "--artifact"@ || option == "--suite"@ || option == "--case"@
}

/// `m` with the path option `option` set to `value`.
pub open spec fn with_path(m: CliModel, option: Seq<char>, value: Seq<char>) -> CliModel {
    if option == "--repo-root"@ {
        CliModel { repo_root: Some(value), ..m }
    } else if option == "--manifest"@ {
        CliModel { manifest: Some(value), ..m }
    } else if option == "--rust"@ {
        CliModel { rust: Some(value), ..m }
    } else if option == "--cpp"@ {
        CliModel { cpp: Some(value), ..m }
    } else {
        CliModel { artifact: Some(value), ..m }
    }
}

/// `m` with the flag `flag` set.
pub open spec fn with_flag(m: CliModel, flag: Seq<char>) -> CliModel {
    if flag == "--include-helpers"@ {
        CliModel { include_helpers: true, ..m }
    } else if flag == "--rust-only"@ {
        CliModel { rust_only: true, ..m }
    } else if flag == "--validate-only"@ {
        CliModel { validate_only: true, ..m }
    } else {
        CliModel { allow_differences: true, ..m }
    }
}

/// Whether `option` is a flag without a value.
pub open spec fn is_flag(option: Seq<char>) -> bool {
    option == "--include-helpers"@ || option == "--rust-only"@ || option == "--validate-only"@
        || option == "--allow-differences"@
}

/// The checks made once every argument is read.
pub open spec fn cli_checks(m: CliModel) -> Result<Option<CliModel>, Seq<char>> {
    if m.rust_only && m.cpp is Some {
        Err("--rust-only cannot be combined with --cpp"@)
    } else if m.validate_only && (m.rust is Some || m.cpp is Some || m.artifact is Some
        || m.include_helpers || m.rust_only || m.allow_differences || m.case_ids.len() > 0) {
        Err("--validate-only only accepts --repo-root, --manifest, and --suite"@)
    } else {
        Ok(Some(m))
    }
}

/// The outcome of reading `args` after options `m`: the options (`None` when
/// help was asked for) or the error met first.
pub open spec fn parse_arguments(m: CliModel, args: Seq<Seq<char>>) -> Result<
    Option<CliModel>,
    Seq<char>,
>
    decreases args.len(),
{
    if args.len() == 0 {
        cli_checks(m)
    } else {
        let a = args[0];
        let rest = args.drop_first();
        if a == "-h"@ || a == "--help"@ {
            Ok(None)
        } else if is_flag(a) {
            parse_arguments(with_flag(m, a), rest)
        } else if takes_value(a) {
            if rest.len() == 0 {
                Err(a + " requires a value"@)
            } else {
                let v = rest[0];
                let next = rest.drop_first();
                if a == "--suite"@ {
                    match Suite::named(v) {
                        Some(s) => parse_arguments(CliModel { suite: s, ..m }, next),
                        None => Err(Suite::invalid_message(v)),
                    }
                } else if a == "--case"@ {
                    let ids = sorted_insert_spec(m.case_ids, v);
                    if ids.len() == m.case_ids.len() {
                        Err("duplicate --case '"@ + v + "'"@)
                    } else {
                        parse_arguments(CliModel { case_ids: ids, ..m }, next)
                    }
                } else {
                    parse_arguments(with_path(m, a, v), next)
                }
            }
        } else {
            Err("unknown argument '"@ + a + "'; use --help"@)
        }
    }
}

/// Requested case identifiers come out distinct and in ascending order.
pub proof fn lemma_parsed_case_ids_ascending(m: CliModel, args: Seq<Seq<char>>)
    requires
        strictly_ascending(m.case_ids),
    ensures
        parse_arguments(m, args) matches Ok(Some(r)) ==> strictly_ascending(r.case_ids),
    decreases args.len(),
{
    if args.len() > 0 {
        let a = args[0];
        let rest = args.drop_first();
        if a == "-h"@ || a == "--help"@ {
        } else if is_flag(a) {
            lemma_parsed_case_ids_ascending(with_flag(m, a), rest);
        } else if takes_value(a) && rest.len() > 0 {
            let v = rest[0];
            let next = rest.drop_first();
            if a == "--suite"@ {
                if let Some(suite) = Suite::named(v) {
                    lemma_parsed_case_ids_ascending(CliModel { suite, ..m }, next);
                }
            } else if a == "--case"@ {
                lemma_sorted_insert(m.case_ids, v);
                lemma_parsed_case_ids_ascending(
                    CliModel { case_ids: sorted_insert_spec(m.case_ids, v), ..m },
                    next,
                );
            } else {
                lemma_parsed_case_ids_ascending(with_path(m, a, v), next);
            }
        }
    }
}

/// A `--case` is refused as a duplicate exactly when its identifier was
/// already requested.
pub proof fn lemma_duplicate_case_iff_requested(m: CliModel, v: Seq<char>)
    requires
        strictly_ascending(m.case_ids),
    ensures
        (sorted_insert_spec(m.case_ids, v).len() == m.case_ids.len()) <==> m.case_ids.contains(v),
{
    lemma_sorted_insert(m.case_ids, v);
}

/// Whatever the arguments, the parsed case identifiers are distinct and
/// ascending.
pub proof fn lemma_cli_case_ids_ascending(args: Seq<Seq<char>>)
    ensures
        parse_arguments(initial_cli(), args) matches Ok(Some(r)) ==> strictly_ascending(r.case_ids),
{
    lemma_parsed_case_ids_ascending(initial_cli(), args);
}

fn is_literal(a: &Vec<char>, literal: &str) -> (r: bool)
    ensures
        r == (a@ == literal@),
{
    let l = chars_of(literal);
    chars_equal(a, &l)
}

/// The options of `cli` with requested identifiers `ids`.
pub open spec fn state_model(cli: Cli, ids: Seq<Vec<char>>) -> CliModel {
    CliModel { case_ids: char_views(ids), ..cli.model() }
}

fn strings_of(ids: &Vec<Vec<char>>) -> (r: Vec<String>)
    ensures
        string_views(r@) == char_views(ids@),
{
    let mut out: Vec<String> = Vec::new();
    let n = ids.len();
    let mut i: usize = 0;
    while i < n
        invariant
            n == ids@.len(),
            i <= n,
            string_views(out@) == char_views(ids@).take(i as int),
        decreases n - i,
    {
        let ghost before = out@;
        out.push(string_from_chars(&ids[i]));
        proof {
            assert(string_views(out@) =~= string_views(before).push(ids@[i as int]@));
            assert(char_views(ids@).take(i + 1) =~= char_views(ids@).take(i as int).push(
                ids@[i as int]@,
            ));
        }
        i += 1;
    }
    proof {
        assert(char_views(ids@).take(n as int) =~= char_views(ids@));
    }
    out
}

/// Parse the runner's arguments (without the program name). Options are read
/// in order and the first error ends the parse; `-h`/`--help` ends it with a
/// request for help. Once every argument is read, `--rust-only` is refused
/// beside `--cpp`, and `--validate-only` beside any option but
/// `--repo-root`, `--manifest` and `--suite`.
pub fn parse_cli(arguments: &Vec<String>) -> (r: Result<CliCommand, String>)
    ensures
        match parse_arguments(initial_cli(), string_views(arguments@)) {
            Ok(None) => r matches Ok(CliCommand::Help),
            Ok(Some(m)) => r matches Ok(CliCommand::Run(c)) && c.model() == m,
            Err(e) => r matches Err(x) && x@ == e,
        },
{
    let ghost args = string_views(arguments@);
    let mut cli = Cli {
        repo_root: None,
        manifest: None,
        rust: None,
        cpp: None,
        artifact: None,
        suite: Suite::NonOfficial,
        case_ids: Vec::new(),
        include_helpers: false,
        rust_only: false,
        validate_only: false,
        allow_differences: false,
    };
    let mut ids: Vec<Vec<char>> = Vec::new();
    proof {
        assert(args.skip(0) =~= args);
        assert(char_views(ids@) =~= Seq::<Seq<char>>::empty());
        assert(string_views(cli.case_ids@) =~= Seq::<Seq<char>>::empty());
        assert(state_model(cli, ids@) == initial_cli());
    }
    let n = arguments.len();
    let mut i: usize = 0;
    while i < n
        invariant
            n == arguments@.len(),
            args == string_views(arguments@),
            i <= n,
            cli.case_ids@.len() == 0,
            parse_arguments(initial_cli(), args) == parse_arguments(
                state_model(cli, ids@),
                args.skip(i as int),
            ),
        decreases n - i,
    {
        let ghost m = state_model(cli, ids@);
        let ghost tail = args.skip(i as int);
        let a = chars_of(arguments[i].as_str());
        proof {
            assert(tail[0] == a@);
            assert(tail.drop_first() =~= args.skip(i + 1));
        }
        if is_literal(&a, "-h") || is_literal(&a, "--help") {
            return Ok(CliCommand::Help);
        }
        if is_literal(&a, "--include-helpers") {
            cli.include_helpers = true;
            proof {
                assert(state_model(cli, ids@) =~= with_flag(m, a@));
            }
            i += 1;
        } else if is_literal(&a, "--rust-only") {
            cli.rust_only = true;
            proof {
                assert(state_model(cli, ids@) =~= with_flag(m, a@));
            }
            i += 1;
        } else if is_literal(&a, "--validate-only") {
            cli.validate_only = true;
            proof {
                assert(state_model(cli, ids@) =~= with_flag(m, a@));
            }
            i += 1;
        } else if is_literal(&a, "--allow-differences") {
            cli.allow_differences = true;
            proof {
                assert(state_model(cli, ids@) =~= with_flag(m, a@));
            }
            i += 1;
        } else {
            let is_suite = is_literal(&a, "--suite");
            let is_case = is_literal(&a, "--case");
            let is_repo_root = is_literal(&a, "--repo-root");
            let is_manifest = is_literal(&a, "--manifest");
            let is_rust = is_literal(&a, "--rust");
            let is_cpp = is_literal(&a, "--cpp");
            let is_artifact = is_literal(&a, "--artifact");
            if !(is_suite || is_case || is_repo_root || is_manifest || is_rust || is_cpp
                || is_artifact) {
                let mut out = chars_of("unknown argument '");
                push_all(&mut out, &a);
                push_str_chars(&mut out, "'; use --help");
                return Err(string_from_chars(&out));
            }
            if i + 1 >= n {
                let mut out = a.clone();
                push_str_chars(&mut out, " requires a value");
                proof {
                    assert(tail.drop_first().len() == 0);
                }
                return Err(string_from_chars(&out));
            }
            let value = &arguments[i + 1];
            proof {
                assert(tail.drop_first()[0] == value@);
                assert(tail.drop_first().drop_first() =~= args.skip(i + 2));
            }
            if is_suite {
                match Suite::parse(value.as_str()) {
                    Ok(s) => {
                        cli.suite = s;
                        proof {
                            assert(state_model(cli, ids@) =~= CliModel { suite: s, ..m });
                        }
                    },
                    Err(e) => {
                        return Err(e);
                    },
                }
            } else if is_case {
                let v = chars_of(value.as_str());
                let grew = sorted_insert(&mut ids, v);
                if !grew {
                    let mut out = chars_of("duplicate --case '");
                    push_all(&mut out, &chars_of(value.as_str()));
                    push_str_chars(&mut out, "'");
                    return Err(string_from_chars(&out));
                }
                proof {
                    assert(state_model(cli, ids@) =~= CliModel {
                        case_ids: sorted_insert_spec(m.case_ids, value@),
                        ..m
                    });
                }
            } else {
                let v = value.clone();
                if is_repo_root {
                    cli.repo_root = Some(v);
                } else if is_manifest {
                    cli.manifest = Some(v);
                } else if is_rust {
                    cli.rust = Some(v);
                } else if is_cpp {
                    cli.cpp = Some(v);
                } else {
                    cli.artifact = Some(v);
                }
                proof {
                    assert(state_model(cli, ids@) =~= with_path(m, a@, value@));
                }
            }
            i += 2;
        }
    }
    proof {
        assert(args.skip(n as int).len() == 0);
    }
    if cli.rust_only && cli.cpp.is_some() {
        return Err(String::from_str("--rust-only cannot be combined with --cpp"));
    }
    if cli.validate_only && (cli.rust.is_some() || cli.cpp.is_some() || cli.artifact.is_some()
        || cli.include_helpers || cli.rust_only || cli.allow_differences || ids.len() > 0) {
        return Err(String::from_str("--validate-only only accepts --repo-root, --manifest, and --suite"));
    }
    cli.case_ids = strings_of(&ids);
    proof {
        assert(cli.model() =~= state_model(cli, ids@));
    }
    Ok(CliCommand::Run(cli))
}

/// The first case of `cases` with identifier `id`.
pub open spec fn first_case_with_id(cases: Seq<FixtureCase>, id: Seq<char>) -> Option<FixtureCase>
    decreases cases.len(),
{
    if cases.len() == 0 {
        None
    } else if cases[0].id@ == id {
        Some(cases[0])
    } else {
        first_case_with_id(cases.drop_first(), id)
    }
}

/// The error for the first of `ids` that names no case of `cases`, or names a
/// case outside `suite`.
pub open spec fn requested_case_error(cases: Seq<FixtureCase>, suite: Suite, ids: Seq<Seq<char>>) -> Option<
    Seq<char>,
>
    decreases ids.len(),
{
    if ids.len() == 0 {
        None
    } else {
        match first_case_with_id(cases, ids[0]) {
            None => Some("unknown --case '"@ + ids[0] + "'"@),
            Some(c) => if !suite.selects(c.path@) {
                Some("--case '"@ + ids[0] + "' is not in the '"@ + suite.name() + "' suite"@)
            } else {
                requested_case_error(cases, suite, ids.drop_first())
            },
        }
    }
}

fn find_case(cases: &Vec<FixtureCase>, id: &String) -> (r: Option<usize>)
    ensures
        match first_case_with_id(cases@, id@) {
            None => r is None,
            Some(c) => r matches Some(k) && k < cases@.len() && cases@[k as int] == c,
        },
{
    let n = cases.len();
    let mut i: usize = 0;
    proof {
        assert(cases@.skip(0) =~= cases@);
    }
    while i < n
        invariant
            n == cases@.len(),
            i <= n,
            first_case_with_id(cases@, id@) == first_case_with_id(cases@.skip(i as int), id@),
        decreases n - i,
    {
        proof {
            assert(cases@.skip(i as int)[0] == cases@[i as int]);
            assert(cases@.skip(i as int).drop_first() =~= cases@.skip(i + 1));
        }
        if cases[i].id == *id {
            return Some(i);
        }
        i += 1;
    }
    None
}

/// Check that each requested identifier (in order) names a case of the
/// manifest that `suite` selects; the first that does not gives the error.
pub fn check_requested_cases(manifest: &FixtureManifest, suite: Suite, case_ids: &Vec<String>) -> (r:
    Result<(), String>)
    ensures
        match requested_case_error(manifest.cases@, suite, string_views(case_ids@)) {
            None => r is Ok,
            Some(e) => r matches Err(x) && x@ == e,
        },
{
    let ghost ids = string_views(case_ids@);
    let n = case_ids.len();
    let mut i: usize = 0;
    proof {
        assert(ids.skip(0) =~= ids);
    }
    while i < n
        invariant
            n == case_ids@.len(),
            ids == string_views(case_ids@),
            i <= n,
            requested_case_error(manifest.cases@, suite, ids) == requested_case_error(
                manifest.cases@,
                suite,
                ids.skip(i as int),
            ),
        decreases n - i,
    {
        let id = &case_ids[i];
        proof {
            assert(ids.skip(i as int)[0] == id@);
            assert(ids.skip(i as int).drop_first() =~= ids.skip(i + 1));
        }
        match find_case(&manifest.cases, id) {
            None => {
                let mut out = chars_of("unknown --case '");
                push_str_chars(&mut out, id.as_str());
                push_str_chars(&mut out, "'");
                return Err(string_from_chars(&out));
            },
            Some(k) => {
                if !suite.includes(&manifest.cases[k]) {
                    let mut out = chars_of("--case '");
                    push_str_chars(&mut out, id.as_str());
                    push_str_chars(&mut out, "' is not in the '");
                    push_str_chars(&mut out, suite.as_str());
                    push_str_chars(&mut out, "' suite");
                    return Err(string_from_chars(&out));
                }
            },
        }
        i += 1;
    }
    proof {
        assert(ids.skip(n as int).len() == 0);
    }
    Ok(())
}

/// How many of `cases` have a path that, with backslashes turned into
/// slashes, starts with `prefix`.
pub open spec fn cases_under(cases: Seq<FixtureCase>, prefix: Seq<char>) -> nat
    decreases cases.len(),
{
    if cases.len() == 0 {
        0
    } else {
        cases_under(cases.drop_last(), prefix) + if prefix.is_prefix_of(
            forward_slashes(cases.last().path@),
        ) {
            1nat
        } else {
            0nat
        }
    }
}

/// How many of `cases` lie neither among the official nor among the
/// differential fixtures.
pub open spec fn cases_elsewhere(cases: Seq<FixtureCase>) -> nat
    decreases cases.len(),
{
    if cases.len() == 0 {
        0
    } else {
        let p = forward_slashes(cases.last().path@);
        cases_elsewhere(cases.drop_last()) + if !official_prefix().is_prefix_of(p)
            && !differential_prefix().is_prefix_of(p) {
            1nat
        } else {
            0nat
        }
    }
}

/// The line printed after a successful validation of `m`.
pub open spec fn validation_summary(m: FixtureManifest) -> Seq<char> {
    "manifest valid: "@ + decimal(m.cases@.len()) + " fixtures (M0 baseline "@ + decimal(
        m.inventory.m0_baseline as nat,
    ) + ", +"@ + decimal(m.inventory.added_differential as nat) + " differential; "@ + decimal(
        cases_elsewhere(m.cases@),
    ) + " non-official, "@ + decimal(cases_under(m.cases@, official_prefix())) + " official)"@
}

fn starts_with_text(s: &Vec<char>, prefix: &str) -> (r: bool)
    ensures
        r == prefix@.is_prefix_of(s@),
{
    let p = chars_of(prefix);
    if p.len() > s.len() {
        return false;
    }
    let n = p.len();
    let mut i: usize = 0;
    while i < n
        invariant
            n == p@.len(),
            p@ == prefix@,
            n <= s@.len(),
            i <= n,
            forall|j: int| 0 <= j < i ==> p@[j] == s@[j],
        decreases n - i,
    {
        if p[i] != s[i] {
            return false;
        }
        i += 1;
    }
    true
}

/// The line printed after a successful validation of `manifest`: its case
/// count, its declared inventory, and how many cases are non-official and
/// official.
pub fn validation_summary_text(manifest: &FixtureManifest) -> (r: String)
    ensures
        r@ == validation_summary(*manifest),
{
    let n = manifest.cases.len();
    let mut official: u64 = 0;
    let mut elsewhere: u64 = 0;
    let mut i: usize = 0;
    while i < n
        invariant
            n == manifest.cases@.len(),
            i <= n,
            official == cases_under(manifest.cases@.take(i as int), official_prefix()),
            elsewhere == cases_elsewhere(manifest.cases@.take(i as int)),
            official <= i,
            elsewhere <= i,
        decreases n - i,
    {
        let path = super::paths::path_string_with_forward_slashes(manifest.cases[i].path.as_str());
        let chars = chars_of(path.as_str());
        let is_official = starts_with_text(&chars, "tests/lua/official/");
        let is_differential = starts_with_text(&chars, "tests/lua/differential/");
        proof {
            assert(manifest.cases@.take(i + 1).drop_last() =~= manifest.cases@.take(i as int));
            assert(manifest.cases@.take(i + 1).last() == manifest.cases@[i as int]);
        }
        if is_official {
            official = official + 1;
        }
        if !is_official && !is_differential {
            elsewhere = elsewhere + 1;
        }
        i += 1;
    }
    proof {
        assert(manifest.cases@.take(n as int) =~= manifest.cases@);
    }
    let mut out = chars_of("manifest valid: ");
    push_decimal(&mut out, n as u64);
    push_str_chars(&mut out, " fixtures (M0 baseline ");
    push_decimal(&mut out, manifest.inventory.m0_baseline as u64);
    push_str_chars(&mut out, ", +");
    push_decimal(&mut out, manifest.inventory.added_differential as u64);
    push_str_chars(&mut out, " differential; ");
    push_decimal(&mut out, elsewhere);
    push_str_chars(&mut out, " non-official, ");
    push_decimal(&mut out, official);
    push_str_chars(&mut out, " official)");
    string_from_chars(&out)
}

/// Artifact location, relative to the repository root, used when none is given.
pub open spec fn default_artifact_path(suite: Suite) -> Seq<char> {
    "target/compatibility/lua-fixtures-"@ + suite.name() + ".json"@
}

/// The artifact location, relative to the repository root, for `suite` when
/// none is given.
pub fn default_artifact_relative_path(suite: Suite) -> (r: String)
    ensures
        r@ == default_artifact_path(suite),
{
    let mut out = chars_of("target/compatibility/lua-fixtures-");
    push_str_chars(&mut out, suite.as_str());
    push_str_chars(&mut out, ".json");
    string_from_chars(&out)
}

/// The report printed after a run that wrote its artifact to `artifact_path`.
pub open spec fn run_report(artifact_path: Seq<char>, s: RunSummary) -> Seq<char> {
    "artifact: "@ + artifact_path + "\nselected="@ + decimal(s.selected as nat) + " executed="@
        + decimal(s.executed as nat) + " matched="@ + decimal(s.matches as nat)
        + " rust-only-expected="@ + decimal(s.rust_only_expected as nat) + " differences="@
        + decimal(s.differences as nat) + " runner-errors="@ + decimal(s.runner_errors as nat)
        + " helpers-skipped="@ + decimal(s.helpers_skipped as nat) + " timed-out="@ + decimal(
        s.timed_out as nat,
    )
}

/// The report printed after a run: where the artifact was written and the
/// summary's counts.
pub fn run_report_text(artifact_path: &str, summary: &RunSummary) -> (r: String)
    ensures
        r@ == run_report(artifact_path@, *summary),
{
    let mut out = chars_of("artifact: ");
    push_str_chars(&mut out, artifact_path);
    push_str_chars(&mut out, "\nselected=");
    push_decimal(&mut out, summary.selected as u64);
    push_str_chars(&mut out, " executed=");
    push_decimal(&mut out, summary.executed as u64);
    push_str_chars(&mut out, " matched=");
    push_decimal(&mut out, summary.matches as u64);
    push_str_chars(&mut out, " rust-only-expected=");
    push_decimal(&mut out, summary.rust_only_expected as u64);
    push_str_chars(&mut out, " differences=");
    push_decimal(&mut out, summary.differences as u64);
    push_str_chars(&mut out, " runner-errors=");
    push_decimal(&mut out, summary.runner_errors as u64);
    push_str_chars(&mut out, " helpers-skipped=");
    push_decimal(&mut out, summary.helpers_skipped as u64);
    push_str_chars(&mut out, " timed-out=");
    push_decimal(&mut out, summary.timed_out as u64);
    string_from_chars(&out)
}

} // verus!
