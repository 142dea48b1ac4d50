use lua_rust::fixture::normalize::NormalizationContext;
use lua_rust::fixture::run::{
    append_error, case_selected, executed_case_count, execution_artifact, exit_status,
    finish_case, run_case, run_manifest, runs_cpp, side_effect_artifact, side_effect_size_error,
    skipped_helper_artifact, sort_side_effects, work_directory_plan, CapturedProcess, CaseRun,
    WorkDirectoryPlan,
};
use lua_rust::fixture::{
    CaseStatus, EnginePathsArtifact, ExecutionArtifact, FixtureCase, FixtureInventory, FixtureKind,
    FixtureManifest, NormalizationKind, NormalizationRule, NormalizationTarget, Oracle,
    RunConfiguration, RunSummary, SideEffectArtifact, Suite,
};

fn case(id: &str, path: &str, kind: FixtureKind) -> FixtureCase {
    FixtureCase {
        id: id.to_owned(),
        path: path.to_owned(),
        kind,
        working_directory: "repository".to_owned(),
        args: vec!["--flag".to_owned()],
        environment: vec![],
        expected_exit: 0,
        timeout_ms: 1000,
        compare_stdout: true,
        compare_stderr: true,
        compare_side_effects: false,
        side_effects: vec![],
        normalizations: vec![NormalizationRule {
            target: NormalizationTarget::Both,
            kind: NormalizationKind::Literal,
            pattern: "{{working_directory}}".to_owned(),
            replacement: "<cwd>".to_owned(),
        }],
        oracles: vec![Oracle::LuaRust, Oracle::LuaCpp],
    }
}

fn ctx() -> NormalizationContext {
    NormalizationContext {
        executable: "/bin/lua".to_owned(),
        working_directory: "/work".to_owned(),
        repo_root: "/repo".to_owned(),
        script_path: "/repo/t.lua".to_owned(),
        temp_directory: None,
    }
}

fn captured(stdout: &[u8], exit_code: Option<i32>) -> CapturedProcess {
    CapturedProcess {
        duration_ms: 5,
        timed_out: false,
        exit_code,
        spawn_error: None,
        stdout: stdout.to_vec(),
        stderr: vec![],
    }
}

fn execute(c: &FixtureCase, engine: &str, stdout: &[u8], exit_code: Option<i32>) -> ExecutionArtifact {
    execution_artifact(engine, "/bin/lua", "/repo/t.lua", c, "/work", captured(stdout, exit_code), Ok(vec![]), &ctx())
}

fn configuration(suite: Suite, case_ids: Vec<String>, include_helpers: bool) -> RunConfiguration {
    RunConfiguration {
        repo_root: "/repo".to_owned(),
        manifest_path: "/repo/m.json".to_owned(),
        rust_executable: "/bin/lua".to_owned(),
        cpp_executable: Some("/bin/cpp".to_owned()),
        artifact_path: "/repo/a.json".to_owned(),
        suite,
        case_ids,
        include_helpers,
    }
}

#[test]
fn execution_record_normalizes_streams_and_checks_exit() {
    let c = case("a", "tests/lua/a.lua", FixtureKind::Entry);
    let e = execute(&c, "lua_rust", b"in /work\n", Some(0));
    assert_eq!(e.engine, "lua_rust");
    assert_eq!(e.argv, vec!["/repo/t.lua".to_owned(), "--flag".to_owned()]);
    assert_eq!(e.stdout.byte_length, 9);
    assert_eq!(e.stdout.normalized_lossy_text, "in <cwd>\n");
    assert!(e.expected_exit_matched);
    let failed = execute(&c, "lua_rust", b"", Some(3));
    assert!(!failed.expected_exit_matched);
}

#[test]
fn side_effect_error_is_appended_to_the_spawn_error() {
    let c = case("a", "tests/lua/a.lua", FixtureKind::Entry);
    let mut cap = captured(b"", Some(0));
    cap.spawn_error = Some("first".to_owned());
    let e = execution_artifact("lua_rust", "/bin/lua", "/repo/t.lua", &c, "/work", cap, Err("second".to_owned()), &ctx());
    assert_eq!(e.spawn_error, Some("first; second".to_owned()));
    assert!(e.side_effects.is_empty());
    assert!(!e.expected_exit_matched);

    let mut target = None;
    append_error(&mut target, "one".to_owned());
    append_error(&mut target, "two".to_owned());
    assert_eq!(target, Some("one; two".to_owned()));
}

#[test]
fn cases_are_classified_from_their_executions() {
    let c = case("a", "tests/lua/a.lua", FixtureKind::Entry);
    let ok = execute(&c, "lua_rust", b"x", Some(0));
    let same = execute(&c, "lua_cpp", b"x", Some(0));
    let other = execute(&c, "lua_cpp", b"y", Some(0));
    assert_eq!(finish_case(&c, ok.clone(), Some(same)).status, CaseStatus::Match);
    let diff = finish_case(&c, ok.clone(), Some(other));
    assert_eq!(diff.status, CaseStatus::Difference);
    assert!(diff.comparison.expect("compared").stdout_diff.is_some());
    assert_eq!(finish_case(&c, ok.clone(), None).status, CaseStatus::RustOnlyExpected);
    let mut broken = ok.clone();
    broken.spawn_error = Some("failed to spawn".to_owned());
    assert_eq!(finish_case(&c, broken, None).status, CaseStatus::RunnerError);
    let helper = case("h", "tests/lua/h.lua", FixtureKind::Helper);
    let skipped = skipped_helper_artifact(&helper);
    assert_eq!(skipped.status, CaseStatus::HelperSkipped);
    assert_eq!(skipped.skip_reason, Some("classified as helper; use --include-helpers to execute".to_owned()));
    assert_eq!(run_case(&helper, false, true, None).status, CaseStatus::HelperSkipped);
    let rust_only = run_case(&helper, true, false, Some(CaseRun { rust: ok, cpp: None }));
    assert_eq!(rust_only.status, CaseStatus::RustOnlyExpected);
    assert!(rust_only.lua_cpp.is_none());
    assert!(rust_only.comparison.is_none());
}

#[test]
fn selection_follows_suite_and_requested_ids() {
    let official = case("o", "tests/lua/official/o.lua", FixtureKind::Entry);
    let plain = case("p", "./tests/lua/p.lua", FixtureKind::Entry);
    let all = configuration(Suite::NonOfficial, vec![], false);
    assert!(case_selected(&all, &plain));
    assert!(!case_selected(&all, &official));
    let one = configuration(Suite::All, vec!["o".to_owned()], false);
    assert!(case_selected(&one, &official));
    assert!(!case_selected(&one, &plain));
    assert!(runs_cpp(&plain, true));
    assert!(!runs_cpp(&plain, false));
}

#[test]
fn run_manifest_records_every_selected_case_and_counts_them() {
    let entry = case("e", "tests/lua/e.lua", FixtureKind::Entry);
    let helper = case("h", "tests/lua/h.lua", FixtureKind::Helper);
    let official = case("o", "tests/lua/official/o.lua", FixtureKind::Entry);
    let manifest = FixtureManifest {
        schema_version: 1,
        fixture_root: "tests/lua".to_owned(),
        inventory: FixtureInventory { m0_baseline: 125, added_differential: 0, current_total: 3 },
        cases: vec![entry.clone(), helper.clone(), official],
    };
    let config = configuration(Suite::NonOfficial, vec![], false);
    assert_eq!(executed_case_count(&manifest, &config), 1);
    let mut timed_out = execute(&entry, "lua_cpp", b"y", Some(0));
    timed_out.timed_out = true;
    let runs = vec![CaseRun { rust: execute(&entry, "lua_rust", b"x", Some(0)), cpp: Some(timed_out) }];
    let engines = EnginePathsArtifact { lua_rust: "/bin/lua".to_owned(), lua_cpp: Some("/bin/cpp".to_owned()) };
    let artifact = run_manifest(&manifest, &config, engines, "0.1.0", 1234, runs);
    assert_eq!(artifact.schema_version, "lua-fixture-differential/v1");
    assert_eq!(artifact.suite, "non-official");
    assert_eq!(artifact.generated_at_unix_ms, 1234);
    assert_eq!(artifact.cases.len(), 2);
    assert_eq!(artifact.cases[0].id, "e");
    assert_eq!(artifact.cases[0].status, CaseStatus::Difference);
    assert!(artifact.cases[0].lua_cpp.is_some());
    assert!(artifact.cases[0].comparison.is_some());
    assert_eq!(artifact.engines.lua_cpp.as_deref(), Some("/bin/cpp"));
    assert_eq!(artifact.cases[1].status, CaseStatus::HelperSkipped);
    let s = artifact.summary;
    assert_eq!((s.selected, s.executed, s.helpers_skipped, s.differences, s.timed_out), (2, 1, 1, 1, 1));
    assert_eq!(exit_status(&s, false), 2);
}

#[test]
fn exit_status_prefers_runner_errors_then_differences() {
    let mut s = RunSummary::new();
    assert_eq!(exit_status(&s, false), 0);
    s.differences = 1;
    assert_eq!(exit_status(&s, false), 1);
    assert_eq!(exit_status(&s, true), 0);
    s.runner_errors = 1;
    assert_eq!(exit_status(&s, true), 2);
    let d = RunSummary::default();
    assert_eq!(d.selected, 0);
}

#[test]
fn side_effects_are_recorded_sorted_and_size_limited() {
    let rules = vec![];
    let a = side_effect_artifact("sub\\b.txt", b"hi", &rules, &ctx());
    assert_eq!(a.path, "sub/b.txt");
    assert_eq!(a.normalized_path, "sub/b.txt");
    assert_eq!(a.content_hex, "6869");
    assert_eq!(a.byte_length, 2);
    let b = side_effect_artifact("./a.txt", b"", &rules, &ctx());
    let sorted: Vec<SideEffectArtifact> = sort_side_effects(vec![a, b]);
    assert_eq!(sorted[0].path, "a.txt");
    assert_eq!(sorted[1].path, "sub/b.txt");
    assert_eq!(side_effect_size_error("/w/f", 16 * 1024 * 1024), None);
    assert_eq!(
        side_effect_size_error("/w/f", 16 * 1024 * 1024 + 1),
        Some("side effect /w/f is 16777217 bytes, above the 16777216 byte capture limit".to_owned())
    );
}

#[test]
fn work_directory_plans_follow_the_setting() {
    let mut c = case("a b/c", "tests/lua/a.lua", FixtureKind::Entry);
    c.working_directory = "temporary".to_owned();
    assert!(matches!(work_directory_plan(&c), WorkDirectoryPlan::Temporary { prefix } if prefix == "lua-fixture-a-b-c-"));
    c.working_directory = "repository".to_owned();
    assert!(matches!(work_directory_plan(&c), WorkDirectoryPlan::Repository));
    c.working_directory = "script-directory".to_owned();
    assert!(matches!(work_directory_plan(&c), WorkDirectoryPlan::ScriptDirectory));
    c.working_directory = "tests/lua".to_owned();
    assert!(matches!(work_directory_plan(&c), WorkDirectoryPlan::Relative(d) if d == "tests/lua"));
}
