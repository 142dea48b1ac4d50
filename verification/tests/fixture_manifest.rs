use lua_rust::fixture::manifest::{environment_is_ordered, validate_manifest, validate_working_directory, CaseProbe, ManifestProbes, PathProbe};
use lua_rust::fixture::{FixtureCase, FixtureInventory, FixtureKind, FixtureManifest, NormalizationKind, NormalizationRule, NormalizationTarget, Oracle};

fn probe(display: &str, exists: bool) -> PathProbe {
    PathProbe { display: display.to_owned(), exists }
}

fn case(id: &str, path: &str) -> FixtureCase {
    FixtureCase {
        id: id.to_owned(),
        path: path.to_owned(),
        kind: FixtureKind::Entry,
        working_directory: "repository".to_owned(),
        args: vec![],
        environment: vec![],
        expected_exit: 0,
        timeout_ms: 1000,
        compare_stdout: true,
        compare_stderr: true,
        compare_side_effects: false,
        side_effects: vec![],
        normalizations: vec![],
        oracles: vec![Oracle::LuaRust, Oracle::LuaCpp],
    }
}

fn repository_manifest() -> FixtureManifest {
    let mut cases = Vec::new();
    for i in 0..125 {
        cases.push(case(&format!("basic-{i}"), &format!("tests/lua/basic/case_{i}.lua")));
    }
    for i in 0..6 {
        cases.push(case(&format!("diff-{i}"), &format!("tests/lua/differential/d_{i}.lua")));
    }
    cases[3].kind = FixtureKind::Negative;
    cases[3].expected_exit = 1;
    FixtureManifest {
        schema_version: 1,
        fixture_root: "tests/lua".to_owned(),
        inventory: FixtureInventory { m0_baseline: 125, added_differential: 6, current_total: 131 },
        cases,
    }
}

fn probes_for(manifest: &FixtureManifest, lua_files: Vec<String>) -> ManifestProbes {
    ManifestProbes {
        fixture_root: probe("/repo/tests/lua", true),
        cases: manifest
            .cases
            .iter()
            .map(|c| CaseProbe {
                fixture_file: probe(&format!("/repo/{}", c.path), true),
                working_directory: probe("/repo", true),
            })
            .collect(),
        lua_paths: Ok(lua_files),
    }
}

fn all_paths(manifest: &FixtureManifest) -> Vec<String> {
    manifest.cases.iter().map(|c| c.path.clone()).collect()
}

#[test]
fn repository_shaped_manifest_is_valid() {
    let manifest = repository_manifest();
    let probes = probes_for(&manifest, all_paths(&manifest));
    assert_eq!(validate_manifest(&manifest, &probes), Ok(()));
}

#[test]
fn manifest_validation_rejects_an_unclassified_fixture() {
    let mut manifest = repository_manifest();
    let files = all_paths(&manifest);
    let removed = manifest.cases.pop().expect("at least one fixture");
    manifest.inventory.current_total = manifest.cases.len();
    let probes = probes_for(&manifest, files);
    let error = validate_manifest(&manifest, &probes).expect_err("missing case must fail");
    assert!(error.contains(&format!("unclassified Lua fixture: {}", removed.path)), "{error}");
}

#[test]
fn manifest_validation_rejects_a_stale_differential_inventory_count() {
    let mut manifest = repository_manifest();
    manifest.inventory.added_differential -= 1;
    let probes = probes_for(&manifest, all_paths(&manifest));
    let error = validate_manifest(&manifest, &probes).expect_err("stale inventory must fail");
    assert!(error.contains("but 6 differential fixtures are classified"), "{error}");
}

#[test]
fn negative_fixture_requires_nonzero_expected_exit() {
    let mut manifest = repository_manifest();
    let negative = manifest
        .cases
        .iter_mut()
        .find(|case| case.kind == FixtureKind::Negative)
        .expect("negative fixture");
    negative.expected_exit = 0;
    let probes = probes_for(&manifest, all_paths(&manifest));
    let error = validate_manifest(&manifest, &probes).expect_err("invalid negative case");
    assert!(error.contains("negative fixture must declare a non-zero expected_exit"), "{error}");
}

#[test]
fn report_lists_every_message_in_order() {
    let mut manifest = repository_manifest();
    manifest.schema_version = 2;
    manifest.cases[0].timeout_ms = 0;
    manifest.cases[1].oracles = vec![Oracle::LuaCpp, Oracle::LuaCpp];
    manifest.cases[2].normalizations = vec![NormalizationRule {
        target: NormalizationTarget::Stdout,
        kind: NormalizationKind::Regex,
        pattern: "(".to_owned(),
        replacement: "".to_owned(),
    }];
    let probes = probes_for(&manifest, all_paths(&manifest));
    let error = validate_manifest(&manifest, &probes).expect_err("invalid manifest");
    assert!(error.starts_with("fixture manifest validation failed:\n- schema_version is 2, expected 1\n- "), "{error}");
    assert!(error.contains("cases[0] (basic-0): timeout_ms must be greater than zero"), "{error}");
    assert!(error.contains("cases[1] (basic-1): duplicate oracle\n- cases[1] (basic-1): lua_rust oracle is required"), "{error}");
    assert!(error.contains("cases[2] (basic-2): normalizations[0] invalid regex: "), "{error}");
}

#[test]
fn duplicate_ids_and_paths_are_reported() {
    let mut manifest = repository_manifest();
    manifest.cases[1].id = "basic-0".to_owned();
    manifest.cases[2].path = "./tests/lua/basic/case_0.lua".to_owned();
    let probes = probes_for(&manifest, all_paths(&manifest));
    let error = validate_manifest(&manifest, &probes).expect_err("duplicates");
    assert!(error.contains("cases[1] (basic-0): duplicate id"), "{error}");
    assert!(error.contains("cases[2] (basic-2): duplicate path"), "{error}");
}

#[test]
fn working_directory_must_be_named_or_an_existing_relative_directory() {
    assert_eq!(validate_working_directory("temporary", &probe("x", false)), Ok(()));
    assert_eq!(validate_working_directory("script-directory", &probe("x", false)), Ok(()));
    assert_eq!(validate_working_directory("tests/lua", &probe("/repo/tests/lua", true)), Ok(()));
    assert_eq!(
        validate_working_directory("missing", &probe("/repo/missing", false)),
        Err("directory does not exist: /repo/missing".to_owned())
    );
    assert_eq!(validate_working_directory("../up", &probe("x", true)), Err("must not contain parent/root/prefix components".to_owned()));
    assert_eq!(validate_working_directory("/abs", &probe("x", true)), Err("must be relative".to_owned()));
    assert_eq!(validate_working_directory("  ", &probe("x", true)), Err("must not be empty".to_owned()));
}

#[test]
fn environment_names_must_be_distinct_and_ascending() {
    let pair = |n: &str| (n.to_owned(), "v".to_owned());
    assert!(environment_is_ordered(&vec![]));
    assert!(environment_is_ordered(&vec![pair("A"), pair("B"), pair("a")]));
    assert!(!environment_is_ordered(&vec![pair("B"), pair("A")]));
    assert!(!environment_is_ordered(&vec![pair("A"), pair("A")]));
}
