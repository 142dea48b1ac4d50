use lua_rust::fixture::locate::{
    absolute_from, cpp_executable_candidate, discover_repo_root, find_default_cpp_executable,
    find_default_rust_executable, join_path, rust_executable_candidates, RootProbe,
};
use lua_rust::fixture::manifest::PathProbe;
use lua_rust::fixture::paths::{
    hex_encode, is_blank_str, is_differential_path, is_official_path, normalize_relative_path,
    path_string_with_forward_slashes, replace_templates_for_validation, sanitize_id,
    validate_relative_path,
};
use lua_rust::fixture::Suite;

fn root(path: &str, cargo: bool, lua: bool) -> RootProbe {
    RootProbe { path: path.to_owned(), has_cargo_toml: cargo, has_lua_tests: lua }
}

#[test]
fn repo_root_is_the_nearest_directory_with_both_markers() {
    let ancestors = vec![root("/r/tools/x", true, false), root("/r/tools", false, false), root("/r", true, true), root("/", true, true)];
    assert_eq!(discover_repo_root("/r/tools/x", &ancestors), Ok("/r".to_owned()));
    assert_eq!(
        discover_repo_root("/elsewhere", &vec![root("/elsewhere", false, true)]),
        Err("could not find lua_rust repository root above /elsewhere".to_owned())
    );
}

#[test]
fn executable_candidates_follow_the_build_layout() {
    assert_eq!(
        rust_executable_candidates("/r", false),
        vec![
            "/r/target/debug/lua_app".to_owned(),
            "/r/target/x86_64-pc-windows-msvc/debug/lua_app".to_owned(),
            "/r/target/release/lua_app".to_owned(),
            "/r/target/x86_64-pc-windows-msvc/release/lua_app".to_owned(),
        ]
    );
    assert_eq!(rust_executable_candidates("/r/", true)[0], "/r/target/debug/lua_app.exe");
    let probes = vec![
        PathProbe { display: "a".to_owned(), exists: false },
        PathProbe { display: "b".to_owned(), exists: true },
        PathProbe { display: "c".to_owned(), exists: true },
    ];
    assert_eq!(find_default_rust_executable(&probes), Some("b".to_owned()));
    assert_eq!(find_default_rust_executable(&vec![]), None);
    assert_eq!(cpp_executable_candidate("/src", false), "/src/lua_cpp/bin/lua_app");
    assert_eq!(
        find_default_cpp_executable(Some(PathProbe { display: "/src/lua_cpp/bin/lua_app".to_owned(), exists: true })),
        Some("/src/lua_cpp/bin/lua_app".to_owned())
    );
    assert_eq!(find_default_cpp_executable(Some(PathProbe { display: "x".to_owned(), exists: false })), None);
    assert_eq!(find_default_cpp_executable(None), None);
}

#[test]
fn paths_join_like_unix_paths() {
    assert_eq!(join_path("/a", "b"), "/a/b");
    assert_eq!(join_path("/a/", "b"), "/a/b");
    assert_eq!(join_path("", "b"), "b");
    assert_eq!(join_path("/a", "/b"), "/b");
    assert_eq!(absolute_from("/cwd", "rel/x"), "/cwd/rel/x");
    assert_eq!(absolute_from("/cwd", "/abs"), "/abs");
}

#[test]
fn relative_paths_are_normalized_and_classified() {
    assert_eq!(normalize_relative_path(".\\./tests\\lua/x.lua"), "tests/lua/x.lua");
    assert_eq!(normalize_relative_path("././a"), "a");
    assert_eq!(path_string_with_forward_slashes("a\\b"), "a/b");
    assert!(is_official_path("./tests/lua/official/x.lua"));
    assert!(is_differential_path("tests\\lua\\differential\\x.lua"));
    assert!(!is_official_path("tests/lua/x.lua"));
    assert!(Suite::All.includes(&sample_case("tests/lua/official/x.lua")));
    assert!(!Suite::Differential.includes(&sample_case("tests/lua/x.lua")));
    assert_eq!(validate_relative_path("a/b"), Ok(()));
    assert_eq!(validate_relative_path(""), Err("must not be empty".to_owned()));
    assert!(is_blank_str(" \t\n"));
    assert!(!is_blank_str(" x "));
}

fn sample_case(path: &str) -> lua_rust::fixture::FixtureCase {
    lua_rust::fixture::FixtureCase {
        id: "x".to_owned(),
        path: path.to_owned(),
        kind: lua_rust::fixture::FixtureKind::Entry,
        working_directory: "repository".to_owned(),
        args: vec![],
        environment: vec![],
        expected_exit: 0,
        timeout_ms: 1,
        compare_stdout: true,
        compare_stderr: true,
        compare_side_effects: false,
        side_effects: vec![],
        normalizations: vec![],
        oracles: vec![],
    }
}

#[test]
fn ids_hex_and_templates() {
    assert_eq!(sanitize_id("a.b_c-9"), "a-b-c-9");
    assert_eq!(hex_encode(&[0x00, 0xab, 0xff]), "00abff");
    assert_eq!(replace_templates_for_validation("{{repo_root}}/x{{temp_directory_slash}}"), "placeholder/xplaceholder");
}

#[test]
fn suites_parse_and_name_themselves() {
    assert_eq!(Suite::parse("official"), Ok(Suite::Official));
    assert_eq!(Suite::parse("non-official"), Ok(Suite::NonOfficial));
    assert_eq!(Suite::All.as_str(), "all");
    assert_eq!(Suite::parse("bad"), Err("invalid suite 'bad'; expected non-official, differential, official, or all".to_owned()));
}
