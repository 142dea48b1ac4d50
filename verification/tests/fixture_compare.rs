use lua_rust::fixture::compare::{
    byte_artifact, compare_executions, describe_byte_difference, describe_side_effect_difference,
    first_different_line, normalized_side_effects,
};
use lua_rust::fixture::{
    ByteArtifact, ExecutionArtifact, FixtureCase, FixtureKind, Oracle, SideEffectArtifact,
};

fn effect(path: &str, hex: &str) -> SideEffectArtifact {
    SideEffectArtifact {
        path: path.to_owned(),
        normalized_path: path.to_owned(),
        byte_length: hex.len() / 2,
        content_hex: hex.to_owned(),
    }
}

fn case() -> FixtureCase {
    FixtureCase {
        id: "c".to_owned(),
        path: "tests/lua/c.lua".to_owned(),
        kind: FixtureKind::Entry,
        working_directory: "repository".to_owned(),
        args: vec![],
        environment: vec![],
        expected_exit: 0,
        timeout_ms: 1000,
        compare_stdout: true,
        compare_stderr: false,
        compare_side_effects: true,
        side_effects: vec![],
        normalizations: vec![],
        oracles: vec![Oracle::LuaRust, Oracle::LuaCpp],
    }
}

fn execution(stdout: &[u8], exit_code: Option<i32>, effects: Vec<SideEffectArtifact>) -> ExecutionArtifact {
    ExecutionArtifact {
        engine: "e".to_owned(),
        executable: "/e".to_owned(),
        argv: vec![],
        working_directory: "/w".to_owned(),
        duration_ms: 1,
        timed_out: false,
        exit_code,
        expected_exit_matched: exit_code == Some(0),
        spawn_error: None,
        stdout: byte_artifact(stdout, stdout),
        stderr: byte_artifact(b"", b""),
        side_effects: effects,
    }
}

#[test]
fn byte_difference_reports_offset_context_and_lines() {
    assert_eq!(
        describe_byte_difference(b"68656c6c6f", b"68656c706f", "hello", "helpo"),
        "first differing byte offset 3; rust hex=68656c6c6f; cpp hex=68656c706f; rust line=\"hello\"; cpp line=\"helpo\""
    );
}

#[test]
fn byte_difference_context_starts_sixteen_digits_back() {
    let rust = "00112233445566778899aabbccddeeff";
    let cpp = "00112233445566778899aabbccddee00";
    assert_eq!(
        describe_byte_difference(rust.as_bytes(), cpp.as_bytes(), "x", "x"),
        "first differing byte offset 15; rust hex=778899aabbccddeeff; cpp hex=778899aabbccddee00; rust line=\"<identical-text>\"; cpp line=\"<identical-text>\""
    );
}

#[test]
fn first_different_line_marks_ends_and_identity() {
    assert_eq!(first_different_line("a\nb", "a\nc"), ("b".to_owned(), "c".to_owned()));
    assert_eq!(first_different_line("a", "a\nb"), ("<end-of-stream>".to_owned(), "b".to_owned()));
    assert_eq!(first_different_line("a\nb\n", "a"), ("b".to_owned(), "<end-of-stream>".to_owned()));
    assert_eq!(
        first_different_line("same\r\n", "same"),
        ("<identical-text>".to_owned(), "<identical-text>".to_owned())
    );
}

#[test]
fn side_effect_difference_names_files_and_first_content_difference() {
    assert_eq!(
        describe_side_effect_difference(&vec![effect("out.txt", "6162")], &vec![effect("out.txt", "6163")]),
        "rust files=[\"out.txt\"]; cpp files=[\"out.txt\"]; first content difference: out.txt at byte 1"
    );
    assert_eq!(
        describe_side_effect_difference(&vec![effect("a", "00")], &vec![]),
        "rust files=[\"a\"]; cpp files=[]; file sets differ"
    );
}

#[test]
fn normalized_side_effects_pair_path_and_content() {
    assert_eq!(
        normalized_side_effects(&vec![effect("a", "00"), effect("b", "01")]),
        vec![("a".to_owned(), "00".to_owned()), ("b".to_owned(), "01".to_owned())]
    );
}

#[test]
fn byte_artifact_records_hex_and_lossy_text() {
    let artifact: ByteArtifact = byte_artifact(b"A\xff", b"A");
    assert_eq!(artifact.byte_length, 2);
    assert_eq!(artifact.hex, "41ff");
    assert_eq!(artifact.lossy_text, "A\u{fffd}");
    assert_eq!(artifact.normalized_byte_length, 1);
    assert_eq!(artifact.normalized_hex, "41");
    assert_eq!(artifact.normalized_lossy_text, "A");
}

#[test]
fn comparison_matches_only_when_every_compared_part_agrees() {
    let c = case();
    let same = compare_executions(&c, &execution(b"hi", Some(0), vec![]), &execution(b"hi", Some(0), vec![]));
    assert!(same.matched);
    assert_eq!(same.stdout_equal, Some(true));
    assert_eq!(same.stderr_equal, None);
    assert!(same.stdout_diff.is_none());

    let differ = compare_executions(&c, &execution(b"hi", Some(0), vec![]), &execution(b"ho", Some(1), vec![]));
    assert!(!differ.matched);
    assert!(!differ.exit_code_equal);
    assert_eq!(differ.stdout_equal, Some(false));
    assert!(differ.stdout_diff.is_some());

    let effects = compare_executions(
        &c,
        &execution(b"", Some(0), vec![effect("f", "00")]),
        &execution(b"", Some(0), vec![effect("f", "01")]),
    );
    assert_eq!(effects.side_effects_equal, Some(false));
    assert_eq!(
        effects.side_effects_diff,
        Some("rust files=[\"f\"]; cpp files=[\"f\"]; first content difference: f at byte 0".to_owned())
    );
}
