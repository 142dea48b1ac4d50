use lua_rust::fixture::normalize::{expand_template, normalize_bytes, normalize_text, NormalizationContext};
use lua_rust::fixture::{NormalizationKind, NormalizationRule, NormalizationTarget};

fn context(executable: &str, working_directory: &str, script_path: &str) -> NormalizationContext {
    NormalizationContext {
        executable: executable.to_owned(),
        working_directory: working_directory.to_owned(),
        repo_root: working_directory.to_owned(),
        script_path: script_path.to_owned(),
        temp_directory: Some(working_directory.to_owned()),
    }
}

fn rule(target: NormalizationTarget, kind: NormalizationKind, pattern: &str, replacement: &str) -> NormalizationRule {
    NormalizationRule {
        target,
        kind,
        pattern: pattern.to_owned(),
        replacement: replacement.to_owned(),
    }
}

#[test]
fn literal_normalization_is_byte_preserving() {
    let ctx = context("/tmp/lua app", "/tmp/work", "/tmp/work/test.lua");
    let rules = vec![rule(NormalizationTarget::Stdout, NormalizationKind::Literal, "{{executable}}", "<lua>")];
    let input = b"prefix /tmp/lua app suffix \xff";
    let output = normalize_bytes(input, &rules, NormalizationTarget::Stdout, &ctx);
    assert_eq!(output, b"prefix <lua> suffix \xff");
}

#[test]
fn forward_slash_path_template_is_explicit() {
    let ctx = context(r"C:\runtime\lua_app.exe", r"C:\work", r"C:\work/test.lua");
    let rules = vec![rule(NormalizationTarget::Both, NormalizationKind::Literal, "{{executable_slash}}", "<lua>")];
    let output = normalize_bytes(b"C:/runtime/lua_app.exe", &rules, NormalizationTarget::Stdout, &ctx);
    assert_eq!(output, b"<lua>");
}

#[test]
fn regex_normalization_is_explicit_and_targeted() {
    let ctx = context("/tmp/lua", "/tmp/work", "/tmp/work/test.lua");
    let rules = vec![rule(NormalizationTarget::Stderr, NormalizationKind::Regex, r"0x[0-9a-fA-F]+", "<address>")];
    assert_eq!(
        normalize_bytes(b"value=0x123abc", &rules, NormalizationTarget::Stderr, &ctx),
        b"value=<address>"
    );
    assert_eq!(
        normalize_bytes(b"value=0x123abc", &rules, NormalizationTarget::Stdout, &ctx),
        b"value=0x123abc"
    );
}

#[test]
fn regex_templates_are_escaped_and_literal_templates_are_not() {
    let ctx = context("/tmp/a.b", "/tmp/work", "/tmp/work/test.lua");
    assert_eq!(expand_template("{{executable}}!", &ctx, false), "/tmp/a.b!");
    assert_eq!(expand_template("{{executable}}!", &ctx, true), r"/tmp/a\.b!");
    let rules = vec![rule(NormalizationTarget::Stdout, NormalizationKind::Regex, "{{executable}}", "<exe>")];
    assert_eq!(normalize_bytes(b"/tmp/a.b /tmp/axb", &rules, NormalizationTarget::Stdout, &ctx), b"<exe> /tmp/axb");
}

#[test]
fn both_target_skips_side_effect_paths_and_rules_apply_in_order() {
    let ctx = context("/x", "/w", "/w/s.lua");
    let rules = vec![
        rule(NormalizationTarget::Both, NormalizationKind::Literal, "a", "b"),
        rule(NormalizationTarget::Stdout, NormalizationKind::Literal, "b", "c"),
    ];
    assert_eq!(normalize_bytes(b"aab", &rules, NormalizationTarget::Stdout, &ctx), b"ccc");
    assert_eq!(normalize_bytes(b"aab", &rules, NormalizationTarget::Stderr, &ctx), b"bbb");
    assert_eq!(normalize_text("aab", &rules, NormalizationTarget::SideEffectPath, &ctx), "aab");
}

#[test]
fn missing_temp_directory_expands_to_nothing() {
    let mut ctx = context("/x", "/w", "/w/s.lua");
    ctx.temp_directory = None;
    assert_eq!(expand_template("[{{temp_directory}}]", &ctx, false), "[]");
    assert_eq!(expand_template("{{script_path_slash}}", &ctx, false), "/w/s.lua");
}
