//! Decisions of a fixture run: which cases run, how one engine's capture
//! becomes an execution record, how a case is classified, and how the run
//! summary is kept.

use vstd::prelude::*;
use crate::text::{
    char_views, chars_equal, chars_of, decimal, lex_less, lex_lt, push_all, push_decimal,
    push_str_chars, string_from_chars,
};
use super::{
    CaseArtifact, CaseStatus, EnginePathsArtifact, ExecutionArtifact, FixtureCase, FixtureKind,
    FixtureManifest, ARTIFACT_SCHEMA_VERSION,
    NormalizationRule, NormalizationTarget, Oracle, RunArtifact, RunConfiguration, RunSummary,
    SideEffectArtifact,
};
use super::compare::{byte_artifact, compare_executions, comparison_of};
use super::normalize::{normalize_bytes, normalize_text, normalized_bytes, NormalizationContext, lossy_utf8};
use super::paths::{hex_chars, hex_text, id_char, normalize_relative_path, normalized_path, sanitize_id};
use super::manifest::string_views;
use vstd::utf8::encode_utf8;

verus! {

/// Largest side-effect file, in bytes, that a run captures.
pub const MAX_CAPTURED_SIDE_EFFECT_BYTES: u64 = 16777216;

/// What one engine process did, as captured by the caller.
#[derive(Clone, Debug)]
pub struct CapturedProcess {
    pub duration_ms: u128,
    pub timed_out: bool,
    pub exit_code: Option<i32>,
    pub spawn_error: Option<String>,
    pub stdout: Vec<u8>,
    pub stderr: Vec<u8>,
}

/// `target` after appending `error` to it: joined with `"; "` when there is
/// already an error.
pub open spec fn appended_error(target: Option<Seq<char>>, error: Seq<char>) -> Seq<char> {
    match target {
        Some(existing) => existing + "; "@ + error,
        None => error,
    }
}

/// The view of an optional string.
pub open spec fn opt_view(s: Option<String>) -> Option<Seq<char>> {
    match s {
        Some(t) => Some(t@),
        None => None,
    }
}

/// Record `error`, after any error already recorded.
pub fn append_error(target: &mut Option<String>, error: String)
    ensures
        *final(target) matches Some(t) && t@ == appended_error(opt_view(*old(target)), error@),
{
    match target {
        Some(existing) => {
            existing.append("; ");
            existing.append(error.as_str());
        },
        None => {
            *target = Some(error);
        },
    }
}

/// Whether a case of this kind is skipped as a helper.
pub open spec fn skips_helper(case: FixtureCase, include_helpers: bool) -> bool {
    case.kind == FixtureKind::Helper && !include_helpers
}

/// Whether `case` is a helper that this run skips.
pub fn should_skip_helper(case: &FixtureCase, include_helpers: bool) -> (r: bool)
    ensures
        r == skips_helper(*case, include_helpers),
{
    case.kind == FixtureKind::Helper && !include_helpers
}

/// Whether the second engine runs `case`: it is configured and the case names
/// it as an oracle.
pub open spec fn cpp_runs(case: FixtureCase, cpp_configured: bool) -> bool {
    cpp_configured && case.oracles@.contains(Oracle::LuaCpp)
}

/// Whether the second engine runs `case`: it is configured and the case names
/// it as an oracle.
pub fn runs_cpp(case: &FixtureCase, cpp_configured: bool) -> (r: bool)
    ensures
        r == cpp_runs(*case, cpp_configured),
{
    if !cpp_configured {
        return false;
    }
    let n = case.oracles.len();
    let mut i: usize = 0;
    while i < n
        invariant
            cpp_configured,
            n == case.oracles@.len(),
            i <= n,
            forall|j: int| 0 <= j < i ==> case.oracles@[j] != Oracle::LuaCpp,
        decreases n - i,
    {
        if case.oracles[i] == Oracle::LuaCpp {
            proof {
                assert(case.oracles@[i as int] == Oracle::LuaCpp);
            }
            return true;
        }
        i += 1;
    }
    false
}

/// Whether a string is one of `ids`.
fn contains_string(ids: &Vec<String>, id: &String) -> (r: bool)
    ensures
        r == string_views(ids@).contains(id@),
{
    let n = ids.len();
    let mut i: usize = 0;
    while i < n
        invariant
            n == ids@.len(),
            i <= n,
            forall|j: int| 0 <= j < i ==> ids@[j]@ != id@,
        decreases n - i,
    {
        if ids[i] == *id {
            proof {
                assert(string_views(ids@)[i as int] == id@);
            }
            return true;
        }
        i += 1;
    }
    proof {
        if string_views(ids@).contains(id@) {
            let j = choose|j: int| 0 <= j < string_views(ids@).len() && string_views(ids@)[j] == id@;
            assert(ids@[j]@ == id@);
        }
    }
    false
}

/// Whether a run with `configuration` selects `case`: the suite includes it,
/// and either no case identifiers were requested or its identifier was.
pub open spec fn is_selected(configuration: RunConfiguration, case: FixtureCase) -> bool {
    configuration.suite.selects(case.path@) && (configuration.case_ids@.len() == 0
        || string_views(configuration.case_ids@).contains(case.id@))
}

/// Whether a run with `configuration` selects `case`.
pub fn case_selected(configuration: &RunConfiguration, case: &FixtureCase) -> (r: bool)
    ensures
        r == is_selected(*configuration, *case),
{
    configuration.suite.includes(case) && (configuration.case_ids.len() == 0 || contains_string(
        &configuration.case_ids,
        &case.id,
    ))
}

/// The record of one engine's execution of `case`.
pub open spec fn execution_of(
    engine: Seq<char>,
    executable: Seq<char>,
    script_path: Seq<char>,
    case: FixtureCase,
    working_directory: Seq<char>,
    captured: CapturedProcess,
    side_effects: Result<Vec<SideEffectArtifact>, String>,
    ctx: NormalizationContext,
    e: ExecutionArtifact,
) -> bool {
    let spawn_error = match side_effects {
        Ok(_) => opt_view(captured.spawn_error),
        Err(err) => Some(appended_error(opt_view(captured.spawn_error), err@)),
    };
    let rules = case.normalizations@;
    let out = normalized_bytes(captured.stdout@, rules, NormalizationTarget::Stdout, ctx, rules.len() as int);
    let err = normalized_bytes(captured.stderr@, rules, NormalizationTarget::Stderr, ctx, rules.len() as int);
    &&& e.engine@ == engine
    &&& e.executable@ == executable
    &&& string_views(e.argv@) == seq![script_path] + string_views(case.args@)
    &&& e.working_directory@ == working_directory
    &&& e.duration_ms == captured.duration_ms
    &&& e.timed_out == captured.timed_out
    &&& e.exit_code == captured.exit_code
    &&& opt_view(e.spawn_error) == spawn_error
    &&& e.expected_exit_matched == (!captured.timed_out && spawn_error is None && captured.exit_code
        == Some(case.expected_exit))
    &&& e.stdout.byte_length == captured.stdout@.len()
    &&& e.stdout.hex@ == hex_text(captured.stdout@)
    &&& e.stdout.lossy_text@ == lossy_utf8(captured.stdout@)
    &&& e.stdout.normalized_byte_length == out.len()
    &&& e.stdout.normalized_hex@ == hex_text(out)
    &&& e.stdout.normalized_lossy_text@ == lossy_utf8(out)
    &&& e.stderr.byte_length == captured.stderr@.len()
    &&& e.stderr.hex@ == hex_text(captured.stderr@)
    &&& e.stderr.lossy_text@ == lossy_utf8(captured.stderr@)
    &&& e.stderr.normalized_byte_length == err.len()
    &&& e.stderr.normalized_hex@ == hex_text(err)
    &&& e.stderr.normalized_lossy_text@ == lossy_utf8(err)
    &&& match side_effects {
        Ok(list) => e.side_effects@ == list@,
        Err(_) => e.side_effects@.len() == 0,
    }
}

/// Build one engine's execution record from its captured process: normalize
/// both streams with the case's rules, attach the side effects (or record the
/// error met while capturing them), and decide whether the expected exit code
/// was met.
pub fn execution_artifact(
    engine: &str,
    executable: &str,
    script_path: &str,
    case: &FixtureCase,
    working_directory: &str,
    captured: CapturedProcess,
    side_effects: Result<Vec<SideEffectArtifact>, String>,
    ctx: &NormalizationContext,
) -> (r: ExecutionArtifact)
    ensures
        execution_of(
            engine@,
            executable@,
            script_path@,
            *case,
            working_directory@,
            captured,
            side_effects,
            *ctx,
            r,
        ),
{
    let ghost side_effects_in = side_effects;
    let mut argv: Vec<String> = Vec::new();
    argv.push(String::from_str(script_path));
    let n = case.args.len();
    let mut i: usize = 0;
    while i < n
        invariant
            n == case.args@.len(),
            i <= n,
            string_views(argv@) == seq![script_path@] + string_views(case.args@).take(i as int),
        decreases n - i,
    {
        let ghost before = string_views(argv@);
        argv.push(case.args[i].clone());
        proof {
            assert(string_views(argv@) =~= before.push(case.args@[i as int]@));
            assert(string_views(case.args@).take(i + 1) =~= string_views(case.args@).take(i as int).push(case.args@[i as int]@));
        }
        i += 1;
    }
    proof {
        assert(string_views(case.args@).take(n as int) =~= string_views(case.args@));
    }
    let normalized_stdout = normalize_bytes(
        captured.stdout.as_slice(),
        &case.normalizations,
        NormalizationTarget::Stdout,
        ctx,
    );
    let normalized_stderr = normalize_bytes(
        captured.stderr.as_slice(),
        &case.normalizations,
        NormalizationTarget::Stderr,
        ctx,
    );
    let stdout = byte_artifact(captured.stdout.as_slice(), normalized_stdout.as_slice());
    let stderr = byte_artifact(captured.stderr.as_slice(), normalized_stderr.as_slice());
    let mut spawn_error = captured.spawn_error;
    let effects = match side_effects {
        Ok(list) => list,
        Err(error) => {
            append_error(&mut spawn_error, error);
            Vec::new()
        },
    };
    let exit_matches = match captured.exit_code {
        Some(code) => code == case.expected_exit,
        None => false,
    };
    let expected_exit_matched = !captured.timed_out && spawn_error.is_none() && exit_matches;
    ExecutionArtifact {
        engine: String::from_str(engine),
        executable: String::from_str(executable),
        argv,
        working_directory: String::from_str(working_directory),
        duration_ms: captured.duration_ms,
        timed_out: captured.timed_out,
        exit_code: captured.exit_code,
        expected_exit_matched,
        spawn_error,
        stdout,
        stderr,
        side_effects: effects,
    }
}

/// The error for a side-effect file above the capture limit, if it is.
pub fn side_effect_size_error(display: &str, byte_length: u64) -> (r: Option<String>)
    ensures
        byte_length <= MAX_CAPTURED_SIDE_EFFECT_BYTES ==> r is None,
        byte_length > MAX_CAPTURED_SIDE_EFFECT_BYTES ==> (r matches Some(e) && e@ == "side effect "@
            + display@ + " is "@ + decimal(byte_length as nat) + " bytes, above the "@ + decimal(
            MAX_CAPTURED_SIDE_EFFECT_BYTES as nat,
        ) + " byte capture limit"@),
{
    if byte_length <= MAX_CAPTURED_SIDE_EFFECT_BYTES {
        return None;
    }
    let mut out = chars_of("side effect ");
    push_str_chars(&mut out, display);
    push_str_chars(&mut out, " is ");
    push_decimal(&mut out, byte_length);
    push_str_chars(&mut out, " bytes, above the ");
    push_decimal(&mut out, MAX_CAPTURED_SIDE_EFFECT_BYTES);
    push_str_chars(&mut out, " byte capture limit");
    Some(string_from_chars(&out))
}

/// The record of one side-effect file, from its path relative to the working
/// directory and its content.
pub fn side_effect_artifact(
    relative: &str,
    content: &[u8],
    rules: &Vec<NormalizationRule>,
    ctx: &NormalizationContext,
) -> (r: SideEffectArtifact)
    ensures
        r.path@ == normalized_path(relative@),
        r.normalized_path@ == lossy_utf8(
            normalized_bytes(
                encode_utf8(normalized_path(relative@)),
                rules@,
                NormalizationTarget::SideEffectPath,
                *ctx,
                rules@.len() as int,
            ),
        ),
        r.byte_length == content@.len(),
        r.content_hex@ == hex_text(content@),
{
    let path = normalize_relative_path(relative);
    let normalized_path = normalize_text(path.as_str(), rules, NormalizationTarget::SideEffectPath, ctx);
    SideEffectArtifact {
        path,
        normalized_path,
        byte_length: content.len(),
        content_hex: string_from_chars(&hex_chars(content)),
    }
}

/// Order of side effects: by normalized path, then by path.
pub open spec fn effect_before(a: SideEffectArtifact, b: SideEffectArtifact) -> bool {
    lex_lt(a.normalized_path@, b.normalized_path@) || (a.normalized_path@ == b.normalized_path@
        && lex_lt(a.path@, b.path@))
}

/// `sorted` with `e` inserted before the first element that orders after it.
pub open spec fn insert_effect(sorted: Seq<SideEffectArtifact>, e: SideEffectArtifact) -> Seq<
    SideEffectArtifact,
>
    decreases sorted.len(),
{
    if sorted.len() == 0 {
        seq![e]
    } else if effect_before(e, sorted[0]) {
        seq![e] + sorted
    } else {
        seq![sorted[0]] + insert_effect(sorted.drop_first(), e)
    }
}

/// `effects` stably sorted by normalized path, then path.
pub open spec fn sorted_effects(effects: Seq<SideEffectArtifact>) -> Seq<SideEffectArtifact>
    decreases effects.len(),
{
    if effects.len() == 0 {
        Seq::empty()
    } else {
        insert_effect(sorted_effects(effects.drop_last()), effects.last())
    }
}

fn effect_orders_before(a: &SideEffectArtifact, b: &SideEffectArtifact) -> (r: bool)
    ensures
        r == effect_before(*a, *b),
{
    let an = chars_of(a.normalized_path.as_str());
    let bn = chars_of(b.normalized_path.as_str());
    if lex_less(&an, &bn) {
        return true;
    }
    if !chars_equal(&an, &bn) {
        return false;
    }
    let ap = chars_of(a.path.as_str());
    let bp = chars_of(b.path.as_str());
    lex_less(&ap, &bp)
}

/// Sort side effects by normalized path, then by path, keeping the order of
/// equal entries.
pub fn sort_side_effects(effects: Vec<SideEffectArtifact>) -> (r: Vec<SideEffectArtifact>)
    ensures
        r@ == sorted_effects(effects@),
{
    let mut sorted: Vec<SideEffectArtifact> = Vec::new();
    let mut rest = effects;
    let ghost unsorted = rest@;
    let ghost total = unsorted.len();
    while rest.len() > 0
        invariant
            unsorted.len() == total,
            rest@.len() <= total,
            rest@ == unsorted.skip(total - rest@.len()),
            sorted@ == sorted_effects(unsorted.take(total - rest@.len())),
        decreases rest@.len(),
    {
        let ghost k = total - rest@.len();
        let e = rest.remove(0);
        proof {
            assert(unsorted[k] == e);
            assert(unsorted.take(k + 1).drop_last() =~= unsorted.take(k));
            assert(unsorted.take(k + 1).last() == e);
            assert(rest@ =~= unsorted.skip(k + 1));
        }
        // insert e into sorted
        let n = sorted.len();
        let ghost s = sorted@;
        let mut i: usize = 0;
        proof {
            assert(s.skip(0) =~= s);
            assert(s.take(0) + insert_effect(s.skip(0), e) =~= insert_effect(s, e));
        }
        while i < n && !effect_orders_before(&e, &sorted[i])
            invariant
                n == sorted@.len(),
                s == sorted@,
                i <= n,
                s.take(i as int) + insert_effect(s.skip(i as int), e) == insert_effect(s, e),
            decreases n - i,
        {
            proof {
                let t = s.skip(i as int);
                assert(t[0] == s[i as int]);
                assert(t.drop_first() =~= s.skip(i + 1));
                assert(s.take(i + 1) =~= s.take(i as int) + seq![s[i as int]]);
            }
            i += 1;
        }
        proof {
            if i < n {
                assert(s.skip(i as int)[0] == s[i as int]);
            } else {
                assert(s.skip(i as int).len() == 0);
            }
        }
        sorted.insert(i, e);
        proof {
            if i < n {
                assert(sorted@ =~= s.take(i as int) + (seq![e] + s.skip(i as int)));
            } else {
                assert(s.take(i as int) =~= s);
                assert(sorted@ =~= s + seq![e]);
            }
        }
    }
    proof {
        assert(unsorted.take(total as int) =~= unsorted);
    }
    sorted
}

/// `r` records `case` as a helper that the run skipped.
pub open spec fn skipped_case(case: FixtureCase, r: CaseArtifact) -> bool {
    &&& r.id@ == case.id@
    &&& r.path@ == case.path@
    &&& r.kind == case.kind
    &&& r.expected_exit == case.expected_exit
    &&& r.timeout_ms == case.timeout_ms
    &&& r.oracles@ == case.oracles@
    &&& r.status == CaseStatus::HelperSkipped
    &&& r.skip_reason matches Some(reason) && reason@
        == "classified as helper; use --include-helpers to execute"@
    &&& r.lua_rust is None
    &&& r.lua_cpp is None
    &&& r.comparison is None
}

/// The record of a helper case that this run skips.
pub fn skipped_helper_artifact(case: &FixtureCase) -> (r: CaseArtifact)
    ensures
        skipped_case(*case, r),
{
    CaseArtifact {
        id: case.id.clone(),
        path: case.path.clone(),
        kind: case.kind,
        expected_exit: case.expected_exit,
        timeout_ms: case.timeout_ms,
        oracles: copy_oracles(&case.oracles),
        status: CaseStatus::HelperSkipped,
        skip_reason: Some(String::from_str("classified as helper; use --include-helpers to execute")),
        lua_rust: None,
        lua_cpp: None,
        comparison: None,
    }
}

fn copy_oracles(oracles: &Vec<Oracle>) -> (r: Vec<Oracle>)
    ensures
        r@ == oracles@,
{
    let mut out: Vec<Oracle> = Vec::new();
    let n = oracles.len();
    let mut i: usize = 0;
    while i < n
        invariant
            n == oracles@.len(),
            i <= n,
            out@ == oracles@.take(i as int),
        decreases n - i,
    {
        out.push(oracles[i]);
        proof {
            assert(oracles@.take(i + 1) =~= oracles@.take(i as int).push(oracles@[i as int]));
        }
        i += 1;
    }
    proof {
        assert(oracles@.take(n as int) =~= oracles@);
    }
    out
}

/// How a case is classified from its executions.
pub open spec fn case_status_of(
    rust: ExecutionArtifact,
    cpp: Option<ExecutionArtifact>,
    matched: bool,
) -> CaseStatus {
    let runner_error = rust.spawn_error is Some || (cpp matches Some(c) && c.spawn_error is Some);
    if runner_error {
        CaseStatus::RunnerError
    } else {
        match cpp {
            Some(c) => if rust.expected_exit_matched && c.expected_exit_matched && matched {
                CaseStatus::Match
            } else {
                CaseStatus::Difference
            },
            None => if rust.expected_exit_matched {
                CaseStatus::RustOnlyExpected
            } else {
                CaseStatus::Difference
            },
        }
    }
}

/// `r` records `case` as executed, with executions `rust` and `cpp`.
pub open spec fn finished_case(
    case: FixtureCase,
    rust: ExecutionArtifact,
    cpp: Option<ExecutionArtifact>,
    r: CaseArtifact,
) -> bool {
    &&& r.id@ == case.id@
    &&& r.path@ == case.path@
    &&& r.kind == case.kind
    &&& r.expected_exit == case.expected_exit
    &&& r.timeout_ms == case.timeout_ms
    &&& r.oracles@ == case.oracles@
    &&& r.skip_reason is None
    &&& r.lua_rust == Some(rust)
    &&& r.lua_cpp == cpp
    &&& match cpp {
        Some(c) => r.comparison matches Some(cmp) && comparison_of(case, rust, c, cmp) && r.status
            == case_status_of(rust, cpp, cmp.matched),
        None => r.comparison is None && r.status == case_status_of(rust, cpp, false),
    }
}

/// The status of an executed case follows from its executions alone: it is
/// a runner error exactly when an engine failed to run; otherwise it is a
/// match exactly when both engines ran, both met the case's expected exit and
/// their comparison matched, a Rust-only pass exactly when only the first
/// engine ran and met the expected exit, and a difference in every other
/// case. In particular an engine that missed the expected exit never yields
/// a match.
pub proof fn lemma_case_status_from_executions(
    case: FixtureCase,
    rust: ExecutionArtifact,
    cpp: Option<ExecutionArtifact>,
    r: CaseArtifact,
)
    requires
        finished_case(case, rust, cpp, r),
    ensures
        ({
            let cpp_failed = match cpp {
                Some(c) => c.spawn_error is Some,
                None => false,
            };
            let cpp_met = match cpp {
                Some(c) => c.expected_exit_matched,
                None => false,
            };
            let compared_equal = match r.comparison {
                Some(cmp) => cmp.matched,
                None => false,
            };
            &&& (r.status == CaseStatus::RunnerError <==> (rust.spawn_error is Some || cpp_failed))
            &&& (r.status == CaseStatus::Match <==> (rust.spawn_error is None && !cpp_failed
                && cpp is Some && rust.expected_exit_matched && cpp_met && compared_equal))
            &&& (r.status == CaseStatus::RustOnlyExpected <==> (rust.spawn_error is None && cpp is None
                && rust.expected_exit_matched))
            &&& r.status != CaseStatus::HelperSkipped
            &&& (!rust.expected_exit_matched ==> r.status != CaseStatus::Match && r.status
                != CaseStatus::RustOnlyExpected)
            &&& (cpp is Some && !cpp_met ==> r.status != CaseStatus::Match)
        }),
{
}

/// The record of an executed case: its comparison (when the second engine
/// ran) and its status: a runner error when either engine failed to run, a
/// match when both met the expected exit and the comparison matched, a
/// Rust-only pass when only the first engine ran and met the expected exit,
/// and a difference otherwise.
pub fn finish_case(case: &FixtureCase, rust: ExecutionArtifact, cpp: Option<ExecutionArtifact>) -> (r:
    CaseArtifact)
    ensures
        finished_case(*case, rust, cpp, r),
{
    let comparison = match &cpp {
        Some(c) => Some(compare_executions(case, &rust, c)),
        None => None,
    };
    let cpp_error = match &cpp {
        Some(c) => c.spawn_error.is_some(),
        None => false,
    };
    let status = if rust.spawn_error.is_some() || cpp_error {
        CaseStatus::RunnerError
    } else {
        match (&cpp, &comparison) {
            (Some(c), Some(cmp)) => if rust.expected_exit_matched && c.expected_exit_matched
                && cmp.matched {
                CaseStatus::Match
            } else {
                CaseStatus::Difference
            },
            _ => if rust.expected_exit_matched {
                CaseStatus::RustOnlyExpected
            } else {
                CaseStatus::Difference
            },
        }
    };
    CaseArtifact {
        id: case.id.clone(),
        path: case.path.clone(),
        kind: case.kind,
        expected_exit: case.expected_exit,
        timeout_ms: case.timeout_ms,
        oracles: copy_oracles(&case.oracles),
        status,
        skip_reason: None,
        lua_rust: Some(rust),
        lua_cpp: cpp,
        comparison,
    }
}

impl RunSummary {
    /// All counts zero.
    pub open spec fn is_empty(self) -> bool {
        self.selected == 0 && self.executed == 0 && self.helpers_skipped == 0 && self.matches == 0
            && self.rust_only_expected == 0 && self.differences == 0 && self.runner_errors == 0
            && self.timed_out == 0
    }

    /// `self` after recording one case with `status`, whose executions did
    /// (`timed_out`) or did not time out.
    pub open spec fn recorded(self, status: CaseStatus, timed_out: bool) -> RunSummary {
        RunSummary {
            selected: (self.selected + 1) as usize,
            executed: if status == CaseStatus::HelperSkipped {
                self.executed
            } else {
                (self.executed + 1) as usize
            },
            helpers_skipped: if status == CaseStatus::HelperSkipped {
                (self.helpers_skipped + 1) as usize
            } else {
                self.helpers_skipped
            },
            matches: if status == CaseStatus::Match {
                (self.matches + 1) as usize
            } else {
                self.matches
            },
            rust_only_expected: if status == CaseStatus::RustOnlyExpected {
                (self.rust_only_expected + 1) as usize
            } else {
                self.rust_only_expected
            },
            differences: if status == CaseStatus::Difference {
                (self.differences + 1) as usize
            } else {
                self.differences
            },
            runner_errors: if status == CaseStatus::RunnerError {
                (self.runner_errors + 1) as usize
            } else {
                self.runner_errors
            },
            timed_out: if timed_out {
                (self.timed_out + 1) as usize
            } else {
                self.timed_out
            },
        }
    }

    /// Whether no count can overflow by one more case.
    pub open spec fn has_room(self) -> bool {
        self.selected < usize::MAX && self.executed < usize::MAX && self.helpers_skipped
            < usize::MAX && self.matches < usize::MAX && self.rust_only_expected < usize::MAX
            && self.differences < usize::MAX && self.runner_errors < usize::MAX && self.timed_out
            < usize::MAX
    }

    /// A summary with every count zero.
    pub fn new() -> (r: RunSummary)
        ensures
            r.is_empty(),
    {
        RunSummary {
            selected: 0,
            executed: 0,
            helpers_skipped: 0,
            matches: 0,
            rust_only_expected: 0,
            differences: 0,
            runner_errors: 0,
            timed_out: 0,
        }
    }
}

impl Default for RunSummary {
    fn default() -> (r: RunSummary)
        ensures
            r.is_empty(),
    {
        RunSummary::new()
    }
}

/// Whether either execution of a case timed out.
pub open spec fn case_timed_out(case: CaseArtifact) -> bool {
    (case.lua_rust matches Some(e) && e.timed_out) || (case.lua_cpp matches Some(e) && e.timed_out)
}

impl RunArtifact {
    /// Count `case` in the summary and append it to the run's cases.
    pub fn record_case(&mut self, case: CaseArtifact)
        requires
            old(self).summary.has_room(),
        ensures
            final(self).summary == old(self).summary.recorded(case.status, case_timed_out(case)),
            final(self).cases@ == old(self).cases@.push(case),
            final(self).schema_version == old(self).schema_version,
            final(self).manifest_schema_version == old(self).manifest_schema_version,
            final(self).generated_at_unix_ms == old(self).generated_at_unix_ms,
            final(self).fixture_inventory == old(self).fixture_inventory,
            final(self).runner_version == old(self).runner_version,
            final(self).repository_root == old(self).repository_root,
            final(self).manifest_path == old(self).manifest_path,
            final(self).suite == old(self).suite,
            final(self).engines == old(self).engines,
    {
        let status = case.status;
        let rust_timed_out = match &case.lua_rust {
            Some(e) => e.timed_out,
            None => false,
        };
        let cpp_timed_out = match &case.lua_cpp {
            Some(e) => e.timed_out,
            None => false,
        };
        self.summary.selected = self.summary.selected + 1;
        match status {
            CaseStatus::Match => self.summary.matches = self.summary.matches + 1,
            CaseStatus::RustOnlyExpected => self.summary.rust_only_expected =
                self.summary.rust_only_expected + 1,
            CaseStatus::Difference => self.summary.differences = self.summary.differences + 1,
            CaseStatus::RunnerError => self.summary.runner_errors = self.summary.runner_errors + 1,
            CaseStatus::HelperSkipped => self.summary.helpers_skipped = self.summary.helpers_skipped
                + 1,
        }
        if status != CaseStatus::HelperSkipped {
            self.summary.executed = self.summary.executed + 1;
        }
        if rust_timed_out || cpp_timed_out {
            self.summary.timed_out = self.summary.timed_out + 1;
        }
        self.cases.push(case);
    }
}

/// Process exit status of a run: 2 when a runner error or timeout occurred,
/// otherwise 1 when differences were found and are not allowed, otherwise 0.
pub fn exit_status(summary: &RunSummary, allow_differences: bool) -> (r: i32)
    ensures
        r == if summary.runner_errors > 0 || summary.timed_out > 0 {
            2i32
        } else if summary.differences > 0 && !allow_differences {
            1i32
        } else {
            0i32
        },
{
    if summary.runner_errors > 0 || summary.timed_out > 0 {
        2
    } else if summary.differences > 0 && !allow_differences {
        1
    } else {
        0
    }
}

/// The executions of one case that the run executed.
#[derive(Clone, Debug)]
pub struct CaseRun {
    pub rust: ExecutionArtifact,
    pub cpp: Option<ExecutionArtifact>,
}

/// The record of one selected case: skipped when it is a helper that the run
/// does not execute, otherwise finished with the executions of `run`, which
/// the run then supplies. The second engine's execution is there exactly
/// when that engine is configured and the case names it, and so is the
/// comparison of the two.
pub fn run_case(
    case: &FixtureCase,
    include_helpers: bool,
    cpp_configured: bool,
    run: Option<CaseRun>,
) -> (r: CaseArtifact)
    requires
        !skips_helper(*case, include_helpers) ==> run is Some,
        run matches Some(x) ==> (x.cpp is Some <==> cpp_runs(*case, cpp_configured)),
    ensures
        skips_helper(*case, include_helpers) ==> skipped_case(*case, r),
        !skips_helper(*case, include_helpers) ==> (run matches Some(x) && finished_case(
            *case,
            x.rust,
            x.cpp,
            r,
        )),
        !skips_helper(*case, include_helpers) ==> (r.lua_cpp is Some <==> cpp_runs(*case, cpp_configured)),
        !skips_helper(*case, include_helpers) ==> (r.comparison is Some <==> cpp_runs(
            *case,
            cpp_configured,
        )),
{
    if should_skip_helper(case, include_helpers) {
        skipped_helper_artifact(case)
    } else {
        match run {
            Some(x) => finish_case(case, x.rust, x.cpp),
            None => skipped_helper_artifact(case),
        }
    }
}

/// The cases of `cases` that a run with `configuration` selects, in order.
pub open spec fn selected_cases(cases: Seq<FixtureCase>, configuration: RunConfiguration) -> Seq<
    FixtureCase,
>
    decreases cases.len(),
{
    if cases.len() == 0 {
        Seq::empty()
    } else {
        let rest = selected_cases(cases.drop_last(), configuration);
        if is_selected(configuration, cases.last()) {
            rest.push(cases.last())
        } else {
            rest
        }
    }
}

/// How many of `selected` a run executes (those that are not skipped helpers).
pub open spec fn executed_count(selected: Seq<FixtureCase>, include_helpers: bool) -> nat
    decreases selected.len(),
{
    if selected.len() == 0 {
        0
    } else {
        executed_count(selected.drop_last(), include_helpers) + if skips_helper(
            selected.last(),
            include_helpers,
        ) {
            0nat
        } else {
            1nat
        }
    }
}

/// `records` records `selected` in order: each skipped helper as skipped, and
/// each executed case with the next of `runs`, all of which are used; the
/// second engine ran an executed case exactly when `cpp_runs` says so.
pub open spec fn records_match(
    selected: Seq<FixtureCase>,
    runs: Seq<CaseRun>,
    include_helpers: bool,
    cpp_configured: bool,
    records: Seq<CaseArtifact>,
) -> bool
    decreases selected.len(),
{
    if selected.len() == 0 {
        records.len() == 0 && runs.len() == 0
    } else if skips_helper(selected.last(), include_helpers) {
        &&& records.len() > 0
        &&& skipped_case(selected.last(), records.last())
        &&& records_match(selected.drop_last(), runs, include_helpers, cpp_configured, records.drop_last())
    } else {
        &&& records.len() > 0
        &&& runs.len() > 0
        &&& finished_case(selected.last(), runs.last().rust, runs.last().cpp, records.last())
        &&& (runs.last().cpp is Some <==> cpp_runs(selected.last(), cpp_configured))
        &&& records_match(
            selected.drop_last(),
            runs.drop_last(),
            include_helpers,
            cpp_configured,
            records.drop_last(),
        )
    }
}

/// The cases of `selected` that a run executes (those that are not skipped
/// helpers), in order.
pub open spec fn executed_cases(selected: Seq<FixtureCase>, include_helpers: bool) -> Seq<FixtureCase>
    decreases selected.len(),
{
    if selected.len() == 0 {
        Seq::empty()
    } else {
        let rest = executed_cases(selected.drop_last(), include_helpers);
        if skips_helper(selected.last(), include_helpers) {
            rest
        } else {
            rest.push(selected.last())
        }
    }
}

/// There are as many executed cases as `executed_count` counts.
proof fn lemma_executed_cases_len(selected: Seq<FixtureCase>, include_helpers: bool)
    ensures
        executed_cases(selected, include_helpers).len() == executed_count(selected, include_helpers),
    decreases selected.len(),
{
    if selected.len() > 0 {
        lemma_executed_cases_len(selected.drop_last(), include_helpers);
    }
}

/// The cases executed from a prefix of the manifest come first among those
/// executed from a longer prefix.
proof fn lemma_executed_cases_prefix(
    cases: Seq<FixtureCase>,
    configuration: RunConfiguration,
    i: int,
    n: int,
)
    requires
        0 <= i <= n <= cases.len(),
    ensures
        ({
            let a = executed_cases(selected_cases(cases.take(i), configuration), configuration.include_helpers);
            let b = executed_cases(selected_cases(cases.take(n), configuration), configuration.include_helpers);
            a.len() <= b.len() && forall|k: int| 0 <= k < a.len() ==> #[trigger] a[k] == b[k]
        }),
    decreases n - i,
{
    if i < n {
        lemma_executed_cases_prefix(cases, configuration, i + 1, n);
        let ih = configuration.include_helpers;
        let t = cases.take(i + 1);
        assert(t.drop_last() =~= cases.take(i));
        let rest = selected_cases(cases.take(i), configuration);
        assert(rest.push(t.last()).drop_last() =~= rest);
        let a = executed_cases(rest, ih);
        let c = executed_cases(selected_cases(t, configuration), ih);
        let b = executed_cases(selected_cases(cases.take(n), configuration), ih);
        if is_selected(configuration, t.last()) {
            let sel = rest.push(t.last());
            assert(selected_cases(t, configuration) == sel);
            assert(sel.drop_last() =~= rest);
            assert(sel.last() == t.last());
            if skips_helper(t.last(), ih) {
                assert(c == a);
            } else {
                assert(c == a.push(t.last()));
            }
        } else {
            assert(selected_cases(t, configuration) == rest);
            assert(c == a);
        }
        assert(a.len() <= c.len());
        assert forall|k: int| 0 <= k < a.len() implies #[trigger] a[k] == b[k] by {
            assert(a[k] == c[k]);
            assert(c[k] == b[k]);
        }
    }
}

/// A summary with every count zero.
pub open spec fn empty_summary() -> RunSummary {
    RunSummary {
        selected: 0,
        executed: 0,
        helpers_skipped: 0,
        matches: 0,
        rust_only_expected: 0,
        differences: 0,
        runner_errors: 0,
        timed_out: 0,
    }
}

/// The summary of a run that recorded `cases`, in order.
pub open spec fn summary_of(cases: Seq<CaseArtifact>) -> RunSummary
    decreases cases.len(),
{
    if cases.len() == 0 {
        empty_summary()
    } else {
        summary_of(cases.drop_last()).recorded(cases.last().status, case_timed_out(cases.last()))
    }
}

/// No count of the summary of `cases` exceeds the number of cases.
proof fn lemma_summary_bounded(cases: Seq<CaseArtifact>)
    requires
        cases.len() <= usize::MAX,
    ensures
        summary_of(cases).selected == cases.len(),
        summary_of(cases).executed <= cases.len(),
        summary_of(cases).helpers_skipped <= cases.len(),
        summary_of(cases).matches <= cases.len(),
        summary_of(cases).rust_only_expected <= cases.len(),
        summary_of(cases).differences <= cases.len(),
        summary_of(cases).runner_errors <= cases.len(),
        summary_of(cases).timed_out <= cases.len(),
    decreases cases.len(),
{
    if cases.len() > 0 {
        lemma_summary_bounded(cases.drop_last());
    }
}

/// The counts of a summary partition its cases: every selected case was
/// either executed or skipped as a helper, every executed case has exactly
/// one of the four executed statuses, and no more cases timed out than were
/// selected.
pub proof fn lemma_summary_partition(cases: Seq<CaseArtifact>)
    requires
        cases.len() <= usize::MAX,
    ensures
        summary_of(cases).selected == cases.len(),
        summary_of(cases).selected == summary_of(cases).executed + summary_of(
            cases,
        ).helpers_skipped,
        summary_of(cases).executed == summary_of(cases).matches + summary_of(
            cases,
        ).rust_only_expected + summary_of(cases).differences + summary_of(cases).runner_errors,
        summary_of(cases).timed_out <= summary_of(cases).selected,
    decreases cases.len(),
{
    if cases.len() > 0 {
        lemma_summary_partition(cases.drop_last());
        lemma_summary_bounded(cases.drop_last());
    }
}

/// Selecting from a longer prefix executes at least as many cases.
proof fn lemma_executed_count_grows(
    cases: Seq<FixtureCase>,
    configuration: RunConfiguration,
    i: int,
    n: int,
)
    requires
        0 <= i <= n <= cases.len(),
    ensures
        executed_count(selected_cases(cases.take(i), configuration), configuration.include_helpers)
            <= executed_count(
            selected_cases(cases.take(n), configuration),
            configuration.include_helpers,
        ),
    decreases n - i,
{
    if i < n {
        lemma_executed_count_grows(cases, configuration, i + 1, n);
        let t = cases.take(i + 1);
        assert(t.drop_last() =~= cases.take(i));
        let rest = selected_cases(cases.take(i), configuration);
        assert(rest.push(t.last()).drop_last() =~= rest);
    }
}

/// How many cases a run of `manifest` with `configuration` executes.
pub fn executed_case_count(manifest: &FixtureManifest, configuration: &RunConfiguration) -> (r:
    usize)
    ensures
        r == executed_count(
            selected_cases(manifest.cases@, *configuration),
            configuration.include_helpers,
        ),
{
    let n = manifest.cases.len();
    let mut count: usize = 0;
    let mut i: usize = 0;
    while i < n
        invariant
            n == manifest.cases@.len(),
            i <= n,
            count == executed_count(
                selected_cases(manifest.cases@.take(i as int), *configuration),
                configuration.include_helpers,
            ),
            count <= i,
        decreases n - i,
    {
        let case = &manifest.cases[i];
        proof {
            let sel = selected_cases(manifest.cases@.take(i as int), *configuration);
            assert(manifest.cases@.take(i + 1).drop_last() =~= manifest.cases@.take(i as int));
            assert(sel.push(*case).drop_last() =~= sel);
        }
        if case_selected(configuration, case) && !should_skip_helper(
            case,
            configuration.include_helpers,
        ) {
            count = count + 1;
        }
        i += 1;
    }
    proof {
        assert(manifest.cases@.take(n as int) =~= manifest.cases@);
    }
    count
}

/// The artifact of a run of `manifest` with `configuration`: its header, one
/// record per selected case in manifest order (skipped helpers as skipped,
/// every other case with its executions from `runs`, in order), and the
/// summary of those records. The engine paths are those of the
/// configuration's engines, the second one there exactly when the
/// configuration names a second executable; each run holds a second
/// execution exactly when that engine runs its case.
pub fn run_manifest(
    manifest: &FixtureManifest,
    configuration: &RunConfiguration,
    engines: EnginePathsArtifact,
    runner_version: &str,
    generated_at_unix_ms: u128,
    runs: Vec<CaseRun>,
) -> (r: RunArtifact)
    requires
        runs@.len() == executed_count(
            selected_cases(manifest.cases@, *configuration),
            configuration.include_helpers,
        ),
        engines.lua_cpp is Some <==> configuration.cpp_executable is Some,
        forall|k: int|
            0 <= k < runs@.len() ==> ((#[trigger] runs@[k]).cpp is Some <==> cpp_runs(
                executed_cases(
                    selected_cases(manifest.cases@, *configuration),
                    configuration.include_helpers,
                )[k],
                configuration.cpp_executable is Some,
            )),
    ensures
        r.schema_version@ == ARTIFACT_SCHEMA_VERSION@,
        r.manifest_schema_version == manifest.schema_version,
        r.fixture_inventory == manifest.inventory,
        r.runner_version@ == runner_version@,
        r.generated_at_unix_ms == generated_at_unix_ms,
        r.repository_root@ == configuration.repo_root@,
        r.manifest_path@ == configuration.manifest_path@,
        r.suite@ == configuration.suite.name(),
        r.engines == engines,
        r.engines.lua_cpp is Some <==> configuration.cpp_executable is Some,
        records_match(
            selected_cases(manifest.cases@, *configuration),
            runs@,
            configuration.include_helpers,
            configuration.cpp_executable is Some,
            r.cases@,
        ),
        r.summary == summary_of(r.cases@),
{
    let mut artifact = RunArtifact {
        schema_version: String::from_str(ARTIFACT_SCHEMA_VERSION),
        manifest_schema_version: manifest.schema_version,
        fixture_inventory: manifest.inventory,
        runner_version: String::from_str(runner_version),
        generated_at_unix_ms,
        repository_root: configuration.repo_root.clone(),
        manifest_path: configuration.manifest_path.clone(),
        suite: String::from_str(configuration.suite.as_str()),
        engines,
        summary: RunSummary::new(),
        cases: Vec::new(),
    };
    let ghost all_runs = runs@;
    assert(all_runs.len() == runs.len());
    let ghost total = executed_count(
        selected_cases(manifest.cases@, *configuration),
        configuration.include_helpers,
    );
    let mut rest = runs;
    let mut j: usize = 0;
    let n = manifest.cases.len();
    let mut i: usize = 0;
    while i < n
        invariant
            n == manifest.cases@.len(),
            i <= n,
            all_runs.len() == total,
            total <= usize::MAX,
            total == executed_count(
                selected_cases(manifest.cases@, *configuration),
                configuration.include_helpers,
            ),
            j == executed_count(
                selected_cases(manifest.cases@.take(i as int), *configuration),
                configuration.include_helpers,
            ),
            j <= total,
            rest@ == all_runs.skip(j as int),
            records_match(
                selected_cases(manifest.cases@.take(i as int), *configuration),
                all_runs.take(j as int),
                configuration.include_helpers,
                configuration.cpp_executable is Some,
                artifact.cases@,
            ),
            forall|k: int|
                0 <= k < all_runs.len() ==> ((#[trigger] all_runs[k]).cpp is Some <==> cpp_runs(
                    executed_cases(
                        selected_cases(manifest.cases@, *configuration),
                        configuration.include_helpers,
                    )[k],
                    configuration.cpp_executable is Some,
                )),
            artifact.cases@.len() <= i,
            artifact.summary == summary_of(artifact.cases@),
            artifact.schema_version@ == ARTIFACT_SCHEMA_VERSION@,
            artifact.manifest_schema_version == manifest.schema_version,
            artifact.fixture_inventory == manifest.inventory,
            artifact.runner_version@ == runner_version@,
            artifact.generated_at_unix_ms == generated_at_unix_ms,
            artifact.repository_root@ == configuration.repo_root@,
            artifact.manifest_path@ == configuration.manifest_path@,
            artifact.suite@ == configuration.suite.name(),
            artifact.engines == engines,
        decreases n - i,
    {
        let case = &manifest.cases[i];
        let ghost prefix = manifest.cases@.take(i as int);
        let ghost sel = selected_cases(prefix, *configuration);
        proof {
            assert(manifest.cases@.take(i + 1).drop_last() =~= prefix);
            assert(manifest.cases@.take(i + 1).last() == *case);
            assert(sel.push(*case).drop_last() =~= sel);
            lemma_summary_bounded(artifact.cases@);
        }
        if case_selected(configuration, case) {
            let ghost records = artifact.cases@;
            let record = if should_skip_helper(case, configuration.include_helpers) {
                run_case(case, configuration.include_helpers, configuration.cpp_executable.is_some(), None)
            } else {
                proof {
                    lemma_executed_count_grows(manifest.cases@, *configuration, i + 1, n as int);
                    assert(manifest.cases@.take(n as int) =~= manifest.cases@);
                }
                let run = rest.remove(0);
                proof {
                    assert(run == all_runs[j as int]);
                    lemma_executed_cases_prefix(manifest.cases@, *configuration, i + 1, n as int);
                    lemma_executed_cases_len(sel, configuration.include_helpers);
                    lemma_executed_cases_len(sel.push(*case), configuration.include_helpers);
                    assert(sel.push(*case).last() == *case);
                    assert(executed_cases(sel.push(*case), configuration.include_helpers)[j as int]
                        == *case);
                    assert(executed_cases(
                        selected_cases(manifest.cases@, *configuration),
                        configuration.include_helpers,
                    )[j as int] == *case);
                    assert(all_runs.take(j + 1).drop_last() =~= all_runs.take(j as int));
                    assert(all_runs.take(j + 1).last() == run);
                    assert(rest@ =~= all_runs.skip(j + 1));
                }
                j = j + 1;
                run_case(case, configuration.include_helpers, configuration.cpp_executable.is_some(), Some(run))
            };
            artifact.record_case(record);
            proof {
                assert(artifact.cases@.drop_last() =~= records);
            }
        }
        i += 1;
    }
    proof {
        assert(manifest.cases@.take(n as int) =~= manifest.cases@);
        assert(all_runs.take(j as int) =~= all_runs);
    }
    artifact
}

/// Where a case runs.
#[derive(Clone, Debug)]
pub enum WorkDirectoryPlan {
    /// A fresh temporary directory whose name starts with `prefix`.
    Temporary { prefix: String },
    /// The repository root.
    Repository,
    /// The directory that holds the fixture script.
    ScriptDirectory,
    /// This directory, relative to the repository root.
    Relative(String),
}

/// Prefix of the temporary directory of the case with identifier `id`.
pub open spec fn temporary_prefix(id: Seq<char>) -> Seq<char> {
    "lua-fixture-"@ + id.map_values(|c: char| id_char(c)) + "-"@
}

/// Where `case` runs, from its `working_directory` setting: `temporary`,
/// `repository`, `script-directory`, or a directory relative to the
/// repository root.
pub fn work_directory_plan(case: &FixtureCase) -> (r: WorkDirectoryPlan)
    ensures
        case.working_directory@ == "temporary"@ ==> (r matches WorkDirectoryPlan::Temporary {
            prefix,
        } && prefix@ == temporary_prefix(case.id@)),
        case.working_directory@ == "repository"@ ==> r is Repository,
        case.working_directory@ == "script-directory"@ ==> r is ScriptDirectory,
        case.working_directory@ != "temporary"@ && case.working_directory@ != "repository"@
            && case.working_directory@ != "script-directory"@ ==> (r matches WorkDirectoryPlan::Relative(
            d,
        ) && d@ == case.working_directory@),
{
    proof {
        reveal_strlit("temporary");
        reveal_strlit("repository");
        reveal_strlit("script-directory");
        assert("temporary"@.len() == 9);
        assert("repository"@.len() == 10);
        assert("script-directory"@.len() == 16);
    }
    let w = chars_of(case.working_directory.as_str());
    if chars_equal(&w, &chars_of("temporary")) {
        let mut out = chars_of("lua-fixture-");
        let id = sanitize_id(case.id.as_str());
        push_str_chars(&mut out, id.as_str());
        push_str_chars(&mut out, "-");
        WorkDirectoryPlan::Temporary { prefix: string_from_chars(&out) }
    } else if chars_equal(&w, &chars_of("repository")) {
        WorkDirectoryPlan::Repository
    } else if chars_equal(&w, &chars_of("script-directory")) {
        WorkDirectoryPlan::ScriptDirectory
    } else {
        WorkDirectoryPlan::Relative(case.working_directory.clone())
    }
}

} // verus!
