//! Validation of the fixture manifest.
//!
//! The file-system facts the validation needs (which paths exist, which Lua
//! files lie under the fixture root) are gathered by the caller and handed in
//! as `ManifestProbes`; everything else is decided here.

use vstd::prelude::*;
use crate::text::{
    chars_occur_at, chars_equal, chars_of, decimal, lemma_lex_lt_transitive, lex_less, lex_lt,
    strictly_ascending, push_all, push_decimal, push_str_chars, sorted_distinct,
    sorted_insert, sorted_insert_spec, string_from_chars, char_views,
};
use super::{environment_names, FixtureCase, FixtureKind, FixtureManifest, NormalizationKind, Oracle};
use super::paths::{
    differential_path, is_blank, is_blank_str, is_differential_path, normalize_relative_path,
    normalized_path, relative_path_error, replace_templates_for_validation,
    templates_for_validation, validate_relative_path,
};
use super::regex_support::{regex_compile_error, regex_compile_outcome};

verus! {

/// Whether the names of `environment` are distinct and ascending.
pub fn environment_is_ordered(environment: &Vec<(String, String)>) -> (r: bool)
    ensures
        r == strictly_ascending(environment_names(environment@)),
{
    let ghost names = environment_names(environment@);
    let n = environment.len();
    if n == 0 {
        return true;
    }
    let mut previous = chars_of(environment[0].0.as_str());
    let mut i: usize = 1;
    while i < n
        invariant
            n == environment@.len(),
            names == environment_names(environment@),
            1 <= i <= n,
            previous@ == names[i - 1],
            strictly_ascending(names.take(i as int)),
        decreases n - i,
    {
        let next = chars_of(environment[i].0.as_str());
        if !lex_less(&previous, &next) {
            proof {
                assert(!lex_lt(names[i - 1], names[i as int]));
            }
            return false;
        }
        proof {
            let t = names.take(i + 1);
            assert forall|a: int, b: int| 0 <= a < b < t.len() implies lex_lt(
                #[trigger] t[a],
                #[trigger] t[b],
            ) by {
                if b < i {
                    assert(names.take(i as int)[a] == t[a]);
                    assert(names.take(i as int)[b] == t[b]);
                } else if a < i - 1 {
                    assert(names.take(i as int)[a] == t[a]);
                    assert(names.take(i as int)[i - 1] == t[i - 1]);
                    lemma_lex_lt_transitive(t[a], t[i - 1], t[b]);
                }
            }
        }
        previous = next;
        i += 1;
    }
    proof {
        assert(names.take(n as int) =~= names);
    }
    true
}

/// Whether every case of `manifest` has its environment names distinct and
/// ascending.
pub fn environments_are_ordered(manifest: &FixtureManifest) -> (r: bool)
    ensures
        r == manifest.wf(),
{
    let n = manifest.cases.len();
    let mut i: usize = 0;
    while i < n
        invariant
            n == manifest.cases@.len(),
            i <= n,
            forall|k: int| 0 <= k < i ==> (#[trigger] manifest.cases@[k]).wf(),
        decreases n - i,
    {
        if !environment_is_ordered(&manifest.cases[i].environment) {
            return false;
        }
        i += 1;
    }
    true
}

/// Inventory size of the audited baseline corpus.
pub const M0_BASELINE: usize = 125;

/// A path the caller resolved against the repository root: how it is
/// displayed, and whether it exists as a file or directory of the expected
/// kind.
#[derive(Clone, Debug)]
pub struct PathProbe {
    pub display: String,
    pub exists: bool,
}

/// File-system facts about one manifest case.
#[derive(Clone, Debug)]
pub struct CaseProbe {
    /// The case's fixture file under the repository root.
    pub fixture_file: PathProbe,
    /// The case's working directory under the repository root.
    pub working_directory: PathProbe,
}

/// File-system facts about a manifest, gathered by the caller.
#[derive(Debug)]
pub struct ManifestProbes {
    /// The fixture root directory under the repository root.
    pub fixture_root: PathProbe,
    /// One entry per manifest case, in order.
    pub cases: Vec<CaseProbe>,
    /// Repository-relative paths of the `.lua` files under the fixture root,
    /// or the error met while listing them. Read only when the fixture root
    /// exists.
    pub lua_paths: Result<Vec<String>, String>,
}

/// Views of a sequence of strings.
pub open spec fn string_views(v: Seq<String>) -> Seq<Seq<char>> {
    v.map_values(|s: String| s@)
}

/// `[msg]` when `c` holds, else nothing.
pub open spec fn when(c: bool, msg: Seq<char>) -> Seq<Seq<char>> {
    if c {
        seq![msg]
    } else {
        Seq::empty()
    }
}

/// Number of the first `n` cases whose path is a differential fixture.
pub open spec fn differential_count(cases: Seq<FixtureCase>, n: int) -> nat
    decreases n,
{
    if n <= 0 {
        0
    } else {
        differential_count(cases, n - 1) + if differential_path(cases[n - 1].path@) {
            1nat
        } else {
            0nat
        }
    }
}

/// Messages about the schema version and the inventory counts.
pub open spec fn header_messages(m: FixtureManifest) -> Seq<Seq<char>> {
    let inv = m.inventory;
    let classified = differential_count(m.cases@, m.cases@.len() as int);
    when(
        m.schema_version != 1,
        "schema_version is "@ + decimal(m.schema_version as nat) + ", expected 1"@,
    ) + when(
        inv.m0_baseline != 125,
        "inventory.m0_baseline is "@ + decimal(inv.m0_baseline as nat)
            + ", expected the audited M0 baseline of 125"@,
    ) + when(
        inv.added_differential != classified,
        "inventory.added_differential is "@ + decimal(inv.added_differential as nat) + ", but "@
            + decimal(classified) + " differential fixtures are classified"@,
    ) + when(
        inv.current_total != m.cases@.len(),
        "inventory.current_total is "@ + decimal(inv.current_total as nat)
            + ", but manifest contains "@ + decimal(m.cases@.len()) + " cases"@,
    ) + when(
        inv.current_total != inv.m0_baseline + inv.added_differential,
        "inventory total "@ + decimal(inv.current_total as nat) + " does not equal baseline "@
            + decimal(inv.m0_baseline as nat) + " + differential "@ + decimal(
            inv.added_differential as nat,
        ),
    )
}

/// A manifest passes validation only with a consistent header: schema
/// version 1, the audited baseline, as many differential fixtures as it
/// classifies, and a total that both counts its cases and equals the
/// baseline plus the differential fixtures. A total that differs from that
/// sum always yields a message.
pub proof fn lemma_valid_manifest_has_consistent_inventory(m: FixtureManifest, p: ManifestProbes)
    ensures
        manifest_messages(m, p).len() == 0 ==> {
            &&& m.schema_version == 1
            &&& m.inventory.m0_baseline == 125
            &&& m.inventory.added_differential == differential_count(m.cases@, m.cases@.len() as int)
            &&& m.inventory.current_total == m.cases@.len()
            &&& m.inventory.current_total == m.inventory.m0_baseline + m.inventory.added_differential
        },
        m.inventory.current_total != m.inventory.m0_baseline + m.inventory.added_differential
            ==> manifest_messages(m, p).len() > 0,
        m.inventory.current_total != m.cases@.len() ==> manifest_messages(m, p).len() > 0,
{
    let h = header_messages(m);
    assert(manifest_messages(m, p).len() >= h.len());
}

/// Messages about the fixture root.
pub open spec fn root_messages(m: FixtureManifest, p: ManifestProbes) -> Seq<Seq<char>> {
    (match relative_path_error(m.fixture_root@) {
        Some(e) => seq!["fixture_root: "@ + e],
        None => Seq::empty(),
    }) + when(!p.fixture_root.exists, "fixture_root does not exist: "@ + p.fixture_root.display@)
}

/// Text that opens every message about case `i`.
pub open spec fn case_prefix(i: int, id: Seq<char>) -> Seq<char> {
    "cases["@ + decimal(i as nat) + "] ("@ + id + ")"@
}

/// Identifiers of the first `n` cases that are not blank.
pub open spec fn seen_ids(cases: Seq<FixtureCase>, n: int) -> Seq<Seq<char>>
    decreases n,
{
    if n <= 0 {
        Seq::empty()
    } else if is_blank(cases[n - 1].id@) {
        seen_ids(cases, n - 1)
    } else {
        seen_ids(cases, n - 1).push(cases[n - 1].id@)
    }
}

/// Normalized paths of the first `n` cases whose path is acceptable.
pub open spec fn seen_paths(cases: Seq<FixtureCase>, n: int) -> Seq<Seq<char>>
    decreases n,
{
    if n <= 0 {
        Seq::empty()
    } else if relative_path_error(cases[n - 1].path@) is Some {
        seen_paths(cases, n - 1)
    } else {
        seen_paths(cases, n - 1).push(normalized_path(cases[n - 1].path@))
    }
}

/// Why a case's working directory is not acceptable, if it is not.
pub open spec fn working_directory_error(value: Seq<char>, probe: PathProbe) -> Option<Seq<char>> {
    if value == "temporary"@ || value == "repository"@ || value == "script-directory"@ {
        None
    } else {
        match relative_path_error(value) {
            Some(e) => Some(e),
            None => if probe.exists {
                None
            } else {
                Some("directory does not exist: "@ + probe.display@)
            },
        }
    }
}

/// Messages about the first `n` side-effect paths of a case.
pub open spec fn side_effect_messages(c: FixtureCase, prefix: Seq<char>, n: int) -> Seq<Seq<char>>
    decreases n,
{
    if n <= 0 {
        Seq::empty()
    } else {
        side_effect_messages(c, prefix, n - 1) + match relative_path_error(
            c.side_effects@[n - 1]@,
        ) {
            Some(e) => seq![prefix + ": side effect '"@ + c.side_effects@[n - 1]@ + "': "@ + e],
            None => Seq::empty(),
        }
    }
}

/// Messages about the first `n` normalization rules of a case.
pub open spec fn rule_messages(c: FixtureCase, prefix: Seq<char>, n: int) -> Seq<Seq<char>>
    decreases n,
{
    if n <= 0 {
        Seq::empty()
    } else {
        let rule = c.normalizations@[n - 1];
        let head = prefix + ": normalizations["@ + decimal((n - 1) as nat) + "]"@;
        rule_messages(c, prefix, n - 1) + when(
            rule.pattern@.len() == 0,
            head + " pattern must not be empty"@,
        ) + if rule.kind == NormalizationKind::Regex {
            match regex_compile_outcome(templates_for_validation(rule.pattern@)) {
                Some(e) => seq![head + " invalid regex: "@ + e],
                None => Seq::empty(),
            }
        } else {
            Seq::empty()
        }
    }
}

/// Messages about a case's timeout, expected exit, oracles and working
/// directory.
pub open spec fn case_misc_messages(c: FixtureCase, probe: CaseProbe, pre: Seq<char>) -> Seq<
    Seq<char>,
> {
    let oracle_messages = if c.oracles@.len() == 0 {
        seq![pre + ": at least one oracle is required"@]
    } else {
        when(!c.oracles@.no_duplicates(), pre + ": duplicate oracle"@) + when(
            !c.oracles@.contains(Oracle::LuaRust),
            pre + ": lua_rust oracle is required"@,
        )
    };
    let wd_messages = match working_directory_error(
        c.working_directory@,
        probe.working_directory,
    ) {
        Some(e) => seq![pre + ": working_directory: "@ + e],
        None => Seq::empty(),
    };
    when(c.timeout_ms == 0, pre + ": timeout_ms must be greater than zero"@) + when(
        c.kind == FixtureKind::Negative && c.expected_exit == 0,
        pre + ": negative fixture must declare a non-zero expected_exit"@,
    ) + oracle_messages + wd_messages
}

/// Messages about the identifier of case `i`.
pub open spec fn case_id_messages(cases: Seq<FixtureCase>, i: int, pre: Seq<char>) -> Seq<Seq<char>> {
    if is_blank(cases[i].id@) {
        seq![pre + ": id must not be empty"@]
    } else {
        when(seen_ids(cases, i).contains(cases[i].id@), pre + ": duplicate id"@)
    }
}

/// Messages about the path of case `i`.
pub open spec fn case_path_messages(
    cases: Seq<FixtureCase>,
    i: int,
    probe: CaseProbe,
    pre: Seq<char>,
) -> Seq<Seq<char>> {
    let c = cases[i];
    match relative_path_error(c.path@) {
        Some(e) => seq![pre + ": path: "@ + e],
        None => when(!".lua"@.is_suffix_of(c.path@), pre + ": path must end in .lua"@) + when(
            seen_paths(cases, i).contains(normalized_path(c.path@)),
            pre + ": duplicate path"@,
        ) + when(
            !probe.fixture_file.exists,
            pre + ": fixture does not exist: "@ + probe.fixture_file.display@,
        ),
    }
}

/// Messages about case `i`.
pub open spec fn case_messages(m: FixtureManifest, p: ManifestProbes, i: int) -> Seq<Seq<char>> {
    let c = m.cases@[i];
    let probe = p.cases@[i];
    let pre = case_prefix(i, c.id@);
    case_id_messages(m.cases@, i, pre) + case_path_messages(m.cases@, i, probe, pre)
        + case_misc_messages(c, probe, pre) + side_effect_messages(
        c,
        pre,
        c.side_effects@.len() as int,
    ) + rule_messages(c, pre, c.normalizations@.len() as int)
}

/// Messages about the first `n` cases.
pub open spec fn cases_messages(m: FixtureManifest, p: ManifestProbes, n: int) -> Seq<Seq<char>>
    decreases n,
{
    if n <= 0 {
        Seq::empty()
    } else {
        cases_messages(m, p, n - 1) + case_messages(m, p, n - 1)
    }
}

/// `[prefix + x]` for each `x` of `items` that `exclude` does not contain.
pub open spec fn listed_not_in(
    items: Seq<Seq<char>>,
    exclude: Seq<Seq<char>>,
    prefix: Seq<char>,
    n: int,
) -> Seq<Seq<char>>
    decreases n,
{
    if n <= 0 {
        Seq::empty()
    } else {
        listed_not_in(items, exclude, prefix, n - 1) + when(
            !exclude.contains(items[n - 1]),
            prefix + items[n - 1],
        )
    }
}

/// Messages that compare the manifest with the Lua files on disk.
pub open spec fn tree_messages(m: FixtureManifest, p: ManifestProbes) -> Seq<Seq<char>> {
    if !p.fixture_root.exists {
        Seq::empty()
    } else {
        match p.lua_paths {
            Err(e) => seq![e@],
            Ok(found) => {
                let actual = sorted_distinct(
                    string_views(found@).map_values(|s: Seq<char>| normalized_path(s)),
                );
                let declared = sorted_distinct(seen_paths(m.cases@, m.cases@.len() as int));
                listed_not_in(actual, declared, "unclassified Lua fixture: "@, actual.len() as int)
                    + listed_not_in(
                    declared,
                    actual,
                    "manifest path is not a Lua fixture: "@,
                    declared.len() as int,
                ) + when(
                    actual.len() != m.cases@.len(),
                    "fixture count mismatch: filesystem="@ + decimal(actual.len()) + ", manifest="@
                        + decimal(m.cases@.len()),
                )
            },
        }
    }
}

/// Every message that validating the manifest reports, in order.
pub open spec fn manifest_messages(m: FixtureManifest, p: ManifestProbes) -> Seq<Seq<char>> {
    header_messages(m) + root_messages(m, p) + cases_messages(m, p, m.cases@.len() as int)
        + tree_messages(m, p)
}

/// `items` joined with `sep` between consecutive items.
pub open spec fn joined(items: Seq<Seq<char>>, sep: Seq<char>) -> Seq<char>
    decreases items.len(),
{
    if items.len() == 0 {
        Seq::empty()
    } else if items.len() == 1 {
        items[0]
    } else {
        joined(items.drop_last(), sep) + sep + items.last()
    }
}

/// The report for a non-empty list of validation messages.
pub open spec fn validation_report(messages: Seq<Seq<char>>) -> Seq<char> {
    "fixture manifest validation failed:\n- "@ + joined(messages, "\n- "@)
}

fn push_message(errors: &mut Vec<String>, msg: &Vec<char>)
    ensures
        string_views(final(errors)@) == string_views(old(errors)@).push(msg@),
{
    let s = string_from_chars(msg);
    errors.push(s);
    proof {
        assert(string_views(errors@) =~= string_views(old(errors)@).push(msg@));
    }
}

fn push_when(errors: &mut Vec<String>, c: bool, msg: &Vec<char>)
    ensures
        string_views(final(errors)@) == string_views(old(errors)@) + when(c, msg@),
{
    if c {
        push_message(errors, msg);
        proof {
            assert(string_views(old(errors)@).push(msg@) =~= string_views(old(errors)@) + seq![msg@]);
        }
    } else {
        proof {
            assert(string_views(old(errors)@) + Seq::<Seq<char>>::empty() =~= string_views(
                old(errors)@,
            ));
        }
    }
}

/// Characters of `a` followed by those of `b`.
fn text2(a: &str, b: &Vec<char>) -> (r: Vec<char>)
    ensures
        r@ == a@ + b@,
{
    let mut out = chars_of(a);
    push_all(&mut out, b);
    out
}

fn header_checks(m: &FixtureManifest, errors: &mut Vec<String>)
    ensures
        string_views(final(errors)@) == string_views(old(errors)@) + header_messages(*m),
{
    let ghost start = string_views(errors@);
    let inv = &m.inventory;
    let n = m.cases.len();
    let mut classified: usize = 0;
    let mut i: usize = 0;
    while i < n
        invariant
            n == m.cases@.len(),
            i <= n,
            classified == differential_count(m.cases@, i as int),
            classified <= i,
        decreases n - i,
    {
        if is_differential_path(m.cases[i].path.as_str()) {
            classified += 1;
        }
        i += 1;
    }
    let mut msg = chars_of("schema_version is ");
    push_decimal(&mut msg, m.schema_version as u64);
    push_str_chars(&mut msg, ", expected 1");
    push_when(errors, m.schema_version != 1, &msg);
    let ghost s1 = string_views(errors@);

    let mut msg = chars_of("inventory.m0_baseline is ");
    push_decimal(&mut msg, inv.m0_baseline as u64);
    push_str_chars(&mut msg, ", expected the audited M0 baseline of 125");
    push_when(errors, inv.m0_baseline != M0_BASELINE, &msg);
    let ghost s2 = string_views(errors@);

    let mut msg = chars_of("inventory.added_differential is ");
    push_decimal(&mut msg, inv.added_differential as u64);
    push_str_chars(&mut msg, ", but ");
    push_decimal(&mut msg, classified as u64);
    push_str_chars(&mut msg, " differential fixtures are classified");
    push_when(errors, inv.added_differential != classified, &msg);
    let ghost s3 = string_views(errors@);

    let mut msg = chars_of("inventory.current_total is ");
    push_decimal(&mut msg, inv.current_total as u64);
    push_str_chars(&mut msg, ", but manifest contains ");
    push_decimal(&mut msg, n as u64);
    push_str_chars(&mut msg, " cases");
    push_when(errors, inv.current_total != n, &msg);
    let ghost s4 = string_views(errors@);

    let mut msg = chars_of("inventory total ");
    push_decimal(&mut msg, inv.current_total as u64);
    push_str_chars(&mut msg, " does not equal baseline ");
    push_decimal(&mut msg, inv.m0_baseline as u64);
    push_str_chars(&mut msg, " + differential ");
    push_decimal(&mut msg, inv.added_differential as u64);
    let total_mismatch = (inv.current_total as u128) != (inv.m0_baseline as u128)
        + (inv.added_differential as u128);
    push_when(errors, total_mismatch, &msg);
    proof {
        assert(string_views(errors@) =~= start + header_messages(*m));
    }
}

fn root_checks(m: &FixtureManifest, p: &ManifestProbes, errors: &mut Vec<String>)
    ensures
        string_views(final(errors)@) == string_views(old(errors)@) + root_messages(*m, *p),
{
    let ghost start = string_views(errors@);
    match validate_relative_path(m.fixture_root.as_str()) {
        Err(e) => {
            let e_chars = chars_of(e.as_str());
            let msg = text2("fixture_root: ", &e_chars);
            push_message(errors, &msg);
            proof {
                assert(string_views(errors@) =~= start + seq![msg@]);
            }
        },
        Ok(()) => {},
    }
    let ghost mid = string_views(errors@);
    let display = chars_of(p.fixture_root.display.as_str());
    let msg = text2("fixture_root does not exist: ", &display);
    push_when(errors, !p.fixture_root.exists, &msg);
    proof {
        assert(string_views(errors@) =~= start + root_messages(*m, *p));
    }
}

/// Whether `set` holds `x`.
fn contains_chars(set: &Vec<Vec<char>>, x: &Vec<char>) -> (r: bool)
    ensures
        r == char_views(set@).contains(x@),
{
    let n = set.len();
    let mut i: usize = 0;
    while i < n
        invariant
            n == set@.len(),
            i <= n,
            forall|j: int| 0 <= j < i ==> set@[j]@ != x@,
        decreases n - i,
    {
        if chars_equal(&set[i], x) {
            proof {
                assert(char_views(set@)[i as int] == x@);
            }
            return true;
        }
        i += 1;
    }
    proof {
        if char_views(set@).contains(x@) {
            let j = choose|j: int| 0 <= j < char_views(set@).len() && char_views(set@)[j] == x@;
            assert(set@[j]@ == x@);
        }
    }
    false
}

/// Whether `oracles` holds some oracle twice.
fn has_duplicate_oracle(oracles: &Vec<Oracle>) -> (r: bool)
    ensures
        r == !oracles@.no_duplicates(),
{
    let n = oracles.len();
    let mut i: usize = 0;
    while i < n
        invariant
            n == oracles@.len(),
            i <= n,
            forall|a: int, b: int| 0 <= a < b < n && a < i ==> oracles@[a] != oracles@[b],
        decreases n - i,
    {
        let mut j: usize = i + 1;
        while j < n
            invariant
                n == oracles@.len(),
                i < n,
                i < j <= n,
                forall|a: int, b: int| 0 <= a < b < n && a < i ==> oracles@[a] != oracles@[b],
                forall|b: int| i < b < j ==> oracles@[i as int] != oracles@[b],
            decreases n - j,
        {
            if oracles[i] == oracles[j] {
                return true;
            }
            j += 1;
        }
        i += 1;
    }
    false
}

/// Whether `oracles` holds `LuaRust`.
fn has_rust_oracle(oracles: &Vec<Oracle>) -> (r: bool)
    ensures
        r == oracles@.contains(Oracle::LuaRust),
{
    let n = oracles.len();
    let mut i: usize = 0;
    while i < n
        invariant
            n == oracles@.len(),
            i <= n,
            forall|j: int| 0 <= j < i ==> oracles@[j] != Oracle::LuaRust,
        decreases n - i,
    {
        if oracles[i] == Oracle::LuaRust {
            return true;
        }
        i += 1;
    }
    false
}

/// Whether `s` ends with `.lua`.
fn ends_with_lua(s: &str) -> (r: bool)
    ensures
        r == ".lua"@.is_suffix_of(s@),
{
    let chars = chars_of(s);
    let suffix = chars_of(".lua");
    let n = chars.len();
    let k = suffix.len();
    if n < k {
        return false;
    }
    let r = chars_occur_at(&chars, n - k, &suffix);
    proof {
        assert(chars@.skip(n - k).subrange(0, k as int) =~= chars@.subrange(n - k, n as int));
    }
    r
}

/// Check a case's working directory: one of the named kinds, or a relative
/// path (see `validate_relative_path`) to a directory that exists, as `probe`
/// (the path resolved under the repository root) reports.
pub fn validate_working_directory(value: &str, probe: &PathProbe) -> (r: Result<(), String>)
    ensures
        match working_directory_error(value@, *probe) {
            None => r is Ok,
            Some(e) => r matches Err(s) && s@ == e,
        },
{
    let chars = chars_of(value);
    if chars_equal(&chars, &chars_of("temporary")) || chars_equal(&chars, &chars_of("repository"))
        || chars_equal(&chars, &chars_of("script-directory")) {
        return Ok(());
    }
    match validate_relative_path(value) {
        Err(e) => Err(e),
        Ok(()) => if probe.exists {
            Ok(())
        } else {
            let display = chars_of(probe.display.as_str());
            let msg = text2("directory does not exist: ", &display);
            Err(string_from_chars(&msg))
        },
    }
}

fn side_effect_checks(c: &FixtureCase, prefix: &Vec<char>, errors: &mut Vec<String>)
    ensures
        string_views(final(errors)@) == string_views(old(errors)@) + side_effect_messages(
            *c,
            prefix@,
            c.side_effects@.len() as int,
        ),
{
    let ghost start = string_views(errors@);
    let n = c.side_effects.len();
    let mut k: usize = 0;
    while k < n
        invariant
            n == c.side_effects@.len(),
            k <= n,
            string_views(errors@) == start + side_effect_messages(*c, prefix@, k as int),
        decreases n - k,
    {
        let ghost before = string_views(errors@);
        let side_effect = &c.side_effects[k];
        match validate_relative_path(side_effect.as_str()) {
            Err(e) => {
                let mut msg = prefix.clone();
                push_str_chars(&mut msg, ": side effect '");
                push_str_chars(&mut msg, side_effect.as_str());
                push_str_chars(&mut msg, "': ");
                push_str_chars(&mut msg, e.as_str());
                push_message(errors, &msg);
                proof {
                    assert(msg@ =~= prefix@ + ": side effect '"@ + c.side_effects@[k as int]@
                        + "': "@ + e@);
                    assert(string_views(errors@) =~= start + side_effect_messages(
                        *c,
                        prefix@,
                        k + 1,
                    ));
                }
            },
            Ok(()) => {
                proof {
                    assert(string_views(errors@) =~= start + side_effect_messages(
                        *c,
                        prefix@,
                        k + 1,
                    ));
                }
            },
        }
        k += 1;
    }
}

fn rule_checks(c: &FixtureCase, prefix: &Vec<char>, errors: &mut Vec<String>)
    ensures
        string_views(final(errors)@) == string_views(old(errors)@) + rule_messages(
            *c,
            prefix@,
            c.normalizations@.len() as int,
        ),
{
    let ghost start = string_views(errors@);
    let n = c.normalizations.len();
    let mut k: usize = 0;
    while k < n
        invariant
            n == c.normalizations@.len(),
            k <= n,
            string_views(errors@) == start + rule_messages(*c, prefix@, k as int),
        decreases n - k,
    {
        let ghost before = string_views(errors@);
        let rule = &c.normalizations[k];
        let mut head = prefix.clone();
        push_str_chars(&mut head, ": normalizations[");
        push_decimal(&mut head, k as u64);
        push_str_chars(&mut head, "]");
        let mut msg = head.clone();
        push_str_chars(&mut msg, " pattern must not be empty");
        push_when(errors, rule.pattern.as_str().unicode_len() == 0, &msg);
        let ghost mid = string_views(errors@);
        let is_regex = match rule.kind {
            NormalizationKind::Regex => true,
            NormalizationKind::Literal => false,
        };
        if is_regex {
            let placeholder_pattern = replace_templates_for_validation(rule.pattern.as_str());
            match regex_compile_error(placeholder_pattern.as_str()) {
                Some(e) => {
                    let mut msg = head.clone();
                    push_str_chars(&mut msg, " invalid regex: ");
                    push_str_chars(&mut msg, e.as_str());
                    push_message(errors, &msg);
                },
                None => {},
            }
        }
        proof {
            assert(string_views(errors@) =~= start + rule_messages(*c, prefix@, k + 1));
        }
        k += 1;
    }
}

fn case_misc_checks(c: &FixtureCase, probe: &CaseProbe, prefix: &Vec<char>, errors: &mut Vec<String>)
    ensures
        string_views(final(errors)@) == string_views(old(errors)@) + case_misc_messages(
            *c,
            *probe,
            prefix@,
        ),
{
    let ghost start = string_views(errors@);
    let msg = text2_after(prefix, ": timeout_ms must be greater than zero");
    push_when(errors, c.timeout_ms == 0, &msg);
    let ghost after_timeout = string_views(errors@);
    let negative = match c.kind {
        FixtureKind::Negative => true,
        _ => false,
    };
    let msg = text2_after(prefix, ": negative fixture must declare a non-zero expected_exit");
    push_when(errors, negative && c.expected_exit == 0, &msg);
    let ghost after_negative = string_views(errors@);
    // oracles
    if c.oracles.len() == 0 {
        let msg = text2_after(prefix, ": at least one oracle is required");
        push_message(errors, &msg);
    } else {
        let msg = text2_after(prefix, ": duplicate oracle");
        push_when(errors, has_duplicate_oracle(&c.oracles), &msg);
        let msg = text2_after(prefix, ": lua_rust oracle is required");
        push_when(errors, !has_rust_oracle(&c.oracles), &msg);
    }
    let ghost after_oracle = string_views(errors@);
    match validate_working_directory(c.working_directory.as_str(), &probe.working_directory) {
        Err(e) => {
            let mut msg = text2_after(prefix, ": working_directory: ");
            push_str_chars(&mut msg, e.as_str());
            push_message(errors, &msg);
        },
        Ok(()) => {},
    }
    proof {
        assert(string_views(errors@) =~= start + case_misc_messages(*c, *probe, prefix@));
    }
}

fn case_id_checks(
    m: &FixtureManifest,
    i: usize,
    prefix: &Vec<char>,
    ids: &mut Vec<Vec<char>>,
    errors: &mut Vec<String>,
)
    requires
        i < m.cases@.len(),
        char_views(old(ids)@) == seen_ids(m.cases@, i as int),
    ensures
        char_views(final(ids)@) == seen_ids(m.cases@, i + 1),
        string_views(final(errors)@) == string_views(old(errors)@) + case_id_messages(
            m.cases@,
            i as int,
            prefix@,
        ),
{
    let ghost start = string_views(errors@);
    let c = &m.cases[i];
    if is_blank_str(c.id.as_str()) {
        let msg = text2_after(prefix, ": id must not be empty");
        push_message(errors, &msg);
        proof {
            assert(char_views(ids@) =~= seen_ids(m.cases@, i + 1));
            assert(string_views(errors@) =~= start + case_id_messages(m.cases@, i as int, prefix@));
        }
    } else {
        let id = chars_of(c.id.as_str());
        let duplicate = contains_chars(ids, &id);
        let msg = text2_after(prefix, ": duplicate id");
        push_when(errors, duplicate, &msg);
        let ghost before_ids = char_views(ids@);
        ids.push(id);
        proof {
            assert(char_views(ids@) =~= before_ids.push(c.id@));
        }
    }
}

fn case_path_checks(
    m: &FixtureManifest,
    i: usize,
    probe: &CaseProbe,
    prefix: &Vec<char>,
    paths: &mut Vec<Vec<char>>,
    errors: &mut Vec<String>,
)
    requires
        i < m.cases@.len(),
        char_views(old(paths)@) == seen_paths(m.cases@, i as int),
    ensures
        char_views(final(paths)@) == seen_paths(m.cases@, i + 1),
        string_views(final(errors)@) == string_views(old(errors)@) + case_path_messages(
            m.cases@,
            i as int,
            *probe,
            prefix@,
        ),
{
    let ghost start = string_views(errors@);
    let c = &m.cases[i];
    match validate_relative_path(c.path.as_str()) {
        Err(e) => {
            let mut msg = text2_after(prefix, ": path: ");
            push_str_chars(&mut msg, e.as_str());
            push_message(errors, &msg);
            proof {
                assert(char_views(paths@) =~= seen_paths(m.cases@, i + 1));
                assert(string_views(errors@) =~= start + case_path_messages(
                    m.cases@,
                    i as int,
                    *probe,
                    prefix@,
                ));
            }
        },
        Ok(()) => {
            let msg = text2_after(prefix, ": path must end in .lua");
            push_when(errors, !ends_with_lua(c.path.as_str()), &msg);
            let normalized = normalize_relative_path(c.path.as_str());
            let normalized_chars = chars_of(normalized.as_str());
            let inserted = !contains_chars(paths, &normalized_chars);
            let msg = text2_after(prefix, ": duplicate path");
            push_when(errors, !inserted, &msg);
            let ghost before_paths = char_views(paths@);
            paths.push(normalized_chars);
            proof {
                assert(char_views(paths@) =~= before_paths.push(normalized_path(c.path@)));
            }
            let mut msg = text2_after(prefix, ": fixture does not exist: ");
            push_str_chars(&mut msg, probe.fixture_file.display.as_str());
            push_when(errors, !probe.fixture_file.exists, &msg);
            proof {
                assert(string_views(errors@) =~= start + case_path_messages(
                    m.cases@,
                    i as int,
                    *probe,
                    prefix@,
                ));
            }
        },
    }
}

#[verifier::rlimit(100)]
fn case_checks(
    m: &FixtureManifest,
    p: &ManifestProbes,
    i: usize,
    ids: &mut Vec<Vec<char>>,
    paths: &mut Vec<Vec<char>>,
    errors: &mut Vec<String>,
)
    requires
        i < m.cases@.len(),
        p.cases@.len() == m.cases@.len(),
        char_views(old(ids)@) == seen_ids(m.cases@, i as int),
        char_views(old(paths)@) == seen_paths(m.cases@, i as int),
    ensures
        char_views(final(ids)@) == seen_ids(m.cases@, i + 1),
        char_views(final(paths)@) == seen_paths(m.cases@, i + 1),
        string_views(final(errors)@) == string_views(old(errors)@) + case_messages(*m, *p, i as int),
{
    let ghost start = string_views(errors@);
    let c = &m.cases[i];
    let probe = &p.cases[i];
    let id = chars_of(c.id.as_str());
    let mut prefix = chars_of("cases[");
    push_decimal(&mut prefix, i as u64);
    push_str_chars(&mut prefix, "] (");
    push_all(&mut prefix, &id);
    push_str_chars(&mut prefix, ")");
    proof {
        assert(prefix@ =~= case_prefix(i as int, c.id@));
    }
    case_id_checks(m, i, &prefix, ids, errors);
    let ghost a1 = string_views(errors@);
    case_path_checks(m, i, probe, &prefix, paths, errors);
    let ghost a2 = string_views(errors@);
    case_misc_checks(c, probe, &prefix, errors);
    let ghost a3 = string_views(errors@);
    side_effect_checks(c, &prefix, errors);
    let ghost a4 = string_views(errors@);
    rule_checks(c, &prefix, errors);
    proof {
        let pre = case_prefix(i as int, c.id@);
        let x1 = case_id_messages(m.cases@, i as int, pre);
        let x2 = case_path_messages(m.cases@, i as int, *probe, pre);
        let x3 = case_misc_messages(*c, *probe, pre);
        let x4 = side_effect_messages(*c, pre, c.side_effects@.len() as int);
        let x5 = rule_messages(*c, pre, c.normalizations@.len() as int);
        assert(case_messages(*m, *p, i as int) == x1 + x2 + x3 + x4 + x5);
        assert(string_views(errors@) =~= start + (x1 + x2 + x3 + x4 + x5));
    }
}

/// Characters of `prefix` followed by those of `tail`.
fn text2_after(prefix: &Vec<char>, tail: &str) -> (r: Vec<char>)
    ensures
        r@ == prefix@ + tail@,
{
    let mut out = prefix.clone();
    push_str_chars(&mut out, tail);
    out
}

fn listed_not_in_checks(
    items: &Vec<Vec<char>>,
    exclude: &Vec<Vec<char>>,
    prefix: &str,
    errors: &mut Vec<String>,
)
    ensures
        string_views(final(errors)@) == string_views(old(errors)@) + listed_not_in(
            char_views(items@),
            char_views(exclude@),
            prefix@,
            items@.len() as int,
        ),
{
    let ghost start = string_views(errors@);
    let n = items.len();
    let mut k: usize = 0;
    while k < n
        invariant
            n == items@.len(),
            k <= n,
            string_views(errors@) == start + listed_not_in(
                char_views(items@),
                char_views(exclude@),
                prefix@,
                k as int,
            ),
        decreases n - k,
    {
        let msg = text2(prefix, &items[k]);
        assert(char_views(items@)[k as int] == items@[k as int]@);
        push_when(errors, !contains_chars(exclude, &items[k]), &msg);
        proof {
            assert(string_views(errors@) =~= start + listed_not_in(
                char_views(items@),
                char_views(exclude@),
                prefix@,
                k + 1,
            ));
        }
        k += 1;
    }
}

/// The distinct elements of `items`, sorted.
fn sort_distinct(items: &Vec<Vec<char>>) -> (r: Vec<Vec<char>>)
    ensures
        char_views(r@) == sorted_distinct(char_views(items@)),
{
    let mut set: Vec<Vec<char>> = Vec::new();
    let n = items.len();
    let mut k: usize = 0;
    while k < n
        invariant
            n == items@.len(),
            k <= n,
            char_views(set@) == sorted_distinct(char_views(items@).take(k as int)),
        decreases n - k,
    {
        let x = items[k].clone();
        proof {
            let t = char_views(items@).take(k + 1);
            assert(t.drop_last() =~= char_views(items@).take(k as int));
            assert(t.last() == items@[k as int]@);
        }
        sorted_insert(&mut set, x);
        k += 1;
    }
    proof {
        assert(char_views(items@).take(n as int) =~= char_views(items@));
    }
    set
}

fn tree_checks(m: &FixtureManifest, p: &ManifestProbes, paths: &Vec<Vec<char>>, errors: &mut Vec<
    String,
>)
    requires
        char_views(paths@) == seen_paths(m.cases@, m.cases@.len() as int),
    ensures
        string_views(final(errors)@) == string_views(old(errors)@) + tree_messages(*m, *p),
{
    let ghost start = string_views(errors@);
    if !p.fixture_root.exists {
        proof {
            assert(string_views(errors@) =~= start + tree_messages(*m, *p));
        }
        return ;
    }
    match &p.lua_paths {
        Err(e) => {
            let msg = chars_of(e.as_str());
            push_message(errors, &msg);
            proof {
                assert(string_views(errors@) =~= start + tree_messages(*m, *p));
            }
        },
        Ok(found) => {
            let mut normalized: Vec<Vec<char>> = Vec::new();
            let n = found.len();
            let mut k: usize = 0;
            while k < n
                invariant
                    n == found@.len(),
                    k <= n,
                    char_views(normalized@) == string_views(found@).map_values(
                        |s: Seq<char>| normalized_path(s),
                    ).take(k as int),
                decreases n - k,
            {
                let s = normalize_relative_path(found[k].as_str());
                let ghost before = char_views(normalized@);
                normalized.push(chars_of(s.as_str()));
                proof {
                    let target = string_views(found@).map_values(|s: Seq<char>| normalized_path(s));
                    assert(string_views(found@)[k as int] == found@[k as int]@);
                    assert(target[k as int] == normalized_path(found@[k as int]@));
                    assert(char_views(normalized@) =~= before.push(normalized_path(found@[k as int]@)));
                    assert(target.take(k + 1) =~= target.take(k as int).push(target[k as int]));
                    assert(char_views(normalized@) =~= string_views(found@).map_values(
                        |s: Seq<char>| normalized_path(s),
                    ).take(k + 1));
                }
                k += 1;
            }
            proof {
                assert(string_views(found@).map_values(|s: Seq<char>| normalized_path(s)).take(
                    n as int,
                ) =~= string_views(found@).map_values(|s: Seq<char>| normalized_path(s)));
            }
            let actual = sort_distinct(&normalized);
            let declared = sort_distinct(paths);
            listed_not_in_checks(&actual, &declared, "unclassified Lua fixture: ", errors);
            listed_not_in_checks(&declared, &actual, "manifest path is not a Lua fixture: ", errors);
            let mut msg = chars_of("fixture count mismatch: filesystem=");
            push_decimal(&mut msg, actual.len() as u64);
            push_str_chars(&mut msg, ", manifest=");
            push_decimal(&mut msg, m.cases.len() as u64);
            push_when(errors, actual.len() != m.cases.len(), &msg);
            proof {
                assert(string_views(errors@) =~= start + tree_messages(*m, *p));
            }
        },
    }
}

/// Every validation message for `manifest`, in order.
pub fn manifest_messages_of(manifest: &FixtureManifest, probes: &ManifestProbes) -> (r: Vec<String>)
    requires
        probes.cases@.len() == manifest.cases@.len(),
    ensures
        string_views(r@) == manifest_messages(*manifest, *probes),
{
    let mut errors: Vec<String> = Vec::new();
    proof {
        assert(string_views(errors@) =~= Seq::<Seq<char>>::empty());
    }
    header_checks(manifest, &mut errors);
    root_checks(manifest, probes, &mut errors);
    let ghost before_cases = string_views(errors@);
    let mut ids: Vec<Vec<char>> = Vec::new();
    let mut paths: Vec<Vec<char>> = Vec::new();
    proof {
        assert(char_views(ids@) =~= Seq::<Seq<char>>::empty());
        assert(char_views(paths@) =~= Seq::<Seq<char>>::empty());
    }
    let n = manifest.cases.len();
    let mut i: usize = 0;
    while i < n
        invariant
            n == manifest.cases@.len(),
            probes.cases@.len() == n,
            i <= n,
            char_views(ids@) == seen_ids(manifest.cases@, i as int),
            char_views(paths@) == seen_paths(manifest.cases@, i as int),
            string_views(errors@) == before_cases + cases_messages(*manifest, *probes, i as int),
        decreases n - i,
    {
        case_checks(manifest, probes, i, &mut ids, &mut paths, &mut errors);
        proof {
            assert(string_views(errors@) =~= before_cases + cases_messages(
                *manifest,
                *probes,
                i + 1,
            ));
        }
        i += 1;
    }
    tree_checks(manifest, probes, &paths, &mut errors);
    proof {
        assert(string_views(errors@) =~= manifest_messages(*manifest, *probes));
    }
    errors
}

/// Validate a manifest against the file-system facts in `probes`: `Ok` when
/// there is nothing to report, otherwise one report listing every message.
pub fn validate_manifest(manifest: &FixtureManifest, probes: &ManifestProbes) -> (r: Result<
    (),
    String,
>)
    requires
        probes.cases@.len() == manifest.cases@.len(),
        manifest.wf(),
    ensures
        manifest_messages(*manifest, *probes).len() == 0 ==> r is Ok,
        manifest_messages(*manifest, *probes).len() > 0 ==> (r matches Err(e) && e@
            == validation_report(manifest_messages(*manifest, *probes))),
{
    let errors = manifest_messages_of(manifest, probes);
    if errors.len() == 0 {
        return Ok(());
    }
    let mut out = chars_of("fixture manifest validation failed:\n- ");
    let ghost head = out@;
    let n = errors.len();
    push_str_chars(&mut out, errors[0].as_str());
    let mut k: usize = 1;
    proof {
        assert(string_views(errors@).take(1) =~= seq![errors@[0]@]);
    }
    while k < n
        invariant
            n == errors@.len(),
            1 <= k <= n,
            out@ == head + joined(string_views(errors@).take(k as int), "\n- "@),
        decreases n - k,
    {
        push_str_chars(&mut out, "\n- ");
        push_str_chars(&mut out, errors[k].as_str());
        proof {
            let t = string_views(errors@).take(k + 1);
            assert(t.drop_last() =~= string_views(errors@).take(k as int));
            assert(t.last() == errors@[k as int]@);
        }
        k += 1;
    }
    proof {
        assert(string_views(errors@).take(n as int) =~= string_views(errors@));
    }
    Err(string_from_chars(&out))
}

} // verus!
