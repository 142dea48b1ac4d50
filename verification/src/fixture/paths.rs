//! Path and identifier text rules of the fixture runner.
//!
//! Paths are handled as text with `/` as the separator (the Unix rules of
//! `std::path`); a backslash is turned into `/` where the runner normalizes.

use vstd::prelude::*;
use crate::text::{
    chars_equal, chars_occur_at, chars_of, digit_char, is_white_space, char_is_whitespace,
    push_all, push_str_chars, replace_all, replace_chars, string_from_chars,
};
use super::{FixtureCase, Suite};

verus! {

/// `s` without any leading repetitions of `./`.
pub open spec fn strip_dot_slash(s: Seq<char>) -> Seq<char>
    decreases s.len(),
{
    if s.len() >= 2 && s[0] == '.' && s[1] == '/' {
        strip_dot_slash(s.skip(2))
    } else {
        s
    }
}

/// `s` with every backslash turned into a slash.
pub open spec fn forward_slashes(s: Seq<char>) -> Seq<char> {
    replace_all(s, seq!['\\'], seq!['/'])
}

/// Normal form of a manifest-relative path: backslashes become slashes and
/// leading `./` prefixes are dropped.
pub open spec fn normalized_path(s: Seq<char>) -> Seq<char> {
    strip_dot_slash(forward_slashes(s))
}

/// Directory prefix of the official Lua test suite.
pub open spec fn official_prefix() -> Seq<char> {
    "tests/lua/official/"@
}

/// Directory prefix of the differential fixtures.
pub open spec fn differential_prefix() -> Seq<char> {
    "tests/lua/differential/"@
}

/// Whether `path` lies in the official Lua test suite.
pub open spec fn official_path(path: Seq<char>) -> bool {
    official_prefix().is_prefix_of(normalized_path(path))
}

/// Whether `path` lies among the differential fixtures.
pub open spec fn differential_path(path: Seq<char>) -> bool {
    differential_prefix().is_prefix_of(normalized_path(path))
}

/// Whether every character of `s` is white space (so `s.trim()` is empty).
pub open spec fn is_blank(s: Seq<char>) -> bool {
    forall|i: int| 0 <= i < s.len() ==> is_white_space(#[trigger] s[i])
}

/// Whether `s` has a `..` component between separators.
pub open spec fn has_parent_component(s: Seq<char>) -> bool {
    exists|i: int|
        0 <= i && i + 2 <= s.len() && #[trigger] s[i] == '.' && s[i + 1] == '.' && (i == 0 || s[i
            - 1] == '/') && (i + 2 == s.len() || s[i + 2] == '/')
}

/// Why `s` is not an acceptable relative path, if it is not.
pub open spec fn relative_path_error(s: Seq<char>) -> Option<Seq<char>> {
    if is_blank(s) {
        Some("must not be empty"@)
    } else if s.len() > 0 && s[0] == '/' {
        Some("must be relative"@)
    } else if has_parent_component(s) {
        Some("must not contain parent/root/prefix components"@)
    } else {
        None
    }
}

/// `c` when it is an ASCII letter, digit or `-`; otherwise `-`.
pub open spec fn id_char(c: char) -> char {
    if ('a' <= c && c <= 'z') || ('A' <= c && c <= 'Z') || ('0' <= c && c <= '9') || c == '-' {
        c
    } else {
        '-'
    }
}

/// Hexadecimal digit for `d` (0 to 15), lower case.
pub open spec fn hex_digit(d: int) -> char {
    if d < 10 {
        digit_char(d)
    } else if d == 10 {
        'a'
    } else if d == 11 {
        'b'
    } else if d == 12 {
        'c'
    } else if d == 13 {
        'd'
    } else if d == 14 {
        'e'
    } else {
        'f'
    }
}

/// Lower-case hexadecimal text of `bytes`, two digits per byte.
pub open spec fn hex_text(bytes: Seq<u8>) -> Seq<char>
    decreases bytes.len(),
{
    if bytes.len() == 0 {
        Seq::empty()
    } else {
        hex_text(bytes.drop_last()).push(hex_digit((bytes.last() / 16) as int)).push(
            hex_digit((bytes.last() % 16) as int),
        )
    }
}

/// Placeholders that normalization patterns may name, in expansion order.
pub open spec fn placeholder(k: int) -> Seq<char> {
    if k == 0 {
        "{{executable}}"@
    } else if k == 1 {
        "{{executable_slash}}"@
    } else if k == 2 {
        "{{working_directory}}"@
    } else if k == 3 {
        "{{working_directory_slash}}"@
    } else if k == 4 {
        "{{repo_root}}"@
    } else if k == 5 {
        "{{repo_root_slash}}"@
    } else if k == 6 {
        "{{script_path}}"@
    } else if k == 7 {
        "{{script_path_slash}}"@
    } else if k == 8 {
        "{{temp_directory}}"@
    } else {
        "{{temp_directory_slash}}"@
    }
}

/// `s` after replacing, in order, the first `n` placeholders by the matching
/// entries of `values`.
pub open spec fn expand_placeholders(s: Seq<char>, values: Seq<Seq<char>>, n: int) -> Seq<char>
    decreases n,
{
    if n <= 0 {
        s
    } else {
        replace_all(expand_placeholders(s, values, n - 1), placeholder(n - 1), values[n - 1])
    }
}

/// `pattern` with every placeholder replaced by the word `placeholder`.
pub open spec fn templates_for_validation(pattern: Seq<char>) -> Seq<char> {
    expand_placeholders(pattern, Seq::new(10, |k: int| "placeholder"@), 10)
}

/// The literal text of placeholder `k`.
pub fn placeholder_text(k: usize) -> (r: &'static str)
    requires
        k < 10,
    ensures
        r@ == placeholder(k as int),
{
    if k == 0 {
        "{{executable}}"
    } else if k == 1 {
        "{{executable_slash}}"
    } else if k == 2 {
        "{{working_directory}}"
    } else if k == 3 {
        "{{working_directory_slash}}"
    } else if k == 4 {
        "{{repo_root}}"
    } else if k == 5 {
        "{{repo_root_slash}}"
    } else if k == 6 {
        "{{script_path}}"
    } else if k == 7 {
        "{{script_path_slash}}"
    } else if k == 8 {
        "{{temp_directory}}"
    } else {
        "{{temp_directory_slash}}"
    }
}

proof fn lemma_placeholders_nonempty(k: int)
    requires
        0 <= k < 10,
    ensures
        placeholder(k).len() > 0,
{
    reveal_strlit("{{executable}}");
    reveal_strlit("{{executable_slash}}");
    reveal_strlit("{{working_directory}}");
    reveal_strlit("{{working_directory_slash}}");
    reveal_strlit("{{repo_root}}");
    reveal_strlit("{{repo_root_slash}}");
    reveal_strlit("{{script_path}}");
    reveal_strlit("{{script_path_slash}}");
    reveal_strlit("{{temp_directory}}");
    reveal_strlit("{{temp_directory_slash}}");
}

/// Replace, in order, every placeholder `k` by `values[k]`.
pub fn expand_placeholder_values(text: &str, values: &Vec<String>) -> (r: String)
    requires
        values@.len() == 10,
    ensures
        r@ == expand_placeholders(text@, values@.map_values(|v: String| v@), 10),
{
    let ghost vs = values@.map_values(|v: String| v@);
    let mut current = chars_of(text);
    let mut k: usize = 0;
    while k < 10
        invariant
            values@.len() == 10,
            vs == values@.map_values(|v: String| v@),
            k <= 10,
            current@ == expand_placeholders(text@, vs, k as int),
        decreases 10 - k,
    {
        proof {
            lemma_placeholders_nonempty(k as int);
        }
        let p = chars_of(placeholder_text(k));
        let q = chars_of(values[k].as_str());
        assert(vs[k as int] == values@[k as int]@);
        current = replace_chars(&current, &p, &q);
        k += 1;
    }
    string_from_chars(&current)
}

/// `pattern` with every placeholder replaced by the word `placeholder`, as
/// used to check that a regular-expression pattern compiles.
pub fn replace_templates_for_validation(pattern: &str) -> (r: String)
    ensures
        r@ == templates_for_validation(pattern@),
{
    let mut values: Vec<String> = Vec::new();
    let mut k: usize = 0;
    while k < 10
        invariant
            k <= 10,
            values@.len() == k,
            forall|j: int| 0 <= j < k ==> (#[trigger] values@[j])@ == "placeholder"@,
        decreases 10 - k,
    {
        values.push(String::from_str("placeholder"));
        k += 1;
    }
    let r = expand_placeholder_values(pattern, &values);
    proof {
        assert(values@.map_values(|v: String| v@) =~= Seq::new(10, |k: int| "placeholder"@));
    }
    r
}

/// `s` without leading `./` prefixes.
fn strip_dot_slash_chars(s: &Vec<char>) -> (r: Vec<char>)
    ensures
        r@ == strip_dot_slash(s@),
{
    let n = s.len();
    let mut i: usize = 0;
    proof {
        assert(s@.skip(0) =~= s@);
    }
    while n - i >= 2 && s[i] == '.' && s[i + 1] == '/'
        invariant
            n == s@.len(),
            i <= n,
            strip_dot_slash(s@) == strip_dot_slash(s@.skip(i as int)),
        decreases n - i,
    {
        proof {
            let t = s@.skip(i as int);
            assert(t[0] == s@[i as int]);
            assert(t[1] == s@[i + 1]);
            assert(t.skip(2) =~= s@.skip(i + 2));
        }
        i += 2;
    }
    let mut r: Vec<char> = Vec::new();
    let mut j = i;
    proof {
        let t = s@.skip(i as int);
        if t.len() >= 2 {
            assert(t[0] == s@[i as int]);
            assert(t[1] == s@[i + 1]);
        }
    }
    while j < n
        invariant
            n == s@.len(),
            i <= j <= n,
            r@ == s@.subrange(i as int, j as int),
        decreases n - j,
    {
        r.push(s[j]);
        proof {
            assert(s@.subrange(i as int, j + 1) =~= s@.subrange(i as int, j as int).push(s@[j as int]));
        }
        j += 1;
    }
    proof {
        assert(s@.subrange(i as int, n as int) =~= s@.skip(i as int));
    }
    r
}

/// Normalize a manifest-relative path: backslashes become slashes and leading
/// `./` prefixes are removed.
pub fn normalize_relative_path(path: &str) -> (r: String)
    ensures
        r@ == normalized_path(path@),
{
    let chars = chars_of(path);
    let mut back: Vec<char> = Vec::new();
    back.push('\\');
    let mut fwd: Vec<char> = Vec::new();
    fwd.push('/');
    proof {
        assert(back@ =~= seq!['\\']);
        assert(fwd@ =~= seq!['/']);
    }
    let replaced = replace_chars(&chars, &back, &fwd);
    let stripped = strip_dot_slash_chars(&replaced);
    string_from_chars(&stripped)
}

/// `path` with every backslash turned into a slash.
pub fn path_string_with_forward_slashes(path: &str) -> (r: String)
    ensures
        r@ == forward_slashes(path@),
{
    let chars = chars_of(path);
    let mut back: Vec<char> = Vec::new();
    back.push('\\');
    let mut fwd: Vec<char> = Vec::new();
    fwd.push('/');
    proof {
        assert(back@ =~= seq!['\\']);
        assert(fwd@ =~= seq!['/']);
    }
    let replaced = replace_chars(&chars, &back, &fwd);
    string_from_chars(&replaced)
}

/// Whether `prefix` is a prefix of `s`.
fn starts_with_chars(s: &Vec<char>, prefix: &str) -> (r: bool)
    ensures
        r == prefix@.is_prefix_of(s@),
{
    let p = chars_of(prefix);
    let r = chars_occur_at(s, 0, &p);
    proof {
        assert(s@.skip(0) =~= s@);
    }
    r
}

/// Whether `path` lies in the official Lua test suite.
pub fn is_official_path(path: &str) -> (r: bool)
    ensures
        r == official_path(path@),
{
    let normalized = normalize_relative_path(path);
    let chars = chars_of(normalized.as_str());
    starts_with_chars(&chars, "tests/lua/official/")
}

/// Whether `path` lies among the differential fixtures.
pub fn is_differential_path(path: &str) -> (r: bool)
    ensures
        r == differential_path(path@),
{
    let normalized = normalize_relative_path(path);
    let chars = chars_of(normalized.as_str());
    starts_with_chars(&chars, "tests/lua/differential/")
}

/// Whether `s` is empty or all white space.
pub fn is_blank_str(s: &str) -> (r: bool)
    ensures
        r == is_blank(s@),
{
    let chars = chars_of(s);
    let n = chars.len();
    let mut i: usize = 0;
    while i < n
        invariant
            n == chars@.len(),
            chars@ == s@,
            i <= n,
            forall|j: int| 0 <= j < i ==> is_white_space(#[trigger] chars@[j]),
        decreases n - i,
    {
        if !char_is_whitespace(chars[i]) {
            return false;
        }
        i += 1;
    }
    true
}

/// Whether the characters of `s` hold a `..` component.
fn has_parent_component_chars(s: &Vec<char>) -> (r: bool)
    ensures
        r == has_parent_component(s@),
{
    let n = s.len();
    let mut i: usize = 0;
    while n - i >= 2
        invariant
            n == s@.len(),
            i <= n,
            forall|j: int|
                0 <= j < i ==> !(j + 2 <= s@.len() && #[trigger] s@[j] == '.' && s@[j + 1] == '.'
                    && (j == 0 || s@[j - 1] == '/') && (j + 2 == s@.len() || s@[j + 2] == '/')),
        decreases n - i,
    {
        if s[i] == '.' && s[i + 1] == '.' && (i == 0 || s[i - 1] == '/') && (i + 2 == n || s[i + 2]
            == '/') {
            return true;
        }
        i += 1;
    }
    false
}

/// Check that `value` is a non-empty relative path without `..` components.
pub fn validate_relative_path(value: &str) -> (r: Result<(), String>)
    ensures
        match relative_path_error(value@) {
            None => r is Ok,
            Some(msg) => r matches Err(e) && e@ == msg,
        },
{
    if is_blank_str(value) {
        return Err(String::from_str("must not be empty"));
    }
    let chars = chars_of(value);
    if chars.len() > 0 && chars[0] == '/' {
        return Err(String::from_str("must be relative"));
    }
    if has_parent_component_chars(&chars) {
        return Err(String::from_str("must not contain parent/root/prefix components"));
    }
    Ok(())
}

/// `id` with every character other than ASCII letters, digits and `-`
/// replaced by `-`, for use in a temporary directory name.
pub fn sanitize_id(id: &str) -> (r: String)
    ensures
        r@ == id@.map_values(|c: char| id_char(c)),
{
    let chars = chars_of(id);
    let mut out: Vec<char> = Vec::new();
    let n = chars.len();
    let mut i: usize = 0;
    while i < n
        invariant
            n == chars@.len(),
            i <= n,
            out@ == chars@.take(i as int).map_values(|c: char| id_char(c)),
        decreases n - i,
    {
        let c = chars[i];
        let d = if ('a' <= c && c <= 'z') || ('A' <= c && c <= 'Z') || ('0' <= c && c <= '9') || c
            == '-' {
            c
        } else {
            '-'
        };
        out.push(d);
        proof {
            assert(chars@.take(i + 1).map_values(|c: char| id_char(c)) =~= chars@.take(
                i as int,
            ).map_values(|c: char| id_char(c)).push(id_char(c)));
        }
        i += 1;
    }
    proof {
        assert(chars@.take(n as int) =~= chars@);
    }
    string_from_chars(&out)
}

fn hex_digit_char(d: u8) -> (c: char)
    requires
        d < 16,
    ensures
        c == hex_digit(d as int),
{
    if d < 10 {
        if d == 0 {
            '0'
        } else if d == 1 {
            '1'
        } else if d == 2 {
            '2'
        } else if d == 3 {
            '3'
        } else if d == 4 {
            '4'
        } else if d == 5 {
            '5'
        } else if d == 6 {
            '6'
        } else if d == 7 {
            '7'
        } else if d == 8 {
            '8'
        } else {
            '9'
        }
    } else if d == 10 {
        'a'
    } else if d == 11 {
        'b'
    } else if d == 12 {
        'c'
    } else if d == 13 {
        'd'
    } else if d == 14 {
        'e'
    } else {
        'f'
    }
}

/// Lower-case hexadecimal characters of `bytes`.
pub fn hex_chars(bytes: &[u8]) -> (r: Vec<char>)
    ensures
        r@ == hex_text(bytes@),
        r@.len() == 2 * bytes@.len(),
{
    let mut out: Vec<char> = Vec::new();
    let n = bytes.len();
    let mut i: usize = 0;
    while i < n
        invariant
            n == bytes@.len(),
            i <= n,
            out@ == hex_text(bytes@.take(i as int)),
            out@.len() == 2 * i,
        decreases n - i,
    {
        let b = bytes[i];
        out.push(hex_digit_char(b / 16));
        out.push(hex_digit_char(b % 16));
        proof {
            assert(bytes@.take(i + 1).drop_last() =~= bytes@.take(i as int));
            assert(bytes@.take(i + 1).last() == b);
        }
        i += 1;
    }
    proof {
        assert(bytes@.take(n as int) =~= bytes@);
    }
    out
}

/// Lower-case hexadecimal text of `bytes`, two digits per byte.
pub fn hex_encode(bytes: &[u8]) -> (r: String)
    ensures
        r@ == hex_text(bytes@),
{
    let out = hex_chars(bytes);
    string_from_chars(&out)
}

/// The non-official, differential and official suites split the paths: each
/// path lies in exactly one of them, and the all suite selects every path.
pub proof fn lemma_suites_partition(path: Seq<char>)
    ensures
        Suite::All.selects(path),
        Suite::NonOfficial.selects(path) || Suite::Differential.selects(path)
            || Suite::Official.selects(path),
        !(Suite::Differential.selects(path) && Suite::Official.selects(path)),
        !(Suite::NonOfficial.selects(path) && Suite::Differential.selects(path)),
        !(Suite::NonOfficial.selects(path) && Suite::Official.selects(path)),
{
    reveal_strlit("tests/lua/official/");
    reveal_strlit("tests/lua/differential/");
    let p = normalized_path(path);
    if official_prefix().is_prefix_of(p) && differential_prefix().is_prefix_of(p) {
        assert(official_prefix()[10] == p[10]);
        assert(differential_prefix()[10] == p[10]);
        assert(official_prefix()[10] == 'o');
        assert(differential_prefix()[10] == 'd');
    }
}

impl Suite {
    /// The suite named by `value`.
    pub open spec fn named(value: Seq<char>) -> Option<Suite> {
        if value == "non-official"@ {
            Some(Suite::NonOfficial)
        } else if value == "differential"@ {
            Some(Suite::Differential)
        } else if value == "official"@ {
            Some(Suite::Official)
        } else if value == "all"@ {
            Some(Suite::All)
        } else {
            None
        }
    }

    /// The name of a suite.
    pub open spec fn name(self) -> Seq<char> {
        match self {
            Suite::NonOfficial => "non-official"@,
            Suite::Differential => "differential"@,
            Suite::Official => "official"@,
            Suite::All => "all"@,
        }
    }

    /// Message for an unknown suite name.
    pub open spec fn invalid_message(value: Seq<char>) -> Seq<char> {
        "invalid suite '"@ + value
            + "'; expected non-official, differential, official, or all"@
    }

    /// Parse a suite name.
    pub fn parse(value: &str) -> (r: Result<Suite, String>)
        ensures
            match Suite::named(value@) {
                Some(s) => r == Ok::<Suite, String>(s),
                None => r matches Err(e) && e@ == Suite::invalid_message(value@),
            },
    {
        let chars = chars_of(value);
        if chars_equal(&chars, &chars_of("non-official")) {
            return Ok(Suite::NonOfficial);
        }
        if chars_equal(&chars, &chars_of("differential")) {
            return Ok(Suite::Differential);
        }
        if chars_equal(&chars, &chars_of("official")) {
            return Ok(Suite::Official);
        }
        if chars_equal(&chars, &chars_of("all")) {
            return Ok(Suite::All);
        }
        let mut out: Vec<char> = Vec::new();
        push_str_chars(&mut out, "invalid suite '");
        push_all(&mut out, &chars);
        push_str_chars(&mut out, "'; expected non-official, differential, official, or all");
        Err(string_from_chars(&out))
    }

    /// The name of this suite.
    pub fn as_str(self) -> (r: &'static str)
        ensures
            r@ == self.name(),
    {
        match self {
            Suite::NonOfficial => "non-official",
            Suite::Differential => "differential",
            Suite::Official => "official",
            Suite::All => "all",
        }
    }

    /// Whether this suite selects a case with the given path.
    pub open spec fn selects(self, path: Seq<char>) -> bool {
        match self {
            Suite::NonOfficial => !official_path(path) && !differential_path(path),
            Suite::Differential => differential_path(path),
            Suite::Official => official_path(path),
            Suite::All => true,
        }
    }

    /// Whether this suite selects `case`. The non-official suite is every case
    /// that is neither official nor differential.
    pub fn includes(self, case: &FixtureCase) -> (r: bool)
        ensures
            r == self.selects(case.path@),
    {
        let official = is_official_path(case.path.as_str());
        let differential = is_differential_path(case.path.as_str());
        match self {
            Suite::NonOfficial => !official && !differential,
            Suite::Differential => differential,
            Suite::Official => official,
            Suite::All => true,
        }
    }
}

} // verus!
