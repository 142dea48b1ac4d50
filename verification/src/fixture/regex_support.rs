//! The calls the fixture runner makes into the `regex` crate.

use vstd::prelude::*;

verus! {

/// What `regex::Regex::new(pattern)` gives: `None` when the pattern compiles,
/// otherwise the text of the error it reports.
pub uninterp spec fn regex_compile_outcome(pattern: Seq<char>) -> Option<Seq<char>>;

/// What `Regex::new(pattern)` followed by `replace_all(text, replacement)`
/// produces for a pattern that compiles (the replacement is expanded as
/// `regex` expands `$name` group references).
pub uninterp spec fn regex_replace_all(
    pattern: Seq<char>,
    text: Seq<char>,
    replacement: Seq<char>,
) -> Seq<char>;

/// Whether `regex::escape` escapes `c`: the characters that are meta
/// characters of the regex syntax.
pub open spec fn regex_meta_char(c: char) -> bool {
    c == '\\' || c == '.' || c == '+' || c == '*' || c == '?' || c == '(' || c == ')' || c == '|'
        || c == '[' || c == ']' || c == '{' || c == '}' || c == '^' || c == '$' || c == '#' || c
        == '&' || c == '-' || c == '~'
}

/// `text` with a backslash put before every meta character.
pub open spec fn regex_escaped(text: Seq<char>) -> Seq<char>
    decreases text.len(),
{
    if text.len() == 0 {
        Seq::empty()
    } else if regex_meta_char(text.last()) {
        regex_escaped(text.drop_last()).push('\\').push(text.last())
    } else {
        regex_escaped(text.drop_last()).push(text.last())
    }
}

/// Compile `pattern` with `regex::Regex::new` and report the error text, if
/// any. The contract ties the result to `regex_compile_outcome`; it says
/// nothing of which patterns compile.
#[verifier::external_body]
pub(crate) fn regex_compile_error(pattern: &str) -> (r: Option<String>)
    ensures
        (r is None) == (regex_compile_outcome(pattern@) is None),
        r matches Some(e) ==> regex_compile_outcome(pattern@) == Some(e@),
{
    regex::Regex::new(pattern).err().map(|error| error.to_string())
}

/// Compile `pattern` with `regex::Regex::new` and, when it compiles, replace
/// every match in `text` with `replacement` through `Regex::replace_all`.
/// Returns `None` exactly when the pattern does not compile.
#[verifier::external_body]
pub(crate) fn regex_replace(pattern: &str, text: &str, replacement: &str) -> (r: Option<String>)
    ensures
        (r is None) == (regex_compile_outcome(pattern@) is Some),
        r matches Some(out) ==> out@ == regex_replace_all(pattern@, text@, replacement@),
{
    regex::Regex::new(pattern).ok().map(|regex| regex.replace_all(text, replacement).into_owned())
}

/// `regex::escape`: a backslash before every meta character of `text`.
#[verifier::external_body]
pub(crate) fn regex_escape(text: &str) -> (r: String)
    ensures
        r@ == regex_escaped(text@),
{
    regex::escape(text)
}

} // verus!
