//! Comparison of two engines' executions of one case, and the textual
//! descriptions of their differences.

use vstd::prelude::*;
use vstd::utf8::encode_utf8;
use crate::text::{char_views, chars_equal, chars_of, decimal, push_all, push_decimal, push_str_chars, string_from_chars};
use super::{ByteArtifact, ComparisonArtifact, ExecutionArtifact, FixtureCase, SideEffectArtifact};
use super::manifest::joined;
use super::normalize::{lossy_text, lossy_utf8};
use super::paths::hex_chars;
use super::paths::hex_text;

verus! {

/// What `format!("{:?}", s)` gives for a string slice: the text quoted and
/// escaped as Rust's `Debug` prints it.
pub uninterp spec fn debug_quoted(s: Seq<char>) -> Seq<char>;

/// `format!("{:?}", s)` for a string slice.
#[verifier::external_body]
pub(crate) fn debug_str(s: &str) -> (r: String)
    ensures
        r@ == debug_quoted(s@),
{
    format!("{:?}", s)
}

/// Index of the first position where `a` and `b` differ, or the length of the
/// shorter one when one is a prefix of the other.
pub open spec fn first_difference(a: Seq<u8>, b: Seq<u8>) -> nat
    decreases a.len(),
{
    if a.len() == 0 || b.len() == 0 || a[0] != b[0] {
        0
    } else {
        1 + first_difference(a.drop_first(), b.drop_first())
    }
}

/// Index of the first `\n` of `s`, or its length.
pub open spec fn newline_index(s: Seq<char>) -> nat
    decreases s.len(),
{
    if s.len() == 0 || s[0] == '\n' {
        0
    } else {
        1 + newline_index(s.drop_first())
    }
}

/// The lines of `s` as `str::lines` yields them: split after each `\n`, the
/// `\n` and a `\r` right before it removed, no empty line after a final `\n`.
pub open spec fn text_lines(s: Seq<char>) -> Seq<Seq<char>>
    decreases s.len(),
{
    if s.len() == 0 {
        Seq::empty()
    } else {
        let k = newline_index(s);
        if k >= s.len() {
            seq![s]
        } else {
            let line = s.take(k as int);
            let line = if line.len() > 0 && line.last() == '\r' {
                line.drop_last()
            } else {
                line
            };
            seq![line] + text_lines(s.skip(k + 1int))
        }
    }
}

/// The first pair of lines that differ, as `first_different_line` reports it.
pub open spec fn line_pair(a: Seq<Seq<char>>, b: Seq<Seq<char>>) -> (Seq<char>, Seq<char>)
    decreases a.len(),
{
    if a.len() > 0 && b.len() > 0 {
        if a[0] == b[0] {
            line_pair(a.drop_first(), b.drop_first())
        } else {
            (a[0], b[0])
        }
    } else if a.len() > 0 {
        (a[0], "<end-of-stream>"@)
    } else if b.len() > 0 {
        ("<end-of-stream>"@, b[0])
    } else {
        ("<identical-text>"@, "<identical-text>"@)
    }
}

/// The first differing lines of two texts.
pub open spec fn different_lines(left: Seq<char>, right: Seq<char>) -> (Seq<char>, Seq<char>) {
    line_pair(text_lines(left), text_lines(right))
}

/// Start of the hexadecimal context shown around position `pos`: sixteen
/// digits earlier, on an even position.
pub open spec fn context_start(pos: nat) -> nat {
    let s: nat = if pos >= 16 {
        (pos - 16) as nat
    } else {
        0
    };
    (s - s % 2) as nat
}

/// End of the context shown around `pos` in a text of `len` digits.
pub open spec fn context_end(pos: nat, len: nat) -> nat {
    if pos + 18 <= len {
        pos + 18
    } else {
        len
    }
}

/// The description of the first difference between two hexadecimal dumps.
pub open spec fn byte_difference_text(
    rust_hex: Seq<u8>,
    cpp_hex: Seq<u8>,
    rust_text: Seq<char>,
    cpp_text: Seq<char>,
) -> Seq<char> {
    let pos = first_difference(rust_hex, cpp_hex);
    let start = context_start(pos);
    let lines = different_lines(rust_text, cpp_text);
    "first differing byte offset "@ + decimal(pos / 2) + "; rust hex="@ + lossy_utf8(
        rust_hex.subrange(start as int, context_end(pos, rust_hex.len()) as int),
    ) + "; cpp hex="@ + lossy_utf8(
        cpp_hex.subrange(start as int, context_end(pos, cpp_hex.len()) as int),
    ) + "; rust line="@ + debug_quoted(lines.0) + "; cpp line="@ + debug_quoted(lines.1)
}

/// The (normalized path, content) pairs of side effects, in order.
pub open spec fn side_effect_keys(effects: Seq<SideEffectArtifact>) -> Seq<(Seq<char>, Seq<char>)> {
    effects.map_values(|e: SideEffectArtifact| (e.normalized_path@, e.content_hex@))
}

/// The Debug rendering of a list of strings: `["a", "b"]`.
pub open spec fn debug_list(items: Seq<Seq<char>>) -> Seq<char> {
    "["@ + joined(items.map_values(|s: Seq<char>| debug_quoted(s)), ", "@) + "]"@
}

/// Index of the first side effect of `cpp` with normalized path `path`.
pub open spec fn first_with_path(cpp: Seq<SideEffectArtifact>, path: Seq<char>) -> Option<int>
    decreases cpp.len(),
{
    if cpp.len() == 0 {
        None
    } else if cpp[0].normalized_path@ == path {
        Some(0)
    } else {
        match first_with_path(cpp.drop_first(), path) {
            Some(i) => Some(i + 1),
            None => None,
        }
    }
}

/// The content-difference note for the first `n` side effects of `rust`.
pub open spec fn content_difference(
    rust: Seq<SideEffectArtifact>,
    cpp: Seq<SideEffectArtifact>,
    n: int,
) -> Option<Seq<char>>
    decreases n,
{
    if n <= 0 {
        None
    } else {
        match content_difference(rust, cpp, n - 1) {
            Some(note) => Some(note),
            None => {
                let r = rust[n - 1];
                match first_with_path(cpp, r.normalized_path@) {
                    Some(j) => if cpp[j].content_hex@ != r.content_hex@ {
                        Some(
                            "first content difference: "@ + r.normalized_path@ + " at byte "@
                                + decimal(
                                first_difference(
                                    encode_utf8(r.content_hex@),
                                    encode_utf8(cpp[j].content_hex@),
                                ) / 2,
                            ),
                        )
                    } else {
                        None
                    },
                    None => None,
                }
            },
        }
    }
}

/// The description of differing side effects.
pub open spec fn side_effect_difference_text(
    rust: Seq<SideEffectArtifact>,
    cpp: Seq<SideEffectArtifact>,
) -> Seq<char> {
    "rust files="@ + debug_list(
        rust.map_values(|e: SideEffectArtifact| e.normalized_path@),
    ) + "; cpp files="@ + debug_list(cpp.map_values(|e: SideEffectArtifact| e.normalized_path@))
        + "; "@ + match content_difference(rust, cpp, rust.len() as int) {
        Some(note) => note,
        None => "file sets differ"@,
    }
}

/// Index of the first difference between `a` and `b` (or the shorter length).
fn first_difference_index(a: &[u8], b: &[u8]) -> (r: usize)
    ensures
        r == first_difference(a@, b@),
        r <= a@.len(),
        r <= b@.len(),
{
    let n = a.len();
    let m = b.len();
    let mut i: usize = 0;
    proof {
        assert(a@.skip(0) =~= a@);
        assert(b@.skip(0) =~= b@);
    }
    while i < n && i < m && a[i] == b[i]
        invariant
            n == a@.len(),
            m == b@.len(),
            i <= n,
            i <= m,
            first_difference(a@, b@) == i + first_difference(a@.skip(i as int), b@.skip(i as int)),
        decreases n - i,
    {
        proof {
            assert(a@.skip(i as int).drop_first() =~= a@.skip(i + 1));
            assert(b@.skip(i as int).drop_first() =~= b@.skip(i + 1));
            assert(a@.skip(i as int)[0] == a@[i as int]);
            assert(b@.skip(i as int)[0] == b@[i as int]);
        }
        i += 1;
    }
    proof {
        if i < n && i < m {
            assert(a@.skip(i as int)[0] == a@[i as int]);
            assert(b@.skip(i as int)[0] == b@[i as int]);
        }
    }
    i
}

/// Bytes `s[from..to]`.
fn byte_range(s: &[u8], from: usize, to: usize) -> (r: Vec<u8>)
    requires
        from <= to <= s@.len(),
    ensures
        r@ == s@.subrange(from as int, to as int),
{
    let mut out: Vec<u8> = Vec::new();
    let mut i = from;
    while i < to
        invariant
            from <= i <= to,
            to <= s@.len(),
            out@ == s@.subrange(from as int, i as int),
        decreases to - i,
    {
        out.push(s[i]);
        proof {
            assert(s@.subrange(from as int, i + 1) =~= s@.subrange(from as int, i as int).push(s@[i as int]));
        }
        i += 1;
    }
    out
}

proof fn lemma_newline_index(s: Seq<char>)
    ensures
        newline_index(s) <= s.len(),
        newline_index(s) < s.len() ==> s[newline_index(s) as int] == '\n',
        forall|i: int| 0 <= i < newline_index(s) ==> s[i] != '\n',
    decreases s.len(),
{
    if s.len() > 0 && s[0] != '\n' {
        lemma_newline_index(s.drop_first());
        assert forall|i: int| 0 <= i < newline_index(s) implies s[i] != '\n' by {
            if i > 0 {
                assert(s[i] == s.drop_first()[i - 1]);
            }
        }
    }
}

proof fn lemma_newline_index_unique(s: Seq<char>, k: int)
    requires
        0 <= k <= s.len(),
        k < s.len() ==> s[k] == '\n',
        forall|i: int| 0 <= i < k ==> s[i] != '\n',
    ensures
        newline_index(s) == k,
    decreases s.len(),
{
    if s.len() > 0 && s[0] != '\n' {
        assert forall|i: int| 0 <= i < k - 1 implies s.drop_first()[i] != '\n' by {
            assert(s.drop_first()[i] == s[i + 1]);
        }
        if k - 1 < s.drop_first().len() {
            assert(s.drop_first()[k - 1] == s[k]);
        }
        lemma_newline_index_unique(s.drop_first(), k - 1);
    }
}

/// The lines of `text`, as `str::lines` yields them.
pub fn split_lines(text: &str) -> (r: Vec<Vec<char>>)
    ensures
        char_views(r@) == text_lines(text@),
{
    let chars = chars_of(text);
    let n = chars.len();
    let mut lines: Vec<Vec<char>> = Vec::new();
    let mut start: usize = 0;
    proof {
        assert(chars@.skip(0) =~= chars@);
    }
    while start < n
        invariant
            n == chars@.len(),
            chars@ == text@,
            start <= n,
            char_views(lines@) + text_lines(chars@.skip(start as int)) == text_lines(
                text@,
            ),
        decreases n - start,
    {
        let ghost rest = chars@.skip(start as int);
        let mut end = start;
        while end < n && chars[end] != '\n'
            invariant
                n == chars@.len(),
                start <= end <= n,
                forall|j: int| start <= j < end ==> chars@[j] != '\n',
            decreases n - end,
        {
            end += 1;
        }
        proof {
            assert forall|j: int| 0 <= j < end - start implies rest[j] != '\n' by {
                assert(rest[j] == chars@[start + j]);
            }
            if end < n {
                assert(rest[end - start] == chars@[end as int]);
            }
            lemma_newline_index_unique(rest, end - start);
        }
        let mut line: Vec<char> = Vec::new();
        let mut j = start;
        while j < end
            invariant
                start <= j <= end,
                end <= n,
                n == chars@.len(),
                line@ == chars@.subrange(start as int, j as int),
            decreases end - j,
        {
            line.push(chars[j]);
            proof {
                assert(chars@.subrange(start as int, j + 1) =~= chars@.subrange(start as int, j as int).push(chars@[j as int]));
            }
            j += 1;
        }
        let ghost before = char_views(lines@);
        proof {
            assert(rest.take((end - start) as int) =~= chars@.subrange(start as int, end as int));
        }
        if end < n {
            if line.len() > 0 && line[line.len() - 1] == '\r' {
                line.pop();
            }
            lines.push(line);
            proof {
                assert(rest.skip(end - start + 1) =~= chars@.skip(end + 1));
                assert(char_views(lines@) =~= before.push(lines@.last()@));
            }
            start = end + 1;
        } else {
            lines.push(line);
            proof {
                assert(rest =~= chars@.subrange(start as int, end as int));
                assert(char_views(lines@) =~= before.push(rest));
                assert(chars@.skip(n as int).len() == 0);
            }
            start = n;
        }
    }
    proof {
        assert(chars@.skip(n as int).len() == 0);
        assert(char_views(lines@) + Seq::<Seq<char>>::empty() =~= char_views(lines@));
    }
    lines
}

/// The first pair of differing lines of `left` and `right`, or
/// `<end-of-stream>` for a side that ran out of lines, or `<identical-text>`
/// twice when all lines agree.
pub fn first_different_line(left: &str, right: &str) -> (r: (String, String))
    ensures
        r.0@ == different_lines(left@, right@).0,
        r.1@ == different_lines(left@, right@).1,
{
    let a = split_lines(left);
    let b = split_lines(right);
    let ghost av = char_views(a@);
    let ghost bv = char_views(b@);
    let n = a.len();
    let m = b.len();
    let mut i: usize = 0;
    proof {
        assert(av.skip(0) =~= av);
        assert(bv.skip(0) =~= bv);
    }
    while i < n && i < m
        invariant
            n == a@.len(),
            m == b@.len(),
            av == char_views(a@),
            bv == char_views(b@),
            av == text_lines(left@),
            bv == text_lines(right@),
            i <= n,
            i <= m,
            line_pair(av, bv) == line_pair(av.skip(i as int), bv.skip(i as int)),
        decreases n - i,
    {
        proof {
            assert(av.skip(i as int).len() > 0);
            assert(bv.skip(i as int).len() > 0);
            assert(av.skip(i as int)[0] == a@[i as int]@);
            assert(bv.skip(i as int)[0] == b@[i as int]@);
        }
        if !chars_equal(&a[i], &b[i]) {
            proof {
                assert(line_pair(av.skip(i as int), bv.skip(i as int)) == (a@[i as int]@, b@[i as int]@));
            }
            return (string_from_chars(&a[i]), string_from_chars(&b[i]));
        }
        proof {
            assert(av.skip(i as int).drop_first() =~= av.skip(i + 1));
            assert(bv.skip(i as int).drop_first() =~= bv.skip(i + 1));
        }
        i += 1;
    }
    if i < n {
        proof {
            assert(av.skip(i as int)[0] == a@[i as int]@);
        }
        (string_from_chars(&a[i]), String::from_str("<end-of-stream>"))
    } else if i < m {
        proof {
            assert(bv.skip(i as int)[0] == b@[i as int]@);
        }
        (String::from_str("<end-of-stream>"), string_from_chars(&b[i]))
    } else {
        (String::from_str("<identical-text>"), String::from_str("<identical-text>"))
    }
}

/// Describe the first difference between two hexadecimal dumps and the first
/// differing lines of their texts.
pub fn describe_byte_difference(
    rust_hex: &[u8],
    cpp_hex: &[u8],
    rust_text: &str,
    cpp_text: &str,
) -> (r: String)
    ensures
        r@ == byte_difference_text(rust_hex@, cpp_hex@, rust_text@, cpp_text@),
{
    let pos = first_difference_index(rust_hex, cpp_hex);
    let byte_offset = pos / 2;
    let (rust_line, cpp_line) = first_different_line(rust_text, cpp_text);
    let below = if pos >= 16 {
        pos - 16
    } else {
        0
    };
    let start = below - below % 2;
    let rust_end = if rust_hex.len() - pos >= 18 {
        pos + 18
    } else {
        rust_hex.len()
    };
    let cpp_end = if cpp_hex.len() - pos >= 18 {
        pos + 18
    } else {
        cpp_hex.len()
    };
    let rust_context = lossy_text(byte_range(rust_hex, start, rust_end).as_slice());
    let cpp_context = lossy_text(byte_range(cpp_hex, start, cpp_end).as_slice());
    let mut out = chars_of("first differing byte offset ");
    push_decimal(&mut out, byte_offset as u64);
    push_str_chars(&mut out, "; rust hex=");
    push_str_chars(&mut out, rust_context.as_str());
    push_str_chars(&mut out, "; cpp hex=");
    push_str_chars(&mut out, cpp_context.as_str());
    push_str_chars(&mut out, "; rust line=");
    push_str_chars(&mut out, debug_str(rust_line.as_str()).as_str());
    push_str_chars(&mut out, "; cpp line=");
    push_str_chars(&mut out, debug_str(cpp_line.as_str()).as_str());
    string_from_chars(&out)
}

/// The Debug rendering of the normalized paths of `effects`.
fn debug_path_list(effects: &Vec<SideEffectArtifact>) -> (r: Vec<char>)
    ensures
        r@ == debug_list(effects@.map_values(|e: SideEffectArtifact| e.normalized_path@)),
{
    let ghost items = effects@.map_values(|e: SideEffectArtifact| e.normalized_path@);
    let ghost quoted = items.map_values(|s: Seq<char>| debug_quoted(s));
    let mut body: Vec<char> = Vec::new();
    let n = effects.len();
    let mut k: usize = 0;
    while k < n
        invariant
            n == effects@.len(),
            k <= n,
            items == effects@.map_values(|e: SideEffectArtifact| e.normalized_path@),
            quoted == items.map_values(|s: Seq<char>| debug_quoted(s)),
            body@ == joined(quoted.take(k as int), ", "@),
        decreases n - k,
    {
        if k > 0 {
            push_str_chars(&mut body, ", ");
        }
        let q = debug_str(effects[k].normalized_path.as_str());
        push_str_chars(&mut body, q.as_str());
        proof {
            let t = quoted.take(k + 1);
            assert(t.drop_last() =~= quoted.take(k as int));
            assert(t.last() == debug_quoted(effects@[k as int].normalized_path@));
            if k == 0 {
                assert(t.len() == 1);
                assert(joined(quoted.take(0), ", "@) =~= Seq::<char>::empty());
            }
        }
        k += 1;
    }
    proof {
        assert(quoted.take(n as int) =~= quoted);
    }
    let mut out = chars_of("[");
    push_all(&mut out, &body);
    push_str_chars(&mut out, "]");
    out
}

/// Index of the first side effect of `cpp` whose normalized path equals
/// `path`.
fn find_with_path(cpp: &Vec<SideEffectArtifact>, path: &str) -> (r: Option<usize>)
    ensures
        (r is None) == (first_with_path(cpp@, path@) is None),
        r matches Some(j) ==> first_with_path(cpp@, path@) == Some(j as int),
        r matches Some(j) ==> j < cpp@.len(),
{
    let n = cpp.len();
    let mut i: usize = 0;
    proof {
        assert(cpp@.skip(0) =~= cpp@);
    }
    while i < n
        invariant
            n == cpp@.len(),
            i <= n,
            first_with_path(cpp@, path@) == match first_with_path(cpp@.skip(i as int), path@) {
                Some(j) => Some(j + i),
                None => None::<int>,
            },
        decreases n - i,
    {
        proof {
            assert(cpp@.skip(i as int)[0] == cpp@[i as int]);
            assert(cpp@.skip(i as int).drop_first() =~= cpp@.skip(i + 1));
        }
        if cpp[i].normalized_path == path.to_owned() {
            return Some(i);
        }
        i += 1;
    }
    None
}

/// Describe differing side effects: both lists of normalized paths and the
/// first content difference of a file present on both sides.
pub fn describe_side_effect_difference(
    rust: &Vec<SideEffectArtifact>,
    cpp: &Vec<SideEffectArtifact>,
) -> (r: String)
    ensures
        r@ == side_effect_difference_text(rust@, cpp@),
{
    let mut note: Option<Vec<char>> = None;
    let n = rust.len();
    let mut k: usize = 0;
    while k < n
        invariant
            n == rust@.len(),
            k <= n,
            match content_difference(rust@, cpp@, k as int) {
                Some(t) => note matches Some(v) && v@ == t,
                None => note is None,
            },
        decreases n - k,
    {
        let ghost prev = content_difference(rust@, cpp@, k as int);
        if note.is_none() {
            let r = &rust[k];
            match find_with_path(cpp, r.normalized_path.as_str()) {
                Some(j) => {
                    if !(cpp[j].content_hex == r.content_hex) {
                        let pos = first_difference_index(
                            r.content_hex.as_str().as_bytes(),
                            cpp[j].content_hex.as_str().as_bytes(),
                        );
                        let mut text = chars_of("first content difference: ");
                        push_str_chars(&mut text, r.normalized_path.as_str());
                        push_str_chars(&mut text, " at byte ");
                        push_decimal(&mut text, (pos / 2) as u64);
                        let ghost tv = text@;
                        note = Some(text);
                        proof {
                            assert(rust@[k as int] == *r);
                            assert(cpp@[j as int].content_hex@ != r.content_hex@);
                            assert(tv == "first content difference: "@ + r.normalized_path@ + " at byte "@
                                + decimal(first_difference(encode_utf8(r.content_hex@), encode_utf8(cpp@[j as int].content_hex@)) / 2));
                            assert(content_difference(rust@, cpp@, k + 1) == Some(tv));
                        }
                    } else {
                        proof {
                            assert(rust@[k as int] == *r);
                            assert(content_difference(rust@, cpp@, k + 1) is None);
                        }
                    }
                },
                None => {
                    proof {
                        assert(rust@[k as int] == *r);
                        assert(content_difference(rust@, cpp@, k + 1) is None);
                    }
                },
            }
        } else {
            proof {
                assert(content_difference(rust@, cpp@, k + 1) == prev);
            }
        }
        k += 1;
    }
    let mut out = chars_of("rust files=");
    let rust_paths = debug_path_list(rust);
    push_all(&mut out, &rust_paths);
    push_str_chars(&mut out, "; cpp files=");
    let cpp_paths = debug_path_list(cpp);
    push_all(&mut out, &cpp_paths);
    push_str_chars(&mut out, "; ");
    match note {
        Some(t) => push_all(&mut out, &t),
        None => push_str_chars(&mut out, "file sets differ"),
    }
    string_from_chars(&out)
}

/// Whether two lists of side effects agree on every normalized path and
/// content, in order.
pub fn side_effects_agree(rust: &Vec<SideEffectArtifact>, cpp: &Vec<SideEffectArtifact>) -> (r: bool)
    ensures
        r == (side_effect_keys(rust@) == side_effect_keys(cpp@)),
{
    let n = rust.len();
    if n != cpp.len() {
        proof {
            assert(side_effect_keys(rust@).len() != side_effect_keys(cpp@).len());
        }
        return false;
    }
    let mut i: usize = 0;
    while i < n
        invariant
            n == rust@.len(),
            n == cpp@.len(),
            i <= n,
            forall|j: int| 0 <= j < i ==> side_effect_keys(rust@)[j] == side_effect_keys(cpp@)[j],
        decreases n - i,
    {
        if rust[i].normalized_path != cpp[i].normalized_path || rust[i].content_hex != cpp[i].content_hex {
            proof {
                assert(side_effect_keys(rust@)[i as int] != side_effect_keys(cpp@)[i as int]);
            }
            return false;
        }
        i += 1;
    }
    proof {
        assert(side_effect_keys(rust@) =~= side_effect_keys(cpp@));
    }
    true
}

/// The (normalized path, content) pairs of side effects, in order.
pub fn normalized_side_effects(effects: &Vec<SideEffectArtifact>) -> (r: Vec<(String, String)>)
    ensures
        r@.map_values(|p: (String, String)| (p.0@, p.1@)) == side_effect_keys(effects@),
{
    let mut out: Vec<(String, String)> = Vec::new();
    let n = effects.len();
    let mut i: usize = 0;
    while i < n
        invariant
            n == effects@.len(),
            i <= n,
            out@.map_values(|p: (String, String)| (p.0@, p.1@)) == side_effect_keys(effects@).take(
                i as int,
            ),
        decreases n - i,
    {
        let ghost before = out@.map_values(|p: (String, String)| (p.0@, p.1@));
        out.push((effects[i].normalized_path.clone(), effects[i].content_hex.clone()));
        proof {
            assert(out@.map_values(|p: (String, String)| (p.0@, p.1@)) =~= before.push(
                (effects@[i as int].normalized_path@, effects@[i as int].content_hex@),
            ));
            assert(out@.map_values(|p: (String, String)| (p.0@, p.1@)) =~= side_effect_keys(
                effects@,
            ).take(i + 1));
        }
        i += 1;
    }
    proof {
        assert(side_effect_keys(effects@).take(n as int) =~= side_effect_keys(effects@));
    }
    out
}

/// The comparison artifact that `compare_executions` builds.
pub open spec fn comparison_of(
    case: FixtureCase,
    rust: ExecutionArtifact,
    cpp: ExecutionArtifact,
    c: ComparisonArtifact,
) -> bool {
    let stdout_same = rust.stdout.normalized_hex@ == cpp.stdout.normalized_hex@;
    let stderr_same = rust.stderr.normalized_hex@ == cpp.stderr.normalized_hex@;
    let effects_same = side_effect_keys(rust.side_effects@) == side_effect_keys(cpp.side_effects@);
    &&& c.timeout_equal == (rust.timed_out == cpp.timed_out)
    &&& c.exit_code_equal == (rust.exit_code == cpp.exit_code)
    &&& c.stdout_compared == case.compare_stdout
    &&& c.stdout_equal == if case.compare_stdout {
        Some(stdout_same)
    } else {
        None
    }
    &&& c.stderr_compared == case.compare_stderr
    &&& c.stderr_equal == if case.compare_stderr {
        Some(stderr_same)
    } else {
        None
    }
    &&& c.side_effects_compared == case.compare_side_effects
    &&& c.side_effects_equal == if case.compare_side_effects {
        Some(effects_same)
    } else {
        None
    }
    &&& c.matched == (c.timeout_equal && c.exit_code_equal && (!case.compare_stdout || stdout_same)
        && (!case.compare_stderr || stderr_same) && (!case.compare_side_effects || effects_same))
    &&& match c.stdout_diff {
        Some(d) => case.compare_stdout && !stdout_same && d@ == byte_difference_text(
            encode_utf8(rust.stdout.normalized_hex@),
            encode_utf8(cpp.stdout.normalized_hex@),
            rust.stdout.normalized_lossy_text@,
            cpp.stdout.normalized_lossy_text@,
        ),
        None => !(case.compare_stdout && !stdout_same),
    }
    &&& match c.stderr_diff {
        Some(d) => case.compare_stderr && !stderr_same && d@ == byte_difference_text(
            encode_utf8(rust.stderr.normalized_hex@),
            encode_utf8(cpp.stderr.normalized_hex@),
            rust.stderr.normalized_lossy_text@,
            cpp.stderr.normalized_lossy_text@,
        ),
        None => !(case.compare_stderr && !stderr_same),
    }
    &&& match c.side_effects_diff {
        Some(d) => case.compare_side_effects && !effects_same && d@
            == side_effect_difference_text(rust.side_effects@, cpp.side_effects@),
        None => !(case.compare_side_effects && !effects_same),
    }
}

/// A compared stream is judged on its normalized bytes only: it is equal
/// exactly when the two executions' normalized bytes are equal, whatever
/// their raw bytes, and a difference is described exactly when it is not
/// equal. The comparison matches exactly when timeouts and exit codes agree
/// and every compared stream and the side effects (when compared) are equal.
pub proof fn lemma_comparison_uses_normalized_output(
    case: FixtureCase,
    rust: ExecutionArtifact,
    cpp: ExecutionArtifact,
    c: ComparisonArtifact,
)
    requires
        comparison_of(case, rust, cpp, c),
    ensures
        case.compare_stdout && rust.stdout.normalized_hex@ == cpp.stdout.normalized_hex@ ==> c.stdout_equal
            == Some(true) && c.stdout_diff is None,
        case.compare_stdout && rust.stdout.normalized_hex@ != cpp.stdout.normalized_hex@ ==> c.stdout_equal
            == Some(false) && c.stdout_diff is Some,
        !case.compare_stdout ==> c.stdout_equal is None && c.stdout_diff is None,
        case.compare_stderr && rust.stderr.normalized_hex@ == cpp.stderr.normalized_hex@ ==> c.stderr_equal
            == Some(true) && c.stderr_diff is None,
        case.compare_stderr && rust.stderr.normalized_hex@ != cpp.stderr.normalized_hex@ ==> c.stderr_equal
            == Some(false) && c.stderr_diff is Some,
        !case.compare_stderr ==> c.stderr_equal is None && c.stderr_diff is None,
        c.matched <==> (rust.timed_out == cpp.timed_out && rust.exit_code == cpp.exit_code && (
        !case.compare_stdout || rust.stdout.normalized_hex@ == cpp.stdout.normalized_hex@) && (
        !case.compare_stderr || rust.stderr.normalized_hex@ == cpp.stderr.normalized_hex@) && (
        !case.compare_side_effects || c.side_effects_equal == Some(true))),
{
}

/// Compare two engines' executions of `case`: timeouts and exit codes always,
/// normalized stdout, stderr and side effects as the case asks, with a
/// description of each compared stream that differs.
pub fn compare_executions(
    case: &FixtureCase,
    rust: &ExecutionArtifact,
    cpp: &ExecutionArtifact,
) -> (r: ComparisonArtifact)
    ensures
        comparison_of(*case, *rust, *cpp, r),
{
    let timeout_equal = rust.timed_out == cpp.timed_out;
    let exit_code_equal = match (rust.exit_code, cpp.exit_code) {
        (Some(a), Some(b)) => a == b,
        (None, None) => true,
        _ => false,
    };
    let stdout_same = rust.stdout.normalized_hex == cpp.stdout.normalized_hex;
    let stderr_same = rust.stderr.normalized_hex == cpp.stderr.normalized_hex;
    let stdout_equal = if case.compare_stdout {
        Some(stdout_same)
    } else {
        None
    };
    let stderr_equal = if case.compare_stderr {
        Some(stderr_same)
    } else {
        None
    };
    let side_effects_equal = if case.compare_side_effects {
        Some(side_effects_agree(&rust.side_effects, &cpp.side_effects))
    } else {
        None
    };
    let matched = timeout_equal && exit_code_equal && match stdout_equal {
        Some(b) => b,
        None => true,
    } && match stderr_equal {
        Some(b) => b,
        None => true,
    } && match side_effects_equal {
        Some(b) => b,
        None => true,
    };
    let stdout_diff = if case.compare_stdout && !stdout_same {
        Some(
            describe_byte_difference(
                rust.stdout.normalized_hex.as_str().as_bytes(),
                cpp.stdout.normalized_hex.as_str().as_bytes(),
                rust.stdout.normalized_lossy_text.as_str(),
                cpp.stdout.normalized_lossy_text.as_str(),
            ),
        )
    } else {
        None
    };
    let stderr_diff = if case.compare_stderr && !stderr_same {
        Some(
            describe_byte_difference(
                rust.stderr.normalized_hex.as_str().as_bytes(),
                cpp.stderr.normalized_hex.as_str().as_bytes(),
                rust.stderr.normalized_lossy_text.as_str(),
                cpp.stderr.normalized_lossy_text.as_str(),
            ),
        )
    } else {
        None
    };
    let side_effects_diff = match side_effects_equal {
        Some(false) => Some(describe_side_effect_difference(&rust.side_effects, &cpp.side_effects)),
        _ => None,
    };
    ComparisonArtifact {
        timeout_equal,
        exit_code_equal,
        stdout_compared: case.compare_stdout,
        stdout_equal,
        stderr_compared: case.compare_stderr,
        stderr_equal,
        side_effects_compared: case.compare_side_effects,
        side_effects_equal,
        matched,
        stdout_diff,
        stderr_diff,
        side_effects_diff,
    }
}

/// The record of one captured stream: raw and normalized lengths, hex dumps
/// and lossy texts.
pub fn byte_artifact(raw: &[u8], normalized: &[u8]) -> (r: ByteArtifact)
    ensures
        r.byte_length == raw@.len(),
        r.hex@ == hex_text(raw@),
        r.lossy_text@ == lossy_utf8(raw@),
        r.normalized_byte_length == normalized@.len(),
        r.normalized_hex@ == hex_text(normalized@),
        r.normalized_lossy_text@ == lossy_utf8(normalized@),
{
    ByteArtifact {
        byte_length: raw.len(),
        hex: string_from_chars(&hex_chars(raw)),
        lossy_text: lossy_text(raw),
        normalized_byte_length: normalized.len(),
        normalized_hex: string_from_chars(&hex_chars(normalized)),
        normalized_lossy_text: lossy_text(normalized),
    }
}

} // verus!
