//! Sequence and text helpers: conversions between `str`/`String` and
//! character vectors, and verified search-and-replace over bytes and chars.

use vstd::prelude::*;

verus! {

/// The characters of `s`, in order.
///
/// Trusted wrapper around `str::chars` collected into a `Vec`; the contract
/// states only that the vector holds exactly the characters of the string.
#[verifier::external_body]
pub(crate) fn chars_of(s: &str) -> (res: Vec<char>)
    ensures
        res@ == s@,
{
    s.chars().collect()
}

/// A `String` holding exactly the characters of `chars`.
///
/// Trusted wrapper around `String: FromIterator<char>`; the contract states
/// that the resulting string's characters are the vector's characters.
#[verifier::external_body]
pub(crate) fn string_from_chars(chars: &Vec<char>) -> (res: String)
    ensures
        res@ == chars@,
{
    chars.iter().collect()
}

/// Whether `c` has the Unicode `White_Space` property, as `char::is_whitespace`
/// decides it: U+0009 to U+000D, U+0020, U+0085, U+00A0, U+1680, U+2000 to
/// U+200A, U+2028, U+2029, U+202F, U+205F and U+3000.
pub open spec fn is_white_space(c: char) -> bool {
    let u = c as u32;
    ||| 0x9 <= u <= 0xD
    ||| u == 0x20
    ||| u == 0x85
    ||| u == 0xA0
    ||| u == 0x1680
    ||| 0x2000 <= u <= 0x200A
    ||| u == 0x2028
    ||| u == 0x2029
    ||| u == 0x202F
    ||| u == 0x205F
    ||| u == 0x3000
}

/// Trusted wrapper around `char::is_whitespace`, which tests exactly the
/// `White_Space` code points listed at `is_white_space`.
#[verifier::external_body]
pub(crate) fn char_is_whitespace(c: char) -> (r: bool)
    ensures
        r == is_white_space(c),
{
    c.is_whitespace()
}

/// Whether `pat` occurs in `s` at position `i`.
pub open spec fn occurs_at<T>(s: Seq<T>, pat: Seq<T>, i: int) -> bool {
    0 <= i && i + pat.len() <= s.len() && s.subrange(i, i + pat.len()) == pat
}

/// `s` with every non-overlapping occurrence of the non-empty `pat`, found from
/// left to right, replaced by `rep`. An empty `pat` leaves `s` unchanged.
pub open spec fn replace_all<T>(s: Seq<T>, pat: Seq<T>, rep: Seq<T>) -> Seq<T>
    decreases s.len(),
{
    if pat.len() == 0 || s.len() == 0 {
        s
    } else if pat.is_prefix_of(s) {
        rep + replace_all(s.skip(pat.len() as int), pat, rep)
    } else {
        seq![s[0]] + replace_all(s.skip(1), pat, rep)
    }
}

/// Replacing a pattern that occurs nowhere leaves the sequence unchanged.
pub proof fn lemma_replace_all_without_match<T>(s: Seq<T>, pat: Seq<T>, rep: Seq<T>)
    requires
        forall|i: int| !occurs_at(s, pat, i),
    ensures
        replace_all(s, pat, rep) == s,
    decreases s.len(),
{
    if pat.len() > 0 && s.len() > 0 {
        if pat.is_prefix_of(s) {
            assert(s.subrange(0, pat.len() as int) =~= pat);
            assert(occurs_at(s, pat, 0));
        }
        assert forall|i: int| !occurs_at(s.skip(1), pat, i) by {
            if occurs_at(s.skip(1), pat, i) {
                assert(s.skip(1).subrange(i, i + pat.len()) =~= s.subrange(i + 1, i + 1 + pat.len()));
                assert(occurs_at(s, pat, i + 1));
            }
        }
        lemma_replace_all_without_match(s.skip(1), pat, rep);
        assert(s =~= seq![s[0]] + s.skip(1));
    }
}

/// Whether `pat` occurs at `input[at..]`, for bytes.
fn bytes_occur_at(input: &[u8], at: usize, pat: &[u8]) -> (r: bool)
    requires
        at <= input@.len(),
    ensures
        r == pat@.is_prefix_of(input@.skip(at as int)),
{
    let n = input.len();
    let m = pat.len();
    if n - at < m {
        return false;
    }
    let mut k: usize = 0;
    while k < m
        invariant
            n == input@.len(),
            m == pat@.len(),
            at + m <= n,
            k <= m,
            forall|j: int| 0 <= j < k ==> input@[at + j] == pat@[j],
        decreases m - k,
    {
        if input[at + k] != pat[k] {
            proof {
                assert(input@.skip(at as int).subrange(0, m as int)[k as int] == input@[at + k]);
            }
            return false;
        }
        k += 1;
    }
    proof {
        assert(input@.skip(at as int).subrange(0, m as int) =~= pat@);
    }
    true
}

/// Whether `pat` occurs at `input[at..]`, for chars.
pub fn chars_occur_at(input: &Vec<char>, at: usize, pat: &Vec<char>) -> (r: bool)
    requires
        at <= input@.len(),
    ensures
        r == pat@.is_prefix_of(input@.skip(at as int)),
{
    let n = input.len();
    let m = pat.len();
    if n - at < m {
        return false;
    }
    let mut k: usize = 0;
    while k < m
        invariant
            n == input@.len(),
            m == pat@.len(),
            at + m <= n,
            k <= m,
            forall|j: int| 0 <= j < k ==> input@[at + j] == pat@[j],
        decreases m - k,
    {
        if input[at + k] != pat[k] {
            proof {
                assert(input@.skip(at as int).subrange(0, m as int)[k as int] == input@[at + k]);
            }
            return false;
        }
        k += 1;
    }
    proof {
        assert(input@.skip(at as int).subrange(0, m as int) =~= pat@);
    }
    true
}

proof fn lemma_replace_step<T>(s: Seq<T>, pat: Seq<T>, rep: Seq<T>, i: int)
    requires
        0 <= i < s.len(),
        pat.len() > 0,
    ensures
        pat.is_prefix_of(s.skip(i)) ==> i + pat.len() <= s.len() && replace_all(s.skip(i), pat, rep)
            == rep + replace_all(s.skip(i + pat.len()), pat, rep),
        !pat.is_prefix_of(s.skip(i)) ==> replace_all(s.skip(i), pat, rep) == seq![s[i]]
            + replace_all(s.skip(i + 1), pat, rep),
{
    let t = s.skip(i);
    assert(t.len() > 0);
    if pat.is_prefix_of(t) {
        assert(t.skip(pat.len() as int) =~= s.skip(i + pat.len()));
    } else {
        assert(t.skip(1) =~= s.skip(i + 1));
        assert(t[0] == s[i]);
    }
}

/// Replace every non-overlapping occurrence of `pattern` in `input`, from left
/// to right, by `replacement`. An empty pattern leaves the input unchanged.
pub fn replace_bytes(input: &[u8], pattern: &[u8], replacement: &[u8]) -> (r: Vec<u8>)
    ensures
        r@ == replace_all(input@, pattern@, replacement@),
{
    let mut result: Vec<u8> = Vec::new();
    let n = input.len();
    if pattern.len() == 0 {
        let mut i: usize = 0;
        while i < n
            invariant
                n == input@.len(),
                i <= n,
                result@ == input@.take(i as int),
            decreases n - i,
        {
            result.push(input[i]);
            proof {
                assert(input@.take(i + 1) =~= input@.take(i as int).push(input@[i as int]));
            }
            i += 1;
        }
        proof {
            assert(input@.take(n as int) =~= input@);
        }
        return result;
    }
    let mut cursor: usize = 0;
    proof {
        assert(input@.skip(0) =~= input@);
    }
    while cursor < n
        invariant
            n == input@.len(),
            pattern@.len() > 0,
            cursor <= n,
            result@ + replace_all(input@.skip(cursor as int), pattern@, replacement@)
                == replace_all(input@, pattern@, replacement@),
        decreases n - cursor,
    {
        let ghost before = result@;
        proof {
            lemma_replace_step(input@, pattern@, replacement@, cursor as int);
        }
        if bytes_occur_at(input, cursor, pattern) {
            let m = replacement.len();
            let mut k: usize = 0;
            while k < m
                invariant
                    m == replacement@.len(),
                    k <= m,
                    result@ == before + replacement@.take(k as int),
                decreases m - k,
            {
                result.push(replacement[k]);
                proof {
                    assert(replacement@.take(k + 1) =~= replacement@.take(k as int).push(
                        replacement@[k as int],
                    ));
                }
                k += 1;
            }
            proof {
                assert(replacement@.take(m as int) =~= replacement@);
                assert(result@ + replace_all(input@.skip(cursor + pattern@.len()), pattern@, replacement@)
                    =~= before + (replacement@ + replace_all(input@.skip(cursor + pattern@.len()), pattern@, replacement@)));
            }
            cursor = cursor + pattern.len();
        } else {
            result.push(input[cursor]);
            proof {
                assert(result@ + replace_all(input@.skip(cursor + 1), pattern@, replacement@)
                    =~= before + (seq![input@[cursor as int]] + replace_all(input@.skip(cursor + 1), pattern@, replacement@)));
            }
            cursor = cursor + 1;
        }
    }
    proof {
        assert(input@.skip(cursor as int).len() == 0);
        assert(result@ + input@.skip(cursor as int) =~= result@);
    }
    result
}

/// Replace every non-overlapping occurrence of the non-empty `pattern` in
/// `input`, from left to right, by `replacement`.
pub fn replace_chars(input: &Vec<char>, pattern: &Vec<char>, replacement: &Vec<char>) -> (r: Vec<
    char,
>)
    requires
        pattern@.len() > 0,
    ensures
        r@ == replace_all(input@, pattern@, replacement@),
{
    let mut result: Vec<char> = Vec::new();
    let n = input.len();
    let mut cursor: usize = 0;
    proof {
        assert(input@.skip(0) =~= input@);
    }
    while cursor < n
        invariant
            n == input@.len(),
            pattern@.len() > 0,
            cursor <= n,
            result@ + replace_all(input@.skip(cursor as int), pattern@, replacement@)
                == replace_all(input@, pattern@, replacement@),
        decreases n - cursor,
    {
        let ghost before = result@;
        proof {
            lemma_replace_step(input@, pattern@, replacement@, cursor as int);
        }
        if chars_occur_at(input, cursor, pattern) {
            let m = replacement.len();
            let mut k: usize = 0;
            while k < m
                invariant
                    m == replacement@.len(),
                    k <= m,
                    result@ == before + replacement@.take(k as int),
                decreases m - k,
            {
                result.push(replacement[k]);
                proof {
                    assert(replacement@.take(k + 1) =~= replacement@.take(k as int).push(
                        replacement@[k as int],
                    ));
                }
                k += 1;
            }
            proof {
                assert(replacement@.take(m as int) =~= replacement@);
                assert(result@ + replace_all(input@.skip(cursor + pattern@.len()), pattern@, replacement@)
                    =~= before + (replacement@ + replace_all(input@.skip(cursor + pattern@.len()), pattern@, replacement@)));
            }
            cursor = cursor + pattern.len();
        } else {
            result.push(input[cursor]);
            proof {
                assert(result@ + replace_all(input@.skip(cursor + 1), pattern@, replacement@)
                    =~= before + (seq![input@[cursor as int]] + replace_all(input@.skip(cursor + 1), pattern@, replacement@)));
            }
            cursor = cursor + 1;
        }
    }
    proof {
        assert(input@.skip(cursor as int).len() == 0);
        assert(result@ + input@.skip(cursor as int) =~= result@);
    }
    result
}

/// Append the characters of `tail` to `out`.
pub fn push_all(out: &mut Vec<char>, tail: &Vec<char>)
    ensures
        final(out)@ == old(out)@ + tail@,
{
    let n = tail.len();
    let mut k: usize = 0;
    while k < n
        invariant
            n == tail@.len(),
            k <= n,
            out@ == old(out)@ + tail@.take(k as int),
        decreases n - k,
    {
        out.push(tail[k]);
        proof {
            assert(tail@.take(k + 1) =~= tail@.take(k as int).push(tail@[k as int]));
        }
        k += 1;
    }
    proof {
        assert(tail@.take(n as int) =~= tail@);
    }
}

/// Append the characters of `tail` to `out`.
pub fn push_str_chars(out: &mut Vec<char>, tail: &str)
    ensures
        final(out)@ == old(out)@ + tail@,
{
    let t = chars_of(tail);
    push_all(out, &t);
}


/// Decimal digit character for `d` (0 to 9).
pub open spec fn digit_char(d: int) -> char {
    if d == 0 {
        '0'
    } else if d == 1 {
        '1'
    } else if d == 2 {
        '2'
    } else if d == 3 {
        '3'
    } else if d == 4 {
        '4'
    } else if d == 5 {
        '5'
    } else if d == 6 {
        '6'
    } else if d == 7 {
        '7'
    } else if d == 8 {
        '8'
    } else {
        '9'
    }
}

/// Decimal representation of `n`, without leading zeros.
pub open spec fn decimal(n: nat) -> Seq<char>
    decreases n,
{
    if n < 10 {
        seq![digit_char(n as int)]
    } else {
        decimal(n / 10).push(digit_char((n % 10) as int))
    }
}

fn digit(d: u64) -> (c: char)
    requires
        d < 10,
    ensures
        c == digit_char(d as int),
{
    if d == 0 {
        '0'
    } else if d == 1 {
        '1'
    } else if d == 2 {
        '2'
    } else if d == 3 {
        '3'
    } else if d == 4 {
        '4'
    } else if d == 5 {
        '5'
    } else if d == 6 {
        '6'
    } else if d == 7 {
        '7'
    } else if d == 8 {
        '8'
    } else {
        '9'
    }
}

/// Decimal representation of `n`.
pub fn decimal_chars(n: u64) -> (r: Vec<char>)
    ensures
        r@ == decimal(n as nat),
    decreases n,
{
    if n < 10 {
        let mut v = Vec::new();
        v.push(digit(n));
        proof {
            assert(v@ =~= seq![digit_char(n as int)]);
        }
        v
    } else {
        let mut v = decimal_chars(n / 10);
        v.push(digit(n % 10));
        v
    }
}

/// Append the decimal representation of `n` to `out`.
pub fn push_decimal(out: &mut Vec<char>, n: u64)
    ensures
        final(out)@ == old(out)@ + decimal(n as nat),
{
    let d = decimal_chars(n);
    push_all(out, &d);
}

/// Code-point lexicographic order on character sequences (the order of
/// `String`s, whose UTF-8 byte order agrees with code-point order).
pub open spec fn lex_lt(a: Seq<char>, b: Seq<char>) -> bool
    decreases a.len(),
{
    if a.len() == 0 {
        b.len() > 0
    } else if b.len() == 0 {
        false
    } else if (a[0] as u32) < (b[0] as u32) {
        true
    } else if (a[0] as u32) > (b[0] as u32) {
        false
    } else {
        lex_lt(a.drop_first(), b.drop_first())
    }
}

/// Whether two character vectors are equal.
pub fn chars_equal(a: &Vec<char>, b: &Vec<char>) -> (r: bool)
    ensures
        r == (a@ == b@),
{
    let n = a.len();
    if n != b.len() {
        return false;
    }
    let mut i: usize = 0;
    while i < n
        invariant
            n == a@.len(),
            n == b@.len(),
            i <= n,
            forall|j: int| 0 <= j < i ==> a@[j] == b@[j],
        decreases n - i,
    {
        if a[i] != b[i] {
            return false;
        }
        i += 1;
    }
    proof {
        assert(a@ =~= b@);
    }
    true
}

proof fn lemma_lex_lt_step(a: Seq<char>, b: Seq<char>, i: int)
    requires
        0 <= i < a.len(),
        i < b.len(),
        a[i] == b[i],
    ensures
        lex_lt(a.skip(i), b.skip(i)) == lex_lt(a.skip(i + 1), b.skip(i + 1)),
{
    assert(a.skip(i).drop_first() =~= a.skip(i + 1));
    assert(b.skip(i).drop_first() =~= b.skip(i + 1));
}

/// Whether `a` orders strictly before `b` in code-point lexicographic order.
pub fn lex_less(a: &Vec<char>, b: &Vec<char>) -> (r: bool)
    ensures
        r == lex_lt(a@, b@),
{
    let n = a.len();
    let m = b.len();
    let mut i: usize = 0;
    proof {
        assert(a@.skip(0) =~= a@);
        assert(b@.skip(0) =~= b@);
    }
    while i < n && i < m
        invariant
            n == a@.len(),
            m == b@.len(),
            i <= n,
            i <= m,
            lex_lt(a@, b@) == lex_lt(a@.skip(i as int), b@.skip(i as int)),
        decreases n - i,
    {
        let x = a[i];
        let y = b[i];
        proof {
            assert(a@.skip(i as int)[0] == x);
            assert(b@.skip(i as int)[0] == y);
        }
        if x != y {
            proof {
                vstd::utf8::char_u32_cast(x, x as u32);
                vstd::utf8::char_u32_cast(y, y as u32);
            }
            return (x as u32) < (y as u32);
        }
        proof {
            lemma_lex_lt_step(a@, b@, i as int);
        }
        i += 1;
    }
    i < m
}

/// `s` with `x` inserted before the first element that `x` orders before,
/// unless `x` is found first.
pub open spec fn sorted_insert_spec(s: Seq<Seq<char>>, x: Seq<char>) -> Seq<Seq<char>>
    decreases s.len(),
{
    if s.len() == 0 {
        seq![x]
    } else if x == s[0] {
        s
    } else if lex_lt(x, s[0]) {
        seq![x] + s
    } else {
        seq![s[0]] + sorted_insert_spec(s.drop_first(), x)
    }
}

/// No sequence orders before itself.
pub proof fn lemma_lex_lt_irreflexive(a: Seq<char>)
    ensures
        !lex_lt(a, a),
    decreases a.len(),
{
    if a.len() > 0 {
        lemma_lex_lt_irreflexive(a.drop_first());
    }
}

/// The order is transitive.
pub proof fn lemma_lex_lt_transitive(a: Seq<char>, b: Seq<char>, c: Seq<char>)
    requires
        lex_lt(a, b),
        lex_lt(b, c),
    ensures
        lex_lt(a, c),
    decreases a.len(),
{
    if a.len() > 0 && b.len() > 0 && c.len() > 0 && (a[0] as u32) == (b[0] as u32) && (b[0] as u32)
        == (c[0] as u32) {
        lemma_lex_lt_transitive(a.drop_first(), b.drop_first(), c.drop_first());
    }
}

/// Two different sequences are ordered one way or the other, never both.
pub proof fn lemma_lex_lt_total(a: Seq<char>, b: Seq<char>)
    ensures
        a != b ==> (lex_lt(a, b) || lex_lt(b, a)),
        !(lex_lt(a, b) && lex_lt(b, a)),
    decreases a.len(),
{
    if a.len() > 0 && b.len() > 0 {
        vstd::utf8::char_u32_cast(a[0], a[0] as u32);
        vstd::utf8::char_u32_cast(b[0], b[0] as u32);
        lemma_lex_lt_total(a.drop_first(), b.drop_first());
        if (a[0] as u32) == (b[0] as u32) && a != b {
            assert(a[0] == b[0]);
            if a.drop_first() == b.drop_first() {
                assert(a =~= seq![a[0]] + a.drop_first());
                assert(b =~= seq![b[0]] + b.drop_first());
            }
        }
    } else if a.len() == 0 && b.len() == 0 {
        assert(a =~= b);
    }
}

/// Whether `s` is in strictly ascending order.
pub open spec fn strictly_ascending(s: Seq<Seq<char>>) -> bool {
    forall|i: int, j: int| 0 <= i < j < s.len() ==> lex_lt(#[trigger] s[i], #[trigger] s[j])
}

/// Inserting into a strictly ascending sequence keeps it strictly ascending,
/// holds exactly the old elements and `x`, and grows by one exactly when `x`
/// was not there.
pub proof fn lemma_sorted_insert(s: Seq<Seq<char>>, x: Seq<char>)
    requires
        strictly_ascending(s),
    ensures
        strictly_ascending(sorted_insert_spec(s, x)),
        sorted_insert_spec(s, x).contains(x),
        forall|y: Seq<char>| s.contains(y) ==> sorted_insert_spec(s, x).contains(y),
        forall|y: Seq<char>| sorted_insert_spec(s, x).contains(y) ==> y == x || s.contains(y),
        s.contains(x) ==> sorted_insert_spec(s, x).len() == s.len(),
        !s.contains(x) ==> sorted_insert_spec(s, x).len() == s.len() + 1,
    decreases s.len(),
{
    let r = sorted_insert_spec(s, x);
    if s.len() == 0 {
        assert(r[0] == x);
    } else if x == s[0] {
        assert(s[0] == x);
    } else if lex_lt(x, s[0]) {
        assert(r[0] == x);
        assert forall|i: int, j: int| 0 <= i < j < r.len() implies lex_lt(#[trigger] r[i], #[trigger] r[j]) by {
            if i == 0 {
                assert(r[j] == s[j - 1]);
                if j - 1 > 0 {
                    lemma_lex_lt_transitive(x, s[0], s[j - 1]);
                }
            } else {
                assert(r[i] == s[i - 1]);
                assert(r[j] == s[j - 1]);
            }
        }
        assert forall|y: Seq<char>| s.contains(y) implies r.contains(y) by {
            let k = choose|k: int| 0 <= k < s.len() && s[k] == y;
            assert(r[k + 1] == y);
        }
        assert forall|y: Seq<char>| r.contains(y) implies y == x || s.contains(y) by {
            let k = choose|k: int| 0 <= k < r.len() && r[k] == y;
            if k > 0 {
                assert(s[k - 1] == y);
            }
        }
        if s.contains(x) {
            let k = choose|k: int| 0 <= k < s.len() && s[k] == x;
            if k > 0 {
                lemma_lex_lt_transitive(x, s[0], s[k]);
            }
            lemma_lex_lt_irreflexive(x);
        }
    } else {
        let rest = s.drop_first();
        assert forall|i: int, j: int| 0 <= i < j < rest.len() implies lex_lt(#[trigger] rest[i], #[trigger] rest[j]) by {
            assert(rest[i] == s[i + 1]);
            assert(rest[j] == s[j + 1]);
        }
        lemma_sorted_insert(rest, x);
        let t = sorted_insert_spec(rest, x);
        lemma_lex_lt_total(x, s[0]);
        assert(r == seq![s[0]] + t);
        assert forall|i: int, j: int| 0 <= i < j < r.len() implies lex_lt(#[trigger] r[i], #[trigger] r[j]) by {
            if i == 0 {
                assert(r[j] == t[j - 1]);
                assert(t.contains(t[j - 1]));
                if t[j - 1] == x {
                } else {
                    assert(rest.contains(t[j - 1]));
                    let k = choose|k: int| 0 <= k < rest.len() && rest[k] == t[j - 1];
                    assert(s[k + 1] == t[j - 1]);
                }
            } else {
                assert(r[i] == t[i - 1]);
                assert(r[j] == t[j - 1]);
            }
        }
        assert forall|y: Seq<char>| s.contains(y) implies r.contains(y) by {
            let k = choose|k: int| 0 <= k < s.len() && s[k] == y;
            if k == 0 {
                assert(r[0] == y);
            } else {
                assert(rest[k - 1] == y);
                assert(rest.contains(y));
                let m = choose|m: int| 0 <= m < t.len() && t[m] == y;
                assert(r[m + 1] == y);
            }
        }
        assert forall|y: Seq<char>| r.contains(y) implies y == x || s.contains(y) by {
            let k = choose|k: int| 0 <= k < r.len() && r[k] == y;
            if k == 0 {
                assert(s[0] == y);
            } else {
                assert(t[k - 1] == y);
                assert(t.contains(y));
                if y != x {
                    assert(rest.contains(y));
                    let m = choose|m: int| 0 <= m < rest.len() && rest[m] == y;
                    assert(s[m + 1] == y);
                }
            }
        }
        assert(r.contains(x)) by {
            let m = choose|m: int| 0 <= m < t.len() && t[m] == x;
            assert(r[m + 1] == x);
        }
        if s.contains(x) {
            let k = choose|k: int| 0 <= k < s.len() && s[k] == x;
            assert(k != 0);
            assert(rest[k - 1] == x);
            assert(rest.contains(x));
        } else {
            assert forall|k: int| 0 <= k < rest.len() implies rest[k] != x by {
                assert(rest[k] == s[k + 1]);
            }
        }
    }
}

/// The distinct elements of `items` in ascending code-point lexicographic
/// order.
pub open spec fn sorted_distinct(items: Seq<Seq<char>>) -> Seq<Seq<char>>
    decreases items.len(),
{
    if items.len() == 0 {
        Seq::empty()
    } else {
        sorted_insert_spec(sorted_distinct(items.drop_last()), items.last())
    }
}

/// The character sequences held by a vector of character vectors.
pub open spec fn char_views(v: Seq<Vec<char>>) -> Seq<Seq<char>> {
    v.map_values(|x: Vec<char>| x@)
}

/// Insert `x` into `set` as `sorted_insert_spec` describes. Returns whether the
/// set grew.
pub fn sorted_insert(set: &mut Vec<Vec<char>>, x: Vec<char>) -> (r: bool)
    ensures
        char_views(final(set)@) == sorted_insert_spec(char_views(old(set)@), x@),
        r ==> final(set)@.len() == old(set)@.len() + 1,
        !r ==> final(set)@ == old(set)@,
{
    let ghost s = char_views(set@);
    let n = set.len();
    let mut i: usize = 0;
    proof {
        assert(s.skip(0) =~= s);
        assert(s.take(0) + sorted_insert_spec(s.skip(0), x@) =~= sorted_insert_spec(s, x@));
    }
    while i < n
        invariant
            n == set@.len(),
            s == char_views(set@),
            set@ == old(set)@,
            i <= n,
            s.take(i as int) + sorted_insert_spec(s.skip(i as int), x@) == sorted_insert_spec(s, x@),
        decreases n - i,
    {
        assert(s[i as int] == set@[i as int]@);
        if chars_equal(&x, &set[i]) {
            proof {
                assert(s.skip(i as int)[0] == s[i as int]);
                assert(s.take(i as int) + s.skip(i as int) =~= s);
            }
            return false;
        }
        if lex_less(&x, &set[i]) {
            let ghost xv = x@;
            set.insert(i, x);
            proof {
                assert(s.skip(i as int)[0] == s[i as int]);
                assert(char_views(set@) =~= s.take(i as int) + (seq![xv] + s.skip(i as int)));
            }
            return true;
        }
        proof {
            let t = s.skip(i as int);
            assert(t[0] == s[i as int]);
            assert(t.drop_first() =~= s.skip(i + 1));
            assert(s.take(i + 1) =~= s.take(i as int) + seq![s[i as int]]);
        }
        i += 1;
    }
    let ghost xv = x@;
    set.push(x);
    proof {
        assert(s.skip(n as int).len() == 0);
        assert(s.take(n as int) =~= s);
        assert(char_views(set@) =~= s + seq![xv]);
    }
    true
}

} // verus!
