//! Ordering of Lua strings as raw byte sequences.
//!
//! A Lua string may contain embedded NUL bytes. The reference interpreter
//! compares such strings one NUL-delimited segment at a time, each segment in
//! unsigned byte-lexicographic order, and then decides by the remaining
//! lengths. This module states that rule and implements it.

use vstd::prelude::*;
use std::cmp::Ordering;

verus! {

/// Sign of an `Ordering`: -1, 0 or 1.
pub open spec fn ordering_sign(o: Ordering) -> int {
    match o {
        Ordering::Less => -1,
        Ordering::Equal => 0,
        Ordering::Greater => 1,
    }
}

/// Unsigned byte-lexicographic comparison of two byte sequences: -1, 0 or 1.
pub open spec fn lex_compare(a: Seq<u8>, b: Seq<u8>) -> int
    decreases a.len(),
{
    if a.len() == 0 {
        if b.len() == 0 { 0 } else { -1 }
    } else if b.len() == 0 {
        1
    } else if a[0] < b[0] {
        -1
    } else if a[0] > b[0] {
        1
    } else {
        lex_compare(a.drop_first(), b.drop_first())
    }
}

/// Length of the leading segment of `s`: the index of its first NUL byte, or
/// its whole length when it holds none.
pub open spec fn segment_len(s: Seq<u8>) -> nat
    decreases s.len(),
{
    if s.len() == 0 {
        0
    } else if s[0] == 0 {
        0
    } else {
        1 + segment_len(s.drop_first())
    }
}

/// The Lua ordering of two byte strings: -1, 0 or 1.
///
/// The leading segments are compared lexicographically. When they are equal,
/// a string that ends right after the segment orders before one that goes on
/// (with a NUL); if both end there they are equal; otherwise the comparison
/// continues after the NUL.
pub open spec fn lua_compare(left: Seq<u8>, right: Seq<u8>) -> int
    decreases left.len(),
{
    let n = segment_len(left);
    let m = segment_len(right);
    let order = lex_compare(left.take(n as int), right.take(m as int));
    if order != 0 {
        order
    } else if n == right.len() {
        if n == left.len() { 0 } else { 1 }
    } else if n == left.len() {
        -1
    } else if n < left.len() {
        lua_compare(left.skip(n + 1int), right.skip(n + 1int))
    } else {
        0
    }
}

proof fn lemma_segment_len_bound(s: Seq<u8>)
    ensures
        segment_len(s) <= s.len(),
        segment_len(s) < s.len() ==> s[segment_len(s) as int] == 0,
        forall|i: int| 0 <= i < segment_len(s) ==> s[i] != 0,
    decreases s.len(),
{
    if s.len() > 0 && s[0] != 0 {
        lemma_segment_len_bound(s.drop_first());
        assert forall|i: int| 0 <= i < segment_len(s) implies s[i] != 0 by {
            if i > 0 {
                assert(s[i] == s.drop_first()[i - 1]);
            }
        }
    }
}

proof fn lemma_segment_len_unique(s: Seq<u8>, k: int)
    requires
        0 <= k <= s.len(),
        k < s.len() ==> s[k] == 0,
        forall|i: int| 0 <= i < k ==> s[i] != 0,
    ensures
        segment_len(s) == k,
    decreases s.len(),
{
    if s.len() > 0 && s[0] != 0 {
        assert forall|i: int| 0 <= i < k - 1 implies s.drop_first()[i] != 0 by {
            assert(s.drop_first()[i] == s[i + 1]);
        }
        if k - 1 < s.drop_first().len() {
            assert(s.drop_first()[k - 1] == s[k]);
        }
        lemma_segment_len_unique(s.drop_first(), k - 1);
    }
}

proof fn lemma_lex_compare_step(a: Seq<u8>, b: Seq<u8>, i: int)
    requires
        0 <= i < a.len(),
        i < b.len(),
        a[i] == b[i],
    ensures
        lex_compare(a.skip(i), b.skip(i)) == lex_compare(a.skip(i + 1), b.skip(i + 1)),
{
    assert(a.skip(i).drop_first() =~= a.skip(i + 1));
    assert(b.skip(i).drop_first() =~= b.skip(i + 1));
}

proof fn lemma_lex_compare_sign(a: Seq<u8>, b: Seq<u8>)
    ensures
        -1 <= lex_compare(a, b) <= 1,
        lex_compare(a, b) == 0 ==> a =~= b,
    decreases a.len(),
{
    if a.len() > 0 && b.len() > 0 && a[0] == b[0] {
        lemma_lex_compare_sign(a.drop_first(), b.drop_first());
        if lex_compare(a, b) == 0 {
            assert forall|i: int| 0 <= i < a.len() implies a[i] == b[i] by {
                if i > 0 {
                    assert(a[i] == a.drop_first()[i - 1]);
                    assert(b[i] == b.drop_first()[i - 1]);
                }
            }
        }
    }
}

/// Length of the leading segment of `s[start..]`.
fn segment_length_from(s: &[u8], start: usize) -> (n: usize)
    requires
        start <= s@.len(),
    ensures
        n == segment_len(s@.skip(start as int)),
        start + n <= s@.len(),
{
    let len = s.len();
    let mut i = start;
    while i < len && s[i] != 0
        invariant
            len == s@.len(),
            start <= i <= s@.len(),
            forall|j: int| start <= j < i ==> s@[j] != 0,
        decreases s@.len() - i,
    {
        i += 1;
    }
    proof {
        let t = s@.skip(start as int);
        assert forall|j: int| 0 <= j < i - start implies t[j] != 0 by {
            assert(t[j] == s@[start + j]);
        }
        if i < s@.len() {
            assert(t[i - start] == s@[i as int]);
        }
        lemma_segment_len_unique(t, i - start);
    }
    i - start
}

/// Lexicographic comparison of `a[ao..ao + n]` with `b[bo..bo + m]`.
fn compare_ranges(a: &[u8], ao: usize, n: usize, b: &[u8], bo: usize, m: usize) -> (r: i8)
    requires
        ao + n <= a@.len(),
        bo + m <= b@.len(),
    ensures
        r == lex_compare(
            a@.subrange(ao as int, ao + n),
            b@.subrange(bo as int, bo + m),
        ),
{
    let ghost sa = a@.subrange(ao as int, ao + n);
    let ghost sb = b@.subrange(bo as int, bo + m);
    let alen = a.len();
    let blen = b.len();
    let mut i: usize = 0;
    assert(sa.skip(0) =~= sa);
    assert(sb.skip(0) =~= sb);
    while i < n && i < m
        invariant
            alen == a@.len(),
            blen == b@.len(),
            i <= n,
            i <= m,
            ao + n <= a@.len(),
            bo + m <= b@.len(),
            sa == a@.subrange(ao as int, ao + n),
            sb == b@.subrange(bo as int, bo + m),
            lex_compare(sa, sb) == lex_compare(sa.skip(i as int), sb.skip(i as int)),
        decreases n - i,
    {
        let x = a[ao + i];
        let y = b[bo + i];
        assert(sa[i as int] == x);
        assert(sb[i as int] == y);
        if x < y {
            assert(sa.skip(i as int)[0] == x);
            assert(sb.skip(i as int)[0] == y);
            return -1;
        }
        if x > y {
            assert(sa.skip(i as int)[0] == x);
            assert(sb.skip(i as int)[0] == y);
            return 1;
        }
        proof {
            lemma_lex_compare_step(sa, sb, i as int);
        }
        i += 1;
    }
    if i < m {
        assert(sa.skip(i as int).len() == 0);
        -1
    } else if i < n {
        assert(sb.skip(i as int).len() == 0);
        1
    } else {
        assert(sa.skip(i as int).len() == 0);
        assert(sb.skip(i as int).len() == 0);
        0
    }
}

/// Sign (-1, 0 or 1) of the Lua ordering of `left` and `right`.
fn lua_compare_sign(left: &[u8], right: &[u8]) -> (r: i8)
    ensures
        r == lua_compare(left@, right@),
{
    let llen = left.len();
    let rlen = right.len();
    let mut lo: usize = 0;
    let mut ro: usize = 0;
    assert(left@.skip(0) =~= left@);
    assert(right@.skip(0) =~= right@);
    loop
        invariant
            llen == left@.len(),
            rlen == right@.len(),
            lo <= left@.len(),
            ro <= right@.len(),
            lua_compare(left@, right@) == lua_compare(left@.skip(lo as int), right@.skip(ro as int)),
        decreases left@.len() - lo,
    {
        let ghost l = left@.skip(lo as int);
        let ghost r = right@.skip(ro as int);
        let n = segment_length_from(left, lo);
        let m = segment_length_from(right, ro);
        let order = compare_ranges(left, lo, n, right, ro, m);
        proof {
            assert(l.take(n as int) =~= left@.subrange(lo as int, lo + n));
            assert(r.take(m as int) =~= right@.subrange(ro as int, ro + m));
        }
        if order != 0 {
            return order;
        }
        proof {
            lemma_lex_compare_sign(l.take(n as int), r.take(m as int));
            assert(n == m);
        }
        if ro + n == right.len() {
            if lo + n == left.len() {
                return 0;
            } else {
                return 1;
            }
        }
        if lo + n == left.len() {
            return -1;
        }
        proof {
            assert(l.skip(n + 1) =~= left@.skip(lo + n + 1));
            assert(r.skip(n + 1) =~= right@.skip(ro + n + 1));
        }
        lo = lo + n + 1;
        ro = ro + n + 1;
    }
}

proof fn lemma_lex_compare_antisymmetric(a: Seq<u8>, b: Seq<u8>)
    ensures
        lex_compare(b, a) == -lex_compare(a, b),
    decreases a.len(),
{
    if a.len() > 0 && b.len() > 0 && a[0] == b[0] {
        lemma_lex_compare_antisymmetric(a.drop_first(), b.drop_first());
    }
}

proof fn lemma_lex_compare_transitive(a: Seq<u8>, b: Seq<u8>, c: Seq<u8>)
    requires
        lex_compare(a, b) < 0,
        lex_compare(b, c) < 0,
    ensures
        lex_compare(a, c) < 0,
    decreases a.len(),
{
    if a.len() > 0 && b.len() > 0 && c.len() > 0 && a[0] == b[0] && b[0] == c[0] {
        lemma_lex_compare_transitive(a.drop_first(), b.drop_first(), c.drop_first());
    }
}

proof fn lemma_lex_compare_reflexive(a: Seq<u8>)
    ensures
        lex_compare(a, a) == 0,
    decreases a.len(),
{
    if a.len() > 0 {
        lemma_lex_compare_reflexive(a.drop_first());
    }
}

/// Two byte strings compare equal exactly when they are the same bytes.
pub proof fn lemma_lua_compare_equal(left: Seq<u8>, right: Seq<u8>)
    ensures
        lua_compare(left, right) == 0 <==> left == right,
    decreases left.len(),
{
    let n = segment_len(left);
    let m = segment_len(right);
    lemma_segment_len_bound(left);
    lemma_segment_len_bound(right);
    lemma_lex_compare_sign(left.take(n as int), right.take(m as int));
    if left == right {
        lemma_lex_compare_reflexive(left.take(n as int));
        if n < left.len() {
            lemma_lua_compare_equal(left.skip(n + 1int), right.skip(n + 1int));
        }
    } else if lex_compare(left.take(n as int), right.take(m as int)) == 0 {
        assert(n == m);
        if n < right.len() && n < left.len() {
            lemma_lua_compare_equal(left.skip(n + 1int), right.skip(n + 1int));
            if lua_compare(left, right) == 0 {
                assert(left =~= left.take(n as int) + seq![0u8] + left.skip(n + 1int));
                assert(right =~= right.take(n as int) + seq![0u8] + right.skip(n + 1int));
            }
        } else if n == right.len() && n == left.len() {
            assert(left =~= left.take(n as int));
            assert(right =~= right.take(n as int));
        }
    }
}

/// The ordering is antisymmetric: swapping the operands flips the result.
pub proof fn lemma_lua_compare_antisymmetric(left: Seq<u8>, right: Seq<u8>)
    ensures
        lua_compare(right, left) == -lua_compare(left, right),
    decreases left.len(),
{
    let n = segment_len(left);
    let m = segment_len(right);
    lemma_segment_len_bound(left);
    lemma_segment_len_bound(right);
    lemma_lex_compare_antisymmetric(left.take(n as int), right.take(m as int));
    lemma_lex_compare_sign(left.take(n as int), right.take(m as int));
    if lex_compare(left.take(n as int), right.take(m as int)) == 0 {
        assert(n == m);
        if n < right.len() && n < left.len() {
            lemma_lua_compare_antisymmetric(left.skip(n + 1int), right.skip(n + 1int));
        }
    }
}

/// The ordering is transitive.
pub proof fn lemma_lua_compare_transitive(a: Seq<u8>, b: Seq<u8>, c: Seq<u8>)
    requires
        lua_compare(a, b) < 0,
        lua_compare(b, c) < 0,
    ensures
        lua_compare(a, c) < 0,
    decreases a.len(),
{
    let na = segment_len(a);
    let nb = segment_len(b);
    let nc = segment_len(c);
    lemma_segment_len_bound(a);
    lemma_segment_len_bound(b);
    lemma_segment_len_bound(c);
    let sa = a.take(na as int);
    let sb = b.take(nb as int);
    let sc = c.take(nc as int);
    lemma_lex_compare_sign(sa, sb);
    lemma_lex_compare_sign(sb, sc);
    lemma_lex_compare_sign(sa, sc);
    if lex_compare(sa, sb) < 0 && lex_compare(sb, sc) < 0 {
        lemma_lex_compare_transitive(sa, sb, sc);
    } else if lex_compare(sa, sb) < 0 {
        assert(sb == sc);
    } else if lex_compare(sb, sc) < 0 {
        assert(sa == sb);
    } else {
        assert(sa == sb && sb == sc);
        assert(na == nb && nb == nc);
        lemma_lex_compare_reflexive(sa);
        if na < a.len() && na < b.len() && na < c.len() {
            lemma_lua_compare_transitive(a.skip(na + 1int), b.skip(na + 1int), c.skip(na + 1int));
        }
    }
}

/// Strings without NUL bytes are ordered byte-lexicographically.
pub proof fn lemma_nul_free_is_lexicographic(left: Seq<u8>, right: Seq<u8>)
    requires
        forall|i: int| 0 <= i < left.len() ==> left[i] != 0,
        forall|i: int| 0 <= i < right.len() ==> right[i] != 0,
    ensures
        lua_compare(left, right) == lex_compare(left, right),
{
    lemma_segment_len_unique(left, left.len() as int);
    lemma_segment_len_unique(right, right.len() as int);
    assert(left.take(left.len() as int) =~= left);
    assert(right.take(right.len() as int) =~= right);
    lemma_lex_compare_sign(left, right);
}

/// The segment-by-segment ordering is the unsigned byte-lexicographic order of
/// the whole strings, embedded NULs included: a NUL is the smallest byte, so
/// ending a segment orders a string before any longer segment.
pub proof fn lemma_lua_compare_is_lexicographic(left: Seq<u8>, right: Seq<u8>)
    ensures
        lua_compare(left, right) == lex_compare(left, right),
    decreases left.len(),
{
    let a = left;
    let b = right;
    lemma_segment_len_bound(a);
    lemma_segment_len_bound(b);
    let n = segment_len(a);
    let m = segment_len(b);
    if a.len() == 0 || b.len() == 0 {
        if a.len() == 0 {
            assert(a.take(n as int) =~= Seq::<u8>::empty());
        }
        if b.len() == 0 {
            assert(b.take(m as int) =~= Seq::<u8>::empty());
        }
        if a.len() != 0 && n > 0 {
            assert(a.take(n as int).len() > 0);
        }
        if b.len() != 0 && m > 0 {
            assert(b.take(m as int).len() > 0);
        }
        if a.len() != 0 && n == 0 {
            assert(a.take(n as int) =~= Seq::<u8>::empty());
        }
        if b.len() != 0 && m == 0 {
            assert(b.take(m as int) =~= Seq::<u8>::empty());
        }
        assert(lua_compare(a, b) == lex_compare(a, b));
    } else if a[0] == b[0] {
        let a1 = a.drop_first();
        let b1 = b.drop_first();
        lemma_lua_compare_is_lexicographic(a1, b1);
        if a[0] == 0 {
            assert(n == 0 && m == 0);
            assert(a.take(0) =~= Seq::<u8>::empty());
            assert(b.take(0) =~= Seq::<u8>::empty());
            assert(a.skip(1) =~= a1);
            assert(b.skip(1) =~= b1);
            assert(lua_compare(a, b) == lex_compare(a, b));
        } else {
            let n1 = segment_len(a1);
            let m1 = segment_len(b1);
            assert(n == 1 + n1);
            assert(m == 1 + m1);
            let ta = a.take(n as int);
            let tb = b.take(m as int);
            assert(ta[0] == a[0]);
            assert(tb[0] == b[0]);
            assert(ta.drop_first() =~= a1.take(n1 as int));
            assert(tb.drop_first() =~= b1.take(m1 as int));
            assert(lex_compare(ta, tb) == lex_compare(a1.take(n1 as int), b1.take(m1 as int)));
            lemma_lex_compare_sign(ta, tb);
            if lex_compare(ta, tb) == 0 {
                assert(n == m);
                if n < a.len() && n < b.len() {
                    assert(a.skip(n + 1int) =~= a1.skip(n1 + 1int));
                    assert(b.skip(n + 1int) =~= b1.skip(n1 + 1int));
                    assert(lua_compare(a1, b1) == lua_compare(a1.skip(n1 + 1int), b1.skip(n1 + 1int)));
                    assert(lua_compare(a, b) == lua_compare(a.skip(n + 1int), b.skip(n + 1int)));
                }
            }
            assert(lua_compare(a, b) == lua_compare(a1, b1));
            assert(lex_compare(a, b) == lex_compare(a1, b1));
        }
    } else {
        let ta = a.take(n as int);
        let tb = b.take(m as int);
        if n > 0 {
            assert(ta[0] == a[0]);
        } else {
            assert(ta =~= Seq::<u8>::empty());
        }
        if m > 0 {
            assert(tb[0] == b[0]);
        } else {
            assert(tb =~= Seq::<u8>::empty());
        }
        assert(lua_compare(a, b) == lex_compare(a, b));
    }
}

proof fn lemma_lua_compare_sign(left: Seq<u8>, right: Seq<u8>)
    ensures
        -1 <= lua_compare(left, right) <= 1,
    decreases left.len(),
{
    let n = segment_len(left);
    let m = segment_len(right);
    lemma_lex_compare_sign(left.take(n as int), right.take(m as int));
    lemma_segment_len_bound(left);
    if lex_compare(left.take(n as int), right.take(m as int)) == 0 && n != right.len() && n < left.len() {
        lemma_lua_compare_sign(left.skip(n + 1int), right.skip(n + 1int));
    }
}

/// Compares two Lua strings the way the reference interpreter does: segment by
/// NUL-delimited segment, each in unsigned byte order, then by the remaining
/// lengths; the result is the unsigned byte-lexicographic order of the whole
/// strings.
pub fn compare_lua_string_bytes(left: &[u8], right: &[u8]) -> (r: Ordering)
    ensures
        ordering_sign(r) == lua_compare(left@, right@),
        ordering_sign(r) == lex_compare(left@, right@),
{
    let sign = lua_compare_sign(left, right);
    proof {
        lemma_lua_compare_sign(left@, right@);
        lemma_lua_compare_is_lexicographic(left@, right@);
    }
    if sign < 0 {
        Ordering::Less
    } else if sign == 0 {
        Ordering::Equal
    } else {
        Ordering::Greater
    }
}

} // verus!
