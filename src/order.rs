//! The order in which a claim request lists its devices: by user id, then
//! by device id, each compared character by character.
use vstd::prelude::*;

use crate::collections::DevicePair;

verus! {

/// `a` comes strictly before `b` in lexicographic order of characters.
pub open spec fn chars_lt(a: Seq<char>, b: Seq<char>) -> bool
    decreases a.len(),
{
    if a.len() == 0 {
        b.len() > 0
    } else if b.len() == 0 {
        false
    } else if a[0] != b[0] {
        a[0] < b[0]
    } else {
        chars_lt(a.drop_first(), b.drop_first())
    }
}

/// `p` comes strictly before `q`: by user id, then by device id.
pub open spec fn pair_lt(p: DevicePair, q: DevicePair) -> bool {
    chars_lt(p.0, q.0) || (p.0 == q.0 && chars_lt(p.1, q.1))
}

/// Each pair comes strictly before the ones after it.
pub open spec fn strictly_sorted(s: Seq<DevicePair>) -> bool {
    forall|i: int, j: int| 0 <= i < j < s.len() ==> pair_lt(#[trigger] s[i], #[trigger] s[j])
}

pub proof fn lemma_chars_lt_irreflexive(a: Seq<char>)
    ensures
        !chars_lt(a, a),
    decreases a.len(),
{
    if a.len() > 0 {
        lemma_chars_lt_irreflexive(a.drop_first());
    }
}

pub proof fn lemma_chars_lt_transitive(a: Seq<char>, b: Seq<char>, c: Seq<char>)
    requires
        chars_lt(a, b),
        chars_lt(b, c),
    ensures
        chars_lt(a, c),
    decreases a.len(),
{
    if a.len() > 0 && b.len() > 0 && c.len() > 0 {
        if a[0] == b[0] && b[0] == c[0] {
            lemma_chars_lt_transitive(a.drop_first(), b.drop_first(), c.drop_first());
        }
    }
}

pub proof fn lemma_chars_lt_total(a: Seq<char>, b: Seq<char>)
    ensures
        a == b || chars_lt(a, b) || chars_lt(b, a),
    decreases a.len(),
{
    if a.len() > 0 && b.len() > 0 {
        if a[0] == b[0] {
            lemma_chars_lt_total(a.drop_first(), b.drop_first());
            if a.drop_first() == b.drop_first() {
                assert(a.drop_first().len() == a.len() - 1);
                assert(b.drop_first().len() == b.len() - 1);
                assert(a =~= b) by {
                    assert forall|k: int| 0 <= k < a.len() implies a[k] == b[k] by {
                        if k > 0 {
                            assert(a[k] == a.drop_first()[k - 1]);
                            assert(b[k] == b.drop_first()[k - 1]);
                        }
                    }
                }
            }
        }
    } else if a.len() == 0 && b.len() == 0 {
        assert(a =~= b);
    }
}

pub proof fn lemma_chars_lt_asymmetric(a: Seq<char>, b: Seq<char>)
    requires
        chars_lt(a, b),
    ensures
        !chars_lt(b, a),
{
    if chars_lt(b, a) {
        lemma_chars_lt_transitive(a, b, a);
        lemma_chars_lt_irreflexive(a);
    }
}

/// Ordering pairs is a strict total order.
pub proof fn lemma_pair_lt_order(p: DevicePair, q: DevicePair, r: DevicePair)
    ensures
        !pair_lt(p, p),
        pair_lt(p, q) && pair_lt(q, r) ==> pair_lt(p, r),
        pair_lt(p, q) ==> !pair_lt(q, p),
        p == q || pair_lt(p, q) || pair_lt(q, p),
{
    lemma_chars_lt_irreflexive(p.0);
    lemma_chars_lt_irreflexive(p.1);
    lemma_chars_lt_total(p.0, q.0);
    lemma_chars_lt_total(p.1, q.1);
    if chars_lt(p.0, q.0) {
        lemma_chars_lt_asymmetric(p.0, q.0);
    }
    if chars_lt(q.0, p.0) {
        lemma_chars_lt_asymmetric(q.0, p.0);
    }
    if p.0 == q.0 && chars_lt(p.1, q.1) {
        lemma_chars_lt_asymmetric(p.1, q.1);
    }
    if pair_lt(p, q) && pair_lt(q, r) {
        if chars_lt(p.0, q.0) && chars_lt(q.0, r.0) {
            lemma_chars_lt_transitive(p.0, q.0, r.0);
        }
        if p.0 == q.0 && q.0 == r.0 {
            lemma_chars_lt_transitive(p.1, q.1, r.1);
        }
    }
}

/// Whether `a` comes strictly before `b`.
pub fn chars_less(a: &String, b: &String) -> (r: bool)
    ensures
        r == chars_lt(a@, b@),
{
    let a_str = a.as_str();
    let b_str = b.as_str();
    let a_len = a_str.unicode_len();
    let b_len = b_str.unicode_len();
    let mut i: usize = 0;
    assert(a@.skip(0) =~= a@);
    assert(b@.skip(0) =~= b@);
    while i < a_len && i < b_len
        invariant
            a_len == a@.len(),
            b_len == b@.len(),
            a_str@ == a@,
            b_str@ == b@,
            0 <= i <= a_len,
            i <= b_len,
            chars_lt(a@, b@) == chars_lt(a@.skip(i as int), b@.skip(i as int)),
        decreases a_len - i,
    {
        let x = a_str.get_char(i);
        let y = b_str.get_char(i);
        let ghost sa = a@.skip(i as int);
        let ghost sb = b@.skip(i as int);
        assert(sa[0] == x && sb[0] == y);
        if x != y {
            return x < y;
        }
        assert(sa.drop_first() =~= a@.skip(i + 1));
        assert(sb.drop_first() =~= b@.skip(i + 1));
        i += 1;
    }
    i < b_len
}

/// Whether the pair (`u1`, `d1`) comes strictly before (`u2`, `d2`).
pub fn pair_less(u1: &String, d1: &String, u2: &String, d2: &String) -> (r: bool)
    ensures
        r == pair_lt((u1@, d1@), (u2@, d2@)),
{
    if chars_less(u1, u2) {
        true
    } else if *u1 == *u2 {
        chars_less(d1, d2)
    } else {
        false
    }
}

} // verus!
