use vstd::prelude::*;
use vstd::string::StrSliceExecFns;

verus! {

/// Lexicographic order on character sequences, by code point: the empty
/// sequence comes first, otherwise the first characters decide, and equal
/// first characters defer to the remainders.
pub open spec fn lex_le(a: Seq<char>, b: Seq<char>) -> bool
    decreases a.len(),
{
    if a.len() == 0 {
        true
    } else if b.len() == 0 {
        false
    } else if (a[0] as int) < (b[0] as int) {
        true
    } else if (b[0] as int) < (a[0] as int) {
        false
    } else {
        lex_le(a.skip(1), b.skip(1))
    }
}

/// Strict lexicographic order.
pub open spec fn lex_lt(a: Seq<char>, b: Seq<char>) -> bool {
    lex_le(a, b) && a != b
}

/// The order is total: of any two sequences, one is below the other.
pub proof fn lemma_lex_le_total(a: Seq<char>, b: Seq<char>)
    ensures
        lex_le(a, b) || lex_le(b, a),
    decreases a.len(),
{
    if a.len() != 0 && b.len() != 0 && (a[0] as int) == (b[0] as int) {
        lemma_lex_le_total(a.skip(1), b.skip(1));
    }
}

/// The order is antisymmetric: sequences below each other are equal.
pub proof fn lemma_lex_le_antisymmetric(a: Seq<char>, b: Seq<char>)
    requires
        lex_le(a, b),
        lex_le(b, a),
    ensures
        a == b,
    decreases a.len(),
{
    if a.len() == 0 {
        assert(b.len() == 0);
        assert(a =~= b);
    } else {
        assert(b.len() != 0);
        assert((a[0] as int) == (b[0] as int));
        lemma_lex_le_antisymmetric(a.skip(1), b.skip(1));
        assert(a =~= b) by {
            assert(a.skip(1) =~= b.skip(1));
            assert(forall|i: int| 1 <= i < a.len() ==> a[i] == a.skip(1)[i - 1]);
            assert(forall|i: int| 1 <= i < b.len() ==> b[i] == b.skip(1)[i - 1]);
        }
    }
}

/// The order is transitive.
pub proof fn lemma_lex_le_transitive(a: Seq<char>, b: Seq<char>, c: Seq<char>)
    requires
        lex_le(a, b),
        lex_le(b, c),
    ensures
        lex_le(a, c),
    decreases a.len(),
{
    if a.len() != 0 && b.len() != 0 && c.len() != 0 && (a[0] as int) == (b[0] as int) && (b[0]
        as int) == (c[0] as int) {
        lemma_lex_le_transitive(a.skip(1), b.skip(1), c.skip(1));
    }
}

/// A common prefix neither makes nor breaks the comparison.
pub proof fn lemma_lex_le_common_prefix(p: Seq<char>, a: Seq<char>, b: Seq<char>)
    ensures
        lex_le(p + a, p + b) == lex_le(a, b),
    decreases p.len(),
{
    if p.len() == 0 {
        assert(p + a =~= a);
        assert(p + b =~= b);
    } else {
        assert((p + a).len() != 0);
        assert((p + b).len() != 0);
        assert((p + a)[0] == p[0]);
        assert((p + b)[0] == p[0]);
        assert((p + a).skip(1) =~= p.skip(1) + a);
        assert((p + b).skip(1) =~= p.skip(1) + b);
        lemma_lex_le_common_prefix(p.skip(1), a, b);
    }
}

/// A common prefix keeps strict comparisons strict as well.
pub proof fn lemma_lex_lt_common_prefix(p: Seq<char>, a: Seq<char>, b: Seq<char>)
    ensures
        lex_lt(p + a, p + b) == lex_lt(a, b),
{
    lemma_lex_le_common_prefix(p, a, b);
    if a == b {
        assert(p + a == p + b);
    }
    if p + a == p + b {
        assert(a =~= b) by {
            assert(a.len() == b.len());
            assert(forall|i: int| 0 <= i < a.len() ==> a[i] == (p + a)[p.len() + i]);
            assert(forall|i: int| 0 <= i < b.len() ==> b[i] == (p + b)[p.len() + i]);
        }
    }
}

/// Dropping one character splits a sequence at that point.
proof fn lemma_skip_unfold(s: Seq<char>, k: int)
    requires
        0 <= k < s.len(),
    ensures
        s.skip(k) == seq![s[k]] + s.skip(k + 1),
{
    assert(s.skip(k) =~= seq![s[k]] + s.skip(k + 1));
}

/// Compares two strings in the lexicographic order, character by character.
pub fn str_lex_lt(a: &str, b: &str) -> (r: bool)
    ensures
        r == lex_lt(a@, b@),
{
    let a_len = a.unicode_len();
    let b_len = b.unicode_len();
    let mut k: usize = 0;
    proof {
        assert(a@.skip(0) =~= a@);
        assert(b@.skip(0) =~= b@);
    }
    loop
        invariant
            k <= a_len,
            k <= b_len,
            a_len == a@.len(),
            b_len == b@.len(),
            lex_le(a@, b@) == lex_le(a@.skip(k as int), b@.skip(k as int)),
            (a@ == b@) == (a@.skip(k as int) == b@.skip(k as int)),
        decreases a_len - k,
    {
        if k == a_len {
            proof {
                assert(a@.skip(k as int) =~= Seq::<char>::empty());
                if k == b_len {
                    assert(b@.skip(k as int) =~= Seq::<char>::empty());
                    assert(a@.skip(k as int) == b@.skip(k as int));
                }
            }
            return k < b_len;
        }
        if k == b_len {
            proof {
                assert(b@.skip(k as int) =~= Seq::<char>::empty());
                assert(a@.skip(k as int).len() > 0);
            }
            return false;
        }
        let ca = a.get_char(k);
        let cb = b.get_char(k);
        proof {
            assert(a@.skip(k as int)[0] == a@[k as int]);
            assert(b@.skip(k as int)[0] == b@[k as int]);
        }
        if (ca as u32) < (cb as u32) {
            return true;
        }
        if (cb as u32) < (ca as u32) {
            return false;
        }
        proof {
            assert(ca == cb);
            lemma_skip_unfold(a@, k as int);
            lemma_skip_unfold(b@, k as int);
            lemma_lex_le_common_prefix(seq![ca], a@.skip(k as int + 1), b@.skip(k as int + 1));
            if a@.skip(k as int) == b@.skip(k as int) {
                assert(a@.skip(k as int).skip(1) =~= a@.skip(k as int + 1));
                assert(b@.skip(k as int).skip(1) =~= b@.skip(k as int + 1));
            }
        }
        k = k + 1;
    }
}

} // verus!
