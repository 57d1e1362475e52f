//! The lexicographic order of byte strings, by which packed references are sorted.
use vstd::prelude::*;

verus! {

/// `a` sorts strictly before `b`: bytes compare as unsigned numbers, and a proper prefix sorts first.
pub open spec fn lex_lt(a: Seq<u8>, b: Seq<u8>) -> bool
    decreases a.len(),
{
    if a.len() == 0 {
        b.len() > 0
    } else if b.len() == 0 {
        false
    } else if a[0] < b[0] {
        true
    } else if a[0] > b[0] {
        false
    } else {
        lex_lt(a.drop_first(), b.drop_first())
    }
}

/// Nothing sorts before itself.
pub proof fn lemma_lex_irreflexive(a: Seq<u8>)
    ensures
        !lex_lt(a, a),
    decreases a.len(),
{
    if a.len() > 0 {
        lemma_lex_irreflexive(a.drop_first());
    }
}

/// Of two byte strings at most one sorts first.
pub proof fn lemma_lex_asymmetric(a: Seq<u8>, b: Seq<u8>)
    ensures
        lex_lt(a, b) ==> !lex_lt(b, a),
    decreases a.len(),
{
    if a.len() > 0 && b.len() > 0 && a[0] == b[0] {
        lemma_lex_asymmetric(a.drop_first(), b.drop_first());
    }
}

/// Of two different byte strings one sorts first.
pub proof fn lemma_lex_total(a: Seq<u8>, b: Seq<u8>)
    ensures
        a != b ==> lex_lt(a, b) || lex_lt(b, a),
    decreases a.len(),
{
    if a.len() > 0 && b.len() > 0 && a[0] == b[0] {
        lemma_lex_total(a.drop_first(), b.drop_first());
        if a.drop_first() == b.drop_first() {
            assert(a =~= seq![a[0]] + a.drop_first());
            assert(b =~= seq![b[0]] + b.drop_first());
        }
    }
    if a.len() == 0 && b.len() == 0 {
        assert(a =~= b);
    }
}

/// Sorting before is transitive.
pub proof fn lemma_lex_transitive(a: Seq<u8>, b: Seq<u8>, c: Seq<u8>)
    requires
        lex_lt(a, b),
        lex_lt(b, c),
    ensures
        lex_lt(a, c),
    decreases a.len(),
{
    if a.len() > 0 && b.len() > 0 && c.len() > 0 && a[0] == b[0] && b[0] == c[0] {
        lemma_lex_transitive(a.drop_first(), b.drop_first(), c.drop_first());
    }
}

/// Compare two byte strings: negative if `a` sorts first, positive if `b` does, zero if equal.
pub fn compare(a: &[u8], b: &[u8]) -> (r: i8)
    ensures
        (r < 0) == lex_lt(a@, b@),
        (r > 0) == lex_lt(b@, a@),
        (r == 0) == (a@ == b@),
{
    proof {
        lemma_lex_asymmetric(a@, b@);
        lemma_lex_total(a@, b@);
        lemma_lex_irreflexive(a@);
    }
    let mut i: usize = 0;
    assert(a@.subrange(0, a@.len() as int) =~= a@);
    assert(b@.subrange(0, b@.len() as int) =~= b@);
    while i < a.len() && i < b.len()
        invariant
            i <= a@.len(),
            i <= b@.len(),
            forall|k: int| 0 <= k < i ==> a@[k] == b@[k],
            lex_lt(a@, b@) == lex_lt(a@.subrange(i as int, a@.len() as int), b@.subrange(i as int, b@.len() as int)),
            lex_lt(b@, a@) == lex_lt(b@.subrange(i as int, b@.len() as int), a@.subrange(i as int, a@.len() as int)),
        decreases a@.len() - i,
    {
        if a[i] < b[i] {
            return -1;
        }
        if a[i] > b[i] {
            return 1;
        }
        assert(a@.subrange(i as int, a@.len() as int).drop_first() =~= a@.subrange(i + 1, a@.len() as int));
        assert(b@.subrange(i as int, b@.len() as int).drop_first() =~= b@.subrange(i + 1, b@.len() as int));
        i = i + 1;
    }
    if a.len() < b.len() {
        -1
    } else if a.len() > b.len() {
        1
    } else {
        assert(a@ =~= b@);
        0
    }
}

} // verus!
