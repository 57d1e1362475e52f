//! Small helpers on byte strings shared by the parsers of this crate.
use vstd::prelude::*;

verus! {

/// `a` and `b` hold the same bytes.
pub fn bytes_eq(a: &[u8], b: &[u8]) -> (r: bool)
    ensures
        r == (a@ == b@),
{
    if a.len() != b.len() {
        return false;
    }
    let mut i: usize = 0;
    while i < a.len()
        invariant
            a@.len() == b@.len(),
            i <= a@.len(),
            forall|k: int| 0 <= k < i ==> a@[k] == b@[k],
        decreases a@.len() - i,
    {
        if a[i] != b[i] {
            return false;
        }
        i = i + 1;
    }
    assert(a@ =~= b@);
    true
}

/// `s` begins with `prefix`.
pub open spec fn is_prefix(prefix: Seq<u8>, s: Seq<u8>) -> bool {
    prefix.len() <= s.len() && s.subrange(0, prefix.len() as int) == prefix
}

/// `s` begins with `prefix`.
pub fn starts_with(s: &[u8], prefix: &[u8]) -> (r: bool)
    ensures
        r == is_prefix(prefix@, s@),
{
    if prefix.len() > s.len() {
        return false;
    }
    let mut i: usize = 0;
    while i < prefix.len()
        invariant
            prefix@.len() <= s@.len(),
            i <= prefix@.len(),
            forall|k: int| 0 <= k < i ==> s@[k] == prefix@[k],
        decreases prefix@.len() - i,
    {
        if s[i] != prefix[i] {
            assert(s@.subrange(0, prefix@.len() as int)[i as int] != prefix@[i as int]);
            return false;
        }
        i = i + 1;
    }
    assert(s@.subrange(0, prefix@.len() as int) =~= prefix@);
    true
}

/// A copy of `s` as an owned vector.
pub fn to_vec(s: &[u8]) -> (r: Vec<u8>)
    ensures
        r@ == s@,
{
    let mut r: Vec<u8> = Vec::new();
    let mut i: usize = 0;
    while i < s.len()
        invariant
            i <= s@.len(),
            r@ == s@.subrange(0, i as int),
        decreases s@.len() - i,
    {
        r.push(s[i]);
        i = i + 1;
        assert(r@ =~= s@.subrange(0, i as int));
    }
    assert(r@ =~= s@);
    r
}


/// Index of the first `sep` in `s` at or after `pos`, or `s.len()` if there is none.
pub open spec fn next_sep(s: Seq<u8>, sep: u8, pos: int) -> int
    decreases s.len() - pos,
{
    if pos >= s.len() {
        s.len() as int
    } else if s[pos] == sep {
        pos
    } else {
        next_sep(s, sep, pos + 1)
    }
}

/// The pieces of `s` from `pos` on, each ended by `sep` or by the end of `s`.
/// A final `sep` opens no further piece.
pub open spec fn pieces_from(s: Seq<u8>, sep: u8, pos: int) -> Seq<Seq<u8>>
    decreases s.len() - pos,
{
    if pos >= s.len() || pos < 0 {
        seq![]
    } else {
        let e = next_sep(s, sep, pos);
        if e < pos || e > s.len() {
            seq![]
        } else if e == s.len() {
            seq![s.subrange(pos, e)]
        } else {
            seq![s.subrange(pos, e)] + pieces_from(s, sep, e + 1)
        }
    }
}

/// The pieces of `s` separated by `sep`.
pub open spec fn pieces(s: Seq<u8>, sep: u8) -> Seq<Seq<u8>> {
    pieces_from(s, sep, 0)
}

/// The separator found lies between `pos` and the end, with no separator before it.
pub proof fn lemma_next_sep_bounds(s: Seq<u8>, sep: u8, pos: int)
    requires
        0 <= pos <= s.len(),
    ensures
        pos <= next_sep(s, sep, pos) <= s.len(),
        next_sep(s, sep, pos) < s.len() ==> s[next_sep(s, sep, pos)] == sep,
        forall|k: int| pos <= k < next_sep(s, sep, pos) ==> s[k] != sep,
    decreases s.len() - pos,
{
    if pos < s.len() && s[pos] != sep {
        lemma_next_sep_bounds(s, sep, pos + 1);
    }
}

/// Splitting a suffix of `p + t` is splitting `t` from the same place.
pub proof fn lemma_pieces_shift(p: Seq<u8>, t: Seq<u8>, sep: u8, j: int)
    requires
        0 <= j <= t.len(),
    ensures
        next_sep(p + t, sep, p.len() + j) == p.len() + next_sep(t, sep, j),
        pieces_from(p + t, sep, p.len() + j) == pieces_from(t, sep, j),
    decreases t.len() - j,
{
    let s = p + t;
    if j < t.len() {
        assert(s[p.len() + j] == t[j]);
        lemma_pieces_shift(p, t, sep, j + 1);
        lemma_next_sep_bounds(t, sep, j);
        let e = next_sep(t, sep, j);
        if e < t.len() {
            lemma_pieces_shift(p, t, sep, e + 1);
        }
        assert(s.subrange(p.len() + j, p.len() + e) =~= t.subrange(j, e));
    }
}

/// A piece ended by `sep` comes off the front.
pub proof fn lemma_pieces_front(x: Seq<u8>, t: Seq<u8>, sep: u8)
    requires
        forall|i: int| 0 <= i < x.len() ==> #[trigger] x[i] != sep,
    ensures
        pieces(x.push(sep) + t, sep) == seq![x] + pieces(t, sep),
{
    let s = x.push(sep) + t;
    assert forall|k: int| 0 <= k <= x.len() implies next_sep(s, sep, k) == x.len() by {
        lemma_next_sep_to(s, sep, k, x.len() as int);
    }
    lemma_pieces_shift(x.push(sep), t, sep, 0);
    assert(s.subrange(0, x.len() as int) =~= x);
    if t.len() == 0 {
        assert(pieces_from(t, sep, 0) =~= seq![]);
    }
}

/// With no separator from `k` up to `e`, where one is, the separator found from `k` is at `e`.
pub proof fn lemma_next_sep_to(s: Seq<u8>, sep: u8, k: int, e: int)
    requires
        0 <= k <= e < s.len(),
        s[e] == sep,
        forall|i: int| k <= i < e ==> s[i] != sep,
    ensures
        next_sep(s, sep, k) == e,
    decreases e - k,
{
    if k < e {
        lemma_next_sep_to(s, sep, k + 1, e);
    }
}

/// The contents of a vector of byte strings.
pub open spec fn views(v: Seq<Vec<u8>>) -> Seq<Seq<u8>> {
    v.map_values(|x: Vec<u8>| x@)
}

/// A copy of `s[from..to]`.
pub fn copy_range(s: &[u8], from: usize, to: usize) -> (r: Vec<u8>)
    requires
        from <= to <= s@.len(),
    ensures
        r@ == s@.subrange(from as int, to as int),
{
    let mut r: Vec<u8> = Vec::new();
    let mut i: usize = from;
    while i < to
        invariant
            from <= i <= to <= s@.len(),
            r@ == s@.subrange(from as int, i as int),
        decreases to - i,
    {
        r.push(s[i]);
        i = i + 1;
        assert(r@ =~= s@.subrange(from as int, i as int));
    }
    r
}

/// Split `s` at each `sep`.
pub fn split(s: &[u8], sep: u8) -> (r: Vec<Vec<u8>>)
    ensures
        views(r@) == pieces(s@, sep),
{
    let mut r: Vec<Vec<u8>> = Vec::new();
    let mut pos: usize = 0;
    if s.len() == 0 {
        assert(views(r@) =~= pieces(s@, sep));
        return r;
    }
    while pos < s.len()
        invariant
            pos <= s@.len(),
            views(r@) + pieces_from(s@, sep, pos as int) == pieces(s@, sep),
        decreases s@.len() - pos,
    {
        let mut e: usize = pos;
        proof {
            lemma_next_sep_bounds(s@, sep, pos as int);
        }
        while e < s.len() && s[e] != sep
            invariant
                pos <= e <= s@.len(),
                next_sep(s@, sep, pos as int) == next_sep(s@, sep, e as int),
            decreases s@.len() - e,
        {
            e = e + 1;
        }
        let piece = copy_range(s, pos, e);
        let ghost old_r = views(r@);
        r.push(piece);
        assert(views(r@) =~= old_r.push(piece@));
        if e == s.len() {
            assert(views(r@) =~= pieces(s@, sep));
            return r;
        }
        assert(pieces_from(s@, sep, pos as int) == seq![s@.subrange(pos as int, e as int)]
            + pieces_from(s@, sep, e + 1));
        let ghost old_pos = pos;
        pos = e + 1;
        assert(views(r@) + pieces_from(s@, sep, pos as int) =~= old_r + pieces_from(s@, sep, old_pos as int));
    }
    assert(pieces_from(s@, sep, pos as int) =~= seq![]);
    assert(views(r@) =~= pieces(s@, sep));
    r
}


/// Some byte string of `list` equals `x`.
pub fn list_contains(list: &Vec<Vec<u8>>, x: &[u8]) -> (r: bool)
    ensures
        r == views(list@).contains(x@),
{
    let mut i: usize = 0;
    while i < list.len()
        invariant
            i <= list@.len(),
            forall|k: int| 0 <= k < i ==> views(list@)[k] != x@,
        decreases list@.len() - i,
    {
        if bytes_eq(list[i].as_slice(), x) {
            assert(views(list@)[i as int] == x@);
            return true;
        }
        i = i + 1;
    }
    false
}

/// Some byte string of `list` is a prefix of `s`.
pub fn any_is_prefix(list: &Vec<Vec<u8>>, s: &[u8]) -> (r: bool)
    ensures
        r == exists|j: int| 0 <= j < list@.len() && is_prefix(#[trigger] views(list@)[j], s@),
{
    let mut i: usize = 0;
    while i < list.len()
        invariant
            i <= list@.len(),
            forall|k: int| 0 <= k < i ==> !is_prefix(#[trigger] views(list@)[k], s@),
        decreases list@.len() - i,
    {
        if starts_with(s, list[i].as_slice()) {
            assert(is_prefix(views(list@)[i as int], s@));
            return true;
        }
        i = i + 1;
    }
    false
}

/// Keep the elements of `s[..i + 1]` that meet `p`: the first `i` filtered, then `s[i]` if it meets `p`.
pub proof fn lemma_filter_step<A>(s: Seq<A>, p: spec_fn(A) -> bool, i: int)
    requires
        0 <= i < s.len(),
    ensures
        s.subrange(0, i + 1).filter(p) == if p(s[i]) {
            s.subrange(0, i).filter(p).push(s[i])
        } else {
            s.subrange(0, i).filter(p)
        },
{
    reveal(Seq::filter);
    assert(s.subrange(0, i + 1).drop_last() =~= s.subrange(0, i));
}

/// The decimal digits of `n`, most significant first, without leading zeros.
pub open spec fn decimal(n: nat) -> Seq<u8>
    decreases n,
{
    if n < 10 {
        seq![(48 + n) as u8]
    } else {
        decimal(n / 10).push((48 + n % 10) as u8)
    }
}

/// The decimal digits of `n`.
pub fn decimal_bytes(n: u64) -> (r: Vec<u8>)
    ensures
        r@ == decimal(n as nat),
    decreases n,
{
    if n < 10 {
        let mut r: Vec<u8> = Vec::new();
        r.push((48 + n) as u8);
        assert(r@ =~= decimal(n as nat));
        r
    } else {
        let mut r = decimal_bytes(n / 10);
        r.push((48 + n % 10) as u8);
        r
    }
}

/// `s` followed by `t`, in place.
pub fn append(out: &mut Vec<u8>, s: &[u8])
    ensures
        final(out)@ == old(out)@ + s@,
{
    let mut i: usize = 0;
    while i < s.len()
        invariant
            i <= s@.len(),
            out@ == old(out)@ + s@.subrange(0, i as int),
        decreases s@.len() - i,
    {
        out.push(s[i]);
        i = i + 1;
        assert(out@ =~= old(out)@ + s@.subrange(0, i as int));
    }
    assert(s@.subrange(0, s@.len() as int) =~= s@);
}

} // verus!
