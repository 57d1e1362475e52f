//! Alternate object directories: the `info/alternates` file of an object directory lists
//! other object directories to read objects from, one per line. Resolving them follows each
//! listed directory's own alternates and stops at a cycle.
use vstd::prelude::*;
use crate::bytes::{split, views, to_vec, list_contains};

verus! {

/// The byte that the escape `\c` stands for, if `c` names one.
pub open spec fn escaped(c: u8) -> Option<u8> {
    if c == 110u8 { Some(10u8) }
    else if c == 114u8 { Some(13u8) }
    else if c == 116u8 { Some(9u8) }
    else if c == 97u8 { Some(7u8) }
    else if c == 98u8 { Some(8u8) }
    else if c == 102u8 { Some(12u8) }
    else if c == 118u8 { Some(11u8) }
    else if c == 92u8 { Some(92u8) }
    else if c == 34u8 { Some(34u8) }
    else { None }
}

/// `c` is an octal digit.
pub open spec fn is_octal(c: u8) -> bool {
    48u8 <= c <= 55u8
}

/// `a` before what `o` holds, if it holds anything.
pub open spec fn prepend(a: Seq<u8>, o: Option<Seq<u8>>) -> Option<Seq<u8>> {
    match o {
        Some(x) => Some(a + x),
        None => None,
    }
}

/// The bytes of a quoted string from position `i` to its closing quote, with escapes undone:
/// `\n \r \t \a \b \f \v \\ \"` and three octal digits up to `\377`. Fails without a closing
/// quote or on another escape.
pub open spec fn unquote_from(s: Seq<u8>, i: int) -> Option<Seq<u8>>
    decreases s.len() - i,
{
    if i >= s.len() || i < 0 {
        None
    } else if s[i] == 34u8 {
        Some(seq![])
    } else if s[i] != 92u8 {
        prepend(seq![s[i]], unquote_from(s, i + 1))
    } else if i + 1 >= s.len() {
        None
    } else if escaped(s[i + 1]) is Some {
        prepend(seq![escaped(s[i + 1])->Some_0], unquote_from(s, i + 2))
    } else if i + 3 < s.len() && is_octal(s[i + 1]) && is_octal(s[i + 2]) && is_octal(s[i + 3])
        && (s[i + 1] - 48) * 64 + (s[i + 2] - 48) * 8 + (s[i + 3] - 48) <= 255 {
        prepend(seq![((s[i + 1] - 48) * 64 + (s[i + 2] - 48) * 8 + (s[i + 3] - 48)) as u8], unquote_from(s, i + 4))
    } else {
        None
    }
}

/// The path a line of the alternates file names: a quoted line unquoted, any other as it is.
pub open spec fn line_path(line: Seq<u8>) -> Option<Seq<u8>> {
    if line.len() > 0 && line[0] == 34u8 {
        unquote_from(line, 1)
    } else {
        Some(line)
    }
}

/// A line that names no path: empty, or a comment.
pub open spec fn skipped(line: Seq<u8>) -> bool {
    line.len() == 0 || line[0] == 35u8
}

/// The paths of the lines from the first `n` of `lines`, or `None` if one has bad quoting.
pub open spec fn paths_of(lines: Seq<Seq<u8>>, n: int) -> Option<Seq<Seq<u8>>>
    decreases n,
{
    if n <= 0 {
        Some(seq![])
    } else {
        match paths_of(lines, n - 1) {
            None => None,
            Some(ps) => if skipped(lines[n - 1]) {
                Some(ps)
            } else {
                match line_path(lines[n - 1]) {
                    Some(p) => Some(ps.push(p)),
                    None => None,
                }
            },
        }
    }
}

/// A quoted line of the alternates file whose quoting is broken.
#[derive(Debug, PartialEq, Eq)]
pub struct BadQuoting {
    pub line: Vec<u8>,
}

/// Undo the quoting of `s` from position `i` on, up to the closing quote.
pub fn unquote(s: &[u8], start: usize) -> (r: Option<Vec<u8>>)
    ensures
        match r {
            Some(v) => unquote_from(s@, start as int) == Some(v@),
            None => unquote_from(s@, start as int) is None,
        },
{
    let mut out: Vec<u8> = Vec::new();
    let mut i = start;
    while i < s.len()
        invariant
            start <= i,
            unquote_from(s@, start as int) == prepend(out@, unquote_from(s@, i as int)),
        decreases s@.len() - i,
    {
        let ghost before = out@;
        let c = s[i];
        if c == 34u8 {
            assert(out@ + seq![] =~= out@);
            return Some(out);
        }
        if c != 92u8 {
            out.push(c);
            assert(before + (seq![c] + seq![]) =~= out@ + seq![]);
            proof {
                match unquote_from(s@, i + 1) {
                    Some(x) => assert(before + (seq![c] + x) =~= out@ + x),
                    None => {},
                }
            }
            i = i + 1;
        } else {
            if i + 1 >= s.len() {
                return None;
            }
            let e = s[i + 1];
            let simple: Option<u8> = if e == 110u8 { Some(10u8) } else if e == 114u8 { Some(13u8) }
                else if e == 116u8 { Some(9u8) } else if e == 97u8 { Some(7u8) } else if e == 98u8 { Some(8u8) }
                else if e == 102u8 { Some(12u8) } else if e == 118u8 { Some(11u8) } else if e == 92u8 { Some(92u8) }
                else if e == 34u8 { Some(34u8) } else { None };
            assert(simple == escaped(e));
            match simple {
                Some(b) => {
                    out.push(b);
                    proof {
                        match unquote_from(s@, i + 2) {
                            Some(x) => assert(before + (seq![b] + x) =~= out@ + x),
                            None => {},
                        }
                    }
                    i = i + 2;
                },
                None => {
                    if s.len() - i > 3 && 48u8 <= e && e <= 55u8 && 48u8 <= s[i + 2] && s[i + 2] <= 55u8
                        && 48u8 <= s[i + 3] && s[i + 3] <= 55u8 {
                        let v = (e - 48u8) as u32 * 64 + (s[i + 2] - 48u8) as u32 * 8 + (s[i + 3] - 48u8) as u32;
                        if v > 255 {
                            return None;
                        }
                        out.push(v as u8);
                        proof {
                            match unquote_from(s@, i + 4) {
                                Some(x) => assert(before + (seq![v as u8] + x) =~= out@ + x),
                                None => {},
                            }
                        }
                        i = i + 4;
                    } else {
                        return None;
                    }
                },
            }
        }
    }
    None
}

/// The paths an alternates file lists, in order: every line but empty lines and `#` comments,
/// unquoted if it starts with `"`.
pub fn parse_content(input: &[u8]) -> (r: Result<Vec<Vec<u8>>, BadQuoting>)
    ensures
        match r {
            Ok(v) => paths_of(crate::bytes::pieces(input@, 10u8), crate::bytes::pieces(input@, 10u8).len() as int)
                == Some(views(v@)),
            Err(_) => paths_of(crate::bytes::pieces(input@, 10u8), crate::bytes::pieces(input@, 10u8).len() as int) is None,
        },
{
    let lines = split(input, 10u8);
    let ghost ls = views(lines@);
    assert(ls == crate::bytes::pieces(input@, 10u8));
    let mut out: Vec<Vec<u8>> = Vec::new();
    let mut i: usize = 0;
    assert(views(out@) =~= seq![]);
    while i < lines.len()
        invariant
            i <= lines@.len(),
            ls == views(lines@),
            ls == crate::bytes::pieces(input@, 10u8),
            paths_of(ls, i as int) == Some(views(out@)),
        decreases lines@.len() - i,
    {
        let line = lines[i].as_slice();
        assert(line@ == ls[i as int]);
        let ghost before = views(out@);
        if line.len() == 0 || line[0] == 35u8 {
        } else if line[0] == 34u8 {
            match unquote(line, 1) {
                Some(p) => {
                    out.push(p);
                    assert(views(out@) =~= before.push(out@.last()@));
                },
                None => {
                    assert(!skipped(ls[i as int]));
                    assert(line_path(ls[i as int]) is None);
                    assert(paths_of(ls, i + 1) is None);
                    proof {
                        lemma_paths_none(ls, i + 1, ls.len() as int);
                        assert(paths_of(crate::bytes::pieces(input@, 10u8), crate::bytes::pieces(input@, 10u8).len() as int) is None);
                    }
                    return Err(BadQuoting { line: to_vec(line) });
                },
            }
        } else {
            out.push(to_vec(line));
            assert(views(out@) =~= before.push(line@));
        }
        i = i + 1;
    }
    Ok(out)
}

/// Once a line fails, the lines after it change nothing.
pub proof fn lemma_paths_none(lines: Seq<Seq<u8>>, i: int, n: int)
    requires
        0 <= i <= n,
        paths_of(lines, i) is None,
    ensures
        paths_of(lines, n) is None,
    decreases n - i,
{
    if i < n {
        lemma_paths_none(lines, i + 1, n);
    }
}

/// The state of a resolution: the canonical directories seen, the directories still to read
/// with their depth, and the alternates found so far.
pub struct Resolution {
    pub seen: Vec<Vec<u8>>,
    pub pending: Vec<(usize, Vec<u8>)>,
    pub out: Vec<Vec<u8>>,
}

/// The alternates form a cycle; the directories seen when it showed.
#[derive(Debug, PartialEq, Eq)]
pub struct Cycle {
    pub seen: Vec<Vec<u8>>,
}

/// The canonical form of an alternate given with it.
pub open spec fn canonical_of() -> spec_fn((Vec<u8>, Vec<u8>)) -> Seq<u8> {
    |a: (Vec<u8>, Vec<u8>)| a.1@
}

/// An alternate as a directory pending at `depth`.
pub open spec fn pending_at(depth: usize) -> spec_fn((Vec<u8>, Vec<u8>)) -> (usize, Seq<u8>) {
    |a: (Vec<u8>, Vec<u8>)| (depth, a.0@)
}

/// The contents of a list of pending directories.
pub open spec fn pending_views(p: Seq<(usize, Vec<u8>)>) -> Seq<(usize, Seq<u8>)> {
    p.map_values(|x: (usize, Vec<u8>)| (x.0, x.1@))
}

impl Resolution {
    /// Start from `objects_directory`, whose canonical form is `canonical`.
    pub fn new(objects_directory: Vec<u8>, canonical: Vec<u8>) -> (r: Resolution)
        ensures
            views(r.seen@) == seq![canonical@],
            pending_views(r.pending@) == seq![(0usize, objects_directory@)],
            r.out@.len() == 0,
    {
        let mut seen: Vec<Vec<u8>> = Vec::new();
        let ghost c = canonical@;
        seen.push(canonical);
        let mut pending: Vec<(usize, Vec<u8>)> = Vec::new();
        let ghost d = objects_directory@;
        pending.push((0, objects_directory));
        assert(views(seen@) =~= seq![c]);
        assert(pending_views(pending@) =~= seq![(0usize, d)]);
        Resolution { seen, pending, out: Vec::new() }
    }

    /// The next directory whose alternates are to be read, last found first.
    pub fn next(&mut self) -> (r: Option<(usize, Vec<u8>)>)
        ensures
            old(self).pending@.len() == 0 ==> r is None && final(self).pending@ == old(self).pending@,
            old(self).pending@.len() > 0 ==> r is Some && (r->Some_0.0, r->Some_0.1@) == pending_views(old(self).pending@).last()
                && pending_views(final(self).pending@) == pending_views(old(self).pending@).drop_last(),
            final(self).seen == old(self).seen,
            final(self).out == old(self).out,
    {
        let ghost before = self.pending@;
        let r = self.pending.pop();
        proof {
            if before.len() > 0 {
                assert(pending_views(self.pending@) =~= pending_views(before).drop_last());
            }
        }
        r
    }

    /// Record what directory `dir`, read at `depth`, lists: each alternate as given and in its
    /// canonical form (none if it has no alternates file). Fails on the first canonical form
    /// seen before; otherwise each is seen and pending one level deeper, and `dir` is an
    /// alternate found unless it is the start.
    pub fn found(&mut self, depth: usize, dir: Vec<u8>, alternates: Vec<(Vec<u8>, Vec<u8>)>) -> (r: Result<(), Cycle>)
        requires
            depth < usize::MAX,
        ensures
            r is Ok <==> forall|i: int| 0 <= i < alternates@.len() ==>
                !(views(old(self).seen@) + alternates@.subrange(0, i).map_values(canonical_of())).contains(#[trigger] alternates@[i].1@),
            r matches Err(c) ==> exists|i: int| 0 <= i < alternates@.len()
                && views(c.seen@) == views(old(self).seen@) + alternates@.subrange(0, i).map_values(canonical_of())
                && views(c.seen@).contains(alternates@[i].1@),
            r is Ok ==> views(final(self).seen@) == views(old(self).seen@) + alternates@.map_values(canonical_of())
                && pending_views(final(self).pending@) == pending_views(old(self).pending@)
                    + alternates@.map_values(pending_at((depth + 1) as usize))
                && views(final(self).out@) == if depth != 0 { views(old(self).out@).push(dir@) } else { views(old(self).out@) },
    {
        let ghost seen0 = views(self.seen@);
        let ghost pend0 = pending_views(self.pending@);
        let ghost alts = alternates@;
        let mut i: usize = 0;
        let n = alternates.len();
        let mut rest: Vec<(Vec<u8>, Vec<u8>)> = alternates;
        let mut taken: Vec<(Vec<u8>, Vec<u8>)> = Vec::new();
        while i < n
            invariant
                n == alts.len(),
                alts == alternates@,
                seen0 == views(old(self).seen@),
                pend0 == pending_views(old(self).pending@),
                i <= n,
                rest@ == alts.subrange(i as int, n as int),
                views(self.seen@) == seen0 + alts.subrange(0, i as int).map_values(canonical_of()),
                pending_views(self.pending@) == pend0 + alts.subrange(0, i as int).map_values(pending_at((depth + 1) as usize)),
                self.out == old(self).out,
                depth < usize::MAX,
                forall|k: int| 0 <= k < i ==>
                    !(seen0 + alts.subrange(0, k).map_values(canonical_of())).contains(#[trigger] alts[k].1@),
            decreases n - i,
        {
            let (path, canonical) = rest.remove(0);
            assert((path, canonical) == alts[i as int]);
            assert(rest@ =~= alts.subrange(i + 1, n as int));
            assert(alts.subrange(0, i + 1).map_values(canonical_of())
                =~= alts.subrange(0, i as int).map_values(canonical_of()).push(canonical@));
            assert(alts.subrange(0, i + 1).map_values(pending_at((depth + 1) as usize))
                =~= alts.subrange(0, i as int).map_values(pending_at((depth + 1) as usize)).push(((depth + 1) as usize, path@)));
            if list_contains(&self.seen, canonical.as_slice()) {
                assert((seen0 + alts.subrange(0, i as int).map_values(canonical_of())).contains(alts[i as int].1@));
                let mut seen: Vec<Vec<u8>> = Vec::new();
                std::mem::swap(&mut seen, &mut self.seen);
                return Err(Cycle { seen });
            }
            let ghost s_before = views(self.seen@);
            let ghost p_before = pending_views(self.pending@);
            let ghost cv = canonical@;
            let ghost pv = path@;
            self.seen.push(canonical);
            self.pending.push((depth + 1, path));
            assert(views(self.seen@) =~= s_before.push(cv));
            assert(pending_views(self.pending@) =~= p_before.push(((depth + 1) as usize, pv)));
            i = i + 1;
        }
        assert(alts.subrange(0, n as int) =~= alts);
        if depth != 0 {
            let ghost o = views(self.out@);
            let ghost dv = dir@;
            self.out.push(dir);
            assert(views(self.out@) =~= o.push(dv));
        }
        Ok(())
    }
}

} // verus!
