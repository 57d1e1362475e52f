//! Compaction: fold the loose references that a packed table can hold into a new table, drop
//! the entries that deletions hid, and remove the loose references that moved.
use vstd::prelude::*;
use crate::bytes::{is_prefix, starts_with, to_vec, views};
use crate::name::{refs_prefix, REFS};
use crate::packed::{
    insert_sorted, lemma_lookup_matches, packed_lookup, ref_views, refs_lookup, sorted_refs, well_formed, writable,
    Buffer, Reference,
};
use crate::reference::{hex_id, is_hex_id, Target, Value};
use crate::store::{
    check_packed, lemma_lookup_well_formed, lookup, StoreError,
    contains_name, current, lemma_loose_get_at, loose_get, loose_views, store_wf, unique_names,
    LooseRef, Store, StoreView,
};

verus! {

/// A loose reference the packed table can hold: it points at an id in hex, and its name is
/// under `refs/`, which leaves out `HEAD` and the other pseudo references.
pub open spec fn packable(name: Seq<u8>, v: Value) -> bool {
    match v {
        Value::Peeled(id) => is_hex_id(id) && is_prefix(refs_prefix(), name),
        Value::Symbolic(_) => false,
    }
}

/// The id the tag called `n` peels to, from the first entry of `peeled` with that name, if
/// that is an id in hex.
pub open spec fn peel_for(peeled: Seq<(Seq<u8>, Seq<u8>)>, n: Seq<u8>) -> Option<Seq<u8>>
    decreases peeled.len(),
{
    if peeled.len() == 0 {
        None
    } else if peeled[0].0 == n {
        if is_hex_id(peeled[0].1) {
            Some(peeled[0].1)
        } else {
            None
        }
    } else {
        peel_for(peeled.drop_first(), n)
    }
}

/// A peeled id that `peel_for` gives is an id in hex.
pub proof fn lemma_peel_for_hex(peeled: Seq<(Seq<u8>, Seq<u8>)>, n: Seq<u8>)
    ensures
        peel_for(peeled, n) is Some ==> is_hex_id(peel_for(peeled, n)->Some_0),
    decreases peeled.len(),
{
    if peeled.len() > 0 && peeled[0].0 != n {
        lemma_peel_for_hex(peeled.drop_first(), n);
    }
}

/// The contents of a list of peeled ids.
pub open spec fn peel_views(p: Seq<(Vec<u8>, Vec<u8>)>) -> Seq<(Seq<u8>, Seq<u8>)> {
    p.map_values(|x: (Vec<u8>, Vec<u8>)| (x.0@, x.1@))
}

/// The id the tag called `n` peels to, as `peel_for` gives it.
pub fn find_peeled(peeled: &Vec<(Vec<u8>, Vec<u8>)>, n: &[u8]) -> (r: Option<Vec<u8>>)
    ensures
        match r {
            Some(id) => peel_for(peel_views(peeled@), n@) == Some(id@),
            None => peel_for(peel_views(peeled@), n@) is None,
        },
{
    let ghost all = peel_views(peeled@);
    let mut i: usize = 0;
    assert(all.subrange(0, all.len() as int) =~= all);
    while i < peeled.len()
        invariant
            i <= peeled@.len(),
            all == peel_views(peeled@),
            peel_for(all, n@) == peel_for(all.subrange(i as int, all.len() as int), n@),
        decreases peeled@.len() - i,
    {
        let ghost rest = all.subrange(i as int, all.len() as int);
        assert(rest[0] == (peeled@[i as int].0@, peeled@[i as int].1@));
        assert(rest.drop_first() =~= all.subrange(i + 1, all.len() as int));
        if crate::bytes::bytes_eq(peeled[i].0.as_slice(), n) {
            if hex_id(peeled[i].1.as_slice()) {
                return Some(to_vec(peeled[i].1.as_slice()));
            }
            return None;
        }
        i = i + 1;
    }
    None
}

/// The entry the new packed table holds for `n`: the loose reference if it moves, with the id
/// it peels to if `peeled` gives one, nothing if a loose reference stays, else the old entry
/// unless a deletion hid it.
pub open spec fn packed_after(s: StoreView, peeled: Seq<(Seq<u8>, Seq<u8>)>, n: Seq<u8>) -> Option<(Seq<u8>, Seq<u8>, Option<Seq<u8>>)> {
    match loose_get(s.loose, n) {
        Some(v) => if packable(n, v) {
            Some((n, v->Peeled_0, peel_for(peeled, n)))
        } else {
            None
        },
        None => if s.deleted.contains(n) {
            None
        } else {
            packed_lookup(s.packed, n)
        },
    }
}

/// The loose reference that is left for `n`.
pub open spec fn loose_after(s: StoreView, n: Seq<u8>) -> Option<Value> {
    match loose_get(s.loose, n) {
        Some(v) => if packable(n, v) {
            None
        } else {
            Some(v)
        },
        None => None,
    }
}

fn is_packable(r: &LooseRef) -> (b: bool)
    ensures
        b == packable(r.name@, r.target@),
{
    match &r.target {
        Target::Peeled(id) => hex_id(id.as_slice()) && starts_with(r.name.as_slice(), &REFS),
        Target::Symbolic(_) => false,
    }
}

impl Store {
    /// Rewrite the packed table: move every loose reference it can hold into it, with the id
    /// it peels to as `peeled` gives it (found in the object database, once, now), drop the
    /// entries that deletions hid, and forget the deletions. Every name still resolves to what
    /// it resolved to before. The rewrite reads every entry, so it fails, changing nothing, if
    /// a packed record cannot be read or the table is not sorted.
    pub fn pack(&mut self, peeled: &Vec<(Vec<u8>, Vec<u8>)>) -> (r: Result<(), StoreError>)
        requires
            store_wf(old(self)@),
        ensures
            store_wf(final(self)@),
            r is Err ==> !well_formed(old(self)@.packed) && final(self)@ == old(self)@,
            r is Ok ==> well_formed(old(self)@.packed) && well_formed(final(self)@.packed),
            r is Ok ==> forall|n: Seq<u8>| #[trigger] lookup(final(self)@, n) == lookup(old(self)@, n),
            r is Ok ==> forall|n: Seq<u8>| #[trigger] current(final(self)@, n) == current(old(self)@, n),
            r is Ok ==> forall|n: Seq<u8>| #[trigger] loose_get(final(self)@.loose, n) == loose_after(old(self)@, n),
            r is Ok ==> forall|n: Seq<u8>| #[trigger] packed_lookup(final(self)@.packed, n) == packed_after(old(self)@, peel_views(peeled@), n),
            r is Ok ==> final(self)@.deleted.len() == 0,
            final(self)@.logs == old(self)@.logs,
            final(self)@.locks == old(self)@.locks,
    {
        let ghost s0 = self@;
        match check_packed(&self.packed) {
            Err(e) => {
                return Err(e);
            },
            Ok(()) => {},
        }
        let old_refs = match self.packed.references() {
            Ok(v) => v,
            Err(e) => {
                return Err(StoreError::Corrupt { line: e.line });
            },
        };
        proof {
            lemma_lookup_matches(s0.packed, ref_views(old_refs@));
        }
        let ghost olds = ref_views(old_refs@);
        let mut result: Vec<Reference> = Vec::new();
        let mut i: usize = 0;
        while i < old_refs.len()
            invariant
                self@ == s0,
                store_wf(s0),
                olds == ref_views(old_refs@),
                sorted_refs(olds),
                forall|n: Seq<u8>| #[trigger] packed_lookup(s0.packed, n) == refs_lookup(olds, n),
                forall|k: int| 0 <= k < olds.len() ==> writable(#[trigger] olds[k]),
                i <= old_refs@.len(),
                sorted_refs(ref_views(result@)),
                forall|k: int| 0 <= k < result@.len() ==> writable(#[trigger] ref_views(result@)[k]),
                forall|n: Seq<u8>| #[trigger] refs_lookup(ref_views(result@), n)
                    == if loose_get(s0.loose, n) is None && !s0.deleted.contains(n) {
                        refs_lookup(olds.subrange(0, i as int), n)
                    } else {
                        None
                    },
            decreases old_refs@.len() - i,
        {
            let r = &old_refs[i];
            let ghost rv = olds[i as int];
            assert(r@ == rv);
            proof {
                lemma_prefix_lookup_step(olds, i as int);
            }
            let hidden = contains_name(&self.deleted, r.name.as_slice())
                || crate::store::loose_index(&self.loose, r.name.as_slice()).is_some();
            if !hidden {
                proof {
                    assert(loose_get(s0.loose, rv.0) is None);
                    assert(refs_lookup(ref_views(result@), rv.0) is None) by {
                        lemma_prefix_lookup_absent(olds, i as int);
                    }
                }
                let ghost before = ref_views(result@);
                insert_sorted(&mut result, r.copy());
                proof {
                    assert forall|k: int| 0 <= k < result@.len() implies writable(#[trigger] ref_views(result@)[k]) by {
                        let v = ref_views(result@)[k];
                        assert(refs_lookup(ref_views(result@), v.0) == Some(v)) by {
                            crate::packed::lemma_refs_lookup_at(ref_views(result@), k);
                        }
                        if v.0 != rv.0 {
                            let j = choose|j: int| 0 <= j < before.len() && (#[trigger] before[j]).0 == v.0;
                            crate::packed::lemma_refs_lookup_at(before, j);
                        }
                    }
                }
            } else {
                proof {
                    if loose_get(s0.loose, rv.0) is None {
                        assert(s0.deleted.contains(rv.0));
                    }
                }
            }
            i = i + 1;
        }
        assert(olds.subrange(0, olds.len() as int) =~= olds);
        let mut kept: Vec<LooseRef> = Vec::new();
        let mut j: usize = 0;
        let ghost lv = s0.loose;
        while j < self.loose.len()
            invariant
                self@ == s0,
                store_wf(s0),
                lv == s0.loose,
                lv == loose_views(self.loose@),
                j <= lv.len(),
                sorted_refs(ref_views(result@)),
                forall|k: int| 0 <= k < result@.len() ==> writable(#[trigger] ref_views(result@)[k]),
                unique_names(loose_views(kept@)),
                forall|n: Seq<u8>| #[trigger] refs_lookup(ref_views(result@), n)
                    == if exists|k: int| 0 <= k < j && (#[trigger] lv[k]).0 == n {
                        packed_after(s0, peel_views(peeled@), n)
                    } else if loose_get(s0.loose, n) is None && !s0.deleted.contains(n) {
                        refs_lookup(olds, n)
                    } else {
                        None
                    },
                forall|n: Seq<u8>| #[trigger] loose_get(loose_views(kept@), n)
                    == if exists|k: int| 0 <= k < j && (#[trigger] lv[k]).0 == n {
                        loose_after(s0, n)
                    } else {
                        None
                    },
                forall|n: Seq<u8>| #[trigger] packed_lookup(s0.packed, n) == refs_lookup(olds, n),
            decreases lv.len() - j,
        {
            let r = &self.loose[j];
            let ghost e = lv[j as int];
            assert(e == (r.name@, r.target@));
            proof {
                lemma_loose_get_at(lv, j as int);
                assert forall|k: int| 0 <= k < j implies (#[trigger] lv[k]).0 != e.0 by {
                    assert(lv[k].0 != lv[j as int].0);
                }
            }
            if is_packable(r) {
                let id = match &r.target {
                    Target::Peeled(id) => to_vec(id.as_slice()),
                    Target::Symbolic(_) => Vec::new(),
                };
                let ghost before = ref_views(result@);
                assert(refs_lookup(before, e.0) is None);
                let object = find_peeled(peeled, r.name.as_slice());
                proof {
                    lemma_peel_for_hex(peel_views(peeled@), e.0);
                }
                insert_sorted(&mut result, Reference { name: to_vec(r.name.as_slice()), target: id, object });
                proof {
                    assert forall|k: int| 0 <= k < result@.len() implies writable(#[trigger] ref_views(result@)[k]) by {
                        let v = ref_views(result@)[k];
                        crate::packed::lemma_refs_lookup_at(ref_views(result@), k);
                        if v.0 != e.0 {
                            let m = choose|m: int| 0 <= m < before.len() && (#[trigger] before[m]).0 == v.0;
                            crate::packed::lemma_refs_lookup_at(before, m);
                        }
                    }
                    assert forall|n: Seq<u8>| #[trigger] loose_get(loose_views(kept@), n)
                        == if exists|k: int| 0 <= k < j + 1 && (#[trigger] lv[k]).0 == n {
                            loose_after(s0, n)
                        } else {
                            None
                        } by {
                        if n == e.0 {
                            assert(lv[j as int].0 == n);
                        } else if exists|k: int| 0 <= k < j + 1 && (#[trigger] lv[k]).0 == n {
                            let k = choose|k: int| 0 <= k < j + 1 && (#[trigger] lv[k]).0 == n;
                            assert(k < j);
                        }
                    }
                }
            } else {
                let ghost kb = loose_views(kept@);
                assert(loose_get(kb, e.0) is None);
                kept.push(LooseRef { name: to_vec(r.name.as_slice()), target: r.target.copy() });
                proof {
                    let ka = loose_views(kept@);
                    assert(ka =~= kb.push(e));
                    assert forall|a: int, b: int| 0 <= a < ka.len() && 0 <= b < ka.len() && a != b implies #[trigger] ka[a].0 != #[trigger] ka[b].0 by {
                        if a == kb.len() as int && b < kb.len() {
                            assert(kb[b].0 != e.0);
                        } else if b == kb.len() as int && a < kb.len() {
                            assert(kb[a].0 != e.0);
                        }
                    }
                    assert forall|n: Seq<u8>| #[trigger] loose_get(ka, n)
                        == if exists|k: int| 0 <= k < j + 1 && (#[trigger] lv[k]).0 == n {
                            loose_after(s0, n)
                        } else {
                            None
                        } by {
                        if n == e.0 {
                            assert(lv[j as int].0 == n);
                            lemma_loose_get_at(ka, kb.len() as int);
                        } else {
                            if exists|k: int| 0 <= k < j + 1 && (#[trigger] lv[k]).0 == n {
                                let k = choose|k: int| 0 <= k < j + 1 && (#[trigger] lv[k]).0 == n;
                                assert(k < j);
                            }
                            if exists|k: int| 0 <= k < kb.len() && (#[trigger] kb[k]).0 == n {
                                let k = choose|k: int| 0 <= k < kb.len() && (#[trigger] kb[k]).0 == n;
                                lemma_loose_get_at(kb, k);
                                assert(ka[k] == kb[k]);
                                lemma_loose_get_at(ka, k);
                            } else {
                                assert forall|k: int| 0 <= k < ka.len() implies (#[trigger] ka[k]).0 != n by {
                                    if k < kb.len() {
                                        assert(ka[k] == kb[k]);
                                    }
                                }
                            }
                        }
                    }
                }
            }
            proof {
                assert forall|n: Seq<u8>| #[trigger] refs_lookup(ref_views(result@), n)
                    == if exists|k: int| 0 <= k < j + 1 && (#[trigger] lv[k]).0 == n {
                        packed_after(s0, peel_views(peeled@), n)
                    } else if loose_get(s0.loose, n) is None && !s0.deleted.contains(n) {
                        refs_lookup(olds, n)
                    } else {
                        None
                    } by {
                    if n != e.0 {
                        if exists|k: int| 0 <= k < j + 1 && (#[trigger] lv[k]).0 == n {
                            let k = choose|k: int| 0 <= k < j + 1 && (#[trigger] lv[k]).0 == n;
                            assert(k < j);
                        }
                    } else {
                        assert(lv[j as int].0 == n);
                    }
                }
            }
            j = j + 1;
        }
        assert forall|k: int| 0 <= k < result@.len() implies writable(#[trigger] result@[k]@) by {
            assert(ref_views(result@)[k] == result@[k]@);
        }
        let packed = Buffer::from_references(&result);
        self.packed = packed;
        self.loose = kept;
        self.deleted = Vec::new();
        proof {
            assert(views(self.deleted@) =~= seq![]);
            assert forall|n: Seq<u8>| #[trigger] packed_lookup(self@.packed, n) == packed_after(s0, peel_views(peeled@), n) by {
                if !(exists|k: int| 0 <= k < lv.len() && (#[trigger] lv[k]).0 == n) {
                    assert(loose_get(s0.loose, n) is None);
                }
            }
            assert forall|n: Seq<u8>| #[trigger] loose_get(self@.loose, n) == loose_after(s0, n) by {
                if !(exists|k: int| 0 <= k < lv.len() && (#[trigger] lv[k]).0 == n) {
                    assert(loose_get(s0.loose, n) is None);
                }
            }
            assert forall|n: Seq<u8>| #[trigger] lookup(self@, n) == lookup(s0, n) by {
                assert(loose_get(self@.loose, n) == loose_after(s0, n));
                assert(packed_lookup(self@.packed, n) == packed_after(s0, peel_views(peeled@), n));
                assert(!self@.deleted.contains(n));
                lemma_lookup_well_formed(self@, n);
                lemma_lookup_well_formed(s0, n);
            }
            assert forall|n: Seq<u8>| #[trigger] current(self@, n) == current(s0, n) by {
                assert(lookup(self@, n) == lookup(s0, n));
            }
        }
        Ok(())
    }
}

/// Looking a name up in the first `i + 1` sorted entries: the entry at `i` if it has the name,
/// else the lookup in the first `i`.
pub proof fn lemma_prefix_lookup_step(refs: Seq<(Seq<u8>, Seq<u8>, Option<Seq<u8>>)>, i: int)
    requires
        sorted_refs(refs),
        0 <= i < refs.len(),
    ensures
        forall|n: Seq<u8>| #[trigger] refs_lookup(refs.subrange(0, i + 1), n)
            == if n == refs[i].0 { Some(refs[i]) } else { refs_lookup(refs.subrange(0, i), n) },
{
    let a = refs.subrange(0, i);
    let b = refs.subrange(0, i + 1);
    assert(sorted_refs(b));
    assert(sorted_refs(a));
    assert forall|n: Seq<u8>| #[trigger] refs_lookup(b, n)
        == if n == refs[i].0 { Some(refs[i]) } else { refs_lookup(a, n) } by {
        if n == refs[i].0 {
            assert(b[i] == refs[i]);
            crate::packed::lemma_refs_lookup_at(b, i);
        } else if exists|k: int| 0 <= k < a.len() && (#[trigger] a[k]).0 == n {
            let k = choose|k: int| 0 <= k < a.len() && (#[trigger] a[k]).0 == n;
            crate::packed::lemma_refs_lookup_at(a, k);
            assert(b[k] == a[k]);
            crate::packed::lemma_refs_lookup_at(b, k);
        } else {
            assert forall|k: int| 0 <= k < b.len() implies (#[trigger] b[k]).0 != n by {
                if k < i {
                    assert(b[k] == a[k]);
                }
            }
        }
    }
}

/// The name of entry `i` of a sorted list is not among the entries before it.
pub proof fn lemma_prefix_lookup_absent(refs: Seq<(Seq<u8>, Seq<u8>, Option<Seq<u8>>)>, i: int)
    requires
        sorted_refs(refs),
        0 <= i < refs.len(),
    ensures
        refs_lookup(refs.subrange(0, i), refs[i].0) is None,
{
    let a = refs.subrange(0, i);
    assert forall|k: int| 0 <= k < a.len() implies (#[trigger] a[k]).0 != refs[i].0 by {
        assert(a[k] == refs[k]);
        assert(crate::order::lex_lt(refs[k].0, refs[i].0));
        crate::order::lemma_lex_irreflexive(refs[i].0);
    }
}

} // verus!
