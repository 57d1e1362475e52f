//! The packed store: one sorted file of `<id> <name>` lines, each optionally followed by a
//! `^<id>` line with the id its tag peels to. Lookups search it by halving.
use vstd::prelude::*;
use crate::bytes::{append, copy_range, pieces, split, views, to_vec, lemma_pieces_front};
use crate::order::{compare, lex_lt, lemma_lex_asymmetric, lemma_lex_irreflexive, lemma_lex_transitive};
use crate::reference::{hex_id, is_hex_id};
use crate::name::concat;

verus! {

/// A packed reference as plain values: name, target id and the id its tag peels to.
pub type PackedValue = (Seq<u8>, Seq<u8>, Option<Seq<u8>>);

/// A reference read from the packed store.
#[derive(Debug, PartialEq, Eq)]
pub struct Reference {
    /// The full name.
    pub name: Vec<u8>,
    /// The id it points at, in hex.
    pub target: Vec<u8>,
    /// The id of the object an annotated tag peels to, in hex.
    pub object: Option<Vec<u8>>,
}

impl View for Reference {
    type V = PackedValue;

    open spec fn view(&self) -> PackedValue {
        (self.name@, self.target@, crate::capabilities::opt_view(self.object))
    }
}

impl Reference {
    /// A copy of this reference.
    pub fn copy(&self) -> (r: Reference)
        ensures
            r@ == self@,
    {
        Reference {
            name: to_vec(self.name.as_slice()),
            target: to_vec(self.target.as_slice()),
            object: match &self.object {
                Some(o) => Some(to_vec(o.as_slice())),
                None => None,
            },
        }
    }
}

/// One entry of the packed file as it was read: its line and the `^` line after it, if any.
pub struct Record {
    pub line: Vec<u8>,
    pub peeled: Option<Vec<u8>>,
}

impl View for Record {
    type V = (Seq<u8>, Option<Seq<u8>>);

    open spec fn view(&self) -> (Seq<u8>, Option<Seq<u8>>) {
        (self.line@, crate::capabilities::opt_view(self.peeled))
    }
}

/// The length of the hex id that opens `line` and is followed by a space, or 0.
pub open spec fn id_len(line: Seq<u8>) -> int {
    if line.len() > 40 && line[40] == 32u8 && is_hex_id(line.subrange(0, 40)) {
        40
    } else if line.len() > 64 && line[64] == 32u8 && is_hex_id(line.subrange(0, 64)) {
        64
    } else {
        0
    }
}

/// The reference a record holds, if it is well formed: `<id> <name>` with a non-empty name, and
/// a following line, if any, of `^<id>`.
pub open spec fn record_reference(rec: (Seq<u8>, Option<Seq<u8>>)) -> Option<PackedValue> {
    let line = rec.0;
    let k = id_len(line);
    if k == 0 || line.len() <= k + 1 {
        None
    } else {
        let name = line.subrange(k + 1, line.len() as int);
        let target = line.subrange(0, k);
        match rec.1 {
            None => Some((name, target, None)),
            Some(p) => if p.len() > 0 && p[0] == 94u8 && is_hex_id(p.drop_first()) {
                Some((name, target, Some(p.drop_first())))
            } else {
                None
            },
        }
    }
}

/// `line` gives the peeled id of the entry before it.
pub open spec fn is_peel_line(line: Seq<u8>) -> bool {
    line.len() > 0 && line[0] == 94u8
}

/// The records of `lines` from line `i` on: each line with the peel line after it, if any.
pub open spec fn records_from(lines: Seq<Seq<u8>>, i: int) -> Seq<(Seq<u8>, Option<Seq<u8>>)>
    decreases lines.len() - i,
{
    if i >= lines.len() || i < 0 {
        seq![]
    } else if i + 1 < lines.len() && is_peel_line(lines[i + 1]) {
        seq![(lines[i], Some(lines[i + 1]))] + records_from(lines, i + 2)
    } else {
        seq![(lines[i], None)] + records_from(lines, i + 1)
    }
}

/// How many lines at the top are a header: a first line starting with `#`.
pub open spec fn header_lines(lines: Seq<Seq<u8>>) -> int {
    if lines.len() > 0 && lines[0].len() > 0 && lines[0][0] == 35u8 {
        1
    } else {
        0
    }
}

/// The records of a packed file.
pub open spec fn file_records(data: Seq<u8>) -> Seq<(Seq<u8>, Option<Seq<u8>>)> {
    records_from(pieces(data, 10u8), header_lines(pieces(data, 10u8)))
}

/// The name of the reference record `rec` holds.
pub open spec fn record_name(rec: (Seq<u8>, Option<Seq<u8>>)) -> Seq<u8> {
    record_reference(rec)->Some_0.0
}

/// Every record is well formed, and the names are strictly increasing.
pub open spec fn well_formed(recs: Seq<(Seq<u8>, Option<Seq<u8>>)>) -> bool {
    &&& forall|i: int| 0 <= i < recs.len() ==> (#[trigger] record_reference(recs[i])) is Some
    &&& forall|i: int, j: int| 0 <= i < j < recs.len() ==> lex_lt(#[trigger] record_name(recs[i]), #[trigger] record_name(recs[j]))
}

/// Some record holds a reference called `name`.
pub open spec fn holds_name(recs: Seq<(Seq<u8>, Option<Seq<u8>>)>, name: Seq<u8>) -> bool {
    exists|i: int| 0 <= i < recs.len() && #[trigger] record_reference(recs[i]) is Some && record_name(recs[i]) == name
}

/// The reference called `name`, in a well-formed table.
pub open spec fn packed_lookup(recs: Seq<(Seq<u8>, Option<Seq<u8>>)>, name: Seq<u8>) -> Option<PackedValue> {
    if holds_name(recs, name) {
        let i = choose|i: int| 0 <= i < recs.len() && #[trigger] record_reference(recs[i]) is Some && record_name(recs[i]) == name;
        record_reference(recs[i])
    } else {
        None
    }
}

/// The outcome of searching records `lo..hi` for `name` by halving: the record in the middle is
/// read, and the search stops there if it cannot be read or has the name, else goes on in the
/// half the name sorts into.
pub open spec fn search_from(recs: Seq<(Seq<u8>, Option<Seq<u8>>)>, name: Seq<u8>, lo: int, hi: int) -> Result<Option<PackedValue>, ()>
    decreases hi - lo,
{
    if lo >= hi || lo < 0 || hi > recs.len() {
        Ok(None)
    } else {
        let mid = lo + (hi - lo) / 2;
        match record_reference(recs[mid]) {
            None => Err(()),
            Some(x) => if x.0 == name {
                Ok(Some(x))
            } else if lex_lt(x.0, name) {
                search_from(recs, name, mid + 1, hi)
            } else {
                search_from(recs, name, lo, mid)
            },
        }
    }
}

/// The outcome of searching the whole table for `name`.
pub open spec fn search(recs: Seq<(Seq<u8>, Option<Seq<u8>>)>, name: Seq<u8>) -> Result<Option<PackedValue>, ()> {
    search_from(recs, name, 0, recs.len() as int)
}

/// In a well-formed table the search finds exactly the entry the table holds for the name.
pub proof fn lemma_search_well_formed(recs: Seq<(Seq<u8>, Option<Seq<u8>>)>, name: Seq<u8>, lo: int, hi: int)
    requires
        well_formed(recs),
        0 <= lo <= hi <= recs.len(),
        forall|k: int| (0 <= k < lo || hi <= k < recs.len()) ==> #[trigger] record_name(recs[k]) != name,
    ensures
        search_from(recs, name, lo, hi) == Ok::<Option<PackedValue>, ()>(packed_lookup(recs, name)),
    decreases hi - lo,
{
    if lo >= hi {
        if holds_name(recs, name) {
            let i = choose|i: int| 0 <= i < recs.len() && #[trigger] record_reference(recs[i]) is Some && record_name(recs[i]) == name;
            assert(record_name(recs[i]) != name);
        }
    } else {
        let mid = lo + (hi - lo) / 2;
        assert(record_reference(recs[mid]) is Some);
        let m = record_name(recs[mid]);
        if m == name {
            Buffer::lemma_unique_seq(recs, mid, name);
        } else if lex_lt(m, name) {
            assert forall|k: int| (0 <= k < mid + 1 || hi <= k < recs.len()) implies #[trigger] record_name(recs[k]) != name by {
                if lo <= k <= mid {
                    if k < mid {
                        lemma_lex_transitive(record_name(recs[k]), m, name);
                    }
                    if record_name(recs[k]) == name {
                        lemma_lex_irreflexive(name);
                    }
                }
            }
            lemma_search_well_formed(recs, name, mid + 1, hi);
        } else {
            crate::order::lemma_lex_total(m, name);
            assert forall|k: int| (0 <= k < lo || mid <= k < recs.len()) implies #[trigger] record_name(recs[k]) != name by {
                if mid <= k < hi {
                    if k > mid {
                        lemma_lex_transitive(name, m, record_name(recs[k]));
                    }
                    if record_name(recs[k]) == name {
                        lemma_lex_irreflexive(name);
                    }
                }
            }
            lemma_search_well_formed(recs, name, lo, mid);
        }
    }
}

/// A record of the packed file that could not be read.
#[derive(Debug, PartialEq, Eq)]
pub struct Corrupt {
    /// The line of the record.
    pub line: Vec<u8>,
}

/// Read one record.
pub fn parse_record(rec: &Record) -> (r: Option<Reference>)
    ensures
        match r {
            Some(x) => record_reference(rec@) == Some(x@),
            None => record_reference(rec@) is None,
        },
{
    let line = rec.line.as_slice();
    let mut k: usize = 0;
    if line.len() > 40 && line[40] == 32u8 {
        let id = copy_range(line, 0, 40);
        if hex_id(id.as_slice()) {
            k = 40;
        }
    }
    if k == 0 && line.len() > 64 && line[64] == 32u8 {
        let id = copy_range(line, 0, 64);
        if hex_id(id.as_slice()) {
            k = 64;
        }
    }
    assert(k as int == id_len(line@));
    if k == 0 || line.len() <= k + 1 {
        return None;
    }
    let name = copy_range(line, k + 1, line.len());
    let target = copy_range(line, 0, k);
    match &rec.peeled {
        None => Some(Reference { name, target, object: None }),
        Some(p) => {
            if p.len() > 0 && p[0] == 94u8 {
                let id = copy_range(p.as_slice(), 1, p.len());
                assert(id@ =~= p@.drop_first());
                if hex_id(id.as_slice()) {
                    return Some(Reference { name, target, object: Some(id) });
                }
            }
            None
        },
    }
}

/// The packed store as read from its file.
pub struct Buffer {
    pub records: Vec<Record>,
}

impl View for Buffer {
    type V = Seq<(Seq<u8>, Option<Seq<u8>>)>;

    open spec fn view(&self) -> Seq<(Seq<u8>, Option<Seq<u8>>)> {
        self.records@.map_values(|r: Record| r@)
    }
}

fn group_records(lines: &Vec<Vec<u8>>, start: usize) -> (r: Vec<Record>)
    requires
        start <= lines@.len(),
    ensures
        r@.map_values(|x: Record| x@) == records_from(views(lines@), start as int),
{
    let mut r: Vec<Record> = Vec::new();
    let mut i: usize = start;
    while i < lines.len()
        invariant
            i <= lines@.len(),
            start <= lines@.len(),
            r@.map_values(|x: Record| x@) + records_from(views(lines@), i as int) == records_from(views(lines@), start as int),
        decreases lines@.len() - i,
    {
        let ghost before = r@;
        let ghost at = i;
        assert(views(lines@)[i as int] == lines@[i as int]@);
        if i + 1 < lines.len() && lines[i + 1].len() > 0 && lines[i + 1][0] == 94u8 {
            assert(views(lines@)[i + 1] == lines@[i + 1]@);
            let rec = Record { line: to_vec(lines[i].as_slice()), peeled: Some(to_vec(lines[i + 1].as_slice())) };
            r.push(rec);
            i = i + 2;
        } else {
            let rec = Record { line: to_vec(lines[i].as_slice()), peeled: None };
            r.push(rec);
            i = i + 1;
        }
        assert(r@.map_values(|x: Record| x@) =~= before.map_values(|x: Record| x@).push(r@.last()@));
        assert(records_from(views(lines@), at as int) =~= seq![r@.last()@] + records_from(views(lines@), i as int));
        assert(r@.map_values(|x: Record| x@) + records_from(views(lines@), i as int)
            =~= before.map_values(|x: Record| x@) + records_from(views(lines@), at as int));
    }
    assert(records_from(views(lines@), i as int) =~= seq![]);
    assert(r@.map_values(|x: Record| x@) =~= records_from(views(lines@), start as int));
    r
}

impl Buffer {
    /// Read a packed file: its lines, without a leading `#` header line, grouped into records.
    pub fn from_bytes(data: &[u8]) -> (r: Buffer)
        ensures
            r@ == file_records(data@),
    {
        let lines = split(data, 10u8);
        let mut start: usize = 0;
        if lines.len() > 0 && lines[0].len() > 0 && lines[0][0] == 35u8 {
            start = 1;
        }
        assert(views(lines@) == pieces(data@, 10u8));
        proof {
            if lines@.len() > 0 {
                assert(views(lines@)[0] == lines@[0]@);
            }
        }
        Buffer { records: group_records(&lines, start) }
    }

    /// The number of records.
    pub fn len(&self) -> (r: usize)
        ensures
            r == self@.len(),
    {
        self.records.len()
    }

    /// Find the reference called `name` by halving the table. A record that cannot be read
    /// fails the lookup only if the search lands on it. In a well-formed table the reference is
    /// found exactly when it is there; in any table what is found is there.
    pub fn find(&self, name: &[u8]) -> (r: Result<Option<Reference>, Corrupt>)
        ensures
            match r {
                Ok(Some(x)) => x@.0 == name@ && exists|i: int| 0 <= i < self@.len()
                    && #[trigger] record_reference(self@[i]) == Some(x@),
                Ok(None) => well_formed(self@) ==> !holds_name(self@, name@),
                Err(_) => exists|i: int| 0 <= i < self@.len() && #[trigger] record_reference(self@[i]) is None,
            },
            well_formed(self@) ==> r is Ok && match r {
                Ok(Some(x)) => Some(x@) == packed_lookup(self@, name@),
                _ => packed_lookup(self@, name@) is None,
            },
            match r {
                Ok(Some(x)) => search(self@, name@) == Ok::<Option<PackedValue>, ()>(Some(x@)),
                Ok(None) => search(self@, name@) == Ok::<Option<PackedValue>, ()>(None),
                Err(_) => search(self@, name@) is Err,
            },
    {
        let mut lo: usize = 0;
        let mut hi: usize = self.records.len();
        while lo < hi
            invariant
                lo <= hi <= self@.len(),
                search(self@, name@) == search_from(self@, name@, lo as int, hi as int),
                well_formed(self@) ==> forall|k: int| (0 <= k < lo || hi <= k < self@.len())
                    ==> #[trigger] record_name(self@[k]) != name@,
            decreases hi - lo,
        {
            let mid = lo + (hi - lo) / 2;
            assert(self@[mid as int] == self.records@[mid as int]@);
            match parse_record(&self.records[mid]) {
                None => {
                    return Err(Corrupt { line: to_vec(self.records[mid].line.as_slice()) });
                },
                Some(x) => {
                    let c = compare(x.name.as_slice(), name);
                    if c == 0 {
                        proof {
                            if well_formed(self@) {
                                self.lemma_unique(mid as int, name@);
                            }
                        }
                        return Ok(Some(x));
                    }
                    proof {
                        if well_formed(self@) {
                            assert forall|k: int| 0 <= k < self@.len() && (k <= mid && c < 0 || k >= mid && c > 0)
                                implies #[trigger] record_name(self@[k]) != name@ by {
                                let m = record_name(self@[mid as int]);
                                let n = record_name(self@[k]);
                                if c < 0 {
                                    if k < mid {
                                        lemma_lex_transitive(n, m, name@);
                                    }
                                    if n == name@ {
                                        lemma_lex_irreflexive(name@);
                                    }
                                } else {
                                    if k > mid {
                                        lemma_lex_transitive(name@, m, n);
                                    }
                                    if n == name@ {
                                        lemma_lex_irreflexive(name@);
                                    }
                                }
                            }
                        }
                    }
                    if c < 0 {
                        lo = mid + 1;
                    } else {
                        hi = mid;
                    }
                },
            }
        }
        proof {
            if well_formed(self@) && holds_name(self@, name@) {
                let i = choose|i: int| 0 <= i < self@.len() && #[trigger] record_reference(self@[i]) is Some
                    && record_name(self@[i]) == name@;
                assert(record_name(self@[i]) != name@);
            }
        }
        Ok(None)
    }

    /// In a well-formed table, the record at `i` is the one `packed_lookup` gives for its name.
    pub proof fn lemma_unique(&self, i: int, name: Seq<u8>)
        requires
            well_formed(self@),
            0 <= i < self@.len(),
            record_name(self@[i]) == name,
        ensures
            packed_lookup(self@, name) == record_reference(self@[i]),
    {
        Buffer::lemma_unique_seq(self@, i, name);
    }

    /// In well-formed records, the record at `i` is the one `packed_lookup` gives for its name.
    pub proof fn lemma_unique_seq(recs: Seq<(Seq<u8>, Option<Seq<u8>>)>, i: int, name: Seq<u8>)
        requires
            well_formed(recs),
            0 <= i < recs.len(),
            record_name(recs[i]) == name,
        ensures
            packed_lookup(recs, name) == record_reference(recs[i]),
    {
        assert(record_reference(recs[i]) is Some);
        assert(holds_name(recs, name));
        let j = choose|j: int| 0 <= j < recs.len() && #[trigger] record_reference(recs[j]) is Some
            && record_name(recs[j]) == name;
        if j != i {
            if j < i {
                assert(lex_lt(record_name(recs[j]), record_name(recs[i])));
            } else {
                assert(lex_lt(record_name(recs[i]), record_name(recs[j])));
            }
            lemma_lex_irreflexive(name);
        }
    }

    /// All references in file order, or the first record that cannot be read.
    pub fn references(&self) -> (r: Result<Vec<Reference>, Corrupt>)
        ensures
            match r {
                Ok(v) => v@.len() == self@.len() && forall|i: int| 0 <= i < v@.len()
                    ==> record_reference(self@[i]) == Some(#[trigger] v@[i]@),
                Err(_) => exists|i: int| 0 <= i < self@.len() && #[trigger] record_reference(self@[i]) is None,
            },
    {
        let mut v: Vec<Reference> = Vec::new();
        let mut i: usize = 0;
        while i < self.records.len()
            invariant
                i <= self@.len(),
                v@.len() == i,
                forall|k: int| 0 <= k < i ==> record_reference(self@[k]) == Some(#[trigger] v@[k]@),
            decreases self@.len() - i,
        {
            assert(self@[i as int] == self.records@[i as int]@);
            match parse_record(&self.records[i]) {
                None => {
                    return Err(Corrupt { line: to_vec(self.records[i].line.as_slice()) });
                },
                Some(x) => {
                    v.push(x);
                },
            }
            i = i + 1;
        }
        Ok(v)
    }
}

/// The names of `refs` are strictly increasing.
pub open spec fn sorted_refs(refs: Seq<PackedValue>) -> bool {
    forall|i: int, j: int| 0 <= i < j < refs.len() ==> lex_lt(#[trigger] refs[i].0, #[trigger] refs[j].0)
}

/// `v` can be written as a packed record: a hex id, a non-empty name, and a hex id for the
/// peeled object, if any.
pub open spec fn writable(v: PackedValue) -> bool {
    &&& is_hex_id(v.1)
    &&& v.0.len() > 0
    &&& match v.2 {
        Some(o) => is_hex_id(o),
        None => true,
    }
}

/// The entry of `refs` called `name`.
pub open spec fn refs_lookup(refs: Seq<PackedValue>, name: Seq<u8>) -> Option<PackedValue> {
    if exists|i: int| 0 <= i < refs.len() && (#[trigger] refs[i]).0 == name {
        let i = choose|i: int| 0 <= i < refs.len() && (#[trigger] refs[i]).0 == name;
        Some(refs[i])
    } else {
        None
    }
}

/// The contents of a list of references.
pub open spec fn ref_views(v: Seq<Reference>) -> Seq<PackedValue> {
    v.map_values(|r: Reference| r@)
}

/// In a well-formed table read as `refs`, looking a name up in the table or in `refs` agrees.
pub proof fn lemma_lookup_matches(recs: Seq<(Seq<u8>, Option<Seq<u8>>)>, refs: Seq<PackedValue>)
    requires
        well_formed(recs),
        recs.len() == refs.len(),
        forall|i: int| 0 <= i < refs.len() ==> record_reference(recs[i]) == Some(#[trigger] refs[i]),
    ensures
        sorted_refs(refs),
        forall|n: Seq<u8>| #[trigger] packed_lookup(recs, n) == refs_lookup(refs, n),
{
    assert forall|i: int, j: int| 0 <= i < j < refs.len() implies lex_lt(#[trigger] refs[i].0, #[trigger] refs[j].0) by {
        assert(record_reference(recs[i]) == Some(refs[i]));
        assert(record_reference(recs[j]) == Some(refs[j]));
        assert(lex_lt(record_name(recs[i]), record_name(recs[j])));
    }
    assert forall|n: Seq<u8>| #[trigger] packed_lookup(recs, n) == refs_lookup(refs, n) by {
        if holds_name(recs, n) {
            let i = choose|i: int| 0 <= i < recs.len() && #[trigger] record_reference(recs[i]) is Some && record_name(recs[i]) == n;
            Buffer::lemma_unique_seq(recs, i, n);
            assert(record_reference(recs[i]) == Some(refs[i]));
            lemma_refs_lookup_at(refs, i);
        } else {
            assert forall|k: int| 0 <= k < refs.len() implies (#[trigger] refs[k]).0 != n by {
                assert(record_reference(recs[k]) == Some(refs[k]));
            }
        }
    }
}

/// In a sorted list the entry at `i` is the one `refs_lookup` gives for its name.
pub proof fn lemma_refs_lookup_at(refs: Seq<PackedValue>, i: int)
    requires
        sorted_refs(refs),
        0 <= i < refs.len(),
    ensures
        refs_lookup(refs, refs[i].0) == Some(refs[i]),
{
    let j = choose|j: int| 0 <= j < refs.len() && (#[trigger] refs[j]).0 == refs[i].0;
    if j != i {
        lemma_lex_irreflexive(refs[i].0);
    }
}

/// Insert `x` into the sorted list `v` at its place. Its name must not be in `v` yet.
pub fn insert_sorted(v: &mut Vec<Reference>, x: Reference)
    requires
        sorted_refs(ref_views(old(v)@)),
        refs_lookup(ref_views(old(v)@), x@.0) is None,
    ensures
        sorted_refs(ref_views(final(v)@)),
        forall|n: Seq<u8>| #[trigger] refs_lookup(ref_views(final(v)@), n)
            == if n == x@.0 { Some(x@) } else { refs_lookup(ref_views(old(v)@), n) },
        final(v)@.len() == old(v)@.len() + 1,
{
    let ghost before = ref_views(v@);
    let mut p: usize = 0;
    while p < v.len() && compare(v[p].name.as_slice(), x.name.as_slice()) < 0
        invariant
            p <= v@.len(),
            before == ref_views(v@),
            forall|k: int| 0 <= k < p ==> lex_lt(#[trigger] before[k].0, x@.0),
        decreases v@.len() - p,
    {
        assert(before[p as int] == v@[p as int]@);
        p = p + 1;
    }
    proof {
        if p < before.len() {
            assert(before[p as int] == v@[p as int]@);
            assert(!lex_lt(before[p as int].0, x@.0));
            if before[p as int].0 == x@.0 {
                assert(refs_lookup(before, x@.0) is Some);
            }
            crate::order::lemma_lex_total(before[p as int].0, x@.0);
        }
    }
    let ghost xv = x@;
    v.insert(p, x);
    let ghost after = ref_views(v@);
    assert(after =~= before.insert(p as int, xv));
    assert forall|i: int, j: int| 0 <= i < j < after.len() implies lex_lt(#[trigger] after[i].0, #[trigger] after[j].0) by {
        if j < p {
        } else if j == p {
        } else if i < p {
            assert(after[j] == before[j - 1]);
            if j - 1 > p {
                lemma_lex_transitive(xv.0, before[p as int].0, before[j - 1].0);
            }
            lemma_lex_transitive(before[i].0, xv.0, before[j - 1].0);
        } else if i == p {
            if j - 1 > p {
                lemma_lex_transitive(xv.0, before[p as int].0, before[j - 1].0);
            }
        } else {
        }
    }
    assert forall|n: Seq<u8>| #[trigger] refs_lookup(after, n)
        == if n == xv.0 { Some(xv) } else { refs_lookup(before, n) } by {
        if n == xv.0 {
            assert(after[p as int] == xv);
            lemma_refs_lookup_at(after, p as int);
        } else if exists|i: int| 0 <= i < before.len() && (#[trigger] before[i]).0 == n {
            let i = choose|i: int| 0 <= i < before.len() && (#[trigger] before[i]).0 == n;
            lemma_refs_lookup_at(before, i);
            let k = if i < p { i } else { i + 1 };
            assert(after[k] == before[i]);
            lemma_refs_lookup_at(after, k);
        } else {
            assert forall|k: int| 0 <= k < after.len() implies (#[trigger] after[k]).0 != n by {
                if k < p {
                    assert(after[k] == before[k]);
                } else if k > p {
                    assert(after[k] == before[k - 1]);
                }
            }
        }
    }
}

/// The record that holds `r`.
pub open spec fn record_of(r: PackedValue) -> (Seq<u8>, Option<Seq<u8>>) {
    (r.1 + seq![32u8] + r.0, match r.2 {
        Some(o) => Some(seq![94u8] + o),
        None => None,
    })
}

/// A record written from a writable reference reads back as that reference.
pub proof fn lemma_record_round_trip(r: PackedValue)
    requires
        writable(r),
    ensures
        record_reference(record_of(r)) == Some(r),
{
    let line = record_of(r).0;
    let k = r.1.len() as int;
    assert(line.subrange(0, k) =~= r.1);
    if k == 64 {
        assert(line[40] == r.1[40]);
        assert(is_hex_digit_not_space(r.1[40]));
    }
    assert(id_len(line) == k);
    assert(line.subrange(k + 1, line.len() as int) =~= r.0);
    match r.2 {
        Some(o) => {
            assert((seq![94u8] + o).drop_first() =~= o);
        },
        None => {},
    }
}

/// A hex digit is not a space.
pub open spec fn is_hex_digit_not_space(b: u8) -> bool {
    crate::reference::is_hex_digit(b) ==> b != 32u8
}

/// The bytes of one record in the file.
pub open spec fn record_bytes(rec: (Seq<u8>, Option<Seq<u8>>)) -> Seq<u8> {
    rec.0.push(10u8) + match rec.1 {
        Some(p) => p.push(10u8),
        None => seq![],
    }
}

/// The bytes of a list of records.
pub open spec fn records_bytes(recs: Seq<(Seq<u8>, Option<Seq<u8>>)>) -> Seq<u8>
    decreases recs.len(),
{
    if recs.len() == 0 {
        seq![]
    } else {
        records_bytes(recs.drop_last()) + record_bytes(recs.last())
    }
}

/// The header line a rewritten packed file starts with.
pub open spec fn packed_header() -> Seq<u8> {
    seq![35u8, 32, 112, 97, 99, 107, 45, 114, 101, 102, 115, 32, 119, 105, 116, 104, 58, 32, 112, 101, 101, 108, 101, 100, 32, 102, 117, 108, 108, 121, 45, 112, 101, 101, 108, 101, 100, 32, 115, 111, 114, 116, 101, 100, 32, 10]  // `# pack-refs with: peeled fully-peeled sorted \n`
}

impl Buffer {
    /// A table that holds the sorted references `refs`, one record each.
    pub fn from_references(refs: &Vec<Reference>) -> (r: Buffer)
        requires
            sorted_refs(ref_views(refs@)),
            forall|i: int| 0 <= i < refs@.len() ==> writable(#[trigger] refs@[i]@),
        ensures
            r@.len() == refs@.len(),
            forall|i: int| 0 <= i < refs@.len() ==> #[trigger] r@[i] == record_of(refs@[i]@),
            well_formed(r@),
            forall|n: Seq<u8>| #[trigger] packed_lookup(r@, n) == refs_lookup(ref_views(refs@), n),
            (forall|i: int, k: int| 0 <= i < refs@.len() && 0 <= k < refs@[i].name@.len() ==> #[trigger] refs@[i].name@[k] != 10u8)
                ==> forall|i: int| 0 <= i < r@.len() ==> file_safe(#[trigger] r@[i]),
    {
        let mut records: Vec<Record> = Vec::new();
        let mut i: usize = 0;
        while i < refs.len()
            invariant
                i <= refs@.len(),
                records@.len() == i,
                forall|k: int| 0 <= k < i ==> #[trigger] records@[k]@ == record_of(refs@[k]@),
            decreases refs@.len() - i,
        {
            let r = &refs[i];
            let mut line = to_vec(r.target.as_slice());
            line.push(32u8);
            let line = concat(line.as_slice(), r.name.as_slice());
            let peeled = match &r.object {
                Some(o) => Some(concat(&[94u8], o.as_slice())),
                None => None,
            };
            let rec = Record { line, peeled };
            assert(rec@ =~= record_of(refs@[i as int]@));
            records.push(rec);
            i = i + 1;
        }
        let b = Buffer { records };
        let ghost rv = ref_views(refs@);
        assert forall|i: int| 0 <= i < refs@.len() implies #[trigger] b@[i] == record_of(refs@[i]@) by {
            assert(b@[i] == b.records@[i]@);
        }
        assert forall|i: int| 0 <= i < b@.len() implies (#[trigger] record_reference(b@[i])) == Some(rv[i]) by {
            assert(rv[i] == refs@[i]@);
            lemma_record_round_trip(rv[i]);
        }
        assert forall|i: int, j: int| 0 <= i < j < b@.len() implies lex_lt(#[trigger] record_name(b@[i]), #[trigger] record_name(b@[j])) by {
            assert(record_reference(b@[i]) == Some(rv[i]));
            assert(record_reference(b@[j]) == Some(rv[j]));
        }
        assert((forall|i: int, k: int| 0 <= i < refs@.len() && 0 <= k < refs@[i].name@.len() ==> #[trigger] refs@[i].name@[k] != 10u8)
            ==> forall|i: int| 0 <= i < b@.len() ==> file_safe(#[trigger] b@[i])) by {
            if forall|i: int, k: int| 0 <= i < refs@.len() && 0 <= k < refs@[i].name@.len() ==> #[trigger] refs@[i].name@[k] != 10u8 {
                assert forall|i: int| 0 <= i < b@.len() implies file_safe(#[trigger] b@[i]) by {
                    assert(rv[i] == refs@[i]@);
                    assert forall|k: int| 0 <= k < rv[i].0.len() implies #[trigger] rv[i].0[k] != 10u8 by {
                        assert(refs@[i].name@[k] != 10u8);
                    }
                    lemma_record_file_safe(rv[i]);
                }
            }
        }
        assert forall|n: Seq<u8>| #[trigger] packed_lookup(b@, n) == refs_lookup(rv, n) by {
            if holds_name(b@, n) {
                let i = choose|i: int| 0 <= i < b@.len() && #[trigger] record_reference(b@[i]) is Some && record_name(b@[i]) == n;
                b.lemma_unique(i, n);
                assert(rv[i].0 == n);
                lemma_refs_lookup_at(rv, i);
            } else {
                assert forall|k: int| 0 <= k < rv.len() implies (#[trigger] rv[k]).0 != n by {
                    assert(record_reference(b@[k]) == Some(rv[k]));
                }
            }
        }
        b
    }

    /// The bytes of the file for this table: the header line, then each record.
    pub fn to_bytes(&self) -> (r: Vec<u8>)
        ensures
            r@ == packed_header() + records_bytes(self@),
    {
        let mut out = to_vec(&HEADER);
        let mut i: usize = 0;
        while i < self.records.len()
            invariant
                i <= self@.len(),
                out@ == packed_header() + records_bytes(self@.subrange(0, i as int)),
            decreases self@.len() - i,
        {
            let rec = &self.records[i];
            append(&mut out, rec.line.as_slice());
            out.push(10u8);
            match &rec.peeled {
                Some(p) => {
                    append(&mut out, p.as_slice());
                    out.push(10u8);
                },
                None => {},
            }
            assert(self@.subrange(0, i + 1).drop_last() =~= self@.subrange(0, i as int));
            assert(self@[i as int] == rec@);
            i = i + 1;
            assert(out@ =~= packed_header() + records_bytes(self@.subrange(0, i as int)));
        }
        assert(self@.subrange(0, self@.len() as int) =~= self@);
        out
    }
}

/// The header line a rewritten packed file starts with.
pub const HEADER: [u8; 46] = [35u8, 32, 112, 97, 99, 107, 45, 114, 101, 102, 115, 32, 119, 105, 116, 104, 58, 32, 112, 101, 101, 108, 101, 100, 32, 102, 117, 108, 108, 121, 45, 112, 101, 101, 108, 101, 100, 32, 115, 111, 114, 116, 101, 100, 32, 10];  // `# pack-refs with: peeled fully-peeled sorted \n`

/// A record can be written as lines and read back: no newline in its lines, a first line that
/// is no peel line, and a peel line as its second, if any.
pub open spec fn file_safe(rec: (Seq<u8>, Option<Seq<u8>>)) -> bool {
    &&& forall|i: int| 0 <= i < rec.0.len() ==> #[trigger] rec.0[i] != 10u8
    &&& !is_peel_line(rec.0)
    &&& match rec.1 {
        Some(p) => is_peel_line(p) && forall|i: int| 0 <= i < p.len() ==> #[trigger] p[i] != 10u8,
        None => true,
    }
}

/// The lines of a list of records, in order.
pub open spec fn flat_lines(recs: Seq<(Seq<u8>, Option<Seq<u8>>)>) -> Seq<Seq<u8>>
    decreases recs.len(),
{
    if recs.len() == 0 {
        seq![]
    } else {
        seq![recs[0].0] + match recs[0].1 {
            Some(p) => seq![p],
            None => seq![],
        } + flat_lines(recs.drop_first())
    }
}

/// The bytes of a list of records are those of its first record, then those of the rest.
pub proof fn lemma_records_bytes_front(recs: Seq<(Seq<u8>, Option<Seq<u8>>)>)
    requires
        recs.len() > 0,
    ensures
        records_bytes(recs) == record_bytes(recs[0]) + records_bytes(recs.drop_first()),
    decreases recs.len(),
{
    if recs.len() == 1 {
        assert(recs.drop_last() =~= seq![]);
        assert(recs.drop_first() =~= seq![]);
        assert(records_bytes(recs.drop_first()) =~= seq![]);
        assert(record_bytes(recs[0]) + seq![] =~= record_bytes(recs[0]));
        assert(seq![] + record_bytes(recs[0]) =~= record_bytes(recs[0]));
    } else {
        lemma_records_bytes_front(recs.drop_last());
        assert(recs.drop_last().drop_first() =~= recs.drop_first().drop_last());
        assert(recs.drop_first().last() == recs.last());
        assert(recs.drop_last()[0] == recs[0]);
        assert(records_bytes(recs.drop_first()) == records_bytes(recs.drop_first().drop_last()) + record_bytes(recs.last()));
        assert(records_bytes(recs) =~= record_bytes(recs[0]) + records_bytes(recs.drop_first()));
    }
}

/// Split at newlines, the bytes of file-safe records are their lines.
pub proof fn lemma_records_lines(recs: Seq<(Seq<u8>, Option<Seq<u8>>)>)
    requires
        forall|i: int| 0 <= i < recs.len() ==> file_safe(#[trigger] recs[i]),
    ensures
        pieces(records_bytes(recs), 10u8) == flat_lines(recs),
    decreases recs.len(),
{
    if recs.len() == 0 {
        assert(pieces(seq![], 10u8) =~= seq![]);
    } else {
        let r = recs[0];
        let rest = recs.drop_first();
        assert forall|i: int| 0 <= i < rest.len() implies file_safe(#[trigger] rest[i]) by {
            assert(rest[i] == recs[i + 1]);
        }
        lemma_records_lines(rest);
        lemma_records_bytes_front(recs);
        assert(file_safe(recs[0]));
        match r.1 {
            Some(p) => {
                lemma_pieces_front(p, records_bytes(rest), 10u8);
                assert(record_bytes(r) + records_bytes(rest) =~= r.0.push(10u8) + (p.push(10u8) + records_bytes(rest)));
                lemma_pieces_front(r.0, p.push(10u8) + records_bytes(rest), 10u8);
                assert(flat_lines(recs) =~= seq![r.0] + (seq![p] + flat_lines(rest)));
            },
            None => {
                assert(record_bytes(r) + records_bytes(rest) =~= r.0.push(10u8) + records_bytes(rest));
                lemma_pieces_front(r.0, records_bytes(rest), 10u8);
                assert(flat_lines(recs) =~= seq![r.0] + flat_lines(rest));
            },
        }
    }
}

/// After any lines, the lines of file-safe records group back into those records.
pub proof fn lemma_group_lines(prefix: Seq<Seq<u8>>, recs: Seq<(Seq<u8>, Option<Seq<u8>>)>)
    requires
        forall|i: int| 0 <= i < recs.len() ==> file_safe(#[trigger] recs[i]),
    ensures
        records_from(prefix + flat_lines(recs), prefix.len() as int) == recs,
    decreases recs.len(),
{
    let l = prefix + flat_lines(recs);
    if recs.len() == 0 {
        assert(l =~= prefix);
        assert(records_from(l, prefix.len() as int) =~= recs);
    } else {
        let r = recs[0];
        let rest = recs.drop_first();
        assert forall|i: int| 0 <= i < rest.len() implies file_safe(#[trigger] rest[i]) by {
            assert(rest[i] == recs[i + 1]);
        }
        assert(file_safe(r));
        match r.1 {
            Some(p) => {
                let next = prefix + seq![r.0, p];
                assert(l =~= next + flat_lines(rest));
                lemma_group_lines(next, rest);
                assert(l[prefix.len() as int] == r.0);
                assert(l[prefix.len() + 1int] == p);
                assert(records_from(l, prefix.len() as int) =~= seq![(r.0, Some(p))] + rest);
            },
            None => {
                let next = prefix + seq![r.0];
                assert(l =~= next + flat_lines(rest));
                lemma_group_lines(next, rest);
                assert(l[prefix.len() as int] == r.0);
                if rest.len() > 0 {
                    assert(file_safe(rest[0]));
                    assert(l[prefix.len() + 1int] == rest[0].0);
                }
                assert(records_from(l, prefix.len() as int) =~= seq![(r.0, None)] + rest);
            },
        }
    }
}

/// A rewritten packed file reads back as the records it was written from, when each record
/// is file-safe.
pub proof fn lemma_packed_file_round_trip(recs: Seq<(Seq<u8>, Option<Seq<u8>>)>)
    requires
        forall|i: int| 0 <= i < recs.len() ==> file_safe(#[trigger] recs[i]),
    ensures
        file_records(packed_header() + records_bytes(recs)) == recs,
{
    let h = seq![35u8, 32, 112, 97, 99, 107, 45, 114, 101, 102, 115, 32, 119, 105, 116, 104, 58, 32, 112, 101, 101, 108, 101, 100, 32, 102, 117, 108, 108, 121, 45, 112, 101, 101, 108, 101, 100, 32, 115, 111, 114, 116, 101, 100, 32];
    assert(packed_header() =~= h.push(10u8));
    lemma_pieces_front(h, records_bytes(recs), 10u8);
    lemma_records_lines(recs);
    let lines = pieces(packed_header() + records_bytes(recs), 10u8);
    assert(lines =~= seq![h] + flat_lines(recs));
    assert(header_lines(lines) == 1);
    lemma_group_lines(seq![h], recs);
}

/// The record of a writable reference whose name has no newline is file-safe.
pub proof fn lemma_record_file_safe(r: PackedValue)
    requires
        writable(r),
        forall|i: int| 0 <= i < r.0.len() ==> #[trigger] r.0[i] != 10u8,
    ensures
        file_safe(record_of(r)),
{
    let line = record_of(r).0;
    assert(line[0] == r.1[0]);
    assert forall|i: int| 0 <= i < line.len() implies #[trigger] line[i] != 10u8 by {
        if i < r.1.len() {
            assert(line[i] == r.1[i]);
        } else if i > r.1.len() {
            assert(line[i] == r.0[i - r.1.len() - 1]);
        }
    }
    match r.2 {
        Some(o) => {
            let p = seq![94u8] + o;
            assert forall|i: int| 0 <= i < p.len() implies #[trigger] p[i] != 10u8 by {
                if i > 0 {
                    assert(p[i] == o[i - 1]);
                }
            }
        },
        None => {},
    }
}

} // verus!
