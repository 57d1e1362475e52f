//! The reference store as plain values: the loose references, the packed table, the names whose
//! packed entry a deletion hides until the table is rewritten, the reflog, and the names that
//! are locked.
use vstd::prelude::*;
use crate::bytes::{append, bytes_eq, decimal, decimal_bytes, to_vec, views};
use crate::name::{candidate_names, candidates, is_valid_name, valid_name};
use crate::order::{compare, lex_lt, lemma_lex_transitive};
use crate::packed::{Buffer, Corrupt, packed_lookup, parse_record, record_name, record_reference, search, well_formed, lemma_search_well_formed};
use crate::reference::{Target, Value};

verus! {

/// One loose reference: a name and what it points at.
pub struct LooseRef {
    pub name: Vec<u8>,
    pub target: Target,
}

/// Who made a change, and when.
pub struct Signature {
    pub name: Vec<u8>,
    pub email: Vec<u8>,
    /// Seconds since the Unix epoch.
    pub seconds: u64,
    /// Offset from UTC in minutes.
    pub offset_minutes: i32,
}

/// A signature as plain values.
pub struct SignatureView {
    pub name: Seq<u8>,
    pub email: Seq<u8>,
    pub seconds: u64,
    pub offset_minutes: i32,
}

impl View for Signature {
    type V = SignatureView;

    open spec fn view(&self) -> SignatureView {
        SignatureView { name: self.name@, email: self.email@, seconds: self.seconds, offset_minutes: self.offset_minutes }
    }
}

impl Signature {
    /// A copy of this signature.
    pub fn copy(&self) -> (r: Signature)
        ensures
            r@ == self@,
    {
        Signature {
            name: to_vec(self.name.as_slice()),
            email: to_vec(self.email.as_slice()),
            seconds: self.seconds,
            offset_minutes: self.offset_minutes,
        }
    }
}

/// One line of the reflog of the reference `name`.
pub struct LogLine {
    pub name: Vec<u8>,
    pub previous: Vec<u8>,
    pub new: Vec<u8>,
    pub committer: Signature,
    pub message: Vec<u8>,
}

/// A reflog line as plain values.
pub struct LogEntry {
    pub name: Seq<u8>,
    pub previous: Seq<u8>,
    pub new: Seq<u8>,
    pub committer: SignatureView,
    pub message: Seq<u8>,
}

impl View for LogLine {
    type V = LogEntry;

    open spec fn view(&self) -> LogEntry {
        LogEntry {
            name: self.name@,
            previous: self.previous@,
            new: self.new@,
            committer: self.committer@,
            message: self.message@,
        }
    }
}

/// The store as plain values.
pub struct StoreView {
    pub loose: Seq<(Seq<u8>, Value)>,
    pub packed: Seq<(Seq<u8>, Option<Seq<u8>>)>,
    pub deleted: Seq<Seq<u8>>,
    pub logs: Seq<LogEntry>,
    pub locks: Seq<Seq<u8>>,
}

/// The reference store.
pub struct Store {
    pub loose: Vec<LooseRef>,
    pub packed: Buffer,
    pub deleted: Vec<Vec<u8>>,
    pub logs: Vec<LogLine>,
    pub locks: Vec<Vec<u8>>,
}

/// The contents of the loose references.
pub open spec fn loose_views(v: Seq<LooseRef>) -> Seq<(Seq<u8>, Value)> {
    v.map_values(|r: LooseRef| (r.name@, r.target@))
}

/// The contents of the reflog.
pub open spec fn log_views(v: Seq<LogLine>) -> Seq<LogEntry> {
    v.map_values(|l: LogLine| l@)
}

impl View for Store {
    type V = StoreView;

    open spec fn view(&self) -> StoreView {
        StoreView {
            loose: loose_views(self.loose@),
            packed: self.packed@,
            deleted: views(self.deleted@),
            logs: log_views(self.logs@),
            locks: views(self.locks@),
        }
    }
}

/// No two loose references share a name.
pub open spec fn unique_names(loose: Seq<(Seq<u8>, Value)>) -> bool {
    forall|i: int, j: int| 0 <= i < loose.len() && 0 <= j < loose.len() && i != j
        ==> #[trigger] loose[i].0 != #[trigger] loose[j].0
}

/// What the loose reference called `name` points at.
pub open spec fn loose_get(loose: Seq<(Seq<u8>, Value)>, name: Seq<u8>) -> Option<Value> {
    if exists|i: int| 0 <= i < loose.len() && (#[trigger] loose[i]).0 == name {
        let i = choose|i: int| 0 <= i < loose.len() && (#[trigger] loose[i]).0 == name;
        Some(loose[i].1)
    } else {
        None
    }
}

/// The store is consistent: loose names are unique. The packed table may hold records that
/// cannot be read; only the lookups that land on one fail.
pub open spec fn store_wf(s: StoreView) -> bool {
    unique_names(s.loose)
}

/// Looking up the reference called `name`: the loose reference if there is one, else nothing
/// if a deletion hides the packed entry, else what the search of the packed table finds, which
/// fails if the search lands on a record that cannot be read.
pub open spec fn lookup(s: StoreView, name: Seq<u8>) -> Result<Option<Value>, ()> {
    match loose_get(s.loose, name) {
        Some(v) => Ok(Some(v)),
        None => if s.deleted.contains(name) {
            Ok(None)
        } else {
            match search(s.packed, name) {
                Ok(Some(x)) => Ok(Some(Value::Peeled(x.1))),
                Ok(None) => Ok(None),
                Err(_) => Err(()),
            }
        },
    }
}

/// What the reference called `name` points at, where its lookup succeeds.
pub open spec fn current(s: StoreView, name: Seq<u8>) -> Option<Value> {
    match lookup(s, name) {
        Ok(v) => v,
        Err(_) => None,
    }
}

/// The lookup of `name` lands on a packed record that cannot be read.
pub open spec fn corrupt_at(s: StoreView, name: Seq<u8>) -> bool {
    lookup(s, name) is Err
}

/// What the reference called `name` points at in a store whose packed table is well formed:
/// the loose reference, else the packed entry unless a deletion hides it.
pub open spec fn current_in_table(s: StoreView, name: Seq<u8>) -> Option<Value> {
    match loose_get(s.loose, name) {
        Some(v) => Some(v),
        None => if !s.deleted.contains(name) && packed_lookup(s.packed, name) is Some {
            Some(Value::Peeled(packed_lookup(s.packed, name)->Some_0.1))
        } else {
            None
        },
    }
}

/// With a well-formed packed table no lookup fails, and each finds what the table holds.
pub proof fn lemma_lookup_well_formed(s: StoreView, name: Seq<u8>)
    requires
        well_formed(s.packed),
    ensures
        lookup(s, name) == Ok::<Option<Value>, ()>(current_in_table(s, name)),
        current(s, name) == current_in_table(s, name),
        !corrupt_at(s, name),
{
    lemma_search_well_formed(s.packed, name, 0, s.packed.len() as int);
}

/// The reflog of the reference called `name`, oldest line first.
pub open spec fn log_of(logs: Seq<LogEntry>, name: Seq<u8>) -> Seq<LogEntry> {
    logs.filter(|e: LogEntry| e.name == name)
}

/// The most symbolic hops a resolution follows before it reports a cycle.
pub const MAX_HOPS: usize = 5;

/// Why a name could not be resolved to an object id.
#[derive(Debug, PartialEq, Eq)]
pub enum ResolveError {
    /// No reference has the name.
    NotFound { name: Vec<u8> },
    /// A symbolic reference points at a name that is not valid.
    InvalidName { name: Vec<u8> },
    /// More than the allowed number of symbolic hops: the chain loops.
    Cycle { name: Vec<u8> },
    /// The lookup of this name landed on a packed record that cannot be read.
    Corrupt { name: Vec<u8> },
}

/// The outcome of following a chain of symbolic references from `name`, with `hops` hops
/// left: the object id, or which of the four errors stops it (with the name it stopped at).
pub open spec fn follow_spec(s: StoreView, name: Seq<u8>, hops: nat) -> Result<Seq<u8>, (u8, Seq<u8>)>
    decreases hops,
{
    if corrupt_at(s, name) {
        Err((3u8, name))
    } else {
        match current(s, name) {
            None => Err((0u8, name)),
            Some(Value::Peeled(id)) => Ok(id),
            Some(Value::Symbolic(next)) => if !valid_name(next) {
                Err((1u8, next))
            } else if hops == 0 {
                Err((2u8, name))
            } else {
                follow_spec(s, next, (hops - 1) as nat)
            },
        }
    }
}

/// A resolution error as plain values: its kind (not found, invalid name, cycle, corrupt) and
/// name.
pub open spec fn resolve_error_view(e: ResolveError) -> (u8, Seq<u8>) {
    match e {
        ResolveError::NotFound { name } => (0u8, name@),
        ResolveError::InvalidName { name } => (1u8, name@),
        ResolveError::Cycle { name } => (2u8, name@),
        ResolveError::Corrupt { name } => (3u8, name@),
    }
}

/// The first of `cands` that names a reference, with what it points at; an error with the
/// candidate whose lookup lands on a packed record that cannot be read, if that comes first.
pub open spec fn first_existing(s: StoreView, cands: Seq<Seq<u8>>) -> Result<Option<(Seq<u8>, Value)>, Seq<u8>>
    decreases cands.len(),
{
    if cands.len() == 0 {
        Ok(None)
    } else if corrupt_at(s, cands[0]) {
        Err(cands[0])
    } else if current(s, cands[0]) is Some {
        Ok(Some((cands[0], current(s, cands[0])->Some_0)))
    } else {
        first_existing(s, cands.drop_first())
    }
}

/// Why a store could not be assembled.
#[derive(Debug, PartialEq, Eq)]
pub enum StoreError {
    /// Two loose references have this name.
    DuplicateName { name: Vec<u8> },
    /// A packed record cannot be read.
    Corrupt { line: Vec<u8> },
    /// The packed table is not sorted at this name.
    Unsorted { name: Vec<u8> },
}

/// Whether every record of `b` can be read and the names strictly increase.
pub fn check_packed(b: &Buffer) -> (r: Result<(), StoreError>)
    ensures
        r is Ok <==> well_formed(b@),
        !(r matches Err(StoreError::DuplicateName { .. })),
{
    let mut i: usize = 0;
    let mut last: Vec<u8> = Vec::new();
    while i < b.records.len()
        invariant
            i <= b@.len(),
            forall|k: int| 0 <= k < i ==> (#[trigger] record_reference(b@[k])) is Some,
            forall|k: int, j: int| 0 <= k < j < i ==> lex_lt(#[trigger] record_name(b@[k]), #[trigger] record_name(b@[j])),
            i > 0 ==> last@ == record_name(b@[i - 1]),
        decreases b@.len() - i,
    {
        assert(b@[i as int] == b.records@[i as int]@);
        match parse_record(&b.records[i]) {
            None => {
                return Err(StoreError::Corrupt { line: to_vec(b.records[i].line.as_slice()) });
            },
            Some(x) => {
                if i > 0 && compare(last.as_slice(), x.name.as_slice()) >= 0 {
                    assert(!lex_lt(record_name(b@[i - 1]), record_name(b@[i as int])));
                    return Err(StoreError::Unsorted { name: x.name });
                }
                proof {
                    assert forall|k: int, j: int| 0 <= k < j < i + 1 implies lex_lt(#[trigger] record_name(b@[k]), #[trigger] record_name(b@[j])) by {
                        if j == i && k < i - 1 {
                            lemma_lex_transitive(record_name(b@[k]), record_name(b@[i - 1]), record_name(b@[j]));
                        }
                    }
                }
                last = x.name;
            },
        }
        i = i + 1;
    }
    Ok(())
}

/// The position of the loose reference called `name`.
pub fn loose_index(loose: &Vec<LooseRef>, name: &[u8]) -> (r: Option<usize>)
    ensures
        match r {
            Some(i) => i < loose@.len() && loose_views(loose@)[i as int].0 == name@,
            None => forall|i: int| 0 <= i < loose@.len() ==> (#[trigger] loose_views(loose@)[i]).0 != name@,
        },
{
    let mut i: usize = 0;
    while i < loose.len()
        invariant
            i <= loose@.len(),
            forall|k: int| 0 <= k < i ==> (#[trigger] loose_views(loose@)[k]).0 != name@,
        decreases loose@.len() - i,
    {
        assert(loose_views(loose@)[i as int].0 == loose@[i as int].name@);
        if bytes_eq(loose[i].name.as_slice(), name) {
            return Some(i);
        }
        i = i + 1;
    }
    None
}

/// With unique names, the entry at `i` is the one `loose_get` gives for its name.
pub proof fn lemma_loose_get_at(loose: Seq<(Seq<u8>, Value)>, i: int)
    requires
        unique_names(loose),
        0 <= i < loose.len(),
    ensures
        loose_get(loose, loose[i].0) == Some(loose[i].1),
{
    let j = choose|j: int| 0 <= j < loose.len() && (#[trigger] loose[j]).0 == loose[i].0;
    assert(j == i);
}

/// Whether `name` is among `names`.
pub fn contains_name(names: &Vec<Vec<u8>>, name: &[u8]) -> (r: bool)
    ensures
        r == views(names@).contains(name@),
{
    crate::bytes::list_contains(names, name)
}

impl Store {
    /// Assemble a store from its loose references, its packed table and its reflog, with no
    /// names deleted or locked. Fails only if two loose references share a name: a packed
    /// record that cannot be read fails the lookups that land on it, not the store.
    pub fn new(loose: Vec<LooseRef>, packed: Buffer, logs: Vec<LogLine>) -> (r: Result<Store, StoreError>)
        ensures
            match r {
                Ok(s) => store_wf(s@) && s@.loose == loose_views(loose@) && s@.packed == packed@
                    && s@.logs == log_views(logs@) && s@.deleted.len() == 0 && s@.locks.len() == 0,
                Err(e) => e matches StoreError::DuplicateName { .. } && !unique_names(loose_views(loose@)),
            },
    {
        let mut i: usize = 0;
        while i < loose.len()
            invariant
                i <= loose@.len(),
                forall|a: int, b: int| 0 <= a < loose@.len() && 0 <= b < loose@.len() && a != b && a < i
                    ==> #[trigger] loose_views(loose@)[a].0 != #[trigger] loose_views(loose@)[b].0,
            decreases loose@.len() - i,
        {
            let mut j: usize = i + 1;
            while j < loose.len()
                invariant
                    i < loose@.len(),
                    i < j <= loose@.len(),
                    forall|a: int, b: int| 0 <= a < loose@.len() && 0 <= b < loose@.len() && a != b && a < i
                        ==> #[trigger] loose_views(loose@)[a].0 != #[trigger] loose_views(loose@)[b].0,
                    forall|b: int| i < b < j ==> loose_views(loose@)[i as int].0 != #[trigger] loose_views(loose@)[b].0,
                decreases loose@.len() - j,
            {
                assert(loose_views(loose@)[i as int].0 == loose@[i as int].name@);
                assert(loose_views(loose@)[j as int].0 == loose@[j as int].name@);
                if bytes_eq(loose[i].name.as_slice(), loose[j].name.as_slice()) {
                    assert(loose_views(loose@)[i as int].0 == loose_views(loose@)[j as int].0);
                    return Err(StoreError::DuplicateName { name: to_vec(loose[i].name.as_slice()) });
                }
                j = j + 1;
            }
            i = i + 1;
        }
        let r = Store { loose, packed, deleted: Vec::new(), logs, locks: Vec::new() };
        assert(r@.deleted =~= seq![]);
        assert(r@.locks =~= seq![]);
        Ok(r)
    }

    /// What the reference called `name` points at: the loose reference, else the packed entry
    /// unless a deletion hides it. Fails only if the search of the packed table lands on a
    /// record that cannot be read.
    pub fn find(&self, name: &[u8]) -> (r: Result<Option<Target>, Corrupt>)
        requires
            store_wf(self@),
        ensures
            match r {
                Ok(Some(t)) => lookup(self@, name@) == Ok::<Option<Value>, ()>(Some(t@)),
                Ok(None) => lookup(self@, name@) == Ok::<Option<Value>, ()>(None),
                Err(_) => corrupt_at(self@, name@),
            },
    {
        match loose_index(&self.loose, name) {
            Some(i) => {
                proof {
                    lemma_loose_get_at(self@.loose, i as int);
                }
                Ok(Some(self.loose[i].target.copy()))
            },
            None => {
                if contains_name(&self.deleted, name) {
                    return Ok(None);
                }
                match self.packed.find(name) {
                    Ok(Some(x)) => Ok(Some(Target::Peeled(x.target))),
                    Ok(None) => Ok(None),
                    Err(e) => Err(e),
                }
            },
        }
    }

    /// Follow symbolic references from `name` to an object id, at most `MAX_HOPS` hops. Fails
    /// if a name along the way does not exist, if a symbolic reference points at an invalid
    /// name, if the hops run out, which is how a cycle shows, or if a lookup lands on a packed
    /// record that cannot be read.
    pub fn follow(&self, name: &[u8]) -> (r: Result<Vec<u8>, ResolveError>)
        requires
            store_wf(self@),
        ensures
            match r {
                Ok(id) => follow_spec(self@, name@, MAX_HOPS as nat) == Ok::<Seq<u8>, (u8, Seq<u8>)>(id@),
                Err(e) => follow_spec(self@, name@, MAX_HOPS as nat) == Err::<Seq<u8>, (u8, Seq<u8>)>(resolve_error_view(e)),
            },
    {
        let mut cur = to_vec(name);
        let mut hops: usize = MAX_HOPS;
        loop
            invariant
                store_wf(self@),
                hops <= MAX_HOPS,
                follow_spec(self@, name@, MAX_HOPS as nat) == follow_spec(self@, cur@, hops as nat),
            decreases hops,
        {
            match self.find(cur.as_slice()) {
                Err(_) => {
                    return Err(ResolveError::Corrupt { name: cur });
                },
                Ok(None) => {
                    return Err(ResolveError::NotFound { name: cur });
                },
                Ok(Some(Target::Peeled(id))) => {
                    return Ok(id);
                },
                Ok(Some(Target::Symbolic(next))) => {
                    if !is_valid_name(next.as_slice()) {
                        return Err(ResolveError::InvalidName { name: next });
                    }
                    if hops == 0 {
                        return Err(ResolveError::Cycle { name: cur });
                    }
                    hops = hops - 1;
                    cur = next;
                },
            }
        }
    }

    /// Resolve a partial name: the first of its candidate full names that names a reference,
    /// with what that reference points at. Fails with the candidate whose lookup lands on a
    /// packed record that cannot be read, if that comes first.
    pub fn find_partial(&self, partial: &[u8]) -> (r: Result<Option<(Vec<u8>, Target)>, Vec<u8>>)
        requires
            store_wf(self@),
        ensures
            match r {
                Ok(Some((n, t))) => first_existing(self@, candidate_names(partial@))
                    == Ok::<Option<(Seq<u8>, Value)>, Seq<u8>>(Some((n@, t@))),
                Ok(None) => first_existing(self@, candidate_names(partial@)) == Ok::<Option<(Seq<u8>, Value)>, Seq<u8>>(None),
                Err(c) => first_existing(self@, candidate_names(partial@)) == Err::<Option<(Seq<u8>, Value)>, Seq<u8>>(c@),
            },
    {
        let cands = candidates(partial);
        let mut i: usize = 0;
        assert(views(cands@).subrange(0, views(cands@).len() as int) =~= views(cands@));
        while i < cands.len()
            invariant
                store_wf(self@),
                i <= cands@.len(),
                views(cands@) == candidate_names(partial@),
                first_existing(self@, candidate_names(partial@))
                    == first_existing(self@, views(cands@).subrange(i as int, cands@.len() as int)),
            decreases cands@.len() - i,
        {
            let ghost rest = views(cands@).subrange(i as int, cands@.len() as int);
            assert(rest[0] == cands@[i as int]@);
            assert(rest.drop_first() =~= views(cands@).subrange(i + 1, cands@.len() as int));
            match self.find(cands[i].as_slice()) {
                Ok(Some(t)) => {
                    return Ok(Some((to_vec(cands[i].as_slice()), t)));
                },
                Ok(None) => {},
                Err(_) => {
                    return Err(to_vec(cands[i].as_slice()));
                },
            }
            i = i + 1;
        }
        Ok(None)
    }
}

/// The loose table after removing the entry at `i`: every other name keeps its value.
pub proof fn lemma_loose_remove_at(loose: Seq<(Seq<u8>, Value)>, i: int)
    requires
        unique_names(loose),
        0 <= i < loose.len(),
    ensures
        unique_names(loose.remove(i)),
        forall|m: Seq<u8>| #[trigger] loose_get(loose.remove(i), m)
            == if m == loose[i].0 { None } else { loose_get(loose, m) },
{
    let r = loose.remove(i);
    assert forall|a: int, b: int| 0 <= a < r.len() && 0 <= b < r.len() && a != b implies #[trigger] r[a].0 != #[trigger] r[b].0 by {
        let a2 = if a < i { a } else { a + 1 };
        let b2 = if b < i { b } else { b + 1 };
        assert(r[a] == loose[a2]);
        assert(r[b] == loose[b2]);
    }
    assert forall|m: Seq<u8>| #[trigger] loose_get(r, m) == if m == loose[i].0 { None } else { loose_get(loose, m) } by {
        if m == loose[i].0 {
            assert forall|k: int| 0 <= k < r.len() implies (#[trigger] r[k]).0 != m by {
                let k2 = if k < i { k } else { k + 1 };
                assert(r[k] == loose[k2]);
            }
        } else if exists|k: int| 0 <= k < loose.len() && (#[trigger] loose[k]).0 == m {
            let k = choose|k: int| 0 <= k < loose.len() && (#[trigger] loose[k]).0 == m;
            lemma_loose_get_at(loose, k);
            let k2 = if k < i { k } else { k - 1 };
            assert(r[k2] == loose[k]);
            lemma_loose_get_at(r, k2);
        } else {
            assert forall|k: int| 0 <= k < r.len() implies (#[trigger] r[k]).0 != m by {
                let k2 = if k < i { k } else { k + 1 };
                assert(r[k] == loose[k2]);
            }
        }
    }
}

/// Remove the loose reference called `name`, if there is one.
pub fn loose_remove(loose: &mut Vec<LooseRef>, name: &[u8])
    requires
        unique_names(loose_views(old(loose)@)),
    ensures
        unique_names(loose_views(final(loose)@)),
        forall|m: Seq<u8>| #[trigger] loose_get(loose_views(final(loose)@), m)
            == if m == name@ { None } else { loose_get(loose_views(old(loose)@), m) },
{
    match loose_index(loose, name) {
        Some(i) => {
            let ghost before = loose_views(loose@);
            proof {
                lemma_loose_remove_at(before, i as int);
            }
            loose.remove(i);
            assert(loose_views(loose@) =~= before.remove(i as int));
        },
        None => {
            assert forall|m: Seq<u8>| #[trigger] loose_get(loose_views(loose@), m)
                == if m == name@ { None } else { loose_get(loose_views(loose@), m) } by {
            }
        },
    }
}

/// Point the loose reference called `name` at `target`, creating it if needed.
pub fn loose_set(loose: &mut Vec<LooseRef>, name: Vec<u8>, target: Target)
    requires
        unique_names(loose_views(old(loose)@)),
    ensures
        unique_names(loose_views(final(loose)@)),
        forall|m: Seq<u8>| #[trigger] loose_get(loose_views(final(loose)@), m)
            == if m == name@ { Some(target@) } else { loose_get(loose_views(old(loose)@), m) },
{
    let ghost before = loose_views(loose@);
    loose_remove(loose, name.as_slice());
    let ghost mid = loose_views(loose@);
    let ghost entry = (name@, target@);
    loose.push(LooseRef { name, target });
    let ghost after = loose_views(loose@);
    assert(after =~= mid.push(entry));
    assert forall|a: int, b: int| 0 <= a < after.len() && 0 <= b < after.len() && a != b implies #[trigger] after[a].0 != #[trigger] after[b].0 by {
        if a == mid.len() as int {
            assert(loose_get(mid, entry.0) is None);
        } else if b == mid.len() as int {
            assert(loose_get(mid, entry.0) is None);
        }
    }
    assert forall|m: Seq<u8>| #[trigger] loose_get(after, m)
        == if m == entry.0 { Some(entry.1) } else { loose_get(before, m) } by {
        if m == entry.0 {
            lemma_loose_get_at(after, mid.len() as int);
        } else if exists|k: int| 0 <= k < mid.len() && (#[trigger] mid[k]).0 == m {
            assert(loose_get(mid, m) == loose_get(before, m));
            let k = choose|k: int| 0 <= k < mid.len() && (#[trigger] mid[k]).0 == m;
            lemma_loose_get_at(mid, k);
            assert(after[k] == mid[k]);
            lemma_loose_get_at(after, k);
        } else {
            assert(loose_get(mid, m) == loose_get(before, m));
            assert forall|k: int| 0 <= k < after.len() implies (#[trigger] after[k]).0 != m by {
                if k < mid.len() {
                    assert(after[k] == mid[k]);
                }
            }
        }
    }
}

/// A chain of two symbolic references ending at an id resolves to that id.
pub proof fn lemma_chain_resolves(s: StoreView, a: Seq<u8>, b: Seq<u8>, c: Seq<u8>, id: Seq<u8>)
    requires
        lookup(s, a) == Ok::<Option<Value>, ()>(Some(Value::Symbolic(b))),
        lookup(s, b) == Ok::<Option<Value>, ()>(Some(Value::Symbolic(c))),
        lookup(s, c) == Ok::<Option<Value>, ()>(Some(Value::Peeled(id))),
        valid_name(b),
        valid_name(c),
    ensures
        follow_spec(s, a, MAX_HOPS as nat) == Ok::<Seq<u8>, (u8, Seq<u8>)>(id),
{
    reveal_with_fuel(follow_spec, 4);
}

/// Two symbolic references that point at each other fail to resolve, as a cycle.
pub proof fn lemma_two_cycle(s: StoreView, a: Seq<u8>, b: Seq<u8>)
    requires
        lookup(s, a) == Ok::<Option<Value>, ()>(Some(Value::Symbolic(b))),
        lookup(s, b) == Ok::<Option<Value>, ()>(Some(Value::Symbolic(a))),
        valid_name(a),
        valid_name(b),
    ensures
        follow_spec(s, a, MAX_HOPS as nat) is Err,
        follow_spec(s, a, MAX_HOPS as nat)->Err_0.0 == 2u8,
{
    reveal_with_fuel(follow_spec, 7);
}

/// `n` in decimal, with a leading zero if it has one digit.
pub open spec fn padded(n: nat) -> Seq<u8> {
    if n < 10 {
        seq![48u8, (48 + n) as u8]
    } else {
        decimal(n)
    }
}

/// A UTC offset in minutes as written in a reflog: a sign, then hours and minutes.
pub open spec fn offset_bytes(minutes: i32) -> Seq<u8> {
    let a: nat = if minutes < 0 { (-minutes) as nat } else { minutes as nat };
    seq![if minutes < 0 { 45u8 } else { 43u8 }] + padded(a / 60) + padded(a % 60)
}

/// A reflog line as written in the reflog file:
/// `<previous> <new> <name> <<email>> <seconds> <offset>\t<message>\n`.
pub open spec fn log_line_bytes(e: LogEntry) -> Seq<u8> {
    e.previous + seq![32u8] + e.new + seq![32u8] + e.committer.name + seq![32u8, 60u8] + e.committer.email
        + seq![62u8, 32u8] + decimal(e.committer.seconds as nat) + seq![32u8] + offset_bytes(e.committer.offset_minutes)
        + seq![9u8] + e.message + seq![10u8]
}

/// `n` in decimal, with a leading zero if it has one digit.
pub fn padded_bytes(n: u64) -> (r: Vec<u8>)
    ensures
        r@ == padded(n as nat),
{
    if n < 10 {
        let mut r: Vec<u8> = Vec::new();
        r.push(48u8);
        r.push((48 + n) as u8);
        assert(r@ =~= padded(n as nat));
        r
    } else {
        decimal_bytes(n)
    }
}

impl LogLine {
    /// This line as written in the reflog file.
    pub fn to_bytes(&self) -> (r: Vec<u8>)
        ensures
            r@ == log_line_bytes(self@),
    {
        let mut out = to_vec(self.previous.as_slice());
        out.push(32u8);
        append(&mut out, self.new.as_slice());
        out.push(32u8);
        append(&mut out, self.committer.name.as_slice());
        out.push(32u8);
        out.push(60u8);
        append(&mut out, self.committer.email.as_slice());
        out.push(62u8);
        out.push(32u8);
        let secs = decimal_bytes(self.committer.seconds);
        append(&mut out, secs.as_slice());
        out.push(32u8);
        let m = self.committer.offset_minutes as i64;
        let a: u64 = if m < 0 { (-m) as u64 } else { m as u64 };
        out.push(if m < 0 { 45u8 } else { 43u8 });
        let h = padded_bytes(a / 60);
        append(&mut out, h.as_slice());
        let mm = padded_bytes(a % 60);
        append(&mut out, mm.as_slice());
        out.push(9u8);
        append(&mut out, self.message.as_slice());
        out.push(10u8);
        assert(out@ =~= log_line_bytes(self@));
        out
    }
}

} // verus!
