//! Transactions: a batch of edits is validated and locked name by name (prepare), then
//! applied name by name with each lock released right after its write (commit), or dropped
//! with its locks released (abort).
use vstd::prelude::*;
use crate::bytes::{to_vec, views, lemma_filter_step};
use crate::name::{is_valid_name, valid_name};
use crate::reference::{null_id, null_id_bytes, Target, Value};
use crate::store::{
    contains_name, corrupt_at, current, lookup, log_of, log_views, loose_get, loose_remove, loose_set, loose_views,
    store_wf, MAX_HOPS, LogEntry, LogLine, Signature, SignatureView, Store, StoreView,
};

verus! {

/// What an edit expects the reference to hold before it is applied.
pub enum PreviousValue {
    /// The reference must not exist.
    MustNotExist,
    /// The reference must exist and point at this target.
    MustExistAndMatch(Target),
    /// Anything, including nothing.
    Any,
}

/// How an update is logged.
pub struct LogChange {
    /// Append a reflog line.
    pub write: bool,
    /// Create the reflog if the reference has none yet.
    pub force_create_reflog: bool,
    /// The message of the line.
    pub message: Vec<u8>,
}

/// The change an edit makes.
pub enum Change {
    /// Point the reference at `new`, creating it if needed.
    Update { log: LogChange, expected: PreviousValue, new: Target },
    /// Remove the reference, and its reflog if `remove_reflog` is set.
    Delete { expected: PreviousValue, remove_reflog: bool },
}

/// One proposed change to one reference.
pub struct RefEdit {
    pub change: Change,
    /// The full name of the reference.
    pub name: Vec<u8>,
    /// If the reference is symbolic, apply the change to the reference it points at.
    pub deref: bool,
}

/// Why an edit could not be prepared.
#[derive(Clone, Copy, Debug, PartialEq, Eq, Structural)]
pub enum ErrorKind {
    /// The name of the edit, or the name it leads to, is not valid.
    InvalidName,
    /// The name is locked already, by another transaction or by an earlier edit of this one.
    LockHeld,
    /// The reference does not hold what the edit expects.
    PreconditionMismatch,
    /// The edit expects the reference to exist, and it does not.
    NotFound,
    /// The edit follows symbolic references, and they do not end within the allowed hops.
    Cycle,
    /// The lookup of the name lands on a packed record that cannot be read.
    Corrupt,
}

/// The first edit of a batch that could not be prepared.
#[derive(Debug)]
pub struct PrepareError {
    /// Its position in the batch.
    pub index: usize,
    /// Its name.
    pub name: Vec<u8>,
    pub kind: ErrorKind,
}

/// A prepared batch: the edits, the names they apply to, which are locked, and what each
/// reference held when it was locked.
pub struct Transaction {
    pub edits: Vec<RefEdit>,
    pub names: Vec<Vec<u8>>,
    pub previous: Vec<Option<Target>>,
}

/// The contents of an optional target.
pub open spec fn opt_value(t: Option<Target>) -> Option<Value> {
    match t {
        Some(t) => Some(t@),
        None => None,
    }
}

/// What an edit expects.
pub open spec fn expected_of(e: RefEdit) -> PreviousValue {
    match e.change {
        Change::Update { expected, .. } => expected,
        Change::Delete { expected, .. } => expected,
    }
}

/// The name at the end of the chain of symbolic references from `name`, following at most
/// `hops` of them; `None` if the chain is longer, which is how a cycle shows.
pub open spec fn deref_chain(s: StoreView, name: Seq<u8>, hops: nat) -> Option<Seq<u8>>
    decreases hops,
{
    match current(s, name) {
        Some(Value::Symbolic(t)) => if hops == 0 {
            None
        } else {
            deref_chain(s, t, (hops - 1) as nat)
        },
        _ => Some(name),
    }
}

/// The name an edit applies to: the end of the chain of symbolic references from its name if
/// the edit asks to follow them, else its own name.
pub open spec fn target_name(s: StoreView, e: RefEdit) -> Seq<u8> {
    if e.deref {
        match deref_chain(s, e.name@, MAX_HOPS as nat) {
            Some(n) => n,
            None => e.name@,
        }
    } else {
        e.name@
    }
}

/// The names the edits of a batch apply to.
pub open spec fn target_names(s: StoreView, edits: Seq<RefEdit>) -> Seq<Seq<u8>> {
    edits.map_values(|e: RefEdit| target_name(s, e))
}

/// How the value `cur` fails the expectation `exp`, if it does.
pub open spec fn expectation_failure(cur: Option<Value>, exp: PreviousValue) -> Option<ErrorKind> {
    match exp {
        PreviousValue::Any => None,
        PreviousValue::MustNotExist => if cur is Some {
            Some(ErrorKind::PreconditionMismatch)
        } else {
            None
        },
        PreviousValue::MustExistAndMatch(t) => match cur {
            None => Some(ErrorKind::NotFound),
            Some(v) => if v == t@ {
                None
            } else {
                Some(ErrorKind::PreconditionMismatch)
            },
        },
    }
}

/// How edit `e` fails when `locks` are held: its names must be valid, the lookup of the name it
/// applies to must not land on a packed record that cannot be read, the reference must hold
/// what it expects, and its name must not be locked.
pub open spec fn edit_failure(s: StoreView, locks: Seq<Seq<u8>>, e: RefEdit) -> Option<ErrorKind> {
    let n = target_name(s, e);
    if !valid_name(e.name@) {
        Some(ErrorKind::InvalidName)
    } else if e.deref && deref_chain(s, e.name@, MAX_HOPS as nat) is None {
        Some(ErrorKind::Cycle)
    } else if !valid_name(n) {
        Some(ErrorKind::InvalidName)
    } else if corrupt_at(s, n) {
        Some(ErrorKind::Corrupt)
    } else if expectation_failure(current(s, n), expected_of(e)) is Some {
        expectation_failure(current(s, n), expected_of(e))
    } else if locks.contains(n) {
        Some(ErrorKind::LockHeld)
    } else {
        None
    }
}

/// How edit `i` of a batch fails, after the edits before it took their locks.
pub open spec fn failure_at(s: StoreView, edits: Seq<RefEdit>, i: int) -> Option<ErrorKind> {
    edit_failure(s, s.locks + target_names(s, edits.take(i)), edits[i])
}

/// No name occurs twice.
pub open spec fn distinct(names: Seq<Seq<u8>>) -> bool {
    forall|a: int, b: int| 0 <= a < names.len() && 0 <= b < names.len() && a != b ==> #[trigger] names[a] != #[trigger] names[b]
}

/// A transaction is consistent: one name and one previous value per edit, no name twice.
pub open spec fn tx_wf(tx: Transaction) -> bool {
    tx.edits@.len() == tx.names@.len() && tx.names@.len() == tx.previous@.len() && distinct(views(tx.names@))
}

/// What the reference an edit applies to holds once the edit is applied.
pub open spec fn new_value(e: RefEdit) -> Option<Value> {
    match e.change {
        Change::Update { new, .. } => Some(new@),
        Change::Delete { .. } => None,
    }
}

/// The id a reflog line records for a previous value: its id, or the null id.
pub open spec fn previous_id(prev: Option<Value>) -> Seq<u8> {
    match prev {
        Some(Value::Peeled(id)) => id,
        _ => null_id(),
    }
}

/// The reflog of `n` after edit `e` is applied to it: an update to an id appends one line if a
/// line is asked for and the reflog exists or is to be created; a deletion may remove it.
pub open spec fn step_log(l: Seq<LogEntry>, n: Seq<u8>, e: RefEdit, prev: Option<Value>, c: SignatureView) -> Seq<LogEntry> {
    match e.change {
        Change::Update { log, new, .. } => match new {
            Target::Peeled(id) => if log.write && (log.force_create_reflog || l.len() > 0) {
                l.push(LogEntry { name: n, previous: previous_id(prev), new: id@, committer: c, message: log.message@ })
            } else {
                l
            },
            Target::Symbolic(_) => l,
        },
        Change::Delete { remove_reflog, .. } => if remove_reflog {
            seq![]
        } else {
            l
        },
    }
}

/// What the reference called `m` holds after the first `i` edits of `tx` are applied to `s`.
pub open spec fn applied_value(s: StoreView, tx: Transaction, i: int, m: Seq<u8>) -> Option<Value>
    decreases i,
{
    if i <= 0 {
        current(s, m)
    } else if tx.names@[i - 1]@ == m {
        new_value(tx.edits@[i - 1])
    } else {
        applied_value(s, tx, i - 1, m)
    }
}

/// The reflog of `m` after the first `i` edits of `tx` are applied, with committer `c`.
pub open spec fn applied_log(s: StoreView, tx: Transaction, c: SignatureView, i: int, m: Seq<u8>) -> Seq<LogEntry>
    decreases i,
{
    if i <= 0 {
        log_of(s.logs, m)
    } else if tx.names@[i - 1]@ == m {
        step_log(applied_log(s, tx, c, i - 1, m), m, tx.edits@[i - 1], opt_value(tx.previous@[i - 1]), c)
    } else {
        applied_log(s, tx, c, i - 1, m)
    }
}

/// With distinct names, only the edit for `m` decides what `m` holds after the batch.
pub proof fn lemma_applied_value(s: StoreView, tx: Transaction, i: int, k: int)
    requires
        tx_wf(tx),
        0 <= k < i <= tx.names@.len(),
    ensures
        applied_value(s, tx, i, tx.names@[k]@) == new_value(tx.edits@[k]),
    decreases i,
{
    if i - 1 != k {
        assert(views(tx.names@)[i - 1] != views(tx.names@)[k]);
        lemma_applied_value(s, tx, i - 1, k);
    }
}

/// With distinct names, only the edit for `m` decides the reflog of `m` after the batch.
pub proof fn lemma_applied_log(s: StoreView, tx: Transaction, c: SignatureView, i: int, k: int)
    requires
        tx_wf(tx),
        0 <= k < i <= tx.names@.len(),
    ensures
        applied_log(s, tx, c, i, tx.names@[k]@) == step_log(log_of(s.logs, tx.names@[k]@), tx.names@[k]@,
            tx.edits@[k], opt_value(tx.previous@[k]), c),
    decreases i,
{
    if i - 1 != k {
        assert(views(tx.names@)[i - 1] != views(tx.names@)[k]);
        lemma_applied_log(s, tx, c, i - 1, k);
    } else {
        assert forall|j: int| 0 <= j < k implies tx.names@[j]@ != tx.names@[k]@ by {
            assert(views(tx.names@)[j] != views(tx.names@)[k]);
        }
        lemma_untouched(s, tx, c, k, tx.names@[k]@);
    }
}

/// A name no edit among the first `i` applies to keeps its value and its reflog.
pub proof fn lemma_untouched(s: StoreView, tx: Transaction, c: SignatureView, i: int, m: Seq<u8>)
    requires
        0 <= i <= tx.names@.len(),
        forall|k: int| 0 <= k < i ==> tx.names@[k]@ != m,
    ensures
        applied_value(s, tx, i, m) == current(s, m),
        applied_log(s, tx, c, i, m) == log_of(s.logs, m),
    decreases i,
{
    if i > 0 {
        lemma_untouched(s, tx, c, i - 1, m);
    }
}

/// How `cur` fails the expectation `exp`.
fn check_expectation(cur: &Option<Target>, exp: &PreviousValue) -> (r: Option<ErrorKind>)
    ensures
        r == expectation_failure(opt_value(*cur), *exp),
{
    match exp {
        PreviousValue::Any => None,
        PreviousValue::MustNotExist => match cur {
            Some(_) => Some(ErrorKind::PreconditionMismatch),
            None => None,
        },
        PreviousValue::MustExistAndMatch(t) => match cur {
            None => Some(ErrorKind::NotFound),
            Some(v) => if v.same_as(t) {
                None
            } else {
                Some(ErrorKind::PreconditionMismatch)
            },
        },
    }
}

/// Appending `x` to the reflog adds it to the log of its own name only.
pub proof fn lemma_log_push(logs: Seq<LogEntry>, x: LogEntry, m: Seq<u8>)
    ensures
        log_of(logs.push(x), m) == if x.name == m { log_of(logs, m).push(x) } else { log_of(logs, m) },
{
    let p = |e: LogEntry| e.name == m;
    lemma_filter_step(logs.push(x), p, logs.len() as int);
    assert(logs.push(x).subrange(0, logs.len() + 1 as int) =~= logs.push(x));
    assert(logs.push(x).subrange(0, logs.len() as int) =~= logs);
}

/// The reflog without the lines of `name`.
fn remove_log(logs: &mut Vec<LogLine>, name: &[u8])
    ensures
        forall|m: Seq<u8>| #[trigger] log_of(log_views(final(logs)@), m)
            == if m == name@ { seq![] } else { log_of(log_views(old(logs)@), m) },
{
    let ghost all = log_views(logs@);
    let mut kept: Vec<LogLine> = Vec::new();
    let mut rest: Vec<LogLine> = Vec::new();
    std::mem::swap(logs, &mut rest);
    let mut i: usize = 0;
    let ghost orig = rest@;
    assert(log_views(orig) == all);
    while rest.len() > 0
        invariant
            rest@.len() <= orig.len(),
            rest@ == orig.subrange(orig.len() - rest@.len(), orig.len() as int),
            forall|m: Seq<u8>| #[trigger] log_of(log_views(kept@), m)
                == if m == name@ { seq![] } else { log_of(all.subrange(0, orig.len() - rest@.len()), m) },
            all == log_views(orig),
        decreases rest@.len(),
    {
        let ghost done = orig.len() - rest@.len();
        let line = rest.remove(0);
        assert(line == orig[done]);
        assert(rest@ =~= orig.subrange(orig.len() - rest@.len(), orig.len() as int));
        let ghost lv = line@;
        assert(all[done] == lv);
        let keep = !crate::bytes::bytes_eq(line.name.as_slice(), name);
        let ghost before = log_views(kept@);
        if keep {
            kept.push(line);
            assert(log_views(kept@) =~= before.push(lv));
        }
        assert forall|m: Seq<u8>| #[trigger] log_of(log_views(kept@), m)
            == if m == name@ { seq![] } else { log_of(all.subrange(0, done + 1), m) } by {
            let p = |e: LogEntry| e.name == m;
            lemma_filter_step(all, p, done);
            if keep {
                lemma_log_push(before, lv, m);
            }
        }
    }
    assert(all.subrange(0, orig.len() as int) =~= all);
    *logs = kept;
}

/// Whether the reference called `name` has a reflog.
fn has_log(logs: &Vec<LogLine>, name: &[u8]) -> (r: bool)
    ensures
        r == (log_of(log_views(logs@), name@).len() > 0),
{
    let ghost all = log_views(logs@);
    let ghost p = |e: LogEntry| e.name == name@;
    let mut i: usize = 0;
    assert(all.subrange(0, 0).filter(p) =~= seq![]) by {
        reveal(Seq::filter);
    }
    while i < logs.len()
        invariant
            i <= logs@.len(),
            all == log_views(logs@),
            p == (|e: LogEntry| e.name == name@),
            all.subrange(0, i as int).filter(p).len() == 0,
        decreases logs@.len() - i,
    {
        proof {
            lemma_filter_step(all, p, i as int);
        }
        assert(all[i as int] == logs@[i as int]@);
        if crate::bytes::bytes_eq(logs[i].name.as_slice(), name) {
            proof {
                lemma_filter_prefix_len(all, p, i + 1);
            }
            assert(all.subrange(0, i + 1).filter(p).len() > 0);
            return true;
        }
        i = i + 1;
    }
    assert(all.subrange(0, all.len() as int) =~= all);
    false
}

/// Filtering a prefix keeps no more than filtering the whole.
pub proof fn lemma_filter_prefix_len<A>(s: Seq<A>, p: spec_fn(A) -> bool, i: int)
    requires
        0 <= i <= s.len(),
    ensures
        s.subrange(0, i).filter(p).len() <= s.filter(p).len(),
    decreases s.len() - i,
{
    if i < s.len() {
        lemma_filter_prefix_len(s, p, i + 1);
        lemma_filter_step(s, p, i);
    } else {
        assert(s.subrange(0, i) =~= s);
    }
}

/// A sequence with `x` appended contains what it contained, and `x`.
pub proof fn lemma_push_contains(s: Seq<Seq<u8>>, x: Seq<u8>, m: Seq<u8>)
    ensures
        s.push(x).contains(m) == (m == x || s.contains(m)),
{
    if m == x {
        assert(s.push(x)[s.len() as int] == x);
    }
    if s.contains(m) {
        let j = choose|j: int| 0 <= j < s.len() && s[j] == m;
        assert(s.push(x)[j] == m);
    }
    if s.push(x).contains(m) {
        let j = choose|j: int| 0 <= j < s.len() + 1 && s.push(x)[j] == m;
        if j < s.len() {
            assert(s[j] == m);
        }
    }
}

/// `locks` without the names of `names`.
fn release(locks: &mut Vec<Vec<u8>>, names: &Vec<Vec<u8>>)
    ensures
        views(final(locks)@) == views(old(locks)@).filter(|m: Seq<u8>| !views(names@).contains(m)),
{
    let ghost all = views(locks@);
    let ghost p = |m: Seq<u8>| !views(names@).contains(m);
    let mut kept: Vec<Vec<u8>> = Vec::new();
    let mut i: usize = 0;
    assert(all.subrange(0, 0).filter(p) =~= seq![]) by {
        reveal(Seq::filter);
    }
    while i < locks.len()
        invariant
            i <= locks@.len(),
            all == views(locks@),
            p == (|m: Seq<u8>| !views(names@).contains(m)),
            views(kept@) == all.subrange(0, i as int).filter(p),
        decreases locks@.len() - i,
    {
        proof {
            lemma_filter_step(all, p, i as int);
        }
        assert(all[i as int] == locks@[i as int]@);
        if !contains_name(names, locks[i].as_slice()) {
            let ghost before = views(kept@);
            kept.push(to_vec(locks[i].as_slice()));
            assert(views(kept@) =~= before.push(all[i as int]));
        }
        i = i + 1;
    }
    assert(all.subrange(0, all.len() as int) =~= all);
    *locks = kept;
}

impl Store {
    /// Prepare a batch: for each edit in order, check its names, check that the reference holds
    /// what the edit expects, and lock the name it applies to. On the first edit that fails,
    /// every lock this batch took is released and the store is left as it was.
    pub fn prepare(&mut self, edits: Vec<RefEdit>) -> (r: Result<Transaction, PrepareError>)
        requires
            store_wf(old(self)@),
        ensures
            store_wf(final(self)@),
            final(self)@.loose == old(self)@.loose,
            final(self)@.packed == old(self)@.packed,
            final(self)@.deleted == old(self)@.deleted,
            final(self)@.logs == old(self)@.logs,
            match r {
                Ok(tx) => (forall|i: int| 0 <= i < edits@.len() ==> failure_at(old(self)@, edits@, i) is None)
                    && tx_wf(tx) && tx.edits@ == edits@
                    && views(tx.names@) == target_names(old(self)@, edits@)
                    && (forall|i: int| 0 <= i < edits@.len() ==> #[trigger] opt_value(tx.previous@[i])
                        == current(old(self)@, target_names(old(self)@, edits@)[i]))
                    && final(self)@.locks == old(self)@.locks + target_names(old(self)@, edits@),
                Err(e) => e.index < edits@.len() && failure_at(old(self)@, edits@, e.index as int) == Some(e.kind)
                    && (forall|k: int| 0 <= k < e.index ==> failure_at(old(self)@, edits@, k) is None)
                    && e.name@ == edits@[e.index as int].name@
                    && final(self)@ == old(self)@,
            },
    {
        let ghost s0 = self@;
        let orig = self.locks.len();
        let ghost orig_locks = self.locks@;
        let mut names: Vec<Vec<u8>> = Vec::new();
        let mut previous: Vec<Option<Target>> = Vec::new();
        let mut i: usize = 0;
        while i < edits.len()
            invariant
                store_wf(self@),
                self@.loose == s0.loose,
                self@.packed == s0.packed,
                self@.deleted == s0.deleted,
                self@.logs == s0.logs,
                orig == s0.locks.len(),
                orig_locks == old(self).locks@,
                s0 == old(self)@,
                i <= edits@.len(),
                names@.len() == i,
                previous@.len() == i,
                views(names@) == target_names(s0, edits@.take(i as int)),
                self.locks@.len() == orig + i,
                self.locks@.subrange(0, orig as int) == orig_locks,
                views(self.locks@) == s0.locks + views(names@),
                distinct(views(names@)),
                forall|k: int| 0 <= k < i ==> failure_at(s0, edits@, k) is None,
                forall|k: int| 0 <= k < i ==> #[trigger] opt_value(previous@[k]) == current(s0, views(names@)[k]),
            decreases edits@.len() - i,
        {
            let e = &edits[i];
            proof {
                assert(self@ == with_locks(s0, views(names@)));
                lemma_deref_chain_locks(s0, views(names@), edits@[i as int].name@, MAX_HOPS as nat);
            }
            let chain = if e.deref { self.deref_target(e.name.as_slice()) } else { Some(to_vec(e.name.as_slice())) };
            let cycle = chain.is_none();
            let n: Vec<u8> = match chain {
                Some(t) => t,
                None => to_vec(e.name.as_slice()),
            };
            assert(n@ == target_name(s0, edits@[i as int]));
            assert(edits@.take(i as int) =~= edits@.take(i + 1).take(i as int));
            assert(target_names(s0, edits@.take(i + 1)) =~= target_names(s0, edits@.take(i as int)).push(n@));
            let valid_own = is_valid_name(e.name.as_slice());
            let valid_target = is_valid_name(n.as_slice());
            let found = self.find(n.as_slice());
            let corrupt = found.is_err();
            let cur: Option<Target> = match found {
                Ok(v) => v,
                Err(_) => None,
            };
            let expected = match &e.change {
                Change::Update { expected, .. } => expected,
                Change::Delete { expected, .. } => expected,
            };
            let fail: Option<ErrorKind> = if !valid_own {
                Some(ErrorKind::InvalidName)
            } else if cycle {
                Some(ErrorKind::Cycle)
            } else if !valid_target {
                Some(ErrorKind::InvalidName)
            } else if corrupt {
                Some(ErrorKind::Corrupt)
            } else {
                match check_expectation(&cur, expected) {
                    Some(k) => Some(k),
                    None => if contains_name(&self.locks, n.as_slice()) {
                        Some(ErrorKind::LockHeld)
                    } else {
                        None
                    },
                }
            };
            assert(fail == failure_at(s0, edits@, i as int));
            match fail {
                Some(kind) => {
                    self.locks.truncate(orig);
                    assert(self.locks@ =~= orig_locks);
                    assert(self@.locks == s0.locks);
                    return Err(PrepareError { index: i, name: to_vec(e.name.as_slice()), kind });
                },
                None => {},
            }
            let ghost before_names = views(names@);
            let ghost before_locks = views(self.locks@);
            self.locks.push(to_vec(n.as_slice()));
            assert(views(self.locks@) =~= before_locks.push(n@));
            names.push(n);
            previous.push(cur);
            assert(views(names@) =~= before_names.push(n@));
            assert(self.locks@.subrange(0, orig as int) =~= orig_locks);
            assert(views(self.locks@) =~= s0.locks + views(names@));
            assert(distinct(views(names@))) by {
                assert(!(s0.locks + before_names).contains(n@));
                assert forall|a: int| 0 <= a < before_names.len() implies before_names[a] != n@ by {
                    assert((s0.locks + before_names)[s0.locks.len() + a] == before_names[a]);
                }
            }
            i = i + 1;
        }
        assert(edits@.take(edits@.len() as int) =~= edits@);
        Ok(Transaction { edits, names, previous })
    }

    /// Commit a prepared batch: apply each edit in order, append its reflog line if one is
    /// asked for, and release its lock. Each name then holds exactly its edit's new value and
    /// its reflog grew by the line asked for; every other name and reflog is unchanged.
    pub fn commit(&mut self, tx: Transaction, committer: &Signature)
        requires
            store_wf(old(self)@),
            tx_wf(tx),
        ensures
            store_wf(final(self)@),
            final(self)@.packed == old(self)@.packed,
            forall|i: int| 0 <= i < tx.names@.len() ==> lookup(final(self)@, #[trigger] tx.names@[i]@)
                == Ok::<Option<Value>, ()>(new_value(tx.edits@[i])),
            forall|m: Seq<u8>| corrupt_at(final(self)@, m) ==> corrupt_at(old(self)@, m),
            forall|i: int| 0 <= i < tx.names@.len() ==> log_of(final(self)@.logs, #[trigger] tx.names@[i]@)
                == step_log(log_of(old(self)@.logs, tx.names@[i]@), tx.names@[i]@, tx.edits@[i],
                    opt_value(tx.previous@[i]), committer@),
            forall|m: Seq<u8>| !views(tx.names@).contains(m) ==> current(final(self)@, m) == current(old(self)@, m)
                && log_of(final(self)@.logs, m) == log_of(old(self)@.logs, m),
            final(self)@.locks == old(self)@.locks.filter(|m: Seq<u8>| !views(tx.names@).contains(m)),
    {
        let ghost s0 = self@;
        let mut i: usize = 0;
        while i < tx.edits.len()
            invariant
                store_wf(self@),
                tx_wf(tx),
                self@.packed == s0.packed,
                self@.locks == s0.locks,
                i <= tx.edits@.len(),
                forall|m: Seq<u8>| #[trigger] current(self@, m) == applied_value(s0, tx, i as int, m),
                forall|m: Seq<u8>| corrupt_at(self@, m) ==> corrupt_at(s0, m),
                forall|k: int| 0 <= k < i ==> !corrupt_at(self@, #[trigger] tx.names@[k]@),
                forall|m: Seq<u8>| #[trigger] log_of(self@.logs, m) == applied_log(s0, tx, committer@, i as int, m),
            decreases tx.edits@.len() - i,
        {
            let ghost before = self@;
            self.apply_edit(&tx, i, committer);
            assert forall|m: Seq<u8>| corrupt_at(self@, m) implies corrupt_at(s0, m) by {
                assert(lookup(self@, m) == if m == tx.names@[i as int]@ { Ok(new_value(tx.edits@[i as int])) } else { lookup(before, m) });
            }
            assert forall|k: int| 0 <= k < i + 1 implies !corrupt_at(self@, #[trigger] tx.names@[k]@) by {
                assert(lookup(self@, tx.names@[k]@) == if tx.names@[k]@ == tx.names@[i as int]@ { Ok(new_value(tx.edits@[i as int])) } else { lookup(before, tx.names@[k]@) });
            }
            i = i + 1;
        }
        proof {
            assert forall|k: int| 0 <= k < tx.names@.len() implies lookup(self@, #[trigger] tx.names@[k]@)
                == Ok::<Option<Value>, ()>(new_value(tx.edits@[k])) by {
                lemma_applied_value(s0, tx, tx.names@.len() as int, k);
                assert(!corrupt_at(self@, tx.names@[k]@));
                assert(current(self@, tx.names@[k]@) == new_value(tx.edits@[k]));
            }
            assert forall|k: int| 0 <= k < tx.names@.len() implies log_of(self@.logs, #[trigger] tx.names@[k]@)
                == step_log(log_of(s0.logs, tx.names@[k]@), tx.names@[k]@, tx.edits@[k], opt_value(tx.previous@[k]), committer@) by {
                lemma_applied_log(s0, tx, committer@, tx.names@.len() as int, k);
            }
            assert forall|m: Seq<u8>| !views(tx.names@).contains(m) implies current(self@, m) == current(s0, m)
                && log_of(self@.logs, m) == log_of(s0.logs, m) by {
                assert forall|k: int| 0 <= k < tx.names@.len() implies tx.names@[k]@ != m by {
                    assert(views(tx.names@)[k] == tx.names@[k]@);
                }
                lemma_untouched(s0, tx, committer@, tx.names@.len() as int, m);
            }
        }
        release(&mut self.locks, &tx.names);
    }

    /// Apply edit `i` of `tx`: write its new value or delete the reference, and append or
    /// remove its reflog as asked. Locks are left alone.
    fn apply_edit(&mut self, tx: &Transaction, i: usize, committer: &Signature)
        requires
            store_wf(old(self)@),
            tx_wf(*tx),
            i < tx.names@.len(),
        ensures
            store_wf(final(self)@),
            final(self)@.packed == old(self)@.packed,
            final(self)@.locks == old(self)@.locks,
            forall|m: Seq<u8>| #[trigger] lookup(final(self)@, m)
                == if m == tx.names@[i as int]@ { Ok(new_value(tx.edits@[i as int])) } else { lookup(old(self)@, m) },
            forall|m: Seq<u8>| #[trigger] current(final(self)@, m)
                == if m == tx.names@[i as int]@ { new_value(tx.edits@[i as int]) } else { current(old(self)@, m) },
            forall|m: Seq<u8>| #[trigger] log_of(final(self)@.logs, m)
                == if m == tx.names@[i as int]@ {
                    step_log(log_of(old(self)@.logs, m), m, tx.edits@[i as int], opt_value(tx.previous@[i as int]), committer@)
                } else {
                    log_of(old(self)@.logs, m)
                },
    {
        let n = tx.names[i].as_slice();
        let ghost sb = self@;
        let ghost e = tx.edits@[i as int];
        let ghost prev = opt_value(tx.previous@[i as int]);
        match &tx.edits[i].change {
            Change::Update { log, new, .. } => {
                let mut wrote = false;
                match new {
                    Target::Peeled(id) => {
                        if log.write && (log.force_create_reflog || has_log(&self.logs, n)) {
                            let previous = match &tx.previous[i] {
                                Some(Target::Peeled(p)) => to_vec(p.as_slice()),
                                _ => null_id_bytes(),
                            };
                            let line = LogLine {
                                name: to_vec(n),
                                previous,
                                new: to_vec(id.as_slice()),
                                committer: committer.copy(),
                                message: to_vec(log.message.as_slice()),
                            };
                            let ghost lv = line@;
                            let ghost old_logs = log_views(self.logs@);
                            self.logs.push(line);
                            assert(log_views(self.logs@) =~= old_logs.push(lv));
                            assert forall|m: Seq<u8>| #[trigger] log_of(self@.logs, m)
                                == if m == n@ { log_of(sb.logs, m).push(lv) } else { log_of(sb.logs, m) } by {
                                lemma_log_push(old_logs, lv, m);
                            }
                            assert(lv == LogEntry { name: n@, previous: previous_id(prev), new: id@, committer: committer@, message: log.message@ });
                            assert(step_log(log_of(sb.logs, n@), n@, e, prev, committer@) == log_of(sb.logs, n@).push(lv));
                            wrote = true;
                        }
                    },
                    Target::Symbolic(_) => {},
                }
                let ghost logs_now = self@.logs;
                loose_set(&mut self.loose, to_vec(n), new.copy());
                assert(self@.logs == logs_now);
                assert forall|m: Seq<u8>| #[trigger] log_of(self@.logs, m)
                    == if m == n@ { step_log(log_of(sb.logs, m), m, e, prev, committer@) } else { log_of(sb.logs, m) } by {
                    if !wrote {
                        assert(self@.logs == sb.logs);
                    }
                }
                assert forall|m: Seq<u8>| #[trigger] lookup(self@, m)
                    == if m == n@ { Ok(new_value(e)) } else { lookup(sb, m) } by {
                    assert(loose_get(self@.loose, m) == if m == n@ { Some(new@) } else { loose_get(sb.loose, m) });
                }
                assert forall|m: Seq<u8>| #[trigger] current(self@, m)
                    == if m == n@ { new_value(e) } else { current(sb, m) } by {
                    assert(lookup(self@, m) == if m == n@ { Ok(new_value(e)) } else { lookup(sb, m) });
                }
            },
            Change::Delete { remove_reflog, .. } => {
                if *remove_reflog {
                    remove_log(&mut self.logs, n);
                }
                loose_remove(&mut self.loose, n);
                let ghost old_deleted = views(self.deleted@);
                self.deleted.push(to_vec(n));
                assert(views(self.deleted@) =~= old_deleted.push(n@));
                assert forall|m: Seq<u8>| #[trigger] log_of(self@.logs, m)
                    == if m == n@ { step_log(log_of(sb.logs, m), m, e, prev, committer@) } else { log_of(sb.logs, m) } by {
                    if !*remove_reflog {
                        assert(self@.logs == sb.logs);
                    }
                }
                assert forall|m: Seq<u8>| #[trigger] lookup(self@, m)
                    == if m == n@ { Ok(new_value(e)) } else { lookup(sb, m) } by {
                    assert(loose_get(self@.loose, m) == if m == n@ { None } else { loose_get(sb.loose, m) });
                    lemma_push_contains(old_deleted, n@, m);
                }
                assert forall|m: Seq<u8>| #[trigger] current(self@, m)
                    == if m == n@ { new_value(e) } else { current(sb, m) } by {
                    assert(lookup(self@, m) == if m == n@ { Ok(new_value(e)) } else { lookup(sb, m) });
                }
            },
        }
    }

    /// Commit edit `i` of a prepared batch alone: apply it, append its reflog line if one is
    /// asked for, and release its lock. A caller that writes each edit elsewhere first commits
    /// the edits that were written, in order, and then drops the rest with `abort_from`.
    pub fn commit_edit(&mut self, tx: &Transaction, i: usize, committer: &Signature)
        requires
            store_wf(old(self)@),
            tx_wf(*tx),
            i < tx.names@.len(),
        ensures
            store_wf(final(self)@),
            final(self)@.packed == old(self)@.packed,
            forall|m: Seq<u8>| #[trigger] lookup(final(self)@, m)
                == if m == tx.names@[i as int]@ { Ok(new_value(tx.edits@[i as int])) } else { lookup(old(self)@, m) },
            forall|m: Seq<u8>| #[trigger] current(final(self)@, m)
                == if m == tx.names@[i as int]@ { new_value(tx.edits@[i as int]) } else { current(old(self)@, m) },
            forall|m: Seq<u8>| #[trigger] log_of(final(self)@.logs, m)
                == if m == tx.names@[i as int]@ {
                    step_log(log_of(old(self)@.logs, m), m, tx.edits@[i as int], opt_value(tx.previous@[i as int]), committer@)
                } else {
                    log_of(old(self)@.logs, m)
                },
            final(self)@.locks == old(self)@.locks.filter(|m: Seq<u8>| !seq![tx.names@[i as int]@].contains(m)),
    {
        self.apply_edit(tx, i, committer);
        let ghost mid = self@;
        let mut one: Vec<Vec<u8>> = Vec::new();
        one.push(to_vec(tx.names[i].as_slice()));
        assert(views(one@) =~= seq![tx.names@[i as int]@]);
        release(&mut self.locks, &one);
        assert(self@.logs == mid.logs);
        assert forall|m: Seq<u8>| #[trigger] lookup(self@, m) == lookup(mid, m) by {}
        assert forall|m: Seq<u8>| #[trigger] current(self@, m) == current(mid, m) by {}
    }

    /// Drop the edits of a prepared batch from `from` on: release their locks and write nothing.
    pub fn abort_from(&mut self, tx: &Transaction, from: usize)
        requires
            store_wf(old(self)@),
            from <= tx.names@.len(),
        ensures
            store_wf(final(self)@),
            final(self)@.loose == old(self)@.loose,
            final(self)@.packed == old(self)@.packed,
            final(self)@.deleted == old(self)@.deleted,
            final(self)@.logs == old(self)@.logs,
            final(self)@.locks == old(self)@.locks.filter(
                |m: Seq<u8>| !views(tx.names@).subrange(from as int, tx.names@.len() as int).contains(m)),
    {
        let mut rest: Vec<Vec<u8>> = Vec::new();
        let mut i = from;
        while i < tx.names.len()
            invariant
                from <= i <= tx.names@.len(),
                views(rest@) == views(tx.names@).subrange(from as int, i as int),
            decreases tx.names@.len() - i,
        {
            let ghost before = views(rest@);
            rest.push(to_vec(tx.names[i].as_slice()));
            assert(views(rest@) =~= before.push(tx.names@[i as int]@));
            i = i + 1;
            assert(views(rest@) =~= views(tx.names@).subrange(from as int, i as int));
        }
        release(&mut self.locks, &rest);
    }

    /// The name at the end of the chain of symbolic references from `name`, following at most
    /// `MAX_HOPS` of them; `None` if the chain is longer.
    pub fn deref_target(&self, name: &[u8]) -> (r: Option<Vec<u8>>)
        requires
            store_wf(self@),
        ensures
            match r {
                Some(n) => deref_chain(self@, name@, MAX_HOPS as nat) == Some(n@),
                None => deref_chain(self@, name@, MAX_HOPS as nat) is None,
            },
    {
        let mut cur = to_vec(name);
        let mut hops: usize = MAX_HOPS;
        loop
            invariant
                store_wf(self@),
                hops <= MAX_HOPS,
                deref_chain(self@, name@, MAX_HOPS as nat) == deref_chain(self@, cur@, hops as nat),
            decreases hops,
        {
            match self.find(cur.as_slice()) {
                Ok(Some(Target::Symbolic(next))) => {
                    if hops == 0 {
                        return None;
                    }
                    hops = hops - 1;
                    cur = next;
                },
                _ => {
                    return Some(cur);
                },
            }
        }
    }

    /// Drop a prepared batch: release its locks and write nothing.
    pub fn abort(&mut self, tx: Transaction)
        requires
            store_wf(old(self)@),
        ensures
            store_wf(final(self)@),
            final(self)@.loose == old(self)@.loose,
            final(self)@.packed == old(self)@.packed,
            final(self)@.deleted == old(self)@.deleted,
            final(self)@.logs == old(self)@.logs,
            final(self)@.locks == old(self)@.locks.filter(|m: Seq<u8>| !views(tx.names@).contains(m)),
    {
        release(&mut self.locks, &tx.names);
    }
}

/// The store as another transaction sees it once a batch holds the locks on `extra`.
pub open spec fn with_locks(s: StoreView, extra: Seq<Seq<u8>>) -> StoreView {
    StoreView { locks: s.locks + extra, ..s }
}

/// Locks do not change where a chain of symbolic references ends.
pub proof fn lemma_deref_chain_locks(s: StoreView, extra: Seq<Seq<u8>>, name: Seq<u8>, hops: nat)
    ensures
        deref_chain(with_locks(s, extra), name, hops) == deref_chain(s, name, hops),
    decreases hops,
{
    assert(current(with_locks(s, extra), name) == current(s, name));
    if hops > 0 {
        match current(s, name) {
            Some(Value::Symbolic(t)) => lemma_deref_chain_locks(s, extra, t, (hops - 1) as nat),
            _ => {},
        }
    }
}

/// Locks do not change the names a batch applies to.
pub proof fn lemma_target_names_locks(s: StoreView, extra: Seq<Seq<u8>>, edits: Seq<RefEdit>)
    ensures
        target_names(with_locks(s, extra), edits) == target_names(s, edits),
        forall|i: int| 0 <= i < edits.len() ==> deref_chain(with_locks(s, extra), (#[trigger] edits[i]).name@, MAX_HOPS as nat)
            == deref_chain(s, edits[i].name@, MAX_HOPS as nat),
{
    assert forall|i: int| 0 <= i < edits.len() implies deref_chain(with_locks(s, extra), (#[trigger] edits[i]).name@, MAX_HOPS as nat)
        == deref_chain(s, edits[i].name@, MAX_HOPS as nat) by {
        lemma_deref_chain_locks(s, extra, edits[i].name@, MAX_HOPS as nat);
    }
    assert(target_names(with_locks(s, extra), edits) =~= target_names(s, edits));
}

/// A name that no reference has, such as one a committed deletion removed, can be created
/// with `MustNotExist` by a later batch, if its name is valid and not locked.
pub proof fn lemma_create_after_delete(s: StoreView, e: RefEdit)
    requires
        lookup(s, e.name@) == Ok::<Option<Value>, ()>(None),
        !e.deref,
        valid_name(e.name@),
        !s.locks.contains(e.name@),
        e.change matches Change::Update { expected: PreviousValue::MustNotExist, .. },
    ensures
        failure_at(s, seq![e], 0) is None,
{
    assert(seq![e].take(0) =~= seq![]);
    assert(target_names(s, seq![e].take(0)) =~= seq![]);
    assert(s.locks + seq![] =~= s.locks);
}

/// Deleting a reference and creating it again with `MustNotExist` in the same batch fails on
/// the expectation of the second edit, since nothing is written before the batch commits.
pub proof fn lemma_delete_then_create_in_one_batch(s: StoreView, d: RefEdit, c: RefEdit)
    requires
        current(s, d.name@) is Some,
        d.name@ == c.name@,
        !d.deref,
        !c.deref,
        valid_name(d.name@),
        !s.locks.contains(d.name@),
        d.change matches Change::Delete { expected: PreviousValue::Any, .. },
        c.change matches Change::Update { expected: PreviousValue::MustNotExist, .. },
    ensures
        failure_at(s, seq![d, c], 0) is None,
        failure_at(s, seq![d, c], 1) == Some(ErrorKind::PreconditionMismatch),
{
    assert(seq![d, c].take(0) =~= seq![]);
    assert(target_names(s, seq![d, c].take(0)) =~= seq![]);
    assert(s.locks + seq![] =~= s.locks);
}

/// A batch that would be prepared on its own is still prepared while another batch holds the
/// locks on names it does not touch.
pub proof fn lemma_disjoint_batches(s: StoreView, extra: Seq<Seq<u8>>, edits: Seq<RefEdit>)
    requires
        forall|i: int| 0 <= i < edits.len() ==> failure_at(s, edits, i) is None,
        forall|i: int| 0 <= i < edits.len() ==> !extra.contains(#[trigger] target_names(s, edits)[i]),
    ensures
        forall|i: int| 0 <= i < edits.len() ==> failure_at(with_locks(s, extra), edits, i) is None,
{
    let s1 = with_locks(s, extra);
    lemma_target_names_locks(s, extra, edits);
    assert forall|i: int| 0 <= i < edits.len() implies failure_at(s1, edits, i) is None by {
        lemma_target_names_locks(s, extra, edits.take(i));
        assert(target_names(s1, edits)[i] == target_name(s1, edits[i]));
        let n = target_name(s, edits[i]);
        assert(target_names(s, edits)[i] == n);
        assert(failure_at(s, edits, i) is None);
        let before = s.locks + target_names(s, edits.take(i));
        assert(!before.contains(n));
        if (s1.locks + target_names(s1, edits.take(i))).contains(n) {
            let j = choose|j: int| 0 <= j < (s1.locks + target_names(s1, edits.take(i))).len()
                && (s1.locks + target_names(s1, edits.take(i)))[j] == n;
            if j < s.locks.len() {
                assert(before[j] == n);
            } else if j < s.locks.len() + extra.len() {
                assert(extra[j - s.locks.len()] == n);
            } else {
                assert(before[j - extra.len()] == n);
            }
        }
    }
}

/// If some name among the first `j + 1` is in `extra`, there is a first such name.
pub proof fn lemma_first_in(extra: Seq<Seq<u8>>, names: Seq<Seq<u8>>, j: int)
    requires
        0 <= j < names.len(),
        extra.contains(names[j]),
    ensures
        exists|k: int| 0 <= k <= j && extra.contains(#[trigger] names[k])
            && forall|l: int| 0 <= l < k ==> !extra.contains(#[trigger] names[l]),
    decreases j,
{
    if exists|l: int| 0 <= l < j && extra.contains(#[trigger] names[l]) {
        let l = choose|l: int| 0 <= l < j && extra.contains(#[trigger] names[l]);
        lemma_first_in(extra, names, l);
    } else {
        assert(0 <= j <= j && extra.contains(names[j]));
    }
}

/// A batch that touches a name another batch holds locked is not prepared: its first failing
/// edit fails because the lock is held.
pub proof fn lemma_racing_batches(s: StoreView, extra: Seq<Seq<u8>>, edits: Seq<RefEdit>, j: int)
    requires
        0 <= j < edits.len(),
        extra.contains(target_names(s, edits)[j]),
        forall|i: int| 0 <= i <= j ==> failure_at(s, edits, i) is None,
    ensures
        exists|k: int| 0 <= k <= j && failure_at(with_locks(s, extra), edits, k) == Some(ErrorKind::LockHeld)
            && forall|l: int| 0 <= l < k ==> failure_at(with_locks(s, extra), edits, l) is None,
{
    let s1 = with_locks(s, extra);
    let names = target_names(s, edits);
    lemma_first_in(extra, names, j);
    let k = choose|k: int| 0 <= k <= j && extra.contains(#[trigger] names[k])
        && forall|l: int| 0 <= l < k ==> !extra.contains(#[trigger] names[l]);
    lemma_target_names_locks(s, extra, edits.take(k));
    lemma_target_names_locks(s, extra, edits);
    assert(target_names(s1, edits)[k] == target_name(s1, edits[k]));
    let n = names[k];
    assert(failure_at(s, edits, k) is None);
    let w = choose|w: int| 0 <= w < extra.len() && extra[w] == n;
    assert((s1.locks + target_names(s1, edits.take(k)))[s.locks.len() + w] == n);
    assert(failure_at(s1, edits, k) == Some(ErrorKind::LockHeld));
    assert forall|l: int| 0 <= l < k implies failure_at(s1, edits, l) is None by {
        assert(!extra.contains(names[l]));
        let sub = edits.take(k);
        assert(edits.take(l) =~= sub.take(l));
        assert(edits.take(l + 1).take(l) =~= edits.take(l));
        assert(edits.take(l + 1)[l] == edits[l]);
        assert forall|i: int| 0 <= i < l + 1 implies #[trigger] failure_at(s, edits.take(l + 1), i) is None by {
            assert(edits.take(l + 1).take(i) =~= edits.take(i));
            assert(edits.take(l + 1)[i] == edits[i]);
            assert(failure_at(s, edits, i) is None);
        }
        assert forall|i: int| 0 <= i < l + 1 implies !extra.contains(#[trigger] target_names(s, edits.take(l + 1))[i]) by {
            assert(target_names(s, edits.take(l + 1))[i] == names[i]);
        }
        lemma_disjoint_batches(s, extra, edits.take(l + 1));
        assert(failure_at(s1, edits.take(l + 1), l) is None);
        assert(edits.take(l + 1).take(l) =~= edits.take(l));
    }
}

} // verus!
