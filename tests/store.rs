use refstore::packed::Buffer;
use refstore::reference::Target;
use refstore::store::{LooseRef, ResolveError, Signature, Store};
use refstore::transaction::{Change, ErrorKind, LogChange, PreviousValue, RefEdit};

const A: &str = "1111111111111111111111111111111111111111";
const B: &str = "2222222222222222222222222222222222222222";
const C: &str = "3333333333333333333333333333333333333333";

fn peeled(id: &str) -> Target {
    Target::Peeled(id.as_bytes().to_vec())
}

fn symbolic(name: &str) -> Target {
    Target::Symbolic(name.as_bytes().to_vec())
}

fn loose(name: &str, target: Target) -> LooseRef {
    LooseRef { name: name.as_bytes().to_vec(), target }
}

fn committer() -> Signature {
    Signature { name: b"committer".to_vec(), email: b"committer@example.com".to_vec(), seconds: 1234, offset_minutes: 30 }
}

fn store(loose_refs: Vec<LooseRef>, packed: &[u8]) -> Store {
    Store::new(loose_refs, Buffer::from_bytes(packed), vec![]).expect("consistent store")
}

fn create(name: &str, id: &str) -> RefEdit {
    RefEdit {
        change: Change::Update {
            log: LogChange { write: true, force_create_reflog: true, message: b"log peeled".to_vec() },
            expected: PreviousValue::MustNotExist,
            new: peeled(id),
        },
        name: name.as_bytes().to_vec(),
        deref: false,
    }
}

fn update(name: &str, expected: PreviousValue, id: &str) -> RefEdit {
    RefEdit {
        change: Change::Update {
            log: LogChange { write: true, force_create_reflog: false, message: b"update".to_vec() },
            expected,
            new: peeled(id),
        },
        name: name.as_bytes().to_vec(),
        deref: false,
    }
}

fn delete(name: &str) -> RefEdit {
    RefEdit {
        change: Change::Delete { expected: PreviousValue::Any, remove_reflog: true },
        name: name.as_bytes().to_vec(),
        deref: false,
    }
}

fn log_len(s: &Store, name: &str) -> usize {
    s.logs.iter().filter(|l| l.name == name.as_bytes()).count()
}

#[test]
fn a_committed_batch_sets_every_name_and_logs_once_each() {
    let mut s = store(vec![], b"");
    let tx = s
        .prepare(vec![create("refs/heads/a", A), create("refs/heads/b", B), create("refs/tags/c", C)])
        .expect("prepared");
    assert_eq!(s.locks.len(), 3);
    s.commit(tx, &committer());
    assert!(s.locks.is_empty());
    assert_eq!(s.find(b"refs/heads/a").unwrap(), Some(peeled(A)));
    assert_eq!(s.find(b"refs/heads/b").unwrap(), Some(peeled(B)));
    assert_eq!(s.find(b"refs/tags/c").unwrap(), Some(peeled(C)));
    for n in ["refs/heads/a", "refs/heads/b", "refs/tags/c"] {
        assert_eq!(log_len(&s, n), 1);
    }
    let line = s.logs.iter().find(|l| l.name == b"refs/heads/a").unwrap();
    assert_eq!(line.previous, vec![b'0'; 40]);
    assert_eq!(line.new, A.as_bytes().to_vec());
    assert_eq!(line.message, b"log peeled".to_vec());

    let tx = s.prepare(vec![update("refs/heads/a", PreviousValue::MustExistAndMatch(peeled(A)), B)]).unwrap();
    s.commit(tx, &committer());
    assert_eq!(s.find(b"refs/heads/a").unwrap(), Some(peeled(B)));
    assert_eq!(log_len(&s, "refs/heads/a"), 2);
    let last = s.logs.iter().filter(|l| l.name == b"refs/heads/a").last().unwrap();
    assert_eq!(last.previous, A.as_bytes().to_vec());
}

#[test]
fn a_mismatched_expectation_fails_and_changes_nothing() {
    let mut s = store(vec![loose("refs/heads/main", peeled(A))], b"");
    let err = s
        .prepare(vec![
            create("refs/heads/new", B),
            update("refs/heads/main", PreviousValue::MustExistAndMatch(peeled(B)), C),
        ])
        .err()
        .expect("mismatch");
    assert_eq!(err.index, 1);
    assert_eq!(err.kind, ErrorKind::PreconditionMismatch);
    assert_eq!(err.name, b"refs/heads/main".to_vec());
    assert!(s.locks.is_empty());
    assert_eq!(s.find(b"refs/heads/main").unwrap(), Some(peeled(A)));
    assert_eq!(s.find(b"refs/heads/new").unwrap(), None);
    assert!(s.logs.is_empty());
}

#[test]
fn each_prepare_error_has_its_input() {
    let mut s = store(vec![loose("refs/heads/main", peeled(A))], b"");
    let e = s.prepare(vec![create("refs/heads/bad..name", A)]).err().unwrap();
    assert_eq!(e.kind, ErrorKind::InvalidName);
    let e = s.prepare(vec![update("refs/heads/gone", PreviousValue::MustExistAndMatch(peeled(A)), B)]).err().unwrap();
    assert_eq!(e.kind, ErrorKind::NotFound);
    let e = s.prepare(vec![create("refs/heads/main", B)]).err().unwrap();
    assert_eq!(e.kind, ErrorKind::PreconditionMismatch);
    let e = s.prepare(vec![create("refs/heads/x", A), create("refs/heads/x", B)]).err().unwrap();
    assert_eq!((e.index, e.kind), (1, ErrorKind::LockHeld));
    assert!(s.locks.is_empty());
}

#[test]
fn delete_then_create_again() {
    let mut s = store(vec![loose("refs/heads/topic", peeled(A))], b"");
    let err = s.prepare(vec![delete("refs/heads/topic"), create("refs/heads/topic", B)]).err().unwrap();
    assert_eq!((err.index, err.kind), (1, ErrorKind::PreconditionMismatch));
    let tx = s.prepare(vec![delete("refs/heads/topic")]).unwrap();
    s.commit(tx, &committer());
    assert_eq!(s.find(b"refs/heads/topic").unwrap(), None);
    let tx = s.prepare(vec![create("refs/heads/topic", B)]).expect("created again");
    s.commit(tx, &committer());
    assert_eq!(s.find(b"refs/heads/topic").unwrap(), Some(peeled(B)));
}

#[test]
fn deleting_hides_a_packed_entry() {
    let packed = format!("{A} refs/heads/packed\n");
    let mut s = store(vec![], packed.as_bytes());
    assert_eq!(s.find(b"refs/heads/packed").unwrap(), Some(peeled(A)));
    let tx = s.prepare(vec![delete("refs/heads/packed")]).unwrap();
    s.commit(tx, &committer());
    assert_eq!(s.find(b"refs/heads/packed").unwrap(), None);
    s.pack(&vec![]).unwrap();
    assert_eq!(s.packed.len(), 0);
    assert_eq!(s.find(b"refs/heads/packed").unwrap(), None);
}

#[test]
fn symbolic_chains_resolve_and_cycles_fail() {
    let s = store(
        vec![
            loose("HEAD", symbolic("refs/heads/b")),
            loose("refs/heads/b", symbolic("refs/heads/c")),
            loose("refs/heads/c", peeled(C)),
            loose("refs/heads/x", symbolic("refs/heads/y")),
            loose("refs/heads/y", symbolic("refs/heads/x")),
            loose("refs/heads/broken", symbolic("refs/heads/a..b")),
        ],
        b"",
    );
    assert_eq!(s.follow(b"HEAD").unwrap(), C.as_bytes().to_vec());
    assert!(matches!(s.follow(b"refs/heads/x"), Err(ResolveError::Cycle { .. })));
    assert!(matches!(s.follow(b"refs/heads/nothing"), Err(ResolveError::NotFound { .. })));
    assert!(matches!(s.follow(b"refs/heads/broken"), Err(ResolveError::InvalidName { .. })));
}

#[test]
fn partial_names_follow_the_precedence_order() {
    let packed = format!(
        "{A} refs/heads/head-or-tag\n{B} refs/heads/main\n{C} refs/remotes/origin/main\n{A} refs/tags/head-or-tag\n"
    );
    let s = store(
        vec![loose("HEAD", symbolic("refs/heads/main")), loose("refs/remotes/origin/HEAD", symbolic("refs/remotes/origin/main"))],
        packed.as_bytes(),
    );
    let name = |p: &str| s.find_partial(p.as_bytes()).unwrap().map(|(n, _)| String::from_utf8(n).unwrap());
    assert_eq!(name("head-or-tag").as_deref(), Some("refs/tags/head-or-tag"));
    assert_eq!(name("heads/head-or-tag").as_deref(), Some("refs/heads/head-or-tag"));
    assert_eq!(name("main").as_deref(), Some("refs/heads/main"));
    assert_eq!(name("origin/main").as_deref(), Some("refs/remotes/origin/main"));
    assert_eq!(name("remotes/origin/main").as_deref(), Some("refs/remotes/origin/main"));
    assert_eq!(name("origin").as_deref(), Some("refs/remotes/origin/HEAD"));
    assert_eq!(name("HEAD").as_deref(), Some("HEAD"));
    assert_eq!(name("nothing"), None);
}

#[test]
fn compaction_keeps_every_name_resolving_the_same() {
    let packed = format!("{A} refs/heads/old\n{B} refs/heads/shadowed\n");
    let mut s = store(
        vec![
            loose("HEAD", symbolic("refs/heads/main")),
            loose("refs/heads/main", peeled(C)),
            loose("refs/heads/shadowed", peeled(A)),
            loose("refs/heads/sym", symbolic("refs/heads/main")),
        ],
        packed.as_bytes(),
    );
    let names = ["HEAD", "refs/heads/main", "refs/heads/shadowed", "refs/heads/sym", "refs/heads/old", "refs/heads/none"];
    let before: Vec<_> = names.iter().map(|n| s.find(n.as_bytes()).unwrap()).collect();
    s.pack(&vec![]).unwrap();
    let after: Vec<_> = names.iter().map(|n| s.find(n.as_bytes()).unwrap()).collect();
    assert_eq!(before, after);
    let left: Vec<_> = s.loose.iter().map(|l| String::from_utf8(l.name.clone()).unwrap()).collect();
    assert_eq!(left, vec!["HEAD", "refs/heads/sym"]);
    assert_eq!(s.packed.len(), 3);
    assert_eq!(s.follow(b"HEAD").unwrap(), C.as_bytes().to_vec());
}

#[test]
fn disjoint_batches_both_succeed_and_racing_ones_do_not() {
    let mut s = store(vec![], b"");
    let first = s.prepare(vec![create("refs/heads/a", A)]).expect("first");
    let second = s.prepare(vec![create("refs/heads/b", B)]).expect("disjoint");
    let racing = s.prepare(vec![create("refs/heads/c", C), update("refs/heads/a", PreviousValue::Any, C)]);
    let err = racing.err().expect("the lock is held");
    assert_eq!((err.index, err.kind), (1, ErrorKind::LockHeld));
    s.commit(second, &committer());
    s.commit(first, &committer());
    assert_eq!(s.find(b"refs/heads/a").unwrap(), Some(peeled(A)));
    assert_eq!(s.find(b"refs/heads/b").unwrap(), Some(peeled(B)));
    assert_eq!(s.find(b"refs/heads/c").unwrap(), None);
    assert!(s.locks.is_empty());
}

#[test]
fn abort_releases_the_locks() {
    let mut s = store(vec![], b"");
    let tx = s.prepare(vec![create("refs/heads/a", A)]).unwrap();
    s.abort(tx);
    assert!(s.locks.is_empty());
    assert_eq!(s.find(b"refs/heads/a").unwrap(), None);
    assert!(s.prepare(vec![create("refs/heads/a", A)]).is_ok());
}

#[test]
fn deref_applies_the_edit_to_the_referent() {
    let mut s = store(vec![loose("HEAD", symbolic("refs/heads/main")), loose("refs/heads/main", peeled(A))], b"");
    let mut edit = update("HEAD", PreviousValue::MustExistAndMatch(peeled(A)), B);
    edit.deref = true;
    let tx = s.prepare(vec![edit]).unwrap();
    assert_eq!(tx.names, vec![b"refs/heads/main".to_vec()]);
    s.commit(tx, &committer());
    assert_eq!(s.find(b"HEAD").unwrap(), Some(symbolic("refs/heads/main")));
    assert_eq!(s.find(b"refs/heads/main").unwrap(), Some(peeled(B)));
}

#[test]
fn a_store_rejects_duplicate_loose_names_only() {
    assert!(Store::new(vec![loose("refs/heads/a", peeled(A)), loose("refs/heads/a", peeled(B))], Buffer::from_bytes(b""), vec![]).is_err());
    let unsorted = format!("{A} refs/heads/b\n{B} refs/heads/a\n");
    assert!(Store::new(vec![], Buffer::from_bytes(unsorted.as_bytes()), vec![]).is_ok());
}

#[test]
fn a_corrupt_packed_line_fails_only_the_lookups_that_land_on_it() {
    let packed = format!("{A} refs/heads/a\n{B} refs/heads/b\nbogus refs/heads/c\n{A} refs/heads/d\n{B} refs/heads/e\n");
    let mut s = Store::new(vec![loose("refs/heads/loose", peeled(C))], Buffer::from_bytes(packed.as_bytes()), vec![])
        .expect("a corrupt line does not refuse the store");
    assert!(s.find(b"refs/heads/a").is_err(), "the first probe lands on the corrupt line");
    assert_eq!(s.find(b"refs/heads/loose").unwrap(), Some(peeled(C)));
    assert!(matches!(s.follow(b"refs/heads/c"), Err(ResolveError::Corrupt { .. })));
    let err = s.prepare(vec![update("refs/heads/a", PreviousValue::Any, B)]).err().unwrap();
    assert_eq!(err.kind, ErrorKind::Corrupt);
    let tx = s.prepare(vec![update("refs/heads/loose", PreviousValue::Any, A)]).expect("loose names are read first");
    s.commit(tx, &committer());
    assert_eq!(s.find(b"refs/heads/loose").unwrap(), Some(peeled(A)));
    assert!(s.pack(&vec![]).is_err(), "a rewrite has to read every entry");
    assert_eq!(s.find(b"refs/heads/loose").unwrap(), Some(peeled(A)));

    let late = format!("{A} refs/heads/a\n{B} refs/heads/b\n{C} refs/heads/c\n{A} refs/heads/d\nbogus refs/heads/e\n");
    let mut s = Store::new(vec![], Buffer::from_bytes(late.as_bytes()), vec![]).unwrap();
    assert_eq!(s.find(b"refs/heads/b").unwrap(), Some(peeled(B)));
    assert!(s.find_partial(b"heads/e").is_err());
    let tx = s.prepare(vec![create("refs/heads/aa", A)]).expect("its search never reaches the corrupt line");
    s.commit(tx, &committer());
    assert_eq!(s.find(b"refs/heads/aa").unwrap(), Some(peeled(A)));
}

#[test]
fn an_update_logs_only_into_an_existing_or_forced_reflog() {
    let mut s = store(vec![loose("refs/heads/quiet", peeled(A))], b"");
    let tx = s.prepare(vec![update("refs/heads/quiet", PreviousValue::Any, B)]).unwrap();
    s.commit(tx, &committer());
    assert_eq!(s.find(b"refs/heads/quiet").unwrap(), Some(peeled(B)));
    assert_eq!(log_len(&s, "refs/heads/quiet"), 0);
    let mut sym = update("refs/heads/sym", PreviousValue::MustNotExist, A);
    if let Change::Update { new, log, .. } = &mut sym.change {
        *new = symbolic("refs/heads/quiet");
        log.force_create_reflog = true;
    }
    let tx = s.prepare(vec![sym]).unwrap();
    s.commit(tx, &committer());
    assert_eq!(log_len(&s, "refs/heads/sym"), 0, "symbolic targets are not logged");
}

#[test]
fn edits_commit_one_at_a_time_and_the_rest_can_be_dropped() {
    let mut s = store(vec![], b"");
    let tx = s.prepare(vec![create("refs/heads/a", A), create("refs/heads/b", B), create("refs/heads/c", C)]).unwrap();
    s.commit_edit(&tx, 0, &committer());
    assert_eq!(s.find(b"refs/heads/a").unwrap(), Some(peeled(A)));
    assert_eq!(log_len(&s, "refs/heads/a"), 1);
    assert_eq!(s.locks.len(), 2);
    s.abort_from(&tx, 1);
    assert!(s.locks.is_empty());
    assert_eq!(s.find(b"refs/heads/b").unwrap(), None);
    assert_eq!(s.find(b"refs/heads/c").unwrap(), None);
}

#[test]
fn deref_follows_the_whole_chain_and_stops_at_a_cycle() {
    let mut s = store(
        vec![
            loose("HEAD", symbolic("refs/heads/alias")),
            loose("refs/heads/alias", symbolic("refs/heads/main")),
            loose("refs/heads/x", symbolic("refs/heads/y")),
            loose("refs/heads/y", symbolic("refs/heads/x")),
        ],
        b"",
    );
    let mut edit = create("HEAD", A);
    edit.deref = true;
    let tx = s.prepare(vec![edit]).expect("main does not exist yet");
    assert_eq!(tx.names, vec![b"refs/heads/main".to_vec()]);
    s.commit(tx, &committer());
    assert_eq!(s.follow(b"HEAD").unwrap(), A.as_bytes().to_vec());
    let mut edit = update("refs/heads/x", PreviousValue::Any, A);
    edit.deref = true;
    let err = s.prepare(vec![edit]).err().unwrap();
    assert_eq!(err.kind, ErrorKind::Cycle);
}

#[test]
fn packing_records_the_peeled_ids_it_is_given() {
    let mut s = store(vec![loose("refs/tags/v1", peeled(A)), loose("refs/heads/main", peeled(B))], b"");
    s.pack(&vec![(b"refs/tags/v1".to_vec(), C.as_bytes().to_vec()), (b"refs/heads/main".to_vec(), b"not hex".to_vec())]).unwrap();
    let tag = s.packed.find(b"refs/tags/v1").unwrap().unwrap();
    assert_eq!(tag.object, Some(C.as_bytes().to_vec()));
    let main = s.packed.find(b"refs/heads/main").unwrap().unwrap();
    assert_eq!(main.object, None);
    let bytes = s.packed.to_bytes();
    let again = Buffer::from_bytes(&bytes);
    assert_eq!(again.find(b"refs/tags/v1").unwrap().unwrap().object, Some(C.as_bytes().to_vec()));
}
