use refstore::alternates::{parse_content, unquote, Resolution};

#[test]
fn alternates_files_list_paths() {
    let input = b"# a comment, empty lines are also allowed\n../path/relative/to/repo/.git\n/absolute/path/to/repo/.git\n\n\"/a/ansi-c-quoted/path/with/tabs\\t/.git\"\n";
    let paths = parse_content(input).unwrap();
    assert_eq!(
        paths,
        vec![
            b"../path/relative/to/repo/.git".to_vec(),
            b"/absolute/path/to/repo/.git".to_vec(),
            b"/a/ansi-c-quoted/path/with/tabs\t/.git".to_vec(),
        ]
    );
    assert!(parse_content(b"\"unterminated").is_err());
    assert!(parse_content(b"\"bad \\q escape\"").is_err());
}

#[test]
fn quoted_paths_undo_escapes() {
    assert_eq!(unquote(b"\"a\\\\b\\\"c\\101\"", 1), Some(b"a\\b\"cA".to_vec()));
    assert_eq!(unquote(b"\"\\400\"", 1), None);
}

#[test]
fn resolution_stops_at_a_cycle() {
    let mut r = Resolution::new(b"objects".to_vec(), b"/repo/objects".to_vec());
    let (depth, dir) = r.next().unwrap();
    assert_eq!((depth, dir.as_slice()), (0, &b"objects"[..]));
    r.found(depth, dir, vec![(b"objects/../../other/objects".to_vec(), b"/other/objects".to_vec())]).unwrap();
    assert!(r.out.is_empty());
    let (depth, dir) = r.next().unwrap();
    assert_eq!(depth, 1);
    r.found(depth, dir, vec![]).unwrap();
    assert_eq!(r.out, vec![b"objects/../../other/objects".to_vec()]);
    assert!(r.next().is_none());

    let mut r = Resolution::new(b"a".to_vec(), b"/a".to_vec());
    let (depth, dir) = r.next().unwrap();
    r.found(depth, dir, vec![(b"b".to_vec(), b"/b".to_vec())]).unwrap();
    let (depth, dir) = r.next().unwrap();
    let err = r.found(depth, dir, vec![(b"a".to_vec(), b"/a".to_vec())]).unwrap_err();
    assert_eq!(err.seen, vec![b"/a".to_vec(), b"/b".to_vec()]);
}

#[test]
fn resolution_follows_a_chain_to_its_end() {
    let mut r = Resolution::new(b"o".to_vec(), b"/o".to_vec());
    let (depth, dir) = r.next().unwrap();
    r.found(depth, dir, vec![(b"/b".to_vec(), b"/b".to_vec())]).unwrap();
    let (depth, dir) = r.next().unwrap();
    assert_eq!((depth, dir.as_slice()), (1, &b"/b"[..]));
    r.found(depth, dir, vec![(b"/c".to_vec(), b"/c".to_vec())]).unwrap();
    let (depth, dir) = r.next().unwrap();
    assert_eq!(depth, 2);
    r.found(depth, dir, vec![]).unwrap();
    assert!(r.next().is_none());
    assert_eq!(r.out, vec![b"/b".to_vec(), b"/c".to_vec()]);
}
