use refstore::name::{candidates, is_valid_name};
use refstore::reference::{loose_bytes, parse_loose, Target};

#[test]
fn a_lock_file_would_not_be_a_valid_name() {
    assert!(!is_valid_name(b"heads/hello.lock"));
    assert!(!is_valid_name(b"refs/heads/x.lock/y"));
    assert!(is_valid_name(b"refs/heads/x.locked"));
}

#[test]
fn name_rules() {
    assert!(is_valid_name(b"HEAD"));
    assert!(is_valid_name(b"refs/heads/main"));
    for bad in [
        &b""[..],
        b"@",
        b"refs/heads/a..b",
        b"refs//heads",
        b"/refs/heads",
        b"refs/heads/",
        b"refs/heads/.hidden",
        b"refs/heads/x.",
        b"refs/heads/a b",
        b"refs/heads/a~1",
        b"refs/heads/a^",
        b"refs/heads/a:b",
        b"refs/heads/a?",
        b"refs/heads/a*",
        b"refs/heads/a[",
        b"refs/heads/a\\b",
        b"refs/heads/a@{1}",
        b".git",
    ] {
        assert!(!is_valid_name(bad), "{:?}", String::from_utf8_lossy(bad));
    }
}

#[test]
fn partial_names_expand_in_precedence_order() {
    let c: Vec<String> = candidates(b"main").into_iter().map(|v| String::from_utf8(v).unwrap()).collect();
    assert_eq!(
        c,
        vec![
            "refs/main",
            "refs/tags/main",
            "refs/heads/main",
            "refs/remotes/main",
            "refs/remotes/main/HEAD"
        ]
    );
    let c = candidates(b"HEAD");
    assert_eq!(c[0], b"HEAD".to_vec());
    assert_eq!(c.len(), 6);
    assert_eq!(candidates(b"refs/heads/x")[0], b"refs/heads/x".to_vec());
}

#[test]
fn loose_files_round_trip() {
    let id = b"e69de29bb2d1d6434b8b29ae775ad8c2e48c5391".to_vec();
    let peeled = Target::Peeled(id.clone());
    assert_eq!(loose_bytes(&peeled), b"e69de29bb2d1d6434b8b29ae775ad8c2e48c5391\n".to_vec());
    assert_eq!(parse_loose(&loose_bytes(&peeled)).unwrap(), peeled);
    let symbolic = Target::Symbolic(b"refs/heads/main".to_vec());
    assert_eq!(loose_bytes(&symbolic), b"ref: refs/heads/main\n".to_vec());
    assert_eq!(parse_loose(&loose_bytes(&symbolic)).unwrap(), symbolic);
    assert_eq!(parse_loose(b"ref: ").unwrap_err().content, b"ref: ".to_vec());
    assert!(parse_loose(b"not an id\n").is_err());
    assert!(parse_loose(b"E69DE29BB2D1D6434B8B29AE775AD8C2E48C5391").is_err());
}
