use refstore::graph::Position;
use refstore::store::{LogLine, Signature};

#[test]
fn reflog_lines_are_written_in_the_file_format() {
    let line = LogLine {
        name: b"refs/heads/main".to_vec(),
        previous: b"0000000000000000000000000000000000000000".to_vec(),
        new: b"e69de29bb2d1d6434b8b29ae775ad8c2e48c5391".to_vec(),
        committer: Signature { name: b"committer".to_vec(), email: b"committer@example.com".to_vec(), seconds: 1234, offset_minutes: 30 },
        message: b"log peeled".to_vec(),
    };
    assert_eq!(
        String::from_utf8(line.to_bytes()).unwrap(),
        "0000000000000000000000000000000000000000 e69de29bb2d1d6434b8b29ae775ad8c2e48c5391 committer <committer@example.com> 1234 +0030\tlog peeled\n"
    );
    let west = LogLine { committer: Signature { name: b"a".to_vec(), email: b"b".to_vec(), seconds: 0, offset_minutes: -150 }, ..line };
    assert!(String::from_utf8(west.to_bytes()).unwrap().ends_with(" a <b> 0 -0230\tlog peeled\n"));
}

#[test]
fn positions_print_in_decimal() {
    assert_eq!(Position(0).to_bytes(), b"0".to_vec());
    assert_eq!(Position(4096).to_bytes(), b"4096".to_vec());
    assert_eq!(Position(u32::MAX).to_bytes(), b"4294967295".to_vec());
}

#[test]
fn reflog_lines_read_back() {
    let line = LogLine {
        name: b"refs/heads/main".to_vec(),
        previous: b"0000000000000000000000000000000000000000".to_vec(),
        new: b"e69de29bb2d1d6434b8b29ae775ad8c2e48c5391".to_vec(),
        committer: Signature { name: b"A U Thor".to_vec(), email: b"a@example.com".to_vec(), seconds: 1234567890, offset_minutes: -90 },
        message: b"commit: a message".to_vec(),
    };
    let mut bytes = line.to_bytes();
    assert_eq!(bytes.pop(), Some(b'\n'));
    let back = refstore::reflog::parse_log_line(b"refs/heads/main", &bytes).expect("well formed");
    assert_eq!(back.to_bytes(), line.to_bytes());
    assert!(refstore::reflog::parse_log_line(b"x", b"not a reflog line").is_none());
    assert!(refstore::reflog::parse_log_line(b"x", b"0000000000000000000000000000000000000000 0000000000000000000000000000000000000000 a <b> 12 +01\tm").is_none());
}
