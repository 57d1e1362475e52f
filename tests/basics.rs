use refstore::kind::{Error, Kind};
use refstore::protocol::Protocol;

#[test]
fn kinds_round_trip_through_their_names() {
    for (kind, name) in [
        (Kind::Tree, &b"tree"[..]),
        (Kind::Blob, &b"blob"[..]),
        (Kind::Commit, &b"commit"[..]),
        (Kind::Tag, &b"tag"[..]),
    ] {
        assert_eq!(kind.as_bytes(), name);
        assert_eq!(Kind::from_bytes(name).unwrap(), kind);
    }
}

#[test]
fn unknown_kind_is_an_error() {
    match Kind::from_bytes(b"trees") {
        Err(Error::InvalidObjectKind { kind }) => assert_eq!(kind, b"trees".to_vec()),
        other => panic!("expected an error, got {other:?}"),
    }
}

#[test]
fn protocol_versions_parse() {
    assert_eq!("1".parse::<Protocol>().unwrap(), Protocol::V1);
    assert_eq!("2".parse::<Protocol>().unwrap(), Protocol::V2);
    assert_eq!("3".parse::<Protocol>().unwrap_err().version, b"3".to_vec());
    assert_eq!(Protocol::default(), Protocol::V2);
}
