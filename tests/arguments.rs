use refstore::arguments::Arguments;
use refstore::command::Feature;
use refstore::protocol::Protocol;

fn features(list: &[(&str, Option<&str>)]) -> Vec<Feature> {
    list.iter().map(|(n, v)| (n.as_bytes().to_vec(), v.map(|v| v.as_bytes().to_vec()))).collect()
}

fn text(lines: &[Vec<u8>]) -> Vec<String> {
    lines.iter().map(|l| String::from_utf8_lossy(l).into_owned()).collect()
}

const ID1: &str = "7b333369de1221f9bfbbe03a3a13e9a09bc1c907";
const ID2: &str = "ff333369de1221f9bfbbe03a3a13e9a09bc1c9ff";

#[test]
fn v1_sends_features_with_the_first_want_of_each_round() {
    let f = features(&[("multi_ack_detailed", None), ("no-done", None), ("shallow", None), ("agent", Some("git/2.0"))]);
    let mut args = Arguments::new(Protocol::V1, &f);
    assert!(args.can_use_shallow());
    assert!(args.can_use_deepen());
    assert!(!args.can_use_filter());
    assert!(!args.can_use_deepen_since());
    args.want(ID1.as_bytes());
    args.want(ID2.as_bytes());
    args.have(ID2.as_bytes());
    args.deepen(1);
    let req = args.send(Protocol::V1, &f, false);
    assert_eq!(
        text(&req.lines),
        vec![
            format!("want {ID1}\0multi_ack_detailed no-done shallow agent=git/2.0"),
            format!("want {ID2}"),
            format!("have {ID2}"),
            "deepen 1".to_string(),
        ]
    );
    assert!(!req.done_after_flush);
    args.want(ID1.as_bytes());
    let req = args.send(Protocol::V1, &f, true);
    assert_eq!(text(&req.lines), vec![format!("want {ID1}\0multi_ack_detailed no-done shallow agent=git/2.0")]);
    assert!(!req.done_after_flush, "no-done with multi_ack_detailed leaves out done");
}

#[test]
fn v1_sends_done_after_the_flush_when_asked() {
    let f = features(&[("deepen-since", None), ("deepen-not", None), ("filter", None)]);
    let mut args = Arguments::new(Protocol::V1, &f);
    args.deepen_since(123456);
    args.deepen_not(b"refs/heads/main");
    args.filter(b"blob:none");
    let req = args.send(Protocol::V1, &f, true);
    assert_eq!(
        text(&req.lines),
        vec!["deepen-since 123456", "deepen-not refs/heads/main", "filter blob:none"]
    );
    assert!(req.done_after_flush);
}

#[test]
fn v2_starts_each_round_from_the_initial_arguments() {
    let f = features(&[("shallow", None), ("sideband-all", None)]);
    let mut args = Arguments::new(Protocol::V2, &f);
    assert!(args.can_use_deepen_relative());
    args.want(ID1.as_bytes());
    let req = args.send(Protocol::V2, &f, true);
    assert_eq!(text(&req.lines), vec!["thin-pack", "ofs-delta", "sideband-all", &format!("want {ID1}"), "done"]);
    args.have(ID2.as_bytes());
    let req = args.send(Protocol::V2, &f, false);
    assert_eq!(text(&req.lines), vec!["thin-pack", "ofs-delta", "sideband-all", &format!("have {ID2}")]);
}
