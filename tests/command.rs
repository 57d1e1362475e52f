use refstore::capabilities::Capabilities;
use refstore::command::{Command, Feature, ValidationError};
use refstore::protocol::Protocol;

const GITHUB_CAPABILITIES: &str = "multi_ack thin-pack side-band ofs-delta shallow deepen-since deepen-not deepen-relative no-progress include-tag allow-tip-sha1-in-want allow-reachable-sha1-in-want no-done symref=HEAD:refs/heads/main filter agent=git/github-gdf51a71f0236";

fn capabilities_v1(input: &str) -> Capabilities {
    let mut bytes = vec![0u8];
    bytes.extend_from_slice(input.as_bytes());
    Capabilities::from_bytes(&bytes).expect("valid input capabilities").0
}

fn capabilities_v2(command: &str, input: &str) -> Capabilities {
    let text = format!("version 2\n{command}={input}");
    Capabilities::from_lines(text.as_bytes()).expect("valid input for V2 capabilities")
}

fn features(names: &[&str]) -> Vec<Feature> {
    names.iter().map(|n| (n.as_bytes().to_vec(), None)).collect()
}

#[test]
fn it_chooses_the_best_multi_ack_and_sideband() {
    assert_eq!(
        Command::Fetch.default_features(
            Protocol::V1,
            &capabilities_v1("multi_ack side-band side-band-64k multi_ack_detailed")
        ),
        features(&["side-band-64k", "multi_ack_detailed"])
    );
}

#[test]
fn it_chooses_all_supported_non_stacking_capabilities_and_leaves_no_progress() {
    assert_eq!(
        Command::Fetch.default_features(Protocol::V1, &capabilities_v1(GITHUB_CAPABILITIES)),
        features(&[
            "multi_ack",
            "thin-pack",
            "side-band",
            "ofs-delta",
            "shallow",
            "deepen-since",
            "deepen-not",
            "deepen-relative",
            "include-tag",
            "allow-tip-sha1-in-want",
            "allow-reachable-sha1-in-want",
            "no-done",
            "filter",
        ]),
        "we don't enforce no-progress"
    );
}

#[test]
fn all_features() {
    assert_eq!(
        Command::Fetch.default_features(
            Protocol::V2,
            &capabilities_v2("fetch", "shallow filter ref-in-want sideband-all packfile-uris")
        ),
        features(&["shallow", "filter", "ref-in-want", "sideband-all", "packfile-uris"])
    )
}

#[test]
fn for_all_features() {
    assert_eq!(
        Command::Fetch.initial_arguments(&Command::Fetch.default_features(
            Protocol::V2,
            &capabilities_v2("fetch", "shallow filter sideband-all packfile-uris")
        )),
        ["thin-pack", "ofs-delta", "sideband-all"]
            .iter()
            .map(|s| s.as_bytes().to_vec())
            .collect::<Vec<_>>(),
        "packfile-uris isn't really supported that well and we don't support it either yet"
    )
}

#[test]
fn default_as_there_are_no_features() {
    assert_eq!(
        Command::LsRefs.default_features(
            Protocol::V2,
            &capabilities_v2("something-else", "does not matter as there are none")
        ),
        features(&[])
    );
}

#[test]
fn ref_prefixes_can_always_be_used() {
    assert_eq!(
        Command::LsRefs.validate_argument_prefixes(
            Protocol::V2,
            &capabilities_v2("something else", "do-not-matter"),
            &vec![b"ref-prefix hello/".to_vec()],
            &vec![],
        ),
        Ok(())
    );
}

#[test]
fn unknown_argument_is_rejected() {
    assert_eq!(
        Command::LsRefs.validate_argument_prefixes(
            Protocol::V2,
            &capabilities_v2("other", "do-not-matter"),
            &vec![b"definitely-nothing-we-know".to_vec()],
            &vec![],
        ),
        Err(ValidationError::UnknownArgument { argument: b"definitely-nothing-we-know".to_vec() })
    );
}

#[test]
fn unknown_feature_is_rejected() {
    assert_eq!(
        Command::LsRefs.validate_argument_prefixes(
            Protocol::V2,
            &capabilities_v2("other", "do-not-matter"),
            &vec![],
            &features(&["some-feature-that-does-not-exist"]),
        ),
        Err(ValidationError::UnsupportedFeature { feature: b"some-feature-that-does-not-exist".to_vec() })
    );
}

#[test]
fn v1_features_must_start_with_a_capability_name() {
    let caps = capabilities_v1("multi_ack thin-pack");
    assert_eq!(
        Command::Fetch.validate_argument_prefixes(Protocol::V1, &caps, &vec![b"want abc".to_vec()], &features(&["thin-pack"])),
        Ok(())
    );
    assert!(Command::Fetch
        .validate_argument_prefixes(Protocol::V1, &caps, &vec![], &features(&["ofs-delta"]))
        .is_err());
}

#[test]
fn ls_refs_starts_with_symrefs_and_peel() {
    assert_eq!(
        Command::LsRefs.initial_arguments(&vec![]),
        vec![b"symrefs".to_vec(), b"peel".to_vec()]
    );
    assert_eq!(Command::LsRefs.as_bytes(), b"ls-refs");
    assert_eq!(Command::Fetch.as_bytes(), b"fetch");
}

#[test]
fn capabilities_need_their_delimiter() {
    assert!(Capabilities::from_bytes(b"no nul byte here").is_err());
    assert!(Capabilities::from_lines(b"version 1\nfetch=shallow").is_err());
    let (caps, at) = Capabilities::from_bytes(b"abc\0a=1 b").unwrap();
    assert_eq!(at, 3);
    assert!(caps.contains(b"a"));
    assert!(caps.contains(b"b"));
    assert!(!caps.contains(b"c"));
    assert_eq!(caps.values_of(b"a"), Some(vec![b"1".to_vec()]));
    assert_eq!(caps.values_of(b"b"), None);
}

#[test]
fn every_listed_capability_is_found_and_no_other() {
    for n in [0usize, 1, 1000] {
        let names: Vec<String> = (0..n).map(|i| format!("cap-{:05}", i)).collect();
        let caps = capabilities_v1(&names.join(" "));
        for name in &names {
            assert!(caps.contains(name.as_bytes()), "{name}");
        }
        assert!(!caps.contains(b"zzz-past-the-last"));
        assert_eq!(caps.entries.len(), n);
    }
}
