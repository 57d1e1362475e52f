use refstore::packed::{Buffer, Reference};

const PEELED: &[u8] = b"# pack-refs with: peeled fully-peeled sorted
916840c0e2f67d370291042cb5274a597f4fa9bc refs/tags/TEST-0.0.1
c4cebba92af964f2d126be90b8a6298c4cf84d45 refs/tags/gix-actor-v0.1.0
^13da90b54699a6b500ec5cd7d175f2cd5a1bed06
0b92c8a256ae06c189e3b9c30b646d62ac8f7d10 refs/tags/gix-actor-v0.1.1\n";

fn reference(name: &str, target: &str, object: Option<&str>) -> Reference {
    Reference {
        name: name.as_bytes().to_vec(),
        target: target.as_bytes().to_vec(),
        object: object.map(|o| o.as_bytes().to_vec()),
    }
}

fn synthetic(n: usize) -> Vec<u8> {
    let mut out = b"# pack-refs with: peeled fully-peeled sorted \n".to_vec();
    for i in 0..n {
        out.extend_from_slice(format!("{:040x} refs/heads/branch-{:06}\n", i + 1, i).as_bytes());
    }
    out
}

#[test]
fn all_iterable_refs_can_be_found() {
    let packed_refs = Buffer::from_bytes(PEELED);
    for reference in packed_refs.references().expect("every record reads") {
        let found = packed_refs.find(&reference.name).unwrap().expect("reference exists");
        assert_eq!(reference, found, "both refs are exactly the same");
    }
}

#[test]
fn find_packed_refs_with_peeled_items_and_full_or_partial_names() {
    let buf = Buffer::from_bytes(PEELED);
    assert_eq!(
        buf.find(b"refs/tags/TEST-0.0.1").unwrap().expect("reference exists"),
        reference("refs/tags/TEST-0.0.1", "916840c0e2f67d370291042cb5274a597f4fa9bc", None)
    );
    assert_eq!(
        buf.find(b"refs/tags/gix-actor-v0.1.0").unwrap().expect("reference exists"),
        reference(
            "refs/tags/gix-actor-v0.1.0",
            "c4cebba92af964f2d126be90b8a6298c4cf84d45",
            Some("13da90b54699a6b500ec5cd7d175f2cd5a1bed06")
        )
    );
    assert_eq!(
        buf.find(b"refs/tags/gix-actor-v0.1.1").unwrap().expect("reference exists"),
        reference("refs/tags/gix-actor-v0.1.1", "0b92c8a256ae06c189e3b9c30b646d62ac8f7d10", None)
    );
}

#[test]
fn binary_search_finds_every_entry_of_synthetic_files() {
    for n in [0usize, 1, 1000] {
        let buf = Buffer::from_bytes(&synthetic(n));
        assert_eq!(buf.len(), n);
        for i in 0..n {
            let name = format!("refs/heads/branch-{:06}", i);
            let found = buf.find(name.as_bytes()).unwrap().expect("present");
            assert_eq!(found.target, format!("{:040x}", i + 1).into_bytes());
        }
        assert_eq!(buf.find(b"refs/tags/zzz-past-the-end").unwrap(), None);
        assert_eq!(buf.find(b"refs/heads/a-before-the-start").unwrap(), None);
    }
}

#[test]
fn a_corrupt_line_fails_only_the_lookups_that_land_on_it() {
    let data = b"1111111111111111111111111111111111111111 refs/heads/a
2222222222222222222222222222222222222222 refs/heads/b
bogus refs/heads/c
4444444444444444444444444444444444444444 refs/heads/d
5555555555555555555555555555555555555555 refs/heads/e
";
    let buf = Buffer::from_bytes(data);
    // The first probe lands on the middle record, which is the corrupt one.
    assert!(buf.find(b"refs/heads/a").is_err());
    let buf = Buffer::from_bytes(&data[..data.len()]);
    assert!(buf.references().is_err());
    let good = b"1111111111111111111111111111111111111111 refs/heads/a
2222222222222222222222222222222222222222 refs/heads/b
3333333333333333333333333333333333333333 refs/heads/c
4444444444444444444444444444444444444444 refs/heads/d
bogus refs/heads/e
";
    let buf = Buffer::from_bytes(good);
    assert_eq!(buf.find(b"refs/heads/b").unwrap().unwrap().target, b"2222222222222222222222222222222222222222".to_vec());
    assert!(buf.find(b"refs/heads/e").is_err());
}

#[test]
fn a_rewritten_table_reads_back() {
    let refs = vec![
        reference("refs/heads/main", "1111111111111111111111111111111111111111", None),
        reference(
            "refs/tags/v1",
            "2222222222222222222222222222222222222222",
            Some("3333333333333333333333333333333333333333"),
        ),
    ];
    let buf = Buffer::from_references(&refs);
    let bytes = buf.to_bytes();
    assert_eq!(
        bytes,
        b"# pack-refs with: peeled fully-peeled sorted \n1111111111111111111111111111111111111111 refs/heads/main\n2222222222222222222222222222222222222222 refs/tags/v1\n^3333333333333333333333333333333333333333\n".to_vec()
    );
    let again = Buffer::from_bytes(&bytes);
    assert_eq!(again.references().unwrap(), refs);
}
