use refstore::remote_progress::{translate_to_progress, ProgressCall, RemoteProgress};

#[test]
fn progress_lines_are_read() {
    let p = RemoteProgress::from_bytes(b"Counting objects: 50% (5/10)").unwrap();
    assert_eq!(p.action, b"Counting objects".to_vec());
    assert_eq!((p.percent, p.step, p.max), (Some(50), Some(5), Some(10)));
    let p = RemoteProgress::from_bytes(b"Enumerating objects: 1234, done.").unwrap();
    assert_eq!((p.percent, p.step, p.max), (None, Some(1234), None));
    let p = RemoteProgress::from_bytes(b"Compressing objects: 100% (3/3), done.").unwrap();
    assert_eq!((p.percent, p.step, p.max), (Some(100), Some(3), Some(3)));
    assert_eq!(RemoteProgress::from_bytes(b"no numbers: here"), None);
    assert_eq!(RemoteProgress::from_bytes(b":1 2"), None);
    assert_eq!(RemoteProgress::from_bytes(b""), None);
    let p = RemoteProgress::from_bytes(b"big: 99999999999% 7").unwrap();
    assert_eq!((p.percent, p.step, p.max), (None, Some(99999999999), Some(7)));
}

#[test]
fn progress_is_translated_into_calls() {
    assert_eq!(
        translate_to_progress(false, b"Receiving objects: 50% (5/10)", &Some(b"clone: old".to_vec())),
        vec![ProgressCall::SetName(b"clone: Receiving objects".to_vec()), ProgressCall::Init(Some(10)), ProgressCall::SetStep(5)]
    );
    assert_eq!(
        translate_to_progress(false, b"hello", &None),
        vec![ProgressCall::SetName(b"hello".to_vec())]
    );
    assert_eq!(translate_to_progress(true, b"", &None), vec![]);
    assert_eq!(
        translate_to_progress(true, b"the error", &Some(b"x".to_vec())),
        vec![ProgressCall::Fail(b"the error".to_vec())]
    );
}
