use refstore::packetline::{encode_data, encode_message, MessageKind, WriteMode, MAX_DATA_LEN};

#[test]
fn messages_are_framed() {
    assert_eq!(encode_message(&MessageKind::Flush).unwrap(), b"0000".to_vec());
    assert_eq!(encode_message(&MessageKind::Delimiter).unwrap(), b"0001".to_vec());
    assert_eq!(encode_message(&MessageKind::ResponseEnd).unwrap(), b"0002".to_vec());
    assert_eq!(encode_message(&MessageKind::Text(b"done".to_vec())).unwrap(), b"0009done\n".to_vec());
}

#[test]
fn data_lines_carry_their_length() {
    assert_eq!(encode_data(b"a\n", WriteMode::Binary).unwrap(), b"0006a\n".to_vec());
    assert_eq!(encode_data(b"a", WriteMode::OneLfTerminatedLinePerWriteCall).unwrap(), b"0006a\n".to_vec());
    assert_eq!(encode_data(b"", WriteMode::Binary).unwrap(), b"0004".to_vec());
    let big = vec![b'x'; MAX_DATA_LEN];
    assert_eq!(&encode_data(&big, WriteMode::Binary).unwrap()[..4], b"fff0");
    assert_eq!(encode_data(&big, WriteMode::OneLfTerminatedLinePerWriteCall).unwrap_err().len, MAX_DATA_LEN);
}

use refstore::packetline::{decode_streaming, DecodeError, PacketLine, Stream};

fn assert_complete(res: Result<Stream, DecodeError>, expected_consumed: usize, expected_value: PacketLine) {
    match res.expect("decodes") {
        Stream::Complete { line, bytes_consumed } => {
            assert_eq!(bytes_consumed, expected_consumed);
            assert_eq!(line, expected_value);
        }
        Stream::Incomplete { .. } => panic!("expected parsing to be complete, not partial"),
    }
}

fn assert_incomplete(res: Result<Stream, DecodeError>, expected_missing: usize) {
    match res.expect("decodes") {
        Stream::Complete { .. } => panic!("expected parsing to be partial, not complete"),
        Stream::Incomplete { bytes_needed } => assert_eq!(bytes_needed, expected_missing),
    }
}

#[test]
fn flush() {
    assert_complete(decode_streaming(b"0000someotherstuff"), 4, PacketLine::Flush)
}

#[test]
fn trailing_line_feeds_are_not_removed_automatically() {
    assert_complete(decode_streaming(b"0006a\n"), 6, PacketLine::Data(b"a\n".to_vec()))
}

#[test]
fn ignore_extra_bytes() {
    assert_complete(decode_streaming(b"0006a\nhello"), 6, PacketLine::Data(b"a\n".to_vec()))
}

#[test]
fn error_on_oversized_line() {
    assert_eq!(
        decode_streaming(b"ffff"),
        Err(DecodeError::DataLengthLimitExceeded { length_in_bytes: 65535 })
    );
}

#[test]
fn error_on_error_line() {
    let line = PacketLine::Data(b"ERR the error".to_vec());
    assert_complete(
        decode_streaming(b"0011ERR the error-and just ignored because not part of the size"),
        17,
        PacketLine::Data(b"ERR the error".to_vec()),
    );
    assert_eq!(line.check_error().expect("error to be parsed here"), b"the error".to_vec());
}

#[test]
fn error_on_invalid_hex() {
    assert_eq!(decode_streaming(b"fooo"), Err(DecodeError::HexDecode { byte: b'o', position: 1 }));
}

#[test]
fn error_on_empty_line() {
    assert_eq!(decode_streaming(b"0004"), Err(DecodeError::DataIsEmpty));
}

#[test]
fn missing_hex_bytes() {
    assert_incomplete(decode_streaming(b"0"), 3);
    assert_incomplete(decode_streaming(b"00"), 2);
}

#[test]
fn missing_data_bytes() {
    assert_incomplete(decode_streaming(b"0005"), 1);
    assert_incomplete(decode_streaming(b"0006a"), 1);
}

#[test]
fn encoded_lines_decode_again() {
    let line = encode_data(b"hello there", WriteMode::OneLfTerminatedLinePerWriteCall).unwrap();
    assert_complete(decode_streaming(&line), 16, PacketLine::Data(b"hello there\n".to_vec()));
    assert_eq!(decode_streaming(b"0003"), Err(DecodeError::InvalidLineLength));
    assert_complete(decode_streaming(b"0001"), 4, PacketLine::Delimiter);
    assert_complete(decode_streaming(b"0002"), 4, PacketLine::ResponseEnd);
    assert_eq!(PacketLine::Data(b"ok".to_vec()).check_error(), None);
}
