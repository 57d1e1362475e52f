//! Packet lines, the framing of the wire protocol: four hex digits giving the length of the
//! line including themselves, then the data; `0000`, `0001` and `0002` are special lines.
use vstd::prelude::*;
use crate::bytes::append;

verus! {

/// The most data one packet line can carry.
pub const MAX_DATA_LEN: usize = 65516;

/// A message that ends a section of a request, or a line of text.
pub enum MessageKind {
    /// `0000`: the end of a message.
    Flush,
    /// `0001`: the end of a section within a message.
    Delimiter,
    /// `0002`: the end of a response.
    ResponseEnd,
    /// A line of text; a newline is added.
    Text(Vec<u8>),
}

/// How data is framed.
#[derive(Clone, Copy, Debug, PartialEq, Eq, Structural)]
pub enum WriteMode {
    /// Each write is one packet line, as given.
    Binary,
    /// Each write is one packet line, with a newline added.
    OneLfTerminatedLinePerWriteCall,
}

/// The data does not fit in one packet line.
#[derive(Debug, PartialEq, Eq)]
pub struct DataTooLong {
    pub len: usize,
}

/// The lowercase hex digit for `n`.
pub open spec fn hex_digit(n: nat) -> u8 {
    if n < 10 { (48 + n) as u8 } else { (87 + n) as u8 }
}

/// `n` as four hex digits.
pub open spec fn hex4(n: nat) -> Seq<u8> {
    seq![hex_digit((n / 4096) % 16), hex_digit((n / 256) % 16), hex_digit((n / 16) % 16), hex_digit(n % 16)]
}

/// The packet line that carries `data`.
pub open spec fn data_line(data: Seq<u8>) -> Seq<u8> {
    hex4((data.len() + 4) as nat) + data
}

/// The bytes of a message.
pub open spec fn message_bytes(m: MessageKind) -> Seq<u8> {
    match m {
        MessageKind::Flush => hex4(0),
        MessageKind::Delimiter => hex4(1),
        MessageKind::ResponseEnd => hex4(2),
        MessageKind::Text(t) => data_line(t@.push(10u8)),
    }
}

fn hex_digit_of(n: u64) -> (r: u8)
    requires
        n < 16,
    ensures
        r == hex_digit(n as nat),
{
    if n < 10 { (48 + n) as u8 } else { (87 + n) as u8 }
}

fn push_hex4(out: &mut Vec<u8>, n: u64)
    requires
        n < 65536,
    ensures
        final(out)@ == old(out)@ + hex4(n as nat),
{
    out.push(hex_digit_of((n / 4096) % 16));
    out.push(hex_digit_of((n / 256) % 16));
    out.push(hex_digit_of((n / 16) % 16));
    out.push(hex_digit_of(n % 16));
    assert(out@ =~= old(out)@ + hex4(n as nat));
}

/// The packet line that carries `data`, with a newline added in text mode.
pub fn encode_data(data: &[u8], mode: WriteMode) -> (r: Result<Vec<u8>, DataTooLong>)
    ensures
        match mode {
            WriteMode::Binary => match r {
                Ok(b) => data@.len() <= MAX_DATA_LEN && b@ == data_line(data@),
                Err(e) => data@.len() > MAX_DATA_LEN && e.len == data@.len(),
            },
            WriteMode::OneLfTerminatedLinePerWriteCall => match r {
                Ok(b) => data@.len() + 1 <= MAX_DATA_LEN && b@ == data_line(data@.push(10u8)),
                Err(e) => data@.len() + 1 > MAX_DATA_LEN && e.len == data@.len(),
            },
        },
{
    let extra: usize = if mode == WriteMode::Binary { 0 } else { 1 };
    if data.len() > MAX_DATA_LEN - extra {
        return Err(DataTooLong { len: data.len() });
    }
    let mut out: Vec<u8> = Vec::new();
    push_hex4(&mut out, (data.len() + extra + 4) as u64);
    append(&mut out, data);
    if extra == 1 {
        out.push(10u8);
    }
    proof {
        if extra == 1 {
            assert(out@ =~= data_line(data@.push(10u8)));
        } else {
            assert(out@ =~= data_line(data@));
        }
    }
    Ok(out)
}

/// The bytes of a message.
pub fn encode_message(m: &MessageKind) -> (r: Result<Vec<u8>, DataTooLong>)
    ensures
        match m {
            MessageKind::Text(t) => match r {
                Ok(b) => t@.len() + 1 <= MAX_DATA_LEN && b@ == message_bytes(*m),
                Err(_) => t@.len() + 1 > MAX_DATA_LEN,
            },
            _ => r is Ok && r->Ok_0@ == message_bytes(*m),
        },
{
    let mut out: Vec<u8> = Vec::new();
    match m {
        MessageKind::Flush => {
            push_hex4(&mut out, 0);
        },
        MessageKind::Delimiter => {
            push_hex4(&mut out, 1);
        },
        MessageKind::ResponseEnd => {
            push_hex4(&mut out, 2);
        },
        MessageKind::Text(t) => {
            return encode_data(t.as_slice(), WriteMode::OneLfTerminatedLinePerWriteCall);
        },
    }
    assert(out@ =~= message_bytes(*m));
    Ok(out)
}

/// The value of a hex digit in either case, if it is one.
pub open spec fn hex_value(b: u8) -> Option<nat> {
    if 48u8 <= b <= 57u8 {
        Some((b - 48) as nat)
    } else if 97u8 <= b <= 102u8 {
        Some((b - 87) as nat)
    } else if 65u8 <= b <= 70u8 {
        Some((b - 55) as nat)
    } else {
        None
    }
}

/// The first of the four length digits of `s` that is no hex digit.
pub open spec fn first_bad_hex(s: Seq<u8>) -> int {
    if hex_value(s[0]) is None { 0 }
    else if hex_value(s[1]) is None { 1 }
    else if hex_value(s[2]) is None { 2 }
    else { 3 }
}

/// The length the four hex digits at the start of `s` give.
pub open spec fn length_prefix(s: Seq<u8>) -> nat {
    hex_value(s[0])->Some_0 * 4096 + hex_value(s[1])->Some_0 * 256 + hex_value(s[2])->Some_0 * 16
        + hex_value(s[3])->Some_0
}

/// A decoded packet line.
#[derive(Debug, PartialEq, Eq)]
pub enum PacketLine {
    Flush,
    Delimiter,
    ResponseEnd,
    Data(Vec<u8>),
}

/// What decoding the start of a buffer gives.
#[derive(Debug, PartialEq, Eq)]
pub enum Stream {
    /// A whole line, and how many bytes it took.
    Complete { line: PacketLine, bytes_consumed: usize },
    /// The buffer ends before the line does; this many more bytes are needed.
    Incomplete { bytes_needed: usize },
}

/// Why a packet line could not be decoded.
#[derive(Debug, PartialEq, Eq)]
pub enum DecodeError {
    /// A length digit is no hex digit.
    HexDecode { byte: u8, position: usize },
    /// The line claims more data than a line can carry.
    DataLengthLimitExceeded { length_in_bytes: usize },
    /// A data line without data.
    DataIsEmpty,
    /// A length of 3, which no line has.
    InvalidLineLength,
}

/// Decode the packet line at the start of `data`; what follows it is left alone.
pub fn decode_streaming(data: &[u8]) -> (r: Result<Stream, DecodeError>)
    ensures
        data@.len() < 4 ==> r == Ok::<Stream, DecodeError>(Stream::Incomplete { bytes_needed: (4 - data@.len()) as usize }),
        data@.len() >= 4 ==> {
            let s = data@;
            if hex_value(s[0]) is None || hex_value(s[1]) is None || hex_value(s[2]) is None || hex_value(s[3]) is None {
                r == Err::<Stream, DecodeError>(DecodeError::HexDecode { byte: s[first_bad_hex(s)], position: first_bad_hex(s) as usize })
            } else {
                let n = length_prefix(s);
                if n == 0 {
                    r == Ok::<Stream, DecodeError>(Stream::Complete { line: PacketLine::Flush, bytes_consumed: 4 })
                } else if n == 1 {
                    r == Ok::<Stream, DecodeError>(Stream::Complete { line: PacketLine::Delimiter, bytes_consumed: 4 })
                } else if n == 2 {
                    r == Ok::<Stream, DecodeError>(Stream::Complete { line: PacketLine::ResponseEnd, bytes_consumed: 4 })
                } else if n == 3 {
                    r == Err::<Stream, DecodeError>(DecodeError::InvalidLineLength)
                } else if n == 4 {
                    r == Err::<Stream, DecodeError>(DecodeError::DataIsEmpty)
                } else if n - 4 > MAX_DATA_LEN {
                    r == Err::<Stream, DecodeError>(DecodeError::DataLengthLimitExceeded { length_in_bytes: n as usize })
                } else if s.len() < n {
                    r == Ok::<Stream, DecodeError>(Stream::Incomplete { bytes_needed: (n - s.len()) as usize })
                } else {
                    r is Ok && (r->Ok_0 matches Stream::Complete { line: PacketLine::Data(d), bytes_consumed }
                        && bytes_consumed == n && d@ == s.subrange(4, n as int))
                }
            }
        },
{
    if data.len() < 4 {
        return Ok(Stream::Incomplete { bytes_needed: 4 - data.len() });
    }
    let mut n: usize = 0;
    let mut i: usize = 0;
    while i < 4
        invariant
            data@.len() >= 4,
            i <= 4,
            forall|k: int| 0 <= k < i ==> hex_value(#[trigger] data@[k]) is Some,
            n as nat == if i == 0 { 0 } else if i == 1 { hex_value(data@[0])->Some_0 }
                else if i == 2 { hex_value(data@[0])->Some_0 * 16 + hex_value(data@[1])->Some_0 }
                else if i == 3 { hex_value(data@[0])->Some_0 * 256 + hex_value(data@[1])->Some_0 * 16 + hex_value(data@[2])->Some_0 }
                else { length_prefix(data@) },
            n < 65536,
            i < 4 ==> n < if i == 0 { 1usize } else if i == 1 { 16usize } else if i == 2 { 256usize } else { 4096usize },
        decreases 4 - i,
    {
        let b = data[i];
        let v: usize = if 48u8 <= b && b <= 57u8 {
            (b - 48u8) as usize
        } else if 97u8 <= b && b <= 102u8 {
            (b - 87u8) as usize
        } else if 65u8 <= b && b <= 70u8 {
            (b - 55u8) as usize
        } else {
            assert(first_bad_hex(data@) == i as int);
            return Err(DecodeError::HexDecode { byte: b, position: i });
        };
        assert(v as nat == hex_value(b)->Some_0);
        n = n * 16 + v;
        i = i + 1;
    }
    if n == 0 {
        return Ok(Stream::Complete { line: PacketLine::Flush, bytes_consumed: 4 });
    }
    if n == 1 {
        return Ok(Stream::Complete { line: PacketLine::Delimiter, bytes_consumed: 4 });
    }
    if n == 2 {
        return Ok(Stream::Complete { line: PacketLine::ResponseEnd, bytes_consumed: 4 });
    }
    if n == 3 {
        return Err(DecodeError::InvalidLineLength);
    }
    if n == 4 {
        return Err(DecodeError::DataIsEmpty);
    }
    if n - 4 > MAX_DATA_LEN {
        return Err(DecodeError::DataLengthLimitExceeded { length_in_bytes: n });
    }
    if data.len() < n {
        return Ok(Stream::Incomplete { bytes_needed: n - data.len() });
    }
    Ok(Stream::Complete { line: PacketLine::Data(crate::bytes::copy_range(data, 4, n)), bytes_consumed: n })
}

/// Reading the prefix of an encoded line gives its length back, and the data follows it: a
/// line written for `data` decodes as `data`, taking the whole line.
pub proof fn lemma_data_line_round_trip(data: Seq<u8>)
    requires
        0 < data.len() <= MAX_DATA_LEN,
    ensures
        hex_value(data_line(data)[0]) is Some,
        hex_value(data_line(data)[1]) is Some,
        hex_value(data_line(data)[2]) is Some,
        hex_value(data_line(data)[3]) is Some,
        length_prefix(data_line(data)) == data.len() + 4,
        data_line(data).len() == data.len() + 4,
        data_line(data).subrange(4, data.len() + 4int) == data,
{
    let n = (data.len() + 4) as nat;
    let line = data_line(data);
    assert(line.subrange(4, data.len() + 4int) =~= data);
    let a = (n / 4096) % 16;
    let b = (n / 256) % 16;
    let c = (n / 16) % 16;
    let d = n % 16;
    lemma_hex_digit_value(a);
    lemma_hex_digit_value(b);
    lemma_hex_digit_value(c);
    lemma_hex_digit_value(d);
    assert(line[0] == hex_digit(a));
    assert(line[1] == hex_digit(b));
    assert(line[2] == hex_digit(c));
    assert(line[3] == hex_digit(d));
    assert(a * 4096 + b * 256 + c * 16 + d == n) by (nonlinear_arith)
        requires
            n < 65536,
            a == (n / 4096) % 16,
            b == (n / 256) % 16,
            c == (n / 16) % 16,
            d == n % 16,
    ;
}

/// A hex digit reads back as the number it was written for.
pub proof fn lemma_hex_digit_value(n: nat)
    requires
        n < 16,
    ensures
        hex_value(hex_digit(n)) == Some(n),
{
}

/// `ERR `, which opens a line that reports an error.
pub open spec fn err_prefix() -> Seq<u8> {
    seq![69u8, 82, 82, 32]  // `ERR `
}

impl PacketLine {
    /// The message of an error line: the data after `ERR `.
    pub fn check_error(&self) -> (r: Option<Vec<u8>>)
        ensures
            match self {
                PacketLine::Data(d) => if crate::bytes::is_prefix(err_prefix(), d@) {
                    r is Some && r->Some_0@ == d@.subrange(4, d@.len() as int)
                } else {
                    r is None
                },
                _ => r is None,
            },
    {
        match self {
            PacketLine::Data(d) => {
                if crate::bytes::starts_with(d.as_slice(), &[69u8, 82, 82, 32]) {  // `ERR `
                    Some(crate::bytes::copy_range(d.as_slice(), 4, d.len()))
                } else {
                    None
                }
            },
            _ => None,
        }
    }
}

} // verus!
