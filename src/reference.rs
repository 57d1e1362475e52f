//! References: names that point at an object id or at another name, and the content of the
//! file that holds one reference in the loose store.
use vstd::prelude::*;
use crate::bytes::{bytes_eq, copy_range, is_prefix, starts_with, to_vec};

verus! {

/// `b` is a lowercase hexadecimal digit.
pub open spec fn is_hex_digit(b: u8) -> bool {
    (48u8 <= b <= 57u8) || (97u8 <= b <= 102u8)
}

/// `s` is an object id written in hex: 40 digits (SHA-1) or 64 digits (SHA-256).
pub open spec fn is_hex_id(s: Seq<u8>) -> bool {
    (s.len() == 40 || s.len() == 64) && forall|i: int| 0 <= i < s.len() ==> is_hex_digit(#[trigger] s[i])
}

/// Whether `s` is an object id written in hex.
pub fn hex_id(s: &[u8]) -> (r: bool)
    ensures
        r == is_hex_id(s@),
{
    if s.len() != 40 && s.len() != 64 {
        return false;
    }
    let mut i: usize = 0;
    while i < s.len()
        invariant
            i <= s@.len(),
            forall|k: int| 0 <= k < i ==> is_hex_digit(#[trigger] s@[k]),
        decreases s@.len() - i,
    {
        let b = s[i];
        if !((48u8 <= b && b <= 57u8) || (97u8 <= b && b <= 102u8)) {
            return false;
        }
        i = i + 1;
    }
    true
}

/// The id of no object: forty zeros, recorded as the previous value of a name that did not exist.
pub open spec fn null_id() -> Seq<u8> {
    Seq::new(40, |i: int| 48u8)
}

/// The id of no object.
pub fn null_id_bytes() -> (r: Vec<u8>)
    ensures
        r@ == null_id(),
{
    let mut r: Vec<u8> = Vec::new();
    let mut i: usize = 0;
    while i < 40
        invariant
            i <= 40,
            r@ == Seq::new(i as nat, |k: int| 48u8),
        decreases 40 - i,
    {
        r.push(48u8);
        i = i + 1;
        assert(r@ =~= Seq::new(i as nat, |k: int| 48u8));
    }
    r
}

/// What a reference points at, as plain values.
pub enum Value {
    /// An object id in hex.
    Peeled(Seq<u8>),
    /// The name of another reference.
    Symbolic(Seq<u8>),
}

/// What a reference points at.
#[derive(Debug, PartialEq, Eq)]
pub enum Target {
    /// An object id, written in hex.
    Peeled(Vec<u8>),
    /// The full name of another reference.
    Symbolic(Vec<u8>),
}

impl View for Target {
    type V = Value;

    open spec fn view(&self) -> Value {
        match self {
            Target::Peeled(id) => Value::Peeled(id@),
            Target::Symbolic(name) => Value::Symbolic(name@),
        }
    }
}

impl Target {
    /// A copy of this target.
    pub fn copy(&self) -> (r: Target)
        ensures
            r@ == self@,
    {
        match self {
            Target::Peeled(id) => Target::Peeled(to_vec(id.as_slice())),
            Target::Symbolic(name) => Target::Symbolic(to_vec(name.as_slice())),
        }
    }

    /// The same target.
    pub fn same_as(&self, other: &Target) -> (r: bool)
        ensures
            r == (self@ == other@),
    {
        match (self, other) {
            (Target::Peeled(a), Target::Peeled(b)) => bytes_eq(a.as_slice(), b.as_slice()),
            (Target::Symbolic(a), Target::Symbolic(b)) => bytes_eq(a.as_slice(), b.as_slice()),
            _ => false,
        }
    }
}

/// The marker that opens a symbolic reference's file: `ref: `.
pub open spec fn symbolic_marker() -> Seq<u8> {
    seq![114u8, 101, 102, 58, 32]  // `ref: `
}

/// The content of a loose reference file: the id and a newline, or the marker, the
/// target name and a newline.
pub open spec fn loose_content(v: Value) -> Seq<u8> {
    match v {
        Value::Peeled(id) => id.push(10u8),
        Value::Symbolic(name) => symbolic_marker() + name.push(10u8),
    }
}

/// `s` without one trailing newline, if it has one.
pub open spec fn trim_newline(s: Seq<u8>) -> Seq<u8> {
    if s.len() > 0 && s.last() == 10u8 {
        s.drop_last()
    } else {
        s
    }
}

/// What the content of a loose reference file says, if it is well formed: a hex id, or the
/// marker followed by a non-empty name, either with an optional trailing newline.
pub open spec fn loose_value(content: Seq<u8>) -> Option<Value> {
    let t = trim_newline(content);
    if is_prefix(symbolic_marker(), t) {
        let name = t.subrange(symbolic_marker().len() as int, t.len() as int);
        if name.len() > 0 {
            Some(Value::Symbolic(name))
        } else {
            None
        }
    } else if is_hex_id(t) {
        Some(Value::Peeled(t))
    } else {
        None
    }
}

/// Loose reference content that is not well formed.
#[derive(Debug, PartialEq, Eq)]
pub struct Corrupt {
    /// The content as it was read.
    pub content: Vec<u8>,
}

/// Read the content of a loose reference file.
pub fn parse_loose(content: &[u8]) -> (r: Result<Target, Corrupt>)
    ensures
        match r {
            Ok(t) => loose_value(content@) == Some(t@),
            Err(e) => loose_value(content@) is None && e.content@ == content@,
        },
{
    let mut end = content.len();
    if end > 0 && content[end - 1] == 10u8 {
        end = end - 1;
    }
    let t = copy_range(content, 0, end);
    assert(t@ == trim_newline(content@)) by {
        if content@.len() > 0 && content@.last() == 10u8 {
            assert(t@ =~= content@.drop_last());
        } else {
            assert(t@ =~= content@);
        }
    }
    if starts_with(t.as_slice(), &SYMBOLIC_MARKER) {
        if t.len() > 5 {
            return Ok(Target::Symbolic(copy_range(t.as_slice(), 5, t.len())));
        }
        return Err(Corrupt { content: to_vec(content) });
    }
    if hex_id(t.as_slice()) {
        return Ok(Target::Peeled(t));
    }
    Err(Corrupt { content: to_vec(content) })
}

/// The content of the loose file that holds `target`.
pub fn loose_bytes(target: &Target) -> (r: Vec<u8>)
    ensures
        r@ == loose_content(target@),
{
    match target {
        Target::Peeled(id) => {
            let mut r = to_vec(id.as_slice());
            r.push(10u8);
            r
        },
        Target::Symbolic(name) => {
            let mut r = to_vec(&SYMBOLIC_MARKER);
            let mut i: usize = 0;
            while i < name.len()
                invariant
                    i <= name@.len(),
                    r@ == symbolic_marker() + name@.subrange(0, i as int),
                decreases name@.len() - i,
            {
                r.push(name[i]);
                i = i + 1;
                assert(r@ =~= symbolic_marker() + name@.subrange(0, i as int));
            }
            r.push(10u8);
            assert(r@ =~= symbolic_marker() + name@.push(10u8));
            r
        },
    }
}

/// Writing a target to a loose file and reading the file back gives the target again, for an
/// id in hex and for a non-empty name without a newline.
pub proof fn lemma_loose_round_trip(v: Value)
    requires
        match v {
            Value::Peeled(id) => is_hex_id(id),
            Value::Symbolic(name) => name.len() > 0,
        },
    ensures
        loose_value(loose_content(v)) == Some(v),
{
    match v {
        Value::Peeled(id) => {
            assert(trim_newline(id.push(10u8)) =~= id);
            assert(!is_prefix(symbolic_marker(), id)) by {
                if is_prefix(symbolic_marker(), id) {
                    assert(id[0] == symbolic_marker()[0]);
                }
            }
        },
        Value::Symbolic(name) => {
            let c = symbolic_marker() + name.push(10u8);
            assert(trim_newline(c) =~= symbolic_marker() + name);
            assert((symbolic_marker() + name).subrange(0, 5) =~= symbolic_marker());
            assert((symbolic_marker() + name).subrange(5, 5 + name.len() as int) =~= name);
        },
    }
}

/// The marker that opens a symbolic reference's file.
pub const SYMBOLIC_MARKER: [u8; 5] = [114u8, 101, 102, 58, 32];  // `ref: `

} // verus!
