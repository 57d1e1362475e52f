//! The four kinds of objects and their names in serialized loose objects.
use vstd::prelude::*;
use crate::bytes::{bytes_eq, to_vec};

verus! {

/// The kind of an object.
#[derive(Clone, Copy, Debug, PartialEq, Eq, Structural, Hash, PartialOrd, Ord)]
pub enum Kind {
    Tree,
    Blob,
    Commit,
    Tag,
}

/// The error returned by [`Kind::from_bytes`].
#[derive(Debug)]
pub enum Error {
    /// The bytes name no kind of object.
    InvalidObjectKind { kind: Vec<u8> },
}

/// The serialized name of a kind.
pub open spec fn kind_name(k: Kind) -> Seq<u8> {
    match k {
        Kind::Tree => seq![116u8, 114, 101, 101],  // `tree`
        Kind::Blob => seq![98u8, 108, 111, 98],  // `blob`
        Kind::Commit => seq![99u8, 111, 109, 109, 105, 116],  // `commit`
        Kind::Tag => seq![116u8, 97, 103],  // `tag`
    }
}

impl Kind {
    /// Parse a kind from its name in serialized loose objects.
    pub fn from_bytes(s: &[u8]) -> (r: Result<Kind, Error>)
        ensures
            match r {
                Ok(k) => kind_name(k) == s@,
                Err(Error::InvalidObjectKind { kind }) => kind@ == s@
                    && forall|k: Kind| kind_name(k) != s@,
            },
    {
        if bytes_eq(s, &[116u8, 114, 101, 101]) {  // `tree`
            Ok(Kind::Tree)
        } else if bytes_eq(s, &[98u8, 108, 111, 98]) {  // `blob`
            Ok(Kind::Blob)
        } else if bytes_eq(s, &[99u8, 111, 109, 109, 105, 116]) {  // `commit`
            Ok(Kind::Commit)
        } else if bytes_eq(s, &[116u8, 97, 103]) {  // `tag`
            Ok(Kind::Tag)
        } else {
            Err(Error::InvalidObjectKind { kind: to_vec(s) })
        }
    }

    /// The name of `self` for use in serialized loose objects.
    pub fn as_bytes(&self) -> (r: &'static [u8])
        ensures
            r@ == kind_name(*self),
    {
        match self {
            Kind::Tree => &[116u8, 114, 101, 101],  // `tree`
            Kind::Commit => &[99u8, 111, 109, 109, 105, 116],  // `commit`
            Kind::Blob => &[98u8, 108, 111, 98],  // `blob`
            Kind::Tag => &[116u8, 97, 103],  // `tag`
        }
    }
}

} // verus!
