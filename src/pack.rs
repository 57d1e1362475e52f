//! Entries of pack files.
use vstd::prelude::*;

verus! {

/// The version of a pack data file.
#[derive(Clone, Copy, Debug, PartialEq, Eq, Structural, Hash, PartialOrd, Ord)]
pub enum Version {
    V2,
    V3,
}

/// An entry in a pack: the encoded bytes of the entry as present in the pack file, header and
/// compressed data, and the version of the pack file that holds it.
#[derive(PartialEq, Eq, Debug, Hash, Ord, PartialOrd)]
pub struct Entry {
    pub data: Vec<u8>,
    pub version: Version,
}

} // verus!
