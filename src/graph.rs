//! Positions of commits in a commit graph.
use vstd::prelude::*;
use crate::bytes::{decimal, decimal_bytes};

verus! {

/// A complete commit graph, from a monolithic `objects/info/commit-graph` file or from a chain
/// of `objects/info/commit-graphs/graph-*.graph` files: the contents of each file, in order.
pub struct Graph {
    pub files: Vec<Vec<u8>>,
}

/// A position in a commit graph.
#[derive(Clone, Copy, Debug, Eq, Ord, PartialEq, Structural, PartialOrd, Hash)]
pub struct Position(pub u32);

impl Position {
    /// The position in decimal.
    pub fn to_bytes(&self) -> (r: Vec<u8>)
        ensures
            r@ == decimal(self.0 as nat),
    {
        decimal_bytes(self.0 as u64)
    }
}

} // verus!
