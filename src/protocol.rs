//! The wire protocol versions a client can speak.
use vstd::prelude::*;

verus! {

/// A protocol version.
#[derive(Clone, Copy, Debug, PartialEq, Eq, Structural)]
pub enum Protocol {
    V1,
    V2,
}

/// The error returned when a protocol version is neither `1` nor `2`.
#[derive(Debug)]
pub struct UnsupportedProtocol {
    /// The version that was asked for.
    pub version: Vec<u8>,
}

impl Protocol {
    /// Parse a version given as `1` or `2`.
    pub fn from_bytes(s: &[u8]) -> (r: Result<Protocol, UnsupportedProtocol>)
        ensures
            s@ == seq![49u8] <==> r == Ok::<Protocol, UnsupportedProtocol>(Protocol::V1),
            s@ == seq![50u8] <==> r == Ok::<Protocol, UnsupportedProtocol>(Protocol::V2),
            r is Err ==> r->Err_0.version@ == s@,
    {
        if s.len() == 1 && s[0] == 49u8 {
            assert(s@ =~= seq![49u8]);
            Ok(Protocol::V1)
        } else if s.len() == 1 && s[0] == 50u8 {
            assert(s@ =~= seq![50u8]);
            Ok(Protocol::V2)
        } else {
            Err(UnsupportedProtocol { version: crate::bytes::to_vec(s) })
        }
    }
}

impl Default for Protocol {
    /// Version 2: version 1 may block forever on stateful connections.
    fn default() -> (r: Protocol)
        ensures
            r == Protocol::V2,
    {
        Protocol::V2
    }
}

impl std::str::FromStr for Protocol {
    type Err = UnsupportedProtocol;

    fn from_str(s: &str) -> Result<Protocol, UnsupportedProtocol> {
        Protocol::from_bytes(s.as_bytes())
    }
}

} // verus!
