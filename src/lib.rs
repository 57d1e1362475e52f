//! Reference storage for a content-addressed source-control store: names that point at
//! object ids or at other names, a packed table of such names, a per-name history log, and a
//! transaction engine that updates many names at once; with the wire-protocol pieces and the
//! time formats that go with them.
//!
//! - [`reference`], [`name`]: targets, loose reference files, valid names, partial names.
//! - [`packed`], [`order`]: the sorted packed table and the order it is sorted by.
//! - [`store`], [`transaction`], [`compact`]: the store, its transactions and its compaction.
//! - [`reflog`]: reading reflog lines back.
//! - [`capabilities`], [`command`], [`arguments`], [`packetline`], [`remote_progress`],
//!   [`protocol`]: the wire protocol.
//! - [`date`], [`kind`], [`graph`], [`pack`], [`alternates`]: times, object kinds, commit-graph
//!   positions, pack entries and alternate object directories.

pub mod alternates;
pub mod arguments;
pub mod bytes;
pub mod capabilities;
pub mod command;
pub mod compact;
pub mod date;
pub mod graph;
pub mod kind;
pub mod name;
pub mod order;
pub mod pack;
pub mod packed;
pub mod packetline;
pub mod protocol;
pub mod reference;
pub mod reflog;
pub mod remote_progress;
pub mod store;
pub mod transaction;
