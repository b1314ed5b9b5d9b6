//! A single-file link feed store: newest-first feeds of links, content-derived
//! identifiers, a length-framed byte codec, and the decisions of the `list`
//! and `add` operations, with every rule stated as a contract.

pub mod error;
pub mod model;
pub mod dto;
pub mod clock;
pub mod codec;
pub mod ident;
pub mod store;
pub mod writer;
