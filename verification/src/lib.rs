//! Client-side logic for a UDP master-server discovery protocol.
//!
//! A query session asks a directory host for the addresses of game servers
//! matching a filter, page by page, until the host sends the all-zero
//! terminator entry.  This crate holds the verified core: the region code
//! table, the wire codec for the protocol's primitive fields, and the
//! session engine that frames requests and decodes response pages.

pub mod error;
pub mod packet_ext;
pub mod region;
pub mod session;

pub use error::ProtocolError;
pub use region::Region;
pub use session::{Address, QuerySession};
