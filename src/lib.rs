//! Send a file to another host over a direct TCP connection, addressed by a
//! short code made of dictionary words.
//!
//! The library holds the logic: the word codec that turns an address into a
//! transport code and back, the wire framing of a file message, the per
//! interface file registry, and the decisions of the fetching side. The
//! program around it performs the network and disk I/O.

pub mod errors;
pub mod network;
pub mod text;
pub mod transport;
pub mod codec;
pub mod framing;
pub mod registry;
pub mod fetch;
pub mod serve;
