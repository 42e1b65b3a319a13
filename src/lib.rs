//! A torrent client's control plane: a decoder for the length-prefixed
//! binary encoding, the mapping of metadata documents and tracker responses
//! onto typed records, the info hash, and the state of trackers and peers.

pub mod error;
pub mod field;
pub mod laws;
pub mod metadata;
pub mod model;
pub mod peer;
pub mod response;
pub mod schema;
pub mod session;
pub mod text;
pub mod torrent;
pub mod tracker;

pub use metadata::parse_torrent_metadata;
pub use response::parse_tracker_response;

