//! Verified core of a CAR-archive reader and program tracker.

pub mod block_nodes;
pub mod cid;
pub mod cursor;
pub mod epochs;
pub mod http_seek;
pub mod http_status;
pub mod node_reader;
pub mod pending;
pub mod program_tracking;
pub mod raw_node;
pub mod seek_from;
pub mod seek_spacing;
pub mod slot_seek;
pub mod text;
pub mod uvarint;
