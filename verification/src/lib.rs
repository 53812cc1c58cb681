//! Node Database (NDB) layer of the Personal Storage Table (PST) on-disk
//! format: bit-packed identifiers, CRC-protected pages and blocks, the node
//! and block B-trees, data-tree and sub-node-tree traversal, and the
//! allocation-map rebuild protocol.
//!
//! Every structure is parsed from and serialized to plain byte buffers, so
//! the whole layer is verified; the thin I/O shell that reads and writes the
//! actual file lives outside this crate.

pub mod error;
pub mod bytes;
pub mod crc;
pub mod encode;
pub mod node_id;
pub mod block_id;
pub mod block_ref;
pub mod block;
pub mod page;
pub mod density_list;
pub mod root;
pub mod header;
pub mod btree;
pub mod data_tree;
pub mod sub_node_tree;
pub mod rebuild;
