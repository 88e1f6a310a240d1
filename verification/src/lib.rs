//! Verified core of a peer-to-peer directory mirroring daemon.

pub mod config;
pub mod error;
pub mod hash;
pub mod keys;
pub mod node;
pub mod packet;
pub mod page;
pub mod path;
pub mod protocol;
pub mod root;
pub mod settings;
pub mod stream;
pub mod sync;
pub mod transfer;
pub mod tree;
pub mod walk;
pub mod wire;
