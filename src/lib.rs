//! Client/server core for a content-addressed conversation store: the framed
//! request/response protocol, filesystem snapshot trees, the turn-to-root
//! index with its path resolver, and the decision logic of the reconnecting
//! client.

pub mod blobs;
pub mod context;
pub mod conversation;
pub mod decode;
pub mod digest_map;
pub mod error;
pub mod fs_store;
pub mod options;
pub mod paths;
pub mod protocol;
pub mod provenance;
pub mod reconnect;
pub mod session;
pub mod snapshot;
pub mod text;
pub mod tree;
pub mod upload;
