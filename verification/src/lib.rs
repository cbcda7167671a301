//! Book-keeping of one server node of a cluster client: its identity and
//! aliases, its connection pool, its health counters, and the decisions taken
//! when the node answers a refresh request.
pub mod host;
pub mod text;
pub mod string_map;
pub mod error;
pub mod policy;
pub mod node;
pub mod services;
pub mod laws;
