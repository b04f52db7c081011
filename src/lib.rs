//! Reading and changing pinned kernel (BPF) maps, and the load balancer's service
//! table kept in one of them.
//!
//! The library holds the logic and leaves the system calls to its caller: it decodes a
//! map's metadata listing, encodes and decodes the service table's records, steps a
//! next-key walk from the outcomes the caller hands back, and plans the writes that
//! add or remove a service's backends. `MemMap` is an in-process table with the same
//! keyed-access behaviour as a kernel hash map.

pub mod error;
pub mod fdinfo;
pub mod manager;
pub mod map;
pub mod service;
pub mod table;

pub use error::DecodeError;
pub use map::{BpfMap, MapError, MapIterator, MapType};
pub use service::{Addr4, Backend, Frontend};
pub use table::MemMap;
