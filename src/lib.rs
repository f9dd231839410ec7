//! Runtime substrate for a single-threaded, cooperatively scheduled host:
//! a typed state store, a per-caller request guard and an ordered blob store.

pub mod context;
pub mod guard;
pub mod memory_storage;
pub mod throws;
