//! The storage engine: the byte codec of record fields, the ordered index and
//! the table that keeps both in step.

pub mod codec;
pub mod file_manager;
pub mod frames;
pub mod laws;
pub mod tree;
