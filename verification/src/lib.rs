//! A keyed record store for a small clinic.
//!
//! A table is an append-only data file of framed records together with an
//! ordered index from 32-bit keys to the offsets of the frames. The library
//! works on the bytes of the data file and never touches the file itself: a
//! table is opened on bytes that were read, and every change it makes to them
//! is an append at the end or the clearing of one flag byte, which the caller
//! writes through.
//!
//! - [`db::codec`] encodes and decodes the fields of a record payload.
//! - [`db::tree`] is the index, an unbalanced binary search tree.
//! - [`db::frames`] states the layout of a data file.
//! - [`db::file_manager`] holds the contract that a record type meets, and the
//!   table with its four operations.
//! - [`db::laws`] states what holds of every table.
//! - [`structs`] holds the record types of the clinic.
//! - [`agenda`] keeps the daily quota of consultations in a table of days.

pub mod agenda;
pub mod db;
pub mod error;
pub mod structs;
