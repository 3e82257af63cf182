//! In-kernel extension subsystem core: fd-addressable object table holding
//! typed key/value maps and loaded programs, and a kprobe/kretprobe
//! attachment engine with a multiplexed command layer.
//!
//! The subsystem state that a kernel would keep behind process-wide locks is
//! held here in an explicit [`object::BpfState`] value; every operation is a
//! verified function over that state.

pub mod array;
pub mod bytes;
pub mod command;
pub mod hash;
pub mod map;
pub mod object;
pub mod retcode;
pub mod tracepoints;

pub use retcode::{BpfErrorCode, BpfResult};
