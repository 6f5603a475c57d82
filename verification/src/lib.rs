//! A cell that holds one immutable value, handed out as shared snapshots and
//! replaced as a whole, together with the reader/writer spin-lock that guards
//! the replacement.
//!
//! `cell` is the cell itself, `lock` the lock word and the decisions of its
//! protocol, and `protocol` the proof that the protocol keeps a writer alone
//! however the steps of many threads interleave.

pub mod cell;
pub mod lock;
pub mod protocol;

pub use cell::AtomicImmut;
