//! Core state engine of a local development node: a versioned ledger of
//! blocks with account state, reorg simulation, multi-call simulation,
//! storage pagination and proof-of-work descriptors.

pub mod word;
pub mod types;
pub mod state;
pub mod exec;
pub mod ledger;
pub mod reorg;
pub mod work;
pub mod simulate;
pub mod paginate;

use vstd::prelude::*;

verus! {

/// The error kinds this engine reports.
#[derive(Clone, Copy, Debug, PartialEq, Eq, Structural)]
pub enum Error {
    /// An unknown block, account or state identifier.
    NotFound,
    /// A reorg depth or target offset out of range.
    InvalidReorgSpec,
    /// A malformed transaction descriptor.
    DecodeError,
    /// An internal execution fault unrelated to a normal revert.
    ExecutionError,
}

} // verus!
