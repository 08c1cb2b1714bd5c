//! Core of a chess game database: a one-byte-per-ply move codec, cheap
//! per-game fingerprints (pawn-home mask and material bounds), a bulk import
//! pipeline with all-or-nothing commit semantics, and a position search
//! engine that pre-filters candidates by fingerprint before replaying them.
//!
//! Board positions are modelled as plain data (a 64-square array plus side to
//! move and castling rights) parsed from FEN text; legal-move enumeration,
//! move application and SAN resolution are supplied by the `shakmaty` chess
//! rules library behind a small trusted boundary.

pub mod board;
pub mod codec;
pub mod rules;
pub mod replay;
pub mod store;
pub mod import;
pub mod search;
pub mod outcome;

use vstd::prelude::*;

verus! {

/// Failure of the move codec: the move to encode is not legal in the given
/// position, or the position itself cannot be interpreted.
#[derive(Clone, Copy, Debug, PartialEq, Eq, Structural)]
pub enum CodecError {
    /// The move is not among the legal moves of the position.
    IllegalMove,
    /// The position could not be interpreted as a valid board state.
    BadPosition,
}

/// Rejection of a search query before any scan is made.
#[derive(Clone, Copy, Debug, PartialEq, Eq, Structural)]
pub enum QueryError {
    /// The supplied setup is not a legally reachable board state.
    InvalidQueryPosition,
}

/// A persistence failure inside the import transaction; the whole import is
/// rolled back when one occurs.
#[derive(Clone, Copy, Debug, PartialEq, Eq, Structural)]
pub enum StoreError {
    /// A record violated a store-level constraint.
    ConstraintViolation,
}

} // verus!
