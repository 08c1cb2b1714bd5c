//! Game outcomes from a player's point of view, read from the stored
//! result string.

use vstd::prelude::*;
use crate::board::eq_bytes;

verus! {

/// A game's outcome as seen by one of its players.
#[derive(Clone, Copy, Debug, PartialEq, Eq, Structural)]
pub enum GameOutcome {
    Won,
    Drawn,
    Lost,
}

/// The result string of a game won by white.
pub open spec fn result_white_wins() -> Seq<u8> {
    seq![49u8, 45u8, 48u8]
}

/// The result string of a drawn game.
pub open spec fn result_draw() -> Seq<u8> {
    seq![49u8, 47u8, 50u8, 45u8, 49u8, 47u8, 50u8]
}

/// The result string of a game won by black.
pub open spec fn result_black_wins() -> Seq<u8> {
    seq![48u8, 45u8, 49u8]
}

/// The outcome a result string denotes for the given side; `None` for an
/// unfinished or unknown result.
pub open spec fn spec_outcome(result: Seq<u8>, is_white: bool) -> Option<GameOutcome> {
    if result == result_white_wins() {
        Some(if is_white { GameOutcome::Won } else { GameOutcome::Lost })
    } else if result == result_draw() {
        Some(GameOutcome::Drawn)
    } else if result == result_black_wins() {
        Some(if is_white { GameOutcome::Lost } else { GameOutcome::Won })
    } else {
        None
    }
}

impl GameOutcome {
    /// Reads a result string from the given side's point of view.
    pub fn from_str(result: &Vec<u8>, is_white: bool) -> (r: Option<GameOutcome>)
        ensures
            r == spec_outcome(result@, is_white),
    {
        let ww: Vec<u8> = vec![49u8, 45u8, 48u8];
        let dd: Vec<u8> = vec![49u8, 47u8, 50u8, 45u8, 49u8, 47u8, 50u8];
        let bw: Vec<u8> = vec![48u8, 45u8, 49u8];
        proof {
            assert(ww@ =~= result_white_wins());
            assert(dd@ =~= result_draw());
            assert(bw@ =~= result_black_wins());
        }
        if eq_bytes(result, &ww) {
            Some(if is_white { GameOutcome::Won } else { GameOutcome::Lost })
        } else if eq_bytes(result, &dd) {
            Some(GameOutcome::Drawn)
        } else if eq_bytes(result, &bw) {
            Some(if is_white { GameOutcome::Lost } else { GameOutcome::Won })
        } else {
            None
        }
    }
}

} // verus!
