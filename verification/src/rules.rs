//! The trusted boundary to the chess rules provider.
//!
//! The codec, the import pipeline and the search engine never encode chess
//! rules themselves: legal-move enumeration, move application and SAN
//! resolution are the `shakmaty` library's, reached through the wrappers
//! below.  Positions cross the boundary as FEN text, moves as plain
//! `(from, to, promotion)` triples (as in the codec), so everything on this
//! side stays plain data.
//!
//! What the provider computes is a function of the FEN text alone, so each
//! wrapper's result is named by an uninterpreted spec function that the
//! contracts of the verified callers are then expressed against.

use vstd::prelude::*;
use crate::board::ph_subset;
use crate::board::spec_parse_fen;
use crate::board::spec_pawn_home;
use crate::codec::tris_wf;

verus! {

/// The legal moves of the position a FEN denotes, in the provider's own
/// enumeration order, as `(from, to, promotion)` triples; `None` when the
/// text is not a valid position.
pub uninterp spec fn spec_legal_triples(fen: Seq<u8>) -> Option<Seq<(u8, u8, u8)>>;

/// The FEN of the position after playing the `idx`-th legal move (in the
/// provider's enumeration order) on the position `fen` denotes.
pub uninterp spec fn spec_apply(fen: Seq<u8>, idx: int) -> Seq<u8>;

/// The legal move a SAN token resolves to against the position a FEN
/// denotes; `None` when the token does not parse or names no unique legal
/// move.
pub uninterp spec fn spec_san_move(fen: Seq<u8>, san: Seq<u8>) -> Option<(u8, u8, u8)>;

/// Relies on shakmaty: `fen::Fen::from_ascii` parses the FEN text,
/// `Fen::into_position::<Chess>` validates it as a standard-rules position,
/// and `Position::legal_moves` enumerates the legal moves (at most 256, the
/// capacity of its `MoveList`).  Each move becomes a plain triple through
/// `Move::from` (64 for a drop without origin square), `Move::to` (for a
/// castling move the rook's square) and `Move::promotion`; squares are
/// 0..=63 and promotion roles 2..=5, so the triples are well formed.
#[verifier::external_body]
pub(crate) fn legal_triples(fen: &Vec<u8>) -> (r: Option<Vec<(u8, u8, u8)>>)
    ensures
        match r {
            Some(v) => spec_legal_triples(fen@) == Some(v@) && v@.len() <= 256 && tris_wf(v@),
            None => spec_legal_triples(fen@) is None,
        },
{
    let f = shakmaty::fen::Fen::from_ascii(fen.as_slice()).ok()?;
    let pos: shakmaty::Chess = f.into_position(shakmaty::CastlingMode::Standard).ok()?;
    let moves = shakmaty::Position::legal_moves(&pos);
    Some(moves.iter().map(|m| (
        m.from().map_or(64u8, u8::from),
        u8::from(m.to()),
        m.promotion().map_or(0u8, u8::from),
    )).collect())
}

/// Relies on shakmaty: parses the FEN as `legal_triples` does, plays the
/// `idx`-th entry of `Position::legal_moves` with
/// `Position::play_unchecked`, and writes the resulting position back out
/// with `fen::Fen::from_position` (legal en-passant mode).  The clause on
/// the pawn-home masks is the chess rule that a pawn never returns to its
/// own second rank: shakmaty's move generation advances white pawns only
/// towards rank 8 and black pawns only towards rank 1, so a square of the
/// second (respectively seventh) rank, once its own pawn has left or been
/// captured, never carries such a pawn again.  The masks are those of the
/// piece placements that this crate's own FEN parser reads from the two
/// FEN texts; when either text does not parse, the clause says nothing.
#[verifier::external_body]
pub(crate) fn apply_ply(fen: &Vec<u8>, idx: usize) -> (r: Vec<u8>)
    requires
        spec_legal_triples(fen@) is Some,
        idx < spec_legal_triples(fen@)->Some_0.len(),
    ensures
        r@ == spec_apply(fen@, idx as int),
        match (spec_parse_fen(fen@), spec_parse_fen(r@)) {
            (Some(p1), Some(p2)) => ph_subset(spec_pawn_home(p2.board), spec_pawn_home(p1.board)),
            _ => true,
        },
{
    let f = shakmaty::fen::Fen::from_ascii(fen.as_slice()).unwrap();
    let mut pos: shakmaty::Chess = f.into_position(shakmaty::CastlingMode::Standard).unwrap();
    let moves = shakmaty::Position::legal_moves(&pos);
    shakmaty::Position::play_unchecked(&mut pos, &moves[idx]);
    let out = shakmaty::fen::Fen::from_position(pos, shakmaty::EnPassantMode::Legal);
    out.to_string().into_bytes()
}

/// Relies on shakmaty: `san::SanPlus::from_ascii` parses the SAN token
/// (trailing check and mate marks included) and `San::to_move` resolves it
/// against the position; `to_move` picks from `Position::san_candidates`
/// respectively `Position::castling_moves`, both subsets of the legal
/// moves, so a returned triple is an entry of the legal-move list.
#[verifier::external_body]
pub(crate) fn san_to_triple(fen: &Vec<u8>, san: &Vec<u8>) -> (r: Option<(u8, u8, u8)>)
    ensures
        r == spec_san_move(fen@, san@),
        match r {
            Some(t) => spec_legal_triples(fen@) is Some && spec_legal_triples(
                fen@,
            )->Some_0.contains(t),
            None => true,
        },
{
    let f = shakmaty::fen::Fen::from_ascii(fen.as_slice()).ok()?;
    let pos: shakmaty::Chess = f.into_position(shakmaty::CastlingMode::Standard).ok()?;
    let m = shakmaty::san::SanPlus::from_ascii(san.as_slice()).ok()?.san.to_move(&pos).ok()?;
    Some((m.from().map_or(64u8, u8::from), u8::from(m.to()), m.promotion().map_or(0u8, u8::from)))
}

} // verus!
