//! Replay of an encoded game: the byte sequence is decoded ply by ply from
//! the starting position, reconstructing every position the game visited.
//!
//! A byte with no corresponding legal move, or a position the rules
//! provider rejects, is the benign decode-stop signal: replay ends there
//! with the positions reconstructed so far.  Along the visited positions
//! the pawn-home mask only ever loses bits (a pawn never returns to its
//! home rank), which is what makes the stored fingerprint a sound
//! pre-filter.

use vstd::prelude::*;
use crate::board::PosView;
use crate::board::Position;
use crate::board::copy_bytes;
use crate::board::parse_fen;
use crate::board::ph_subset;
use crate::board::pos_wf;
use crate::board::spec_parse_fen;
use crate::board::spec_pawn_home;
use crate::board::spec_material_white;
use crate::board::spec_material_black;
use crate::board::material;
use crate::board::lemma_ph_subset_refl;
use crate::board::lemma_ph_subset_trans;
use crate::codec::spec_decode_index;
use crate::codec::decode_from_legal;
use crate::rules::spec_legal_triples;
use crate::rules::spec_apply;
use crate::rules::legal_triples;
use crate::rules::apply_ply;

verus! {

/// The sequence of positions an encoded game visits: the starting position
/// first, then one position per decoded ply, stopping at the first byte
/// that does not decode (or the first reconstructed position the parser or
/// the rules provider rejects).  Empty when the starting FEN itself does
/// not parse.
pub open spec fn spec_replay(fen: Seq<u8>, bytes: Seq<u8>) -> Seq<PosView>
    decreases bytes.len(),
{
    match spec_parse_fen(fen) {
        None => Seq::empty(),
        Some(p) => {
            if bytes.len() == 0 {
                seq![p]
            } else {
                match spec_legal_triples(fen) {
                    None => seq![p],
                    Some(l) => {
                        match spec_decode_index(l, bytes[0]) {
                            None => seq![p],
                            Some(j) => seq![p] + spec_replay(spec_apply(fen, j), bytes.drop_first()),
                        }
                    },
                }
            }
        },
    }
}

/// Monotone pawn-home chain: from any position of the sequence to any later
/// one, the pawn-home mask only loses bits.
pub open spec fn ph_chain(ps: Seq<PosView>) -> bool {
    forall|i: int, j: int|
        0 <= i <= j < ps.len() ==> ph_subset(
            spec_pawn_home(#[trigger] ps[j].board),
            spec_pawn_home(#[trigger] ps[i].board),
        )
}

/// Decodes and replays an encoded game from its starting FEN, returning
/// every visited position.  The result is exactly the visited-position
/// sequence of the specification, its entries are well formed, and its
/// pawn-home masks form a monotone chain.
pub fn replay_positions(start_fen: &Vec<u8>, bytes: &Vec<u8>) -> (r: Vec<Position>)
    ensures
        r@.map_values(|p: Position| p@) == spec_replay(start_fen@, bytes@),
        forall|i: int| 0 <= i < r@.len() ==> pos_wf(#[trigger] r@[i]@),
        ph_chain(r@.map_values(|p: Position| p@)),
{
    let mut out: Vec<Position> = Vec::new();
    let mut fen: Vec<u8> = copy_bytes(start_fen);
    let mut k: usize = 0;
    let p0 = match parse_fen(&fen) {
        Some(p) => p,
        None => {
            proof {
                assert(out@.map_values(|p: Position| p@) =~= spec_replay(start_fen@, bytes@));
            }
            return out;
        },
    };
    out.push(p0);
    proof {
        assert(bytes@.skip(0) =~= bytes@);
        let views = out@.map_values(|p: Position| p@);
        assert(views =~= seq![p0@]);
        assert(views.drop_last() =~= Seq::<PosView>::empty());
        assert(Seq::<PosView>::empty() + spec_replay(fen@, bytes@) =~= spec_replay(fen@, bytes@));
        lemma_ph_subset_refl(spec_pawn_home(p0@.board));
    }
    while k < bytes.len()
        invariant
            k <= bytes@.len(),
            out@.len() >= 1,
            spec_parse_fen(fen@) == Some(out@.last()@),
            pos_wf(out@.last()@),
            spec_replay(start_fen@, bytes@) == out@.map_values(|p: Position| p@).drop_last()
                + spec_replay(fen@, bytes@.skip(k as int)),
            forall|i: int| 0 <= i < out@.len() ==> pos_wf(#[trigger] out@[i]@),
            ph_chain(out@.map_values(|p: Position| p@)),
        decreases bytes@.len() - k,
    {
        let ghost rem = bytes@.skip(k as int);
        let ghost cur = out@.last()@;
        proof {
            assert(rem.len() > 0);
            assert(rem[0] == bytes@[k as int]);
        }
        let legal = match legal_triples(&fen) {
            Some(l) => l,
            None => {
                proof {
                    assert(spec_replay(fen@, rem) =~= seq![cur]);
                    assert(out@.map_values(|p: Position| p@).drop_last().push(cur)
                        =~= out@.map_values(|p: Position| p@));
                }
                return out;
            },
        };
        let j = match decode_from_legal(&legal, bytes[k]) {
            Some(j) => j,
            None => {
                proof {
                    assert(spec_replay(fen@, rem) =~= seq![cur]);
                    assert(out@.map_values(|p: Position| p@).drop_last().push(cur)
                        =~= out@.map_values(|p: Position| p@));
                }
                return out;
            },
        };
        let newfen = apply_ply(&fen, j);
        proof {
            assert(spec_replay(fen@, rem) == seq![cur] + spec_replay(
                spec_apply(fen@, j as int),
                rem.drop_first(),
            ));
            assert(rem.drop_first() =~= bytes@.skip(k as int + 1));
        }
        let pnew = match parse_fen(&newfen) {
            Some(p) => p,
            None => {
                proof {
                    assert(spec_replay(newfen@, rem.drop_first()) =~= Seq::<PosView>::empty());
                    assert(seq![cur] + Seq::<PosView>::empty() =~= seq![cur]);
                    assert(out@.map_values(|p: Position| p@).drop_last().push(cur)
                        =~= out@.map_values(|p: Position| p@));
                }
                return out;
            },
        };
        proof {
            // the trusted pawn-home step fact, extended along the chain
            let views = out@.map_values(|p: Position| p@);
            assert(ph_subset(spec_pawn_home(pnew@.board), spec_pawn_home(cur.board)));
            assert forall|i: int| 0 <= i < views.len() implies ph_subset(
                spec_pawn_home(pnew@.board),
                spec_pawn_home(#[trigger] views[i].board),
            ) by {
                assert(ph_subset(spec_pawn_home(views.last().board), spec_pawn_home(views[i].board)));
                lemma_ph_subset_trans(
                    spec_pawn_home(pnew@.board),
                    spec_pawn_home(cur.board),
                    spec_pawn_home(views[i].board),
                );
            }
        }
        let ghost old_views = out@.map_values(|p: Position| p@);
        let ghost old_fen = fen@;
        out.push(pnew);
        fen = newfen;
        k += 1;
        proof {
            let views = out@.map_values(|p: Position| p@);
            assert(views =~= old_views.push(pnew@));
            assert(views.drop_last() =~= old_views);
            assert(old_views.last() == cur);
            assert(old_views.drop_last().push(cur) =~= old_views);
            assert(old_views.drop_last() + (seq![cur] + spec_replay(fen@, bytes@.skip(k as int)))
                =~= old_views + spec_replay(fen@, bytes@.skip(k as int)));
            assert(spec_replay(start_fen@, bytes@) == old_views.drop_last() + spec_replay(
                old_fen,
                bytes@.skip(k as int - 1),
            ));
            assert(spec_replay(old_fen, bytes@.skip(k as int - 1)) == seq![cur] + spec_replay(
                fen@,
                bytes@.skip(k as int),
            ));
            assert(spec_replay(start_fen@, bytes@) == views.drop_last() + spec_replay(
                fen@,
                bytes@.skip(k as int),
            ));
            assert(ph_chain(views)) by {
                lemma_ph_subset_refl(spec_pawn_home(pnew@.board));
                assert forall|i: int, j: int| 0 <= i <= j < views.len() implies ph_subset(
                    spec_pawn_home(#[trigger] views[j].board),
                    spec_pawn_home(#[trigger] views[i].board),
                ) by {
                    if j < views.len() - 1 {
                        assert(views[j] == old_views[j] && views[i] == old_views[i]);
                        assert(ph_chain(old_views));
                    } else if i < j {
                        assert(views[j] == pnew@);
                        assert(views[i] == old_views[i]);
                    } else {
                        assert(i == j);
                    }
                }
            }
        }
    }
    proof {
        assert(bytes@.skip(bytes@.len() as int) =~= Seq::<u8>::empty());
        assert(spec_replay(fen@, Seq::<u8>::empty()) =~= seq![out@.last()@]);
        assert(out@.map_values(|p: Position| p@).drop_last().push(out@.last()@)
            =~= out@.map_values(|p: Position| p@));
    }
    out
}

/// The elementwise minimum of the per-side material over a sequence of
/// positions: a sound lower bound on the material either side ever has.
pub fn material_floor(positions: &Vec<Position>) -> (r: (u32, u32))
    requires
        positions@.len() > 0,
        forall|i: int| 0 <= i < positions@.len() ==> pos_wf(#[trigger] positions@[i]@),
    ensures
        forall|i: int|
            0 <= i < positions@.len() ==> r.0 <= spec_material_white(
                #[trigger] positions@[i]@.board,
                64,
            ) && r.1 <= spec_material_black(positions@[i]@.board, 64),
        exists|i: int|
            0 <= i < positions@.len() && r.0 == spec_material_white(
                #[trigger] positions@[i]@.board,
                64,
            ),
        exists|i: int|
            0 <= i < positions@.len() && r.1 == spec_material_black(
                #[trigger] positions@[i]@.board,
                64,
            ),
{
    let first = material(&positions[0]);
    let mut w: u32 = first.0;
    let mut b: u32 = first.1;
    let mut i: usize = 1;
    while i < positions.len()
        invariant
            1 <= i <= positions@.len(),
            forall|k: int| 0 <= k < positions@.len() ==> pos_wf(#[trigger] positions@[k]@),
            forall|k: int|
                0 <= k < i ==> w <= spec_material_white(#[trigger] positions@[k]@.board, 64)
                    && b <= spec_material_black(positions@[k]@.board, 64),
            exists|k: int|
                0 <= k < i && w == spec_material_white(#[trigger] positions@[k]@.board, 64),
            exists|k: int|
                0 <= k < i && b == spec_material_black(#[trigger] positions@[k]@.board, 64),
        decreases positions@.len() - i,
    {
        let m = material(&positions[i]);
        if m.0 < w {
            w = m.0;
        }
        if m.1 < b {
            b = m.1;
        }
        i += 1;
    }
    (w, b)
}

} // verus!
