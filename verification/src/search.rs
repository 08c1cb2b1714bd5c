//! The position search engine.
//!
//! A query carries a target position (as FEN text) and a match mode: does
//! the game's final position equal the target, or did the game pass through
//! the target at any ply.  Candidates are first pre-filtered on their
//! stored fingerprints alone — no decoding — and only the survivors are
//! replayed and verified.  The pre-filter is sound: a game that truly
//! contains the target is never rejected, as long as its stored
//! fingerprints are sound for its own bytes (which the import guarantees)
//! and, in the containing mode, the target's material does not exceed the
//! game's starting material (promotions can push material above the start,
//! which the stored bounds cannot see).

use vstd::prelude::*;
use crate::QueryError;
use crate::board::Position;
use crate::board::PosView;
use crate::board::copy_bytes;
use crate::board::parse_fen;
use crate::board::pawn_home;
use crate::board::material;
use crate::board::pos_matches;
use crate::board::spec_pos_matches;
use crate::board::spec_parse_fen;
use crate::board::spec_pawn_home;
use crate::board::spec_material_white;
use crate::board::spec_material_black;
use crate::board::ph_subset;
use crate::import::start_fen;
use crate::import::lemma_replay_nonempty;
use crate::replay::spec_replay;
use crate::replay::replay_positions;
use crate::rules::spec_legal_triples;
use crate::rules::legal_triples;
use crate::store::Database;
use crate::store::StoredGame;
use crate::store::StoredGameView;
use crate::store::spec_start_of;
use crate::store::record_sound;
use crate::outcome::GameOutcome;
use crate::outcome::spec_outcome;
use crate::outcome::result_white_wins;
use crate::outcome::result_draw;
use crate::outcome::result_black_wins;

verus! {

/// How a candidate game is matched against the target position.
#[derive(Clone, Copy, Debug, PartialEq, Eq, Structural)]
pub enum MatchMode {
    /// The game's final position must equal the target.
    ExactFinal,
    /// Some position reached during the game must equal the target.
    ContainsPosition,
}

/// A position search query: the target position as FEN text, the match
/// mode, and the sensitivity flags (whether side to move and castling
/// rights take part in position equality).
pub struct PositionQuery {
    pub fen: Vec<u8>,
    pub mode: MatchMode,
    pub check_turn: bool,
    pub check_castling: bool,
}

/// A query position is valid when its FEN parses and the rules provider
/// accepts it as a reachable board state.
pub open spec fn spec_query_valid(fen: Seq<u8>) -> bool {
    spec_parse_fen(fen) is Some && spec_legal_triples(fen) is Some
}

/// The positions a stored game visits, replayed from its own bytes.
pub open spec fn spec_game_positions(g: StoredGameView) -> Seq<PosView> {
    spec_replay(spec_start_of(g), g.moves)
}

/// Whether a stored game matches the target under the given mode and
/// flags.
pub open spec fn spec_game_matches(
    g: StoredGameView,
    target: PosView,
    mode: MatchMode,
    ct: bool,
    cc: bool,
) -> bool {
    let ps = spec_game_positions(g);
    match mode {
        MatchMode::ContainsPosition => exists|i: int|
            0 <= i < ps.len() && spec_pos_matches(#[trigger] ps[i], target, ct, cc),
        MatchMode::ExactFinal => ps.len() > 0 && spec_pos_matches(ps.last(), target, ct, cc),
    }
}

/// A match whose ply the stored material bounds can account for: in the
/// containing mode the matching position's material must not exceed the
/// game's starting material (a promotion can push it above, and then the
/// bound-based pre-filter may reject the game).  In the exact-final mode
/// every match qualifies.
pub open spec fn spec_match_within_start(
    g: StoredGameView,
    target: PosView,
    mode: MatchMode,
    ct: bool,
    cc: bool,
) -> bool {
    let ps = spec_game_positions(g);
    match mode {
        MatchMode::ContainsPosition => exists|i: int|
            0 <= i < ps.len() && spec_pos_matches(#[trigger] ps[i], target, ct, cc)
                && spec_material_white(ps[i].board, 64) <= spec_material_white(ps[0].board, 64)
                && spec_material_black(ps[i].board, 64) <= spec_material_black(ps[0].board, 64),
        MatchMode::ExactFinal => ps.len() > 0 && spec_pos_matches(ps.last(), target, ct, cc),
    }
}

/// The fingerprint pre-filter: whether a candidate survives on its stored
/// fingerprints alone.  `qph`, `qw`, `qb` are the target's pawn-home mask
/// and per-side material; `sw`, `sb` the game's starting material.
pub open spec fn spec_prefilter(
    g: StoredGameView,
    qph: u16,
    qw: int,
    qb: int,
    sw: int,
    sb: int,
    mode: MatchMode,
) -> bool {
    match mode {
        MatchMode::ContainsPosition => ph_subset(g.pawn_home, qph) && g.white_material <= qw && qw
            <= sw && g.black_material <= qb && qb <= sb,
        MatchMode::ExactFinal => g.pawn_home == qph && g.white_material <= qw
            && g.black_material <= qb,
    }
}

/// Pre-filter soundness: a game with sound fingerprints that matches the
/// target at a ply the bounds can account for is never rejected by the
/// pre-filter.
pub proof fn lemma_prefilter_sound(
    g: StoredGameView,
    target: PosView,
    mode: MatchMode,
    ct: bool,
    cc: bool,
    i: int,
)
    requires
        record_sound(g),
        0 <= i < spec_game_positions(g).len(),
        spec_pos_matches(spec_game_positions(g)[i], target, ct, cc),
        mode == MatchMode::ContainsPosition ==> spec_material_white(
            spec_game_positions(g)[i].board,
            64,
        ) <= spec_material_white(spec_game_positions(g)[0].board, 64) && spec_material_black(
            spec_game_positions(g)[i].board,
            64,
        ) <= spec_material_black(spec_game_positions(g)[0].board, 64),
        mode == MatchMode::ExactFinal ==> i == spec_game_positions(g).len() - 1,
    ensures
        spec_prefilter(
            g,
            spec_pawn_home(target.board),
            spec_material_white(target.board, 64),
            spec_material_black(target.board, 64),
            spec_material_white(spec_game_positions(g)[0].board, 64),
            spec_material_black(spec_game_positions(g)[0].board, 64),
            mode,
        ),
{
    let ps = spec_game_positions(g);
    assert(target.board == ps[i].board);
    assert(ph_subset(g.pawn_home, spec_pawn_home(ps[i].board)));
    assert(g.white_material <= spec_material_white(ps[i].board, 64));
    assert(g.black_material <= spec_material_black(ps[i].board, 64));
    if mode == MatchMode::ExactFinal {
        assert(g.pawn_home == spec_pawn_home(ps.last().board));
        assert(ps[i] == ps.last());
    }
}

/// Replays one stored game and checks it against the target.
pub fn game_matches_query(
    g: &StoredGame,
    target: &Position,
    mode: MatchMode,
    ct: bool,
    cc: bool,
) -> (r: bool)
    ensures
        r == spec_game_matches(g@, target@, mode, ct, cc),
{
    let start = match &g.fen {
        Some(f) => copy_bytes(f),
        None => start_fen(),
    };
    proof {
        assert(start@ == spec_start_of(g@));
    }
    let ps = replay_positions(&start, &g.moves);
    let ghost psv = spec_game_positions(g@);
    proof {
        assert(ps@.map_values(|p: Position| p@) == psv);
        assert(forall|i: int| 0 <= i < ps@.len() ==> (#[trigger] ps@[i])@ == psv[i]);
    }
    match mode {
        MatchMode::ExactFinal => {
            if ps.len() == 0 {
                false
            } else {
                let m = pos_matches(&ps[ps.len() - 1], target, ct, cc);
                proof {
                    assert(ps@[ps@.len() - 1]@ == psv[psv.len() - 1]);
                    assert(psv.last() == psv[psv.len() - 1]);
                }
                m
            }
        },
        MatchMode::ContainsPosition => {
            let mut i: usize = 0;
            while i < ps.len()
                invariant
                    mode == MatchMode::ContainsPosition,
                    i <= ps@.len(),
                    psv == spec_game_positions(g@),
                    psv == ps@.map_values(|p: Position| p@),
                    forall|j: int| 0 <= j < i ==> !spec_pos_matches(#[trigger] psv[j], target@, ct, cc),
                decreases ps@.len() - i,
            {
                if pos_matches(&ps[i], target, ct, cc) {
                    proof {
                        assert(spec_pos_matches(psv[i as int], target@, ct, cc));
                    }
                    return true;
                }
                i += 1;
            }
            false
        },
    }
}

/// Scans the store for the games matching a query position.
///
/// Rejects the query (before any scan) exactly when its FEN does not
/// denote a valid position.  Otherwise returns the indices, in ascending
/// order without duplicates, of games that match; every returned game
/// truly matches, and no game with sound stored fingerprints whose match
/// the material bounds can account for is missed.
pub fn search_position(db: &Database, q: &PositionQuery) -> (r: Result<Vec<usize>, QueryError>)
    ensures
        match r {
            Err(e) => e == QueryError::InvalidQueryPosition && !spec_query_valid(q.fen@),
            Ok(ids) => {
                let target = spec_parse_fen(q.fen@)->Some_0;
                &&& spec_query_valid(q.fen@)
                &&& forall|k1: int, k2: int|
                    0 <= k1 < k2 < ids@.len() ==> #[trigger] ids@[k1] < #[trigger] ids@[k2]
                &&& forall|k: int|
                    0 <= k < ids@.len() ==> #[trigger] ids@[k] < db@.games.len()
                        && spec_game_matches(
                        db@.games[ids@[k] as int],
                        target,
                        q.mode,
                        q.check_turn,
                        q.check_castling,
                    )
                &&& forall|gi: int|
                    0 <= gi < db@.games.len() && record_sound(#[trigger] db@.games[gi])
                        && spec_match_within_start(
                        db@.games[gi],
                        target,
                        q.mode,
                        q.check_turn,
                        q.check_castling,
                    ) ==> ids@.contains(gi as usize)
            },
        },
{
    let target = match parse_fen(&q.fen) {
        Some(p) => p,
        None => {
            return Err(QueryError::InvalidQueryPosition);
        },
    };
    match legal_triples(&q.fen) {
        Some(_) => {},
        None => {
            return Err(QueryError::InvalidQueryPosition);
        },
    }
    let qph = pawn_home(&target);
    let qm = material(&target);
    let mut ids: Vec<usize> = Vec::new();
    let mut gi: usize = 0;
    while gi < db.games.len()
        invariant
            gi <= db@.games.len(),
            db@.games.len() == db.games@.len(),
            spec_parse_fen(q.fen@) == Some(target@),
            qph == spec_pawn_home(target@.board),
            qm.0 == spec_material_white(target@.board, 64),
            qm.1 == spec_material_black(target@.board, 64),
            forall|k1: int, k2: int|
                0 <= k1 < k2 < ids@.len() ==> #[trigger] ids@[k1] < #[trigger] ids@[k2],
            forall|k: int| 0 <= k < ids@.len() ==> #[trigger] ids@[k] < gi,
            forall|k: int|
                0 <= k < ids@.len() ==> spec_game_matches(
                    db@.games[#[trigger] ids@[k] as int],
                    target@,
                    q.mode,
                    q.check_turn,
                    q.check_castling,
                ),
            forall|j: int|
                0 <= j < gi && record_sound(#[trigger] db@.games[j]) && spec_match_within_start(
                    db@.games[j],
                    target@,
                    q.mode,
                    q.check_turn,
                    q.check_castling,
                ) ==> ids@.contains(j as usize),
        decreases db@.games.len() - gi,
    {
        let g = &db.games[gi];
        proof {
            assert(g@ == db@.games[gi as int]);
        }
        let start = match &g.fen {
            Some(f) => copy_bytes(f),
            None => start_fen(),
        };
        proof {
            assert(start@ == spec_start_of(g@));
        }
        let mut keep_game = false;
        match parse_fen(&start) {
            None => {
                proof {
                    // the game replays to nothing: it can match no position
                    assert(spec_game_positions(g@).len() == 0);
                }
            },
            Some(sp) => {
                proof {
                    lemma_replay_nonempty(start@, g@.moves);
                    assert(spec_game_positions(g@)[0] == sp@);
                }
                let sm = material(&sp);
                let pass = match q.mode {
                    MatchMode::ContainsPosition => (g.pawn_home & (!qph)) == 0
                        && g.white_material <= qm.0 && qm.0 <= sm.0 && g.black_material <= qm.1
                        && qm.1 <= sm.1,
                    MatchMode::ExactFinal => g.pawn_home == qph && g.white_material <= qm.0
                        && g.black_material <= qm.1,
                };
                proof {
                    assert(pass == spec_prefilter(
                        g@,
                        qph,
                        qm.0 as int,
                        qm.1 as int,
                        sm.0 as int,
                        sm.1 as int,
                        q.mode,
                    ));
                }
                if pass {
                    if game_matches_query(g, &target, q.mode, q.check_turn, q.check_castling) {
                        keep_game = true;
                    }
                } else {
                    proof {
                        // the pre-filter is sound: a rejected candidate with
                        // sound fingerprints has no match the bounds account
                        // for
                        if record_sound(g@) && spec_match_within_start(
                            g@,
                            target@,
                            q.mode,
                            q.check_turn,
                            q.check_castling,
                        ) {
                            let ps = spec_game_positions(g@);
                            if q.mode == MatchMode::ContainsPosition {
                                let i = choose|i: int|
                                    0 <= i < ps.len() && spec_pos_matches(
                                        #[trigger] ps[i],
                                        target@,
                                        q.check_turn,
                                        q.check_castling,
                                    ) && spec_material_white(ps[i].board, 64)
                                        <= spec_material_white(ps[0].board, 64)
                                        && spec_material_black(ps[i].board, 64)
                                        <= spec_material_black(ps[0].board, 64);
                                lemma_prefilter_sound(
                                    g@,
                                    target@,
                                    q.mode,
                                    q.check_turn,
                                    q.check_castling,
                                    i,
                                );
                            } else {
                                lemma_prefilter_sound(
                                    g@,
                                    target@,
                                    q.mode,
                                    q.check_turn,
                                    q.check_castling,
                                    ps.len() - 1,
                                );
                            }
                            assert(false);
                        }
                    }
                }
            },
        }
        let ghost old_ids = ids@;
        if keep_game {
            ids.push(gi);
        }
        gi += 1;
        proof {
            if keep_game {
                assert(ids@ =~= old_ids.push((gi - 1) as usize));
            }
            assert forall|j: int|
                0 <= j < gi && record_sound(#[trigger] db@.games[j]) && spec_match_within_start(
                    db@.games[j],
                    target@,
                    q.mode,
                    q.check_turn,
                    q.check_castling,
                ) implies ids@.contains(j as usize) by {
                if j < gi - 1 {
                    assert(old_ids.contains(j as usize));
                    let w = choose|w: int| 0 <= w < old_ids.len() && old_ids[w] == j as usize;
                    assert(ids@[w] == j as usize);
                } else {
                    assert(keep_game);
                    assert(ids@[ids@.len() - 1] == j as usize);
                }
            }
        }
    }
    Ok(ids)
}

/// Early-exit existence check: does any stored game match the query
/// position?  `Ok(true)` means some game truly matches; `Ok(false)` means
/// no game with sound stored fingerprints has a match the material bounds
/// account for.
pub fn is_position_in_db(db: &Database, q: &PositionQuery) -> (r: Result<bool, QueryError>)
    ensures
        match r {
            Err(e) => e == QueryError::InvalidQueryPosition && !spec_query_valid(q.fen@),
            Ok(b) => {
                let target = spec_parse_fen(q.fen@)->Some_0;
                &&& spec_query_valid(q.fen@)
                &&& b ==> exists|gi: int|
                    0 <= gi < db@.games.len() && spec_game_matches(
                        #[trigger] db@.games[gi],
                        target,
                        q.mode,
                        q.check_turn,
                        q.check_castling,
                    )
                &&& !b ==> forall|gi: int|
                    0 <= gi < db@.games.len() && record_sound(#[trigger] db@.games[gi])
                        ==> !spec_match_within_start(
                        db@.games[gi],
                        target,
                        q.mode,
                        q.check_turn,
                        q.check_castling,
                    )
            },
        },
{
    let ids = match search_position(db, q) {
        Ok(ids) => ids,
        Err(e) => {
            return Err(e);
        },
    };
    if ids.len() > 0 {
        proof {
            assert(ids@[0] < db@.games.len());
        }
        Ok(true)
    } else {
        proof {
            assert forall|gi: int|
                0 <= gi < db@.games.len() && record_sound(#[trigger] db@.games[gi])
                    implies !spec_match_within_start(
                    db@.games[gi],
                    spec_parse_fen(q.fen@)->Some_0,
                    q.mode,
                    q.check_turn,
                    q.check_castling,
                ) by {
                if spec_match_within_start(
                    db@.games[gi],
                    spec_parse_fen(q.fen@)->Some_0,
                    q.mode,
                    q.check_turn,
                    q.check_castling,
                ) {
                    assert(ids@.contains(gi as usize));
                }
            }
        }
        Ok(false)
    }
}


/// Aggregate statistics over the games a search matched: how many there
/// are, and their outcome distribution (games with an absent or unknown
/// result are counted in the total only).
#[derive(Clone, Copy, Debug, PartialEq, Eq, Structural)]
pub struct PositionStats {
    pub total: usize,
    pub white_wins: usize,
    pub draws: usize,
    pub black_wins: usize,
}

/// How many of the given games carry exactly the given result string.
pub open spec fn spec_count_result(
    games: Seq<StoredGameView>,
    ids: Seq<usize>,
    result: Seq<u8>,
) -> int
    decreases ids.len(),
{
    if ids.len() == 0 {
        0
    } else {
        spec_count_result(games, ids.drop_last(), result) + (if 0 <= ids.last()
            < games.len() && games[ids.last() as int].result == Some(result) {
            1int
        } else {
            0int
        })
    }
}

/// Scans the store for the games matching a query position and aggregates
/// their outcome distribution.  The returned indices are exactly those of
/// `search_position`; the statistics count every match and split the
/// decided ones by result.
pub fn search_stats(db: &Database, q: &PositionQuery) -> (r: Result<
    (Vec<usize>, PositionStats),
    QueryError,
>)
    ensures
        match r {
            Err(e) => e == QueryError::InvalidQueryPosition && !spec_query_valid(q.fen@),
            Ok((ids, st)) => {
                let target = spec_parse_fen(q.fen@)->Some_0;
                &&& spec_query_valid(q.fen@)
                &&& forall|k1: int, k2: int|
                    0 <= k1 < k2 < ids@.len() ==> #[trigger] ids@[k1] < #[trigger] ids@[k2]
                &&& forall|k: int|
                    0 <= k < ids@.len() ==> #[trigger] ids@[k] < db@.games.len()
                        && spec_game_matches(
                        db@.games[ids@[k] as int],
                        target,
                        q.mode,
                        q.check_turn,
                        q.check_castling,
                    )
                &&& forall|gi: int|
                    0 <= gi < db@.games.len() && record_sound(#[trigger] db@.games[gi])
                        && spec_match_within_start(
                        db@.games[gi],
                        target,
                        q.mode,
                        q.check_turn,
                        q.check_castling,
                    ) ==> ids@.contains(gi as usize)
                &&& st.total == ids@.len()
                &&& st.white_wins == spec_count_result(db@.games, ids@, result_white_wins())
                &&& st.draws == spec_count_result(db@.games, ids@, result_draw())
                &&& st.black_wins == spec_count_result(db@.games, ids@, result_black_wins())
            },
        },
{
    let ids = match search_position(db, q) {
        Ok(ids) => ids,
        Err(e) => {
            return Err(e);
        },
    };
    let mut white_wins: usize = 0;
    let mut draws: usize = 0;
    let mut black_wins: usize = 0;
    let mut k: usize = 0;
    proof {
        assert(ids@.subrange(0, 0) =~= Seq::<usize>::empty());
    }
    while k < ids.len()
        invariant
            k <= ids@.len(),
            forall|j: int| 0 <= j < ids@.len() ==> #[trigger] ids@[j] < db@.games.len(),
            db@.games.len() == db.games@.len(),
            white_wins == spec_count_result(db@.games, ids@.subrange(0, k as int), result_white_wins()),
            draws == spec_count_result(db@.games, ids@.subrange(0, k as int), result_draw()),
            black_wins == spec_count_result(db@.games, ids@.subrange(0, k as int), result_black_wins()),
            white_wins + draws + black_wins <= k,
        decreases ids@.len() - k,
    {
        let ghost pre = ids@.subrange(0, k as int);
        let ghost cur = ids@.subrange(0, k as int + 1);
        proof {
            assert(cur.drop_last() =~= pre);
            assert(cur.last() == ids@[k as int]);
        }
        let id = ids[k];
        let g = &db.games[id];
        proof {
            assert(g@ == db@.games[id as int]);
        }
        match &g.result {
            Some(res) => {
                match GameOutcome::from_str(res, true) {
                    Some(GameOutcome::Won) => {
                        proof {
                            assert(g@.result == Some(result_white_wins()));
                        }
                        white_wins = white_wins + 1;
                    },
                    Some(GameOutcome::Drawn) => {
                        proof {
                            assert(g@.result == Some(result_draw()));
                        }
                        draws = draws + 1;
                    },
                    Some(GameOutcome::Lost) => {
                        proof {
                            assert(g@.result == Some(result_black_wins()));
                        }
                        black_wins = black_wins + 1;
                    },
                    None => {
                        proof {
                            assert(g@.result != Some(result_white_wins()));
                            assert(g@.result != Some(result_draw()));
                            assert(g@.result != Some(result_black_wins()));
                        }
                    },
                }
            },
            None => {
            },
        }
        k += 1;
    }
    proof {
        assert(ids@.subrange(0, ids@.len() as int) =~= ids@);
    }
    let st = PositionStats { total: ids.len(), white_wins, draws, black_wins };
    Ok((ids, st))
}


/// Merge of two partial outcome aggregates, as collected by independent
/// workers scanning disjoint candidate sets: fieldwise sums.
pub open spec fn spec_merge_stats(a: PositionStats, b: PositionStats) -> PositionStats {
    PositionStats {
        total: (a.total + b.total) as usize,
        white_wins: (a.white_wins + b.white_wins) as usize,
        draws: (a.draws + b.draws) as usize,
        black_wins: (a.black_wins + b.black_wins) as usize,
    }
}

/// Combines two partial aggregates.
pub fn merge_stats(a: PositionStats, b: PositionStats) -> (r: PositionStats)
    requires
        a.total + b.total <= usize::MAX,
        a.white_wins + b.white_wins <= usize::MAX,
        a.draws + b.draws <= usize::MAX,
        a.black_wins + b.black_wins <= usize::MAX,
    ensures
        r == spec_merge_stats(a, b),
{
    PositionStats {
        total: a.total + b.total,
        white_wins: a.white_wins + b.white_wins,
        draws: a.draws + b.draws,
        black_wins: a.black_wins + b.black_wins,
    }
}

/// The merge is commutative, so the combined aggregate does not depend on
/// which worker finishes first.
pub proof fn lemma_merge_stats_commutative(a: PositionStats, b: PositionStats)
    ensures
        spec_merge_stats(a, b) == spec_merge_stats(b, a),
{
}

/// The merge is associative, so the combined aggregate does not depend on
/// the shape of the reduction tree.
pub proof fn lemma_merge_stats_associative(a: PositionStats, b: PositionStats, c: PositionStats)
    requires
        a.total + b.total + c.total <= usize::MAX,
        a.white_wins + b.white_wins + c.white_wins <= usize::MAX,
        a.draws + b.draws + c.draws <= usize::MAX,
        a.black_wins + b.black_wins + c.black_wins <= usize::MAX,
    ensures
        spec_merge_stats(spec_merge_stats(a, b), c) == spec_merge_stats(
            a,
            spec_merge_stats(b, c),
        ),
{
}

} // verus!
