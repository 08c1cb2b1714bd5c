//! The in-memory model of the record store: games, and the player, event
//! and site name tables they reference.
//!
//! Names are deduplicated: an identifier is one more than the index of the
//! name in its table, and identifier 0 is reserved for an unknown or absent
//! name.  The store enforces one constraint on inserted games: a present
//! rating must lie between 0 and 4000; the import pipeline checks it for
//! the whole batch before touching the store, which is what makes its
//! commit all-or-nothing.

use vstd::prelude::*;
use crate::board::spec_pawn_home;
use crate::board::spec_material_white;
use crate::board::spec_material_black;
use crate::board::ph_subset;
use crate::board::eq_bytes;
use crate::replay::spec_replay;

verus! {

/// Abstract value of a stored game.
pub ghost struct StoredGameView {
    pub white_id: usize,
    pub black_id: usize,
    pub event_id: usize,
    pub site_id: usize,
    pub white_elo: Option<i32>,
    pub black_elo: Option<i32>,
    pub date: Option<Seq<u8>>,
    pub time: Option<Seq<u8>>,
    pub round: Option<Seq<u8>>,
    pub result: Option<Seq<u8>>,
    pub time_control: Option<Seq<u8>>,
    pub eco: Option<Seq<u8>>,
    pub fen: Option<Seq<u8>>,
    pub moves: Seq<u8>,
    pub pawn_home: u16,
    pub white_material: u32,
    pub black_material: u32,
}

/// A game as persisted: metadata, name-table identifiers, the encoded move
/// bytes (exactly one byte per ply, so the byte count is the ply count),
/// and the fingerprint fields used by the search pre-filter.
pub struct StoredGame {
    pub white_id: usize,
    pub black_id: usize,
    pub event_id: usize,
    pub site_id: usize,
    pub white_elo: Option<i32>,
    pub black_elo: Option<i32>,
    pub date: Option<Vec<u8>>,
    pub time: Option<Vec<u8>>,
    pub round: Option<Vec<u8>>,
    pub result: Option<Vec<u8>>,
    pub time_control: Option<Vec<u8>>,
    pub eco: Option<Vec<u8>>,
    pub fen: Option<Vec<u8>>,
    pub moves: Vec<u8>,
    pub pawn_home: u16,
    pub white_material: u32,
    pub black_material: u32,
}

/// View of an optional byte string.
pub open spec fn ov(x: Option<Vec<u8>>) -> Option<Seq<u8>> {
    match x {
        Some(v) => Some(v@),
        None => None,
    }
}

impl View for StoredGame {
    type V = StoredGameView;

    open spec fn view(&self) -> StoredGameView {
        StoredGameView {
            white_id: self.white_id,
            black_id: self.black_id,
            event_id: self.event_id,
            site_id: self.site_id,
            white_elo: self.white_elo,
            black_elo: self.black_elo,
            date: ov(self.date),
            time: ov(self.time),
            round: ov(self.round),
            result: ov(self.result),
            time_control: ov(self.time_control),
            eco: ov(self.eco),
            fen: ov(self.fen),
            moves: self.moves@,
            pawn_home: self.pawn_home,
            white_material: self.white_material,
            black_material: self.black_material,
        }
    }
}

/// Abstract value of the store.
pub ghost struct DbView {
    pub players: Seq<Seq<u8>>,
    pub events: Seq<Seq<u8>>,
    pub sites: Seq<Seq<u8>>,
    pub games: Seq<StoredGameView>,
}

/// The record store: deduplicated name tables and the game records.
pub struct Database {
    pub players: Vec<Vec<u8>>,
    pub events: Vec<Vec<u8>>,
    pub sites: Vec<Vec<u8>>,
    pub games: Vec<StoredGame>,
}

impl View for Database {
    type V = DbView;

    open spec fn view(&self) -> DbView {
        DbView {
            players: self.players@.map_values(|n: Vec<u8>| n@),
            events: self.events@.map_values(|n: Vec<u8>| n@),
            sites: self.sites@.map_values(|n: Vec<u8>| n@),
            games: self.games@.map_values(|g: StoredGame| g@),
        }
    }
}

/// The starting position an optional custom setup denotes: the setup if
/// present, the standard initial position otherwise.
pub open spec fn spec_fen_start(fen: Option<Seq<u8>>) -> Seq<u8> {
    match fen {
        Some(f) => f,
        None => crate::import::spec_start_fen(),
    }
}

/// The starting position of a stored game.
pub open spec fn spec_start_of(g: StoredGameView) -> Seq<u8> {
    spec_fen_start(g.fen)
}

/// Soundness of a game's fingerprint fields against the replay of its own
/// move bytes from its starting FEN: the pawn-home mask is a bitwise subset
/// of the mask at every visited position (and is exactly the mask of the
/// final one), and the per-side material values are lower bounds on the
/// material at every visited position.
pub open spec fn fingerprint_sound(
    fen: Option<Seq<u8>>,
    moves: Seq<u8>,
    ph: u16,
    wm: u32,
    bm: u32,
) -> bool {
    let ps = spec_replay(spec_fen_start(fen), moves);
    &&& ps.len() >= 1
    &&& forall|i: int|
        0 <= i < ps.len() ==> ph_subset(ph, spec_pawn_home(#[trigger] ps[i].board)) && wm
            <= spec_material_white(ps[i].board, 64) && bm <= spec_material_black(ps[i].board, 64)
    &&& ph == spec_pawn_home(ps.last().board)
}

/// `fingerprint_sound` of a stored game's own fields.
pub open spec fn record_sound(g: StoredGameView) -> bool {
    fingerprint_sound(g.fen, g.moves, g.pawn_home, g.white_material, g.black_material)
}

/// The one store-level constraint on a game row: present ratings lie
/// between 0 and 4000.
pub open spec fn spec_elo_ok(e: Option<i32>) -> bool {
    match e {
        Some(v) => 0 <= v <= 4000,
        None => true,
    }
}

pub open spec fn spec_constraint_ok(g: StoredGameView) -> bool {
    spec_elo_ok(g.white_elo) && spec_elo_ok(g.black_elo)
}

/// First identifier under which a name is stored in a table, if any:
/// one more than its first index.
pub open spec fn spec_name_id(names: Seq<Seq<u8>>, name: Seq<u8>) -> Option<int> {
    match names.index_of_first(name) {
        Some(i) => Some(i + 1),
        None => None,
    }
}

impl Database {
    /// An empty store.
    pub fn new() -> (r: Database)
        ensures
            r@.players.len() == 0,
            r@.events.len() == 0,
            r@.sites.len() == 0,
            r@.games.len() == 0,
    {
        Database { players: Vec::new(), events: Vec::new(), sites: Vec::new(), games: Vec::new() }
    }

    /// Number of stored games.
    pub fn game_count(&self) -> (r: usize)
        ensures
            r == self@.games.len(),
    {
        self.games.len()
    }
}

/// Looks a name up in a table, appending it when absent; returns its
/// identifier (index plus one).  The table is only ever extended, and only
/// by a name it did not hold.
pub fn get_or_create(names: &mut Vec<Vec<u8>>, name: &Vec<u8>) -> (r: usize)
    ensures
        ({
            let nv = old(names)@.map_values(|n: Vec<u8>| n@);
            match spec_name_id(nv, name@) {
                Some(i) => r == i && final(names)@ == old(names)@,
                None => r == nv.len() + 1 && final(names)@.map_values(|n: Vec<u8>| n@) == nv.push(
                    name@,
                ),
            }
        }),
        1 <= r <= final(names)@.len(),
        final(names)@.map_values(|n: Vec<u8>| n@)[r - 1] == name@,
        old(names)@.len() <= final(names)@.len(),
        forall|j: int|
            0 <= j < old(names)@.len() ==> (#[trigger] final(names)@[j])@ == old(names)@[j]@,
{
    let ghost nv = names@.map_values(|n: Vec<u8>| n@);
    let mut i: usize = 0;
    proof {
        nv.index_of_first_ensures(name@);
    }
    while i < names.len()
        invariant
            i <= names@.len(),
            nv == names@.map_values(|n: Vec<u8>| n@),
            forall|j: int| 0 <= j < i ==> nv[j] != name@,
        decreases names@.len() - i,
    {
        if eq_bytes(&names[i], name) {
            proof {
                assert(nv[i as int] == name@);
                nv.index_of_first_ensures(name@);
                let idx = nv.index_of_first(name@)->Some_0;
                assert(nv[idx] == name@);
                assert(idx == i as int);
            }
            return i + 1;
        }
        i += 1;
    }
    proof {
        assert(forall|j: int| 0 <= j < nv.len() ==> nv[j] != name@);
        if nv.contains(name@) {
            let w = choose|w: int| 0 <= w < nv.len() && nv[w] == name@;
            assert(false);
        }
        nv.index_of_first_ensures(name@);
    }
    let n = crate::board::copy_bytes(name);
    names.push(n);
    proof {
        assert(names@.map_values(|n: Vec<u8>| n@) =~= nv.push(name@));
    }
    names.len()
}

} // verus!
