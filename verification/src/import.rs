//! The bulk import pipeline.
//!
//! A game arrives as discrete parse events already grouped per game: the
//! header tag pairs and the SAN move tokens.  A folding builder resolves
//! each move against the in-progress position, encodes it with the codec,
//! and on completion derives the fingerprint fields from a replay of the
//! encoded bytes.  Malformed games (an invalid setup, a token that resolves
//! to no legal move) are skipped and counted; the surviving records are
//! committed all at once: the whole batch is checked against the store
//! constraint first, so either every record is inserted or the store is
//! left untouched.

use vstd::prelude::*;
use crate::StoreError;
use crate::board::copy_bytes;
use crate::board::parse_fen;
use crate::board::pawn_home;
use crate::board::spec_parse_fen;
use crate::board::spec_pawn_home;
use crate::board::spec_material_white;
use crate::board::spec_material_black;
use crate::board::ph_subset;
use crate::board::PosView;
use crate::codec::spec_encode;
use crate::codec::encode_from_legal;
use crate::replay::spec_replay;
use crate::replay::replay_positions;
use crate::replay::material_floor;
use crate::rules::spec_legal_triples;
use crate::rules::spec_san_move;
use crate::rules::spec_apply;
use crate::rules::legal_triples;
use crate::rules::san_to_triple;
use crate::rules::apply_ply;
use crate::store::Database;
use crate::store::StoredGame;
use crate::store::fingerprint_sound;
use crate::store::record_sound;
use crate::store::spec_constraint_ok;
use crate::store::spec_elo_ok;
use crate::store::get_or_create;
use crate::store::ov;
use vstd::math::min;

verus! {

/// The standard initial position.
pub open spec fn spec_start_fen() -> Seq<u8> {
    seq![114u8, 110u8, 98u8, 113u8, 107u8, 98u8, 110u8, 114u8, 47u8, 112u8, 112u8, 112u8, 112u8, 112u8, 112u8, 112u8, 112u8, 47u8, 56u8, 47u8, 56u8, 47u8, 56u8, 47u8, 56u8, 47u8, 80u8, 80u8, 80u8, 80u8, 80u8, 80u8, 80u8, 80u8, 47u8, 82u8, 78u8, 66u8, 81u8, 75u8, 66u8, 78u8, 82u8, 32u8, 119u8, 32u8, 75u8, 81u8, 107u8, 113u8, 32u8, 45u8, 32u8, 48u8, 32u8, 49u8]
}

/// The standard initial position, as FEN text.
pub fn start_fen() -> (r: Vec<u8>)
    ensures
        r@ == spec_start_fen(),
{
    let r: Vec<u8> = vec![114u8, 110u8, 98u8, 113u8, 107u8, 98u8, 110u8, 114u8, 47u8, 112u8, 112u8, 112u8, 112u8, 112u8, 112u8, 112u8, 112u8, 47u8, 56u8, 47u8, 56u8, 47u8, 56u8, 47u8, 56u8, 47u8, 80u8, 80u8, 80u8, 80u8, 80u8, 80u8, 80u8, 80u8, 47u8, 82u8, 78u8, 66u8, 81u8, 75u8, 66u8, 78u8, 82u8, 32u8, 119u8, 32u8, 75u8, 81u8, 107u8, 113u8, 32u8, 45u8, 32u8, 48u8, 32u8, 49u8];
    proof {
        assert(r@ =~= spec_start_fen());
    }
    r
}

/// The header tag "Event".
pub open spec fn key_event() -> Seq<u8> {
    seq![69u8, 118u8, 101u8, 110u8, 116u8]
}

fn key_event_bytes() -> (r: Vec<u8>)
    ensures
        r@ == key_event(),
{
    let r: Vec<u8> = vec![69u8, 118u8, 101u8, 110u8, 116u8];
    proof {
        assert(r@ =~= key_event());
    }
    r
}

/// The header tag "Site".
pub open spec fn key_site() -> Seq<u8> {
    seq![83u8, 105u8, 116u8, 101u8]
}

fn key_site_bytes() -> (r: Vec<u8>)
    ensures
        r@ == key_site(),
{
    let r: Vec<u8> = vec![83u8, 105u8, 116u8, 101u8];
    proof {
        assert(r@ =~= key_site());
    }
    r
}

/// The header tag "Date".
pub open spec fn key_date() -> Seq<u8> {
    seq![68u8, 97u8, 116u8, 101u8]
}

fn key_date_bytes() -> (r: Vec<u8>)
    ensures
        r@ == key_date(),
{
    let r: Vec<u8> = vec![68u8, 97u8, 116u8, 101u8];
    proof {
        assert(r@ =~= key_date());
    }
    r
}

/// The header tag "UTCTime".
pub open spec fn key_utctime() -> Seq<u8> {
    seq![85u8, 84u8, 67u8, 84u8, 105u8, 109u8, 101u8]
}

fn key_utctime_bytes() -> (r: Vec<u8>)
    ensures
        r@ == key_utctime(),
{
    let r: Vec<u8> = vec![85u8, 84u8, 67u8, 84u8, 105u8, 109u8, 101u8];
    proof {
        assert(r@ =~= key_utctime());
    }
    r
}

/// The header tag "Round".
pub open spec fn key_round() -> Seq<u8> {
    seq![82u8, 111u8, 117u8, 110u8, 100u8]
}

fn key_round_bytes() -> (r: Vec<u8>)
    ensures
        r@ == key_round(),
{
    let r: Vec<u8> = vec![82u8, 111u8, 117u8, 110u8, 100u8];
    proof {
        assert(r@ =~= key_round());
    }
    r
}

/// The header tag "White".
pub open spec fn key_white() -> Seq<u8> {
    seq![87u8, 104u8, 105u8, 116u8, 101u8]
}

fn key_white_bytes() -> (r: Vec<u8>)
    ensures
        r@ == key_white(),
{
    let r: Vec<u8> = vec![87u8, 104u8, 105u8, 116u8, 101u8];
    proof {
        assert(r@ =~= key_white());
    }
    r
}

/// The header tag "Black".
pub open spec fn key_black() -> Seq<u8> {
    seq![66u8, 108u8, 97u8, 99u8, 107u8]
}

fn key_black_bytes() -> (r: Vec<u8>)
    ensures
        r@ == key_black(),
{
    let r: Vec<u8> = vec![66u8, 108u8, 97u8, 99u8, 107u8];
    proof {
        assert(r@ =~= key_black());
    }
    r
}

/// The header tag "WhiteElo".
pub open spec fn key_white_elo() -> Seq<u8> {
    seq![87u8, 104u8, 105u8, 116u8, 101u8, 69u8, 108u8, 111u8]
}

fn key_white_elo_bytes() -> (r: Vec<u8>)
    ensures
        r@ == key_white_elo(),
{
    let r: Vec<u8> = vec![87u8, 104u8, 105u8, 116u8, 101u8, 69u8, 108u8, 111u8];
    proof {
        assert(r@ =~= key_white_elo());
    }
    r
}

/// The header tag "BlackElo".
pub open spec fn key_black_elo() -> Seq<u8> {
    seq![66u8, 108u8, 97u8, 99u8, 107u8, 69u8, 108u8, 111u8]
}

fn key_black_elo_bytes() -> (r: Vec<u8>)
    ensures
        r@ == key_black_elo(),
{
    let r: Vec<u8> = vec![66u8, 108u8, 97u8, 99u8, 107u8, 69u8, 108u8, 111u8];
    proof {
        assert(r@ =~= key_black_elo());
    }
    r
}

/// The header tag "TimeControl".
pub open spec fn key_time_control() -> Seq<u8> {
    seq![84u8, 105u8, 109u8, 101u8, 67u8, 111u8, 110u8, 116u8, 114u8, 111u8, 108u8]
}

fn key_time_control_bytes() -> (r: Vec<u8>)
    ensures
        r@ == key_time_control(),
{
    let r: Vec<u8> = vec![84u8, 105u8, 109u8, 101u8, 67u8, 111u8, 110u8, 116u8, 114u8, 111u8, 108u8];
    proof {
        assert(r@ =~= key_time_control());
    }
    r
}

/// The header tag "ECO".
pub open spec fn key_eco() -> Seq<u8> {
    seq![69u8, 67u8, 79u8]
}

fn key_eco_bytes() -> (r: Vec<u8>)
    ensures
        r@ == key_eco(),
{
    let r: Vec<u8> = vec![69u8, 67u8, 79u8];
    proof {
        assert(r@ =~= key_eco());
    }
    r
}

/// The header tag "Result".
pub open spec fn key_result() -> Seq<u8> {
    seq![82u8, 101u8, 115u8, 117u8, 108u8, 116u8]
}

fn key_result_bytes() -> (r: Vec<u8>)
    ensures
        r@ == key_result(),
{
    let r: Vec<u8> = vec![82u8, 101u8, 115u8, 117u8, 108u8, 116u8];
    proof {
        assert(r@ =~= key_result());
    }
    r
}

/// The header tag "FEN".
pub open spec fn key_fen() -> Seq<u8> {
    seq![70u8, 69u8, 78u8]
}

fn key_fen_bytes() -> (r: Vec<u8>)
    ensures
        r@ == key_fen(),
{
    let r: Vec<u8> = vec![70u8, 69u8, 78u8];
    proof {
        assert(r@ =~= key_fen());
    }
    r
}


/// Abstract value of one raw game from the token stream.
pub ghost struct RawGameView {
    pub headers: Seq<(Seq<u8>, Seq<u8>)>,
    pub sans: Seq<Seq<u8>>,
}

/// One game of the token stream, as discrete parse events: the header tag
/// pairs in order, and the SAN move tokens of the mainline in order.
pub struct RawGame {
    pub headers: Vec<(Vec<u8>, Vec<u8>)>,
    pub sans: Vec<Vec<u8>>,
}

impl View for RawGame {
    type V = RawGameView;

    open spec fn view(&self) -> RawGameView {
        RawGameView {
            headers: self.headers@.map_values(|h: (Vec<u8>, Vec<u8>)| (h.0@, h.1@)),
            sans: self.sans@.map_values(|s: Vec<u8>| s@),
        }
    }
}

/// The value of the last header with the given tag, if any (a repeated tag
/// overrides earlier occurrences, as in a folding builder).
pub open spec fn spec_header(headers: Seq<(Seq<u8>, Seq<u8>)>, key: Seq<u8>) -> Option<Seq<u8>>
    decreases headers.len(),
{
    if headers.len() == 0 {
        None
    } else if headers.last().0 == key {
        Some(headers.last().1)
    } else {
        spec_header(headers.drop_last(), key)
    }
}

/// Looks the last value of a header tag up.
pub fn header_value(headers: &Vec<(Vec<u8>, Vec<u8>)>, key: &Vec<u8>) -> (r: Option<Vec<u8>>)
    ensures
        ov(r) == spec_header(headers@.map_values(|h: (Vec<u8>, Vec<u8>)| (h.0@, h.1@)), key@),
{
    let ghost hv = headers@.map_values(|h: (Vec<u8>, Vec<u8>)| (h.0@, h.1@));
    let mut found: Option<Vec<u8>> = None;
    let mut i: usize = 0;
    proof {
        assert(hv.subrange(0, 0) =~= Seq::<(Seq<u8>, Seq<u8>)>::empty());
    }
    while i < headers.len()
        invariant
            i <= headers@.len(),
            hv == headers@.map_values(|h: (Vec<u8>, Vec<u8>)| (h.0@, h.1@)),
            ov(found) == spec_header(hv.subrange(0, i as int), key@),
        decreases headers@.len() - i,
    {
        let ghost pre = hv.subrange(0, i as int);
        let ghost cur = hv.subrange(0, i as int + 1);
        proof {
            assert(cur.drop_last() =~= pre);
            assert(cur.last() == hv[i as int]);
        }
        if crate::board::eq_bytes(&headers[i].0, key) {
            found = Some(copy_bytes(&headers[i].1));
        }
        i += 1;
    }
    proof {
        assert(hv.subrange(0, hv.len() as int) =~= hv);
    }
    found
}

/// State of the rating parser: a non-empty run of decimal digits, with a
/// cap that keeps the value well inside `i32`.
pub ghost struct EloSt {
    pub ok: bool,
    pub val: u32,
}

pub open spec fn elo_init() -> EloSt {
    EloSt { ok: true, val: 0 }
}

pub open spec fn elo_step(st: EloSt, b: u8) -> EloSt {
    if !st.ok {
        st
    } else if 48 <= b && b <= 57 {
        if st.val <= 100000 {
            EloSt { ok: true, val: (10 * st.val + (b - 48)) as u32 }
        } else {
            EloSt { ok: false, ..st }
        }
    } else {
        EloSt { ok: false, ..st }
    }
}

pub open spec fn elo_run(s: Seq<u8>) -> EloSt
    decreases s.len(),
{
    if s.len() == 0 {
        elo_init()
    } else {
        elo_step(elo_run(s.drop_last()), s.last())
    }
}

/// The rating a header value denotes: a non-empty all-digit string, read as
/// a decimal number; `None` otherwise.
pub open spec fn spec_parse_elo(s: Seq<u8>) -> Option<i32> {
    let st = elo_run(s);
    if st.ok && s.len() > 0 {
        Some(st.val as i32)
    } else {
        None
    }
}

pub open spec fn elo_st_wf(st: EloSt) -> bool {
    st.val <= 1000009
}

proof fn lemma_elo_run_wf(s: Seq<u8>)
    ensures
        elo_st_wf(elo_run(s)),
    decreases s.len(),
{
    if s.len() > 0 {
        lemma_elo_run_wf(s.drop_last());
    }
}

proof fn lemma_elo_snoc(s: Seq<u8>, i: int)
    requires
        0 <= i < s.len(),
    ensures
        elo_run(s.subrange(0, i + 1)) == elo_step(elo_run(s.subrange(0, i)), s[i]),
{
    let t = s.subrange(0, i + 1);
    assert(t.drop_last() =~= s.subrange(0, i));
    assert(t.last() == s[i]);
}

/// Parses a rating string.
pub fn parse_elo(s: &Vec<u8>) -> (r: Option<i32>)
    ensures
        r == spec_parse_elo(s@),
{
    let mut ok: bool = true;
    let mut val: u32 = 0;
    let mut i: usize = 0;
    proof {
        assert(s@.subrange(0, 0) =~= Seq::<u8>::empty());
    }
    while i < s.len()
        invariant
            i <= s@.len(),
            elo_run(s@.subrange(0, i as int)) == (EloSt { ok, val }),
            elo_st_wf(EloSt { ok, val }),
        decreases s@.len() - i,
    {
        proof {
            lemma_elo_snoc(s@, i as int);
        }
        let b = s[i];
        if !ok {
        } else if 48 <= b && b <= 57 {
            if val <= 100000 {
                val = 10 * val + ((b - 48) as u32);
            } else {
                ok = false;
            }
        } else {
            ok = false;
        }
        i += 1;
    }
    proof {
        assert(s@.subrange(0, s@.len() as int) =~= s@);
    }
    if ok && s.len() > 0 {
        Some(val as i32)
    } else {
        None
    }
}

/// The rating an optional header value denotes.
pub open spec fn spec_opt_elo(o: Option<Seq<u8>>) -> Option<i32> {
    match o {
        Some(s) => spec_parse_elo(s),
        None => None,
    }
}

/// Abstract value of a finalized game-record candidate.
pub ghost struct GameRecordView {
    pub event: Option<Seq<u8>>,
    pub site: Option<Seq<u8>>,
    pub date: Option<Seq<u8>>,
    pub time: Option<Seq<u8>>,
    pub round: Option<Seq<u8>>,
    pub white_name: Option<Seq<u8>>,
    pub black_name: Option<Seq<u8>>,
    pub result: Option<Seq<u8>>,
    pub time_control: Option<Seq<u8>>,
    pub eco: Option<Seq<u8>>,
    pub white_elo: Option<i32>,
    pub black_elo: Option<i32>,
    pub fen: Option<Seq<u8>>,
    pub moves: Seq<u8>,
    pub pawn_home: u16,
    pub white_material: u32,
    pub black_material: u32,
}

/// A finalized game-record candidate, ready for insertion: header
/// metadata, the encoded move bytes and the fingerprint fields.
pub struct GameRecord {
    pub event: Option<Vec<u8>>,
    pub site: Option<Vec<u8>>,
    pub date: Option<Vec<u8>>,
    pub time: Option<Vec<u8>>,
    pub round: Option<Vec<u8>>,
    pub white_name: Option<Vec<u8>>,
    pub black_name: Option<Vec<u8>>,
    pub result: Option<Vec<u8>>,
    pub time_control: Option<Vec<u8>>,
    pub eco: Option<Vec<u8>>,
    pub white_elo: Option<i32>,
    pub black_elo: Option<i32>,
    pub fen: Option<Vec<u8>>,
    pub moves: Vec<u8>,
    pub pawn_home: u16,
    pub white_material: u32,
    pub black_material: u32,
}

impl View for GameRecord {
    type V = GameRecordView;

    open spec fn view(&self) -> GameRecordView {
        GameRecordView {
            event: ov(self.event),
            site: ov(self.site),
            date: ov(self.date),
            time: ov(self.time),
            round: ov(self.round),
            white_name: ov(self.white_name),
            black_name: ov(self.black_name),
            result: ov(self.result),
            time_control: ov(self.time_control),
            eco: ov(self.eco),
            white_elo: self.white_elo,
            black_elo: self.black_elo,
            fen: ov(self.fen),
            moves: self.moves@,
            pawn_home: self.pawn_home,
            white_material: self.white_material,
            black_material: self.black_material,
        }
    }
}

/// The starting FEN of a raw game: its FEN header if present, the standard
/// initial position otherwise.
pub open spec fn spec_raw_start(r: RawGameView) -> Seq<u8> {
    match spec_header(r.headers, key_fen()) {
        Some(f) => f,
        None => spec_start_fen(),
    }
}

/// The encoded move bytes of a SAN token sequence played out from a
/// position: each token is resolved to a legal move, encoded against the
/// canonical ordering, and applied; `None` as soon as a token does not
/// resolve.
pub open spec fn spec_encode_sans(fen: Seq<u8>, sans: Seq<Seq<u8>>) -> Option<Seq<u8>>
    decreases sans.len(),
{
    if sans.len() == 0 {
        Some(Seq::empty())
    } else {
        match (spec_san_move(fen, sans[0]), spec_legal_triples(fen)) {
            (Some(t), Some(l)) => match (spec_encode(l, t), l.index_of_first(t)) {
                (Some(b), Some(j)) => match spec_encode_sans(spec_apply(fen, j), sans.drop_first()) {
                    Some(rest) => Some(seq![b] + rest),
                    None => None,
                },
                _ => None,
            },
            _ => None,
        }
    }
}

/// Whether a raw game is well formed: its starting setup parses and is a
/// valid position, and every move token resolves and encodes.
pub open spec fn spec_game_ok(r: RawGameView) -> bool {
    &&& spec_parse_fen(spec_raw_start(r)) is Some
    &&& spec_legal_triples(spec_raw_start(r)) is Some
    &&& spec_encode_sans(spec_raw_start(r), r.sans) is Some
}

/// The minimum white material over a position sequence.
pub open spec fn spec_floor_white(ps: Seq<PosView>) -> int
    decreases ps.len(),
{
    if ps.len() == 0 {
        0
    } else if ps.len() == 1 {
        spec_material_white(ps[0].board, 64)
    } else {
        min(spec_floor_white(ps.drop_last()), spec_material_white(ps.last().board, 64))
    }
}

/// The minimum black material over a position sequence.
pub open spec fn spec_floor_black(ps: Seq<PosView>) -> int
    decreases ps.len(),
{
    if ps.len() == 0 {
        0
    } else if ps.len() == 1 {
        spec_material_black(ps[0].board, 64)
    } else {
        min(spec_floor_black(ps.drop_last()), spec_material_black(ps.last().board, 64))
    }
}

/// A value that is a lower bound on the white material of every position
/// and is attained is the floor.
proof fn lemma_floor_white_ensures(ps: Seq<PosView>)
    requires
        ps.len() > 0,
    ensures
        forall|i: int| 0 <= i < ps.len() ==> spec_floor_white(ps) <= spec_material_white(#[trigger] ps[i].board, 64),
        exists|i: int| 0 <= i < ps.len() && spec_floor_white(ps) == spec_material_white(#[trigger] ps[i].board, 64),
    decreases ps.len(),
{
    if ps.len() > 1 {
        let pre = ps.drop_last();
        lemma_floor_white_ensures(pre);
        assert forall|i: int| 0 <= i < ps.len() implies spec_floor_white(ps)
            <= spec_material_white(#[trigger] ps[i].board, 64) by {
            if i < ps.len() - 1 {
                assert(pre[i] == ps[i]);
                assert(spec_floor_white(pre) <= spec_material_white(pre[i].board, 64));
            }
        }
        let w = choose|i: int|
            0 <= i < pre.len() && spec_floor_white(pre) == spec_material_white(
                #[trigger] pre[i].board,
                64,
            );
        if spec_floor_white(ps) == spec_floor_white(pre) {
            assert(pre[w] == ps[w]);
            assert(spec_floor_white(ps) == spec_material_white(ps[w].board, 64));
        } else {
            assert(spec_floor_white(ps) == spec_material_white(ps[ps.len() - 1].board, 64));
        }
    } else {
        assert(spec_floor_white(ps) == spec_material_white(ps[0].board, 64));
    }
}

proof fn lemma_floor_black_ensures(ps: Seq<PosView>)
    requires
        ps.len() > 0,
    ensures
        forall|i: int| 0 <= i < ps.len() ==> spec_floor_black(ps) <= spec_material_black(#[trigger] ps[i].board, 64),
        exists|i: int| 0 <= i < ps.len() && spec_floor_black(ps) == spec_material_black(#[trigger] ps[i].board, 64),
    decreases ps.len(),
{
    if ps.len() > 1 {
        let pre = ps.drop_last();
        lemma_floor_black_ensures(pre);
        assert forall|i: int| 0 <= i < ps.len() implies spec_floor_black(ps)
            <= spec_material_black(#[trigger] ps[i].board, 64) by {
            if i < ps.len() - 1 {
                assert(pre[i] == ps[i]);
                assert(spec_floor_black(pre) <= spec_material_black(pre[i].board, 64));
            }
        }
        let w = choose|i: int|
            0 <= i < pre.len() && spec_floor_black(pre) == spec_material_black(
                #[trigger] pre[i].board,
                64,
            );
        if spec_floor_black(ps) == spec_floor_black(pre) {
            assert(pre[w] == ps[w]);
            assert(spec_floor_black(ps) == spec_material_black(ps[w].board, 64));
        } else {
            assert(spec_floor_black(ps) == spec_material_black(ps[ps.len() - 1].board, 64));
        }
    } else {
        assert(spec_floor_black(ps) == spec_material_black(ps[0].board, 64));
    }
}

/// Any attained lower bound is the floor.
proof fn lemma_floor_white_char(ps: Seq<PosView>, v: int)
    requires
        ps.len() > 0,
        forall|i: int| 0 <= i < ps.len() ==> v <= spec_material_white(#[trigger] ps[i].board, 64),
        exists|i: int| 0 <= i < ps.len() && v == spec_material_white(#[trigger] ps[i].board, 64),
    ensures
        v == spec_floor_white(ps),
{
    lemma_floor_white_ensures(ps);
    let a = choose|i: int|
        0 <= i < ps.len() && v == spec_material_white(#[trigger] ps[i].board, 64);
    let b = choose|i: int|
        0 <= i < ps.len() && spec_floor_white(ps) == spec_material_white(
            #[trigger] ps[i].board,
            64,
        );
    assert(spec_floor_white(ps) <= spec_material_white(ps[a].board, 64));
    assert(v <= spec_material_white(ps[b].board, 64));
}

proof fn lemma_floor_black_char(ps: Seq<PosView>, v: int)
    requires
        ps.len() > 0,
        forall|i: int| 0 <= i < ps.len() ==> v <= spec_material_black(#[trigger] ps[i].board, 64),
        exists|i: int| 0 <= i < ps.len() && v == spec_material_black(#[trigger] ps[i].board, 64),
    ensures
        v == spec_floor_black(ps),
{
    lemma_floor_black_ensures(ps);
    let a = choose|i: int|
        0 <= i < ps.len() && v == spec_material_black(#[trigger] ps[i].board, 64);
    let b = choose|i: int|
        0 <= i < ps.len() && spec_floor_black(ps) == spec_material_black(
            #[trigger] ps[i].board,
            64,
        );
    assert(spec_floor_black(ps) <= spec_material_black(ps[a].board, 64));
    assert(v <= spec_material_black(ps[b].board, 64));
}

/// The record a raw game builds to, if it is well formed: the header
/// metadata, the encoded move bytes, and the fingerprint fields derived
/// from the replay of those bytes.
pub open spec fn spec_build(r: RawGameView) -> Option<GameRecordView> {
    if !spec_game_ok(r) {
        None
    } else {
        let start = spec_raw_start(r);
        let bytes = spec_encode_sans(start, r.sans)->Some_0;
        let ps = spec_replay(start, bytes);
        Some(
            GameRecordView {
                event: spec_header(r.headers, key_event()),
                site: spec_header(r.headers, key_site()),
                date: spec_header(r.headers, key_date()),
                time: spec_header(r.headers, key_utctime()),
                round: spec_header(r.headers, key_round()),
                white_name: spec_header(r.headers, key_white()),
                black_name: spec_header(r.headers, key_black()),
                result: spec_header(r.headers, key_result()),
                time_control: spec_header(r.headers, key_time_control()),
                eco: spec_header(r.headers, key_eco()),
                white_elo: spec_opt_elo(spec_header(r.headers, key_white_elo())),
                black_elo: spec_opt_elo(spec_header(r.headers, key_black_elo())),
                fen: spec_header(r.headers, key_fen()),
                moves: bytes,
                pawn_home: spec_pawn_home(ps.last().board),
                white_material: spec_floor_white(ps) as u32,
                black_material: spec_floor_black(ps) as u32,
            },
        )
    }
}


/// Copies an optional byte string.
fn copy_opt(x: &Option<Vec<u8>>) -> (r: Option<Vec<u8>>)
    ensures
        ov(r) == ov(*x),
{
    match x {
        Some(v) => Some(copy_bytes(v)),
        None => None,
    }
}

/// The position sequence of a replay is never empty when the starting FEN
/// parses, and then begins with the parsed position.
pub proof fn lemma_replay_nonempty(fen: Seq<u8>, bytes: Seq<u8>)
    requires
        spec_parse_fen(fen) is Some,
    ensures
        spec_replay(fen, bytes).len() >= 1,
        spec_replay(fen, bytes)[0] == spec_parse_fen(fen)->Some_0,
{
    let p = spec_parse_fen(fen)->Some_0;
    if bytes.len() == 0 {
    } else {
        match spec_legal_triples(fen) {
            None => {},
            Some(l) => {
                match crate::codec::spec_decode_index(l, bytes[0]) {
                    None => {},
                    Some(j) => {
                        assert(spec_replay(fen, bytes) == seq![p] + spec_replay(
                            spec_apply(fen, j),
                            bytes.drop_first(),
                        ));
                    },
                }
            },
        }
    }
}

/// Builds the record of one raw game: resolves and encodes every move
/// token, then derives the fingerprint fields from a replay of the encoded
/// bytes.  Returns `None` exactly when the game is malformed (its setup
/// does not parse or validate, or a token resolves to no legal move): such
/// a game is skipped by the import.
pub fn build_game(raw: &RawGame) -> (r: Option<GameRecord>)
    ensures
        match r {
            Some(g) => spec_build(raw@) == Some(g@) && fingerprint_sound(
                g@.fen,
                g@.moves,
                g@.pawn_home,
                g@.white_material,
                g@.black_material,
            ),
            None => spec_build(raw@) is None,
        },
{
    let key_fen_v = key_fen_bytes();
    let fen0 = match header_value(&raw.headers, &key_fen_v) {
        Some(f) => f,
        None => start_fen(),
    };
    proof {
        assert(fen0@ == spec_raw_start(raw@));
    }
    if parse_fen(&fen0).is_none() {
        return None;
    }
    match legal_triples(&fen0) {
        Some(_) => {},
        None => {
            return None;
        },
    }
    let ghost sansv = raw@.sans;
    let mut fen = copy_bytes(&fen0);
    let mut bytes: Vec<u8> = Vec::new();
    let mut k: usize = 0;
    proof {
        assert(sansv.skip(0) =~= sansv);
        if spec_encode_sans(fen@, sansv) is Some {
            assert(Seq::<u8>::empty() + spec_encode_sans(fen@, sansv)->Some_0 =~= spec_encode_sans(
                fen@,
                sansv,
            )->Some_0);
        }
    }
    while k < raw.sans.len()
        invariant
            k <= sansv.len(),
            sansv == raw@.sans,
            fen0@ == spec_raw_start(raw@),
            match spec_encode_sans(fen@, sansv.skip(k as int)) {
                Some(rest) => spec_encode_sans(fen0@, sansv) == Some(bytes@ + rest),
                None => spec_encode_sans(fen0@, sansv) is None,
            },
        decreases sansv.len() - k,
    {
        let ghost rem = sansv.skip(k as int);
        let ghost oldfen = fen@;
        proof {
            assert(rem.len() > 0);
            assert(rem[0] == sansv[k as int]);
            assert(sansv[k as int] == raw.sans@[k as int]@);
        }
        let t = match san_to_triple(&fen, &raw.sans[k]) {
            Some(t) => t,
            None => {
                proof {
                    assert(spec_encode_sans(oldfen, rem) is None);
                }
                return None;
            },
        };
        let l = match legal_triples(&fen) {
            Some(l) => l,
            None => {
                proof {
                    assert(false);
                }
                return None;
            },
        };
        proof {
            assert(l@.contains(t));
            let w = choose|w: int| 0 <= w < l@.len() && l@[w] == t;
            assert(crate::codec::tri_wf(l@[w]));
        }
        let b = match encode_from_legal(&l, t) {
            Ok(b) => b,
            Err(_) => {
                proof {
                    let w = choose|w: int| 0 <= w < l@.len() && l@[w] == t;
                    assert(crate::codec::spec_keys(l@)[w] == crate::codec::spec_key(t));
                    assert(crate::codec::spec_keys(l@).contains(crate::codec::spec_key(t)));
                    assert(false);
                }
                return None;
            },
        };
        // first index of the resolved triple in the provider's move list
        let mut j: usize = 0;
        proof {
            l@.index_of_first_ensures(t);
        }
        while j < l.len() && !(l[j].0 == t.0 && l[j].1 == t.1 && l[j].2 == t.2)
            invariant
                j <= l@.len(),
                forall|q: int| 0 <= q < j ==> l@[q] != t,
            decreases l@.len() - j,
        {
            j += 1;
        }
        if j >= l.len() {
            proof {
                assert(forall|q: int| 0 <= q < l@.len() ==> l@[q] != t);
                assert(false);
            }
            return None;
        }
        proof {
            assert(l@[j as int] == t);
            l@.index_of_first_ensures(t);
            let idx = l@.index_of_first(t)->Some_0;
            assert(l@[idx] == t);
            assert(idx == j as int);
        }
        let newfen = apply_ply(&fen, j);
        bytes.push(b);
        proof {
            assert(spec_encode_sans(oldfen, rem) == (match spec_encode_sans(
                spec_apply(oldfen, j as int),
                rem.drop_first(),
            ) {
                Some(rest) => Some(seq![b] + rest),
                None => None,
            }));
            assert(rem.drop_first() =~= sansv.skip(k as int + 1));
        }
        fen = newfen;
        k += 1;
        proof {
            let oldbytes = bytes@.drop_last();
            assert(oldbytes.push(b) =~= bytes@);
            match spec_encode_sans(fen@, sansv.skip(k as int)) {
                Some(rest) => {
                    assert(spec_encode_sans(oldfen, rem) == Some(seq![b] + rest));
                    assert(oldbytes + (seq![b] + rest) =~= bytes@ + rest);
                },
                None => {
                    assert(spec_encode_sans(oldfen, rem) is None);
                },
            }
        }
    }
    proof {
        assert(sansv.skip(sansv.len() as int) =~= Seq::<Seq<u8>>::empty());
        assert(spec_encode_sans(fen@, Seq::<Seq<u8>>::empty()) == Some(Seq::<u8>::empty()));
        assert(bytes@ + Seq::<u8>::empty() =~= bytes@);
        assert(spec_encode_sans(fen0@, sansv) == Some(bytes@));
        lemma_replay_nonempty(fen0@, bytes@);
    }
    let positions = replay_positions(&fen0, &bytes);
    let ghost ps = spec_replay(fen0@, bytes@);
    proof {
        assert(positions@.map_values(|p: crate::board::Position| p@) == ps);
        assert(positions@.len() == ps.len());
        assert(positions@.len() >= 1);
    }
    let lastpos = &positions[positions.len() - 1];
    proof {
        assert(lastpos@ == ps[ps.len() - 1]);
        assert(ps[ps.len() - 1] == ps.last());
        assert(forall|i: int|
            0 <= i < ps.len() ==> #[trigger] positions@[i]@ == ps[i]);
    }
    let ph = pawn_home(lastpos);
    let fl = material_floor(&positions);
    proof {
        lemma_floor_white_char(ps, fl.0 as int);
        lemma_floor_black_char(ps, fl.1 as int);
    }
    let key_event_v = key_event_bytes();
    let key_site_v = key_site_bytes();
    let key_date_v = key_date_bytes();
    let key_utctime_v = key_utctime_bytes();
    let key_round_v = key_round_bytes();
    let key_white_v = key_white_bytes();
    let key_black_v = key_black_bytes();
    let key_result_v = key_result_bytes();
    let key_time_control_v = key_time_control_bytes();
    let key_eco_v = key_eco_bytes();
    let key_white_elo_v = key_white_elo_bytes();
    let key_black_elo_v = key_black_elo_bytes();
    let white_elo = match header_value(&raw.headers, &key_white_elo_v) {
        Some(v) => parse_elo(&v),
        None => None,
    };
    let black_elo = match header_value(&raw.headers, &key_black_elo_v) {
        Some(v) => parse_elo(&v),
        None => None,
    };
    let g = GameRecord {
        event: header_value(&raw.headers, &key_event_v),
        site: header_value(&raw.headers, &key_site_v),
        date: header_value(&raw.headers, &key_date_v),
        time: header_value(&raw.headers, &key_utctime_v),
        round: header_value(&raw.headers, &key_round_v),
        white_name: header_value(&raw.headers, &key_white_v),
        black_name: header_value(&raw.headers, &key_black_v),
        result: header_value(&raw.headers, &key_result_v),
        time_control: header_value(&raw.headers, &key_time_control_v),
        eco: header_value(&raw.headers, &key_eco_v),
        white_elo,
        black_elo,
        fen: header_value(&raw.headers, &key_fen_v),
        moves: bytes,
        pawn_home: ph,
        white_material: fl.0,
        black_material: fl.1,
    };
    proof {
        assert(ph_subset(ph, spec_pawn_home(ps.last().board))) by {
            crate::board::lemma_ph_subset_refl(ph);
        }
        assert(forall|i: int|
            0 <= i < ps.len() ==> ph_subset(ph, spec_pawn_home(#[trigger] ps[i].board)));
        assert(spec_build(raw@) == Some(g@));
    }
    Some(g)
}


/// Outcome summary of an import run: how many games were committed, and
/// how many malformed games were skipped.
#[derive(Clone, Copy, Debug, PartialEq, Eq, Structural)]
pub struct ImportSummary {
    pub imported: usize,
    pub skipped: usize,
}

/// The records of the well-formed games of a stream, in order.
pub open spec fn spec_ok_records(rs: Seq<RawGameView>) -> Seq<GameRecordView>
    decreases rs.len(),
{
    if rs.len() == 0 {
        Seq::empty()
    } else {
        spec_ok_records(rs.drop_last()) + (match spec_build(rs.last()) {
            Some(g) => seq![g],
            None => Seq::<GameRecordView>::empty(),
        })
    }
}

/// The store constraint, on a record candidate.
pub open spec fn spec_rec_constraint_ok(g: GameRecordView) -> bool {
    spec_elo_ok(g.white_elo) && spec_elo_ok(g.black_elo)
}

/// An identifier resolves a name: 0 for an absent name, otherwise the
/// name's entry in the table.
pub open spec fn name_link(names: Seq<Seq<u8>>, id: usize, name: Option<Seq<u8>>) -> bool {
    match name {
        None => id == 0,
        Some(n) => 1 <= id <= names.len() && names[id - 1] == n,
    }
}

/// A stored game carries exactly the fields of a record candidate, with
/// each name resolved to an identifier of the store's tables.
pub open spec fn stored_matches_record(
    db: crate::store::DbView,
    g: crate::store::StoredGameView,
    rec: GameRecordView,
) -> bool {
    &&& g.white_elo == rec.white_elo
    &&& g.black_elo == rec.black_elo
    &&& g.date == rec.date
    &&& g.time == rec.time
    &&& g.round == rec.round
    &&& g.result == rec.result
    &&& g.time_control == rec.time_control
    &&& g.eco == rec.eco
    &&& g.fen == rec.fen
    &&& g.moves == rec.moves
    &&& g.pawn_home == rec.pawn_home
    &&& g.white_material == rec.white_material
    &&& g.black_material == rec.black_material
    &&& name_link(db.players, g.white_id, rec.white_name)
    &&& name_link(db.players, g.black_id, rec.black_name)
    &&& name_link(db.events, g.event_id, rec.event)
    &&& name_link(db.sites, g.site_id, rec.site)
}

/// A name link survives any extension of the table.
proof fn lemma_name_link_grow(
    names1: Seq<Seq<u8>>,
    names2: Seq<Seq<u8>>,
    id: usize,
    nm: Option<Seq<u8>>,
)
    requires
        name_link(names1, id, nm),
        names1.len() <= names2.len(),
        forall|j: int| 0 <= j < names1.len() ==> names2[j] == names1[j],
    ensures
        name_link(names2, id, nm),
{
}

/// Imports a stream of raw games into the store inside one all-or-nothing
/// commit.  Malformed games are skipped and counted; the well-formed ones
/// become records, the whole batch is checked against the store constraint,
/// and then either every record is inserted (names resolved through the
/// deduplicated tables) or, when any record violates the constraint, the
/// store is left exactly as it was.
pub fn import_games(db: &mut Database, raws: &Vec<RawGame>) -> (r: Result<
    ImportSummary,
    StoreError,
>)
    ensures
        ({
            let rawsv = raws@.map_values(|x: RawGame| x@);
            let recs = spec_ok_records(rawsv);
            let oldg = old(db)@.games;
            match r {
                Err(e) => {
                    &&& e == StoreError::ConstraintViolation
                    &&& *final(db) == *old(db)
                    &&& exists|k: int|
                        0 <= k < recs.len() && !spec_rec_constraint_ok(#[trigger] recs[k])
                },
                Ok(s) => {
                    &&& forall|k: int|
                        0 <= k < recs.len() ==> spec_rec_constraint_ok(#[trigger] recs[k])
                    &&& s.imported == recs.len()
                    &&& s.imported + s.skipped == rawsv.len()
                    &&& final(db)@.games.len() == oldg.len() + recs.len()
                    &&& final(db)@.games.subrange(0, oldg.len() as int) == oldg
                    &&& final(db)@.players.subrange(0, old(db)@.players.len() as int) == old(
                        db,
                    )@.players
                    &&& final(db)@.events.subrange(0, old(db)@.events.len() as int) == old(
                        db,
                    )@.events
                    &&& final(db)@.sites.subrange(0, old(db)@.sites.len() as int) == old(
                        db,
                    )@.sites
                    &&& forall|k: int|
                        0 <= k < recs.len() ==> stored_matches_record(
                            final(db)@,
                            #[trigger] final(db)@.games[oldg.len() + k],
                            recs[k],
                        ) && record_sound(final(db)@.games[oldg.len() + k]) && spec_constraint_ok(
                            final(db)@.games[oldg.len() + k],
                        )
                },
            }
        }),
{
    let ghost rawsv = raws@.map_values(|x: RawGame| x@);
    let mut records: Vec<GameRecord> = Vec::new();
    let mut skipped: usize = 0;
    let mut i: usize = 0;
    proof {
        assert(rawsv.subrange(0, 0) =~= Seq::<RawGameView>::empty());
        assert(records@.map_values(|g: GameRecord| g@) =~= spec_ok_records(rawsv.subrange(0, 0)));
    }
    while i < raws.len()
        invariant
            i <= rawsv.len(),
            rawsv == raws@.map_values(|x: RawGame| x@),
            records@.map_values(|g: GameRecord| g@) == spec_ok_records(rawsv.subrange(0, i as int)),
            records@.len() + skipped == i,
            forall|k: int|
                0 <= k < records@.len() ==> fingerprint_sound(
                    (#[trigger] records@[k])@.fen,
                    records@[k]@.moves,
                    records@[k]@.pawn_home,
                    records@[k]@.white_material,
                    records@[k]@.black_material,
                ),
        decreases rawsv.len() - i,
    {
        let ghost pre = rawsv.subrange(0, i as int);
        let ghost cur = rawsv.subrange(0, i as int + 1);
        proof {
            assert(cur.drop_last() =~= pre);
            assert(cur.last() == rawsv[i as int]);
            assert(rawsv[i as int] == raws@[i as int]@);
        }
        match build_game(&raws[i]) {
            Some(g) => {
                records.push(g);
                proof {
                    assert(records@.map_values(|g: GameRecord| g@) =~= spec_ok_records(pre).push(
                        records@.last()@,
                    ));
                    assert(spec_ok_records(cur) =~= spec_ok_records(pre).push(
                        spec_build(rawsv[i as int])->Some_0,
                    ));
                }
            },
            None => {
                skipped = skipped + 1;
                proof {
                    assert(spec_ok_records(cur) =~= spec_ok_records(pre));
                }
            },
        }
        i += 1;
    }
    proof {
        assert(rawsv.subrange(0, rawsv.len() as int) =~= rawsv);
    }
    let ghost recsv = records@.map_values(|g: GameRecord| g@);
    // the whole batch is validated against the store constraint first,
    // so a failure leaves the store untouched
    let mut bad = false;
    let mut c: usize = 0;
    while c < records.len()
        invariant
            c <= records@.len(),
            recsv == records@.map_values(|g: GameRecord| g@),
            !bad ==> forall|k: int| 0 <= k < c ==> spec_rec_constraint_ok(#[trigger] recsv[k]),
            bad ==> exists|k: int| 0 <= k < c && !spec_rec_constraint_ok(#[trigger] recsv[k]),
        decreases records@.len() - c,
    {
        let w_ok = match records[c].white_elo {
            Some(v) => 0 <= v && v <= 4000,
            None => true,
        };
        let b_ok = match records[c].black_elo {
            Some(v) => 0 <= v && v <= 4000,
            None => true,
        };
        if !(w_ok && b_ok) {
            proof {
                assert(!spec_rec_constraint_ok(recsv[c as int]));
            }
            bad = true;
        }
        c += 1;
    }
    if bad {
        return Err(StoreError::ConstraintViolation);
    }
    // commit: resolve names and insert every record
    let ghost old_players = db@.players;
    let ghost old_events = db@.events;
    let ghost old_sites = db@.sites;
    let ghost old_games = db@.games;
    let imported = records.len();
    let mut k: usize = 0;
    proof {
        assert(db@.games.subrange(0, old_games.len() as int) =~= old_games);
        assert(db@.players.subrange(0, old_players.len() as int) =~= old_players);
        assert(db@.events.subrange(0, old_events.len() as int) =~= old_events);
        assert(db@.sites.subrange(0, old_sites.len() as int) =~= old_sites);
    }
    while k < records.len()
        invariant
            k <= records@.len(),
            recsv == records@.map_values(|g: GameRecord| g@),
            forall|q: int|
                0 <= q < records@.len() ==> fingerprint_sound(
                    (#[trigger] records@[q])@.fen,
                    records@[q]@.moves,
                    records@[q]@.pawn_home,
                    records@[q]@.white_material,
                    records@[q]@.black_material,
                ),
            forall|q: int| 0 <= q < records@.len() ==> spec_rec_constraint_ok(#[trigger] recsv[q]),
            db@.games.len() == old_games.len() + k,
            old_players.len() <= db@.players.len(),
            old_events.len() <= db@.events.len(),
            old_sites.len() <= db@.sites.len(),
            db@.games.subrange(0, old_games.len() as int) == old_games,
            db@.players.subrange(0, old_players.len() as int) == old_players,
            db@.events.subrange(0, old_events.len() as int) == old_events,
            db@.sites.subrange(0, old_sites.len() as int) == old_sites,
            forall|q: int|
                0 <= q < k ==> stored_matches_record(
                    db@,
                    #[trigger] db@.games[old_games.len() + q],
                    recsv[q],
                ) && record_sound(db@.games[old_games.len() + q]) && spec_constraint_ok(
                    db@.games[old_games.len() + q],
                ),
        decreases records@.len() - k,
    {
        let ghost db_pre = db@;
        let white_id = match &records[k].white_name {
            Some(n) => get_or_create(&mut db.players, n),
            None => 0,
        };
        let ghost pl1 = db@.players;
        proof {
            assert(name_link(pl1, white_id, recsv[k as int].white_name));
        }
        let black_id = match &records[k].black_name {
            Some(n) => get_or_create(&mut db.players, n),
            None => 0,
        };
        proof {
            assert(name_link(db@.players, black_id, recsv[k as int].black_name));
            lemma_name_link_grow(pl1, db@.players, white_id, recsv[k as int].white_name);
            assert(db_pre.players.len() <= db@.players.len());
            assert(forall|j: int|
                0 <= j < db_pre.players.len() ==> db@.players[j] == db_pre.players[j]);
        }
        let event_id = match &records[k].event {
            Some(n) => get_or_create(&mut db.events, n),
            None => 0,
        };
        proof {
            assert(name_link(db@.events, event_id, recsv[k as int].event));
        }
        let site_id = match &records[k].site {
            Some(n) => get_or_create(&mut db.sites, n),
            None => 0,
        };
        proof {
            assert(name_link(db@.sites, site_id, recsv[k as int].site));
        }
        let rec = &records[k];
        let sg = StoredGame {
            white_id,
            black_id,
            event_id,
            site_id,
            white_elo: rec.white_elo,
            black_elo: rec.black_elo,
            date: copy_opt(&rec.date),
            time: copy_opt(&rec.time),
            round: copy_opt(&rec.round),
            result: copy_opt(&rec.result),
            time_control: copy_opt(&rec.time_control),
            eco: copy_opt(&rec.eco),
            fen: copy_opt(&rec.fen),
            moves: copy_bytes(&rec.moves),
            pawn_home: rec.pawn_home,
            white_material: rec.white_material,
            black_material: rec.black_material,
        };
        let ghost sgv = sg@;
        db.games.push(sg);
        k += 1;
        proof {
            let gl = old_games.len() as int;
            assert(db@.games =~= db_pre.games.push(sgv));
            assert(db@.games.subrange(0, gl) =~= db_pre.games.subrange(0, gl));
            assert(db_pre.games.subrange(0, gl) == old_games);
            assert forall|j: int| 0 <= j < db_pre.players.len() implies db@.players[j]
                == db_pre.players[j] by {
                assert(pl1[j] == db_pre.players[j]);
                assert(db@.players[j] == pl1[j]);
            }
            assert forall|j: int| 0 <= j < old_players.len() implies db_pre.players[j]
                == old_players[j] by {
                assert(db_pre.players.subrange(0, old_players.len() as int)[j]
                    == db_pre.players[j]);
            }
            assert forall|j: int| 0 <= j < old_players.len() implies db@.players.subrange(
                0,
                old_players.len() as int,
            )[j] == old_players[j] by {
                assert(db@.players.subrange(0, old_players.len() as int)[j] == db@.players[j]);
            }
            assert(db@.players.subrange(0, old_players.len() as int) =~= old_players);
            assert(forall|j: int|
                0 <= j < db_pre.events.len() ==> db@.events[j] == db_pre.events[j]);
            assert forall|j: int| 0 <= j < old_events.len() implies db_pre.events[j]
                == old_events[j] by {
                assert(db_pre.events.subrange(0, old_events.len() as int)[j] == db_pre.events[j]);
            }
            assert forall|j: int| 0 <= j < old_events.len() implies db@.events.subrange(
                0,
                old_events.len() as int,
            )[j] == old_events[j] by {
                assert(db@.events.subrange(0, old_events.len() as int)[j] == db@.events[j]);
            }
            assert(db@.events.subrange(0, old_events.len() as int) =~= old_events);
            assert(forall|j: int|
                0 <= j < db_pre.sites.len() ==> db@.sites[j] == db_pre.sites[j]);
            assert forall|j: int| 0 <= j < old_sites.len() implies db_pre.sites[j]
                == old_sites[j] by {
                assert(db_pre.sites.subrange(0, old_sites.len() as int)[j] == db_pre.sites[j]);
            }
            assert forall|j: int| 0 <= j < old_sites.len() implies db@.sites.subrange(
                0,
                old_sites.len() as int,
            )[j] == old_sites[j] by {
                assert(db@.sites.subrange(0, old_sites.len() as int)[j] == db@.sites[j]);
            }
            assert(db@.sites.subrange(0, old_sites.len() as int) =~= old_sites);
            assert(db@.games[gl + k - 1] == sgv);
            lemma_name_link_grow(pl1, db@.players, white_id, recsv[k - 1].white_name);
            assert(stored_matches_record(db@, sgv, recsv[k - 1]));
            assert(record_sound(sgv));
            assert forall|q: int| 0 <= q < k - 1 implies stored_matches_record(
                db@,
                #[trigger] db@.games[gl + q],
                recsv[q],
            ) && record_sound(db@.games[gl + q]) && spec_constraint_ok(db@.games[gl + q]) by {
                assert(db@.games[gl + q] == db_pre.games[gl + q]);
                let g = db_pre.games[gl + q];
                assert(stored_matches_record(db_pre, g, recsv[q]));
                assert(db_pre.players.len() <= db@.players.len());
                assert(db_pre.events.len() <= db@.events.len());
                assert(db_pre.sites.len() <= db@.sites.len());
                lemma_name_link_grow(db_pre.players, db@.players, g.white_id, recsv[q].white_name);
                lemma_name_link_grow(db_pre.players, db@.players, g.black_id, recsv[q].black_name);
                lemma_name_link_grow(db_pre.events, db@.events, g.event_id, recsv[q].event);
                lemma_name_link_grow(db_pre.sites, db@.sites, g.site_id, recsv[q].site);
            }
        }
    }
    Ok(ImportSummary { imported, skipped })
}

} // verus!
