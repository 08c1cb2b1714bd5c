//! Plain-data model of a chess board position, parsed from FEN text.
//!
//! A position holds a 64-entry square array (square index = file + 8 * rank,
//! so a1 = 0 and h8 = 63), the side to move and the castling rights.  The
//! pawn-home fingerprint and the material count of the two sides are pure
//! functions of this data.

use vstd::prelude::*;

verus! {

// Piece codes stored in the square array.
pub const EMPTY: u8 = 0;
pub const W_PAWN: u8 = 1;
pub const W_KNIGHT: u8 = 2;
pub const W_BISHOP: u8 = 3;
pub const W_ROOK: u8 = 4;
pub const W_QUEEN: u8 = 5;
pub const W_KING: u8 = 6;
pub const B_PAWN: u8 = 7;
pub const B_KNIGHT: u8 = 8;
pub const B_BISHOP: u8 = 9;
pub const B_ROOK: u8 = 10;
pub const B_QUEEN: u8 = 11;
pub const B_KING: u8 = 12;

/// Abstract value of a position.
pub ghost struct PosView {
    pub board: Seq<u8>,
    pub turn: u8,
    pub castling: u8,
}

/// A board position: 64 piece codes, side to move (0 = white, 1 = black) and
/// castling rights (bit 0 = white king side, bit 1 = white queen side,
/// bit 2 = black king side, bit 3 = black queen side).
pub struct Position {
    pub board: Vec<u8>,
    pub turn: u8,
    pub castling: u8,
}

impl View for Position {
    type V = PosView;

    open spec fn view(&self) -> PosView {
        PosView { board: self.board@, turn: self.turn, castling: self.castling }
    }
}

/// Well-formedness of a position: 64 squares with known piece codes, a valid
/// side to move and a castling bitmask.
pub open spec fn pos_wf(p: PosView) -> bool {
    &&& p.board.len() == 64
    &&& forall|i: int| 0 <= i < 64 ==> #[trigger] p.board[i] <= 12
    &&& p.turn <= 1
    &&& p.castling <= 15
}

/// Piece code denoted by a FEN letter; 0 for any other byte.
pub open spec fn piece_code_of(b: u8) -> u8 {
    if b == 80 {  // 'P'
        W_PAWN
    } else if b == 78 {  // 'N'
        W_KNIGHT
    } else if b == 66 {  // 'B'
        W_BISHOP
    } else if b == 82 {  // 'R'
        W_ROOK
    } else if b == 81 {  // 'Q'
        W_QUEEN
    } else if b == 75 {  // 'K'
        W_KING
    } else if b == 112 {  // 'p'
        B_PAWN
    } else if b == 110 {  // 'n'
        B_KNIGHT
    } else if b == 98 {  // 'b'
        B_BISHOP
    } else if b == 114 {  // 'r'
        B_ROOK
    } else if b == 113 {  // 'q'
        B_QUEEN
    } else if b == 107 {  // 'k'
        B_KING
    } else {
        EMPTY
    }
}

/// Executable twin of `piece_code_of`.
pub fn piece_code_of_byte(b: u8) -> (r: u8)
    ensures
        r == piece_code_of(b),
{
    if b == 80 {
        W_PAWN
    } else if b == 78 {
        W_KNIGHT
    } else if b == 66 {
        W_BISHOP
    } else if b == 82 {
        W_ROOK
    } else if b == 81 {
        W_QUEEN
    } else if b == 75 {
        W_KING
    } else if b == 112 {
        B_PAWN
    } else if b == 110 {
        B_KNIGHT
    } else if b == 98 {
        B_BISHOP
    } else if b == 114 {
        B_ROOK
    } else if b == 113 {
        B_QUEEN
    } else if b == 107 {
        B_KING
    } else {
        EMPTY
    }
}

/// State of the FEN parser: field 0 is the piece placement, field 1 the side
/// to move, field 2 the castling rights, field 3 everything after (which is
/// accepted without inspection; semantic validation of the trailing fields is
/// the chess rules provider's concern).
pub ghost struct FenSt {
    pub ok: bool,
    pub field: u8,
    pub rank: u8,
    pub file: u8,
    pub board: Seq<u8>,
    pub turn: u8,
    pub turn_seen: bool,
    pub cast_wk: bool,
    pub cast_wq: bool,
    pub cast_bk: bool,
    pub cast_bq: bool,
    pub cast_dash: bool,
    pub cast_any: bool,
}

/// Executable parser state, mirroring `FenSt`.
pub struct FenState {
    pub ok: bool,
    pub field: u8,
    pub rank: u8,
    pub file: u8,
    pub board: Vec<u8>,
    pub turn: u8,
    pub turn_seen: bool,
    pub cast_wk: bool,
    pub cast_wq: bool,
    pub cast_bk: bool,
    pub cast_bq: bool,
    pub cast_dash: bool,
    pub cast_any: bool,
}

impl View for FenState {
    type V = FenSt;

    open spec fn view(&self) -> FenSt {
        FenSt {
            ok: self.ok,
            field: self.field,
            rank: self.rank,
            file: self.file,
            board: self.board@,
            turn: self.turn,
            turn_seen: self.turn_seen,
            cast_wk: self.cast_wk,
            cast_wq: self.cast_wq,
            cast_bk: self.cast_bk,
            cast_bq: self.cast_bq,
            cast_dash: self.cast_dash,
            cast_any: self.cast_any,
        }
    }
}

/// Bounds that every reachable parser state satisfies.
pub open spec fn fen_st_wf(st: FenSt) -> bool {
    &&& st.board.len() == 64
    &&& forall|i: int| 0 <= i < 64 ==> #[trigger] st.board[i] <= 12
    &&& st.rank <= 7
    &&& st.file <= 8
    &&& st.turn <= 1
    &&& st.field <= 3
}

pub open spec fn fen_init() -> FenSt {
    FenSt {
        ok: true,
        field: 0,
        rank: 7,
        file: 0,
        board: Seq::new(64, |i: int| EMPTY),
        turn: 0,
        turn_seen: false,
        cast_wk: false,
        cast_wq: false,
        cast_bk: false,
        cast_bq: false,
        cast_dash: false,
        cast_any: false,
    }
}

/// One byte of FEN input applied to the parser state.
pub open spec fn fen_step(st: FenSt, b: u8) -> FenSt {
    if !st.ok {
        st
    } else if st.field == 0 {
        if b == 47 {  // '/'
            if st.file == 8 && st.rank > 0 {
                FenSt { rank: (st.rank - 1) as u8, file: 0, ..st }
            } else {
                FenSt { ok: false, ..st }
            }
        } else if 49 <= b && b <= 56 {  // '1'..'8'
            if st.file + (b - 48) <= 8 {
                FenSt { file: (st.file + (b - 48)) as u8, ..st }
            } else {
                FenSt { ok: false, ..st }
            }
        } else if piece_code_of(b) != 0 {
            if st.file < 8 {
                FenSt {
                    board: st.board.update(8 * (st.rank as int) + (st.file as int), piece_code_of(b)),
                    file: (st.file + 1) as u8,
                    ..st
                }
            } else {
                FenSt { ok: false, ..st }
            }
        } else if b == 32 {  // ' '
            if st.file == 8 && st.rank == 0 {
                FenSt { field: 1, ..st }
            } else {
                FenSt { ok: false, ..st }
            }
        } else {
            FenSt { ok: false, ..st }
        }
    } else if st.field == 1 {
        if b == 119 && !st.turn_seen {  // 'w'
            FenSt { turn: 0, turn_seen: true, ..st }
        } else if b == 98 && !st.turn_seen {  // 'b'
            FenSt { turn: 1, turn_seen: true, ..st }
        } else if b == 32 && st.turn_seen {
            FenSt { field: 2, ..st }
        } else {
            FenSt { ok: false, ..st }
        }
    } else if st.field == 2 {
        if b == 45 && !st.cast_any {  // '-'
            FenSt { cast_dash: true, cast_any: true, ..st }
        } else if b == 75 && !st.cast_dash {  // 'K'
            FenSt { cast_wk: true, cast_any: true, ..st }
        } else if b == 81 && !st.cast_dash {  // 'Q'
            FenSt { cast_wq: true, cast_any: true, ..st }
        } else if b == 107 && !st.cast_dash {  // 'k'
            FenSt { cast_bk: true, cast_any: true, ..st }
        } else if b == 113 && !st.cast_dash {  // 'q'
            FenSt { cast_bq: true, cast_any: true, ..st }
        } else if b == 32 && st.cast_any {
            FenSt { field: 3, ..st }
        } else {
            FenSt { ok: false, ..st }
        }
    } else {
        st
    }
}

/// The parser state after consuming all of `s`.
pub open spec fn fen_run(s: Seq<u8>) -> FenSt
    decreases s.len(),
{
    if s.len() == 0 {
        fen_init()
    } else {
        fen_step(fen_run(s.drop_last()), s.last())
    }
}

/// Acceptance: the placement must be complete; the input may stop after the
/// placement, the side to move or the castling field.
pub open spec fn fen_accept(st: FenSt) -> bool {
    st.ok && (st.field == 3 || (st.field == 2 && st.cast_any) || (st.field == 1 && st.turn_seen)
        || (st.field == 0 && st.rank == 0 && st.file == 8))
}

/// Castling bitmask denoted by the parser state.
pub open spec fn fen_castling(st: FenSt) -> u8 {
    ((if st.cast_wk { 1u8 } else { 0u8 }) + (if st.cast_wq { 2u8 } else { 0u8 })
        + (if st.cast_bk { 4u8 } else { 0u8 }) + (if st.cast_bq { 8u8 } else { 0u8 })) as u8
}

/// What a FEN string denotes: the position, or `None` when the text is not
/// well formed.
pub open spec fn spec_parse_fen(s: Seq<u8>) -> Option<PosView> {
    let st = fen_run(s);
    if fen_accept(st) {
        Some(PosView { board: st.board, turn: st.turn, castling: fen_castling(st) })
    } else {
        None
    }
}

/// A bare piece-placement field (the first FEN field alone) and the board it
/// denotes.
pub open spec fn spec_parse_board(s: Seq<u8>) -> Option<Seq<u8>> {
    let st = fen_run(s);
    if st.ok && st.field == 0 && st.rank == 0 && st.file == 8 {
        Some(st.board)
    } else {
        None
    }
}

pub proof fn lemma_fen_step_wf(st: FenSt, b: u8)
    requires
        fen_st_wf(st),
    ensures
        fen_st_wf(fen_step(st, b)),
{
}

pub proof fn lemma_fen_run_wf(s: Seq<u8>)
    ensures
        fen_st_wf(fen_run(s)),
    decreases s.len(),
{
    if s.len() == 0 {
    } else {
        lemma_fen_run_wf(s.drop_last());
        lemma_fen_step_wf(fen_run(s.drop_last()), s.last());
    }
}

fn fen_init_state() -> (r: FenState)
    ensures
        r@ == fen_init(),
{
    let mut board: Vec<u8> = Vec::new();
    let mut i: usize = 0;
    while i < 64
        invariant
            i <= 64,
            board@.len() == i,
            forall|j: int| 0 <= j < i ==> board@[j] == EMPTY,
        decreases 64 - i,
    {
        board.push(EMPTY);
        i += 1;
    }
    let r = FenState {
        ok: true,
        field: 0,
        rank: 7,
        file: 0,
        board,
        turn: 0,
        turn_seen: false,
        cast_wk: false,
        cast_wq: false,
        cast_bk: false,
        cast_bq: false,
        cast_dash: false,
        cast_any: false,
    };
    proof {
        assert(r@.board =~= fen_init().board);
    }
    r
}

fn fen_step_state(st: FenState, b: u8) -> (r: FenState)
    requires
        fen_st_wf(st@),
    ensures
        r@ == fen_step(st@, b),
{
    let mut st = st;
    if !st.ok {
        st
    } else if st.field == 0 {
        if b == 47 {
            if st.file == 8 && st.rank > 0 {
                st.rank = st.rank - 1;
                st.file = 0;
            } else {
                st.ok = false;
            }
            st
        } else if 49 <= b && b <= 56 {
            if st.file + (b - 48) <= 8 {
                st.file = st.file + (b - 48);
            } else {
                st.ok = false;
            }
            st
        } else if piece_code_of_byte(b) != 0 {
            if st.file < 8 {
                let idx: usize = 8 * (st.rank as usize) + (st.file as usize);
                st.board[idx] = piece_code_of_byte(b);
                st.file = st.file + 1;
            } else {
                st.ok = false;
            }
            st
        } else if b == 32 {
            if st.file == 8 && st.rank == 0 {
                st.field = 1;
            } else {
                st.ok = false;
            }
            st
        } else {
            st.ok = false;
            st
        }
    } else if st.field == 1 {
        if b == 119 && !st.turn_seen {
            st.turn = 0;
            st.turn_seen = true;
        } else if b == 98 && !st.turn_seen {
            st.turn = 1;
            st.turn_seen = true;
        } else if b == 32 && st.turn_seen {
            st.field = 2;
        } else {
            st.ok = false;
        }
        st
    } else if st.field == 2 {
        if b == 45 && !st.cast_any {
            st.cast_dash = true;
            st.cast_any = true;
        } else if b == 75 && !st.cast_dash {
            st.cast_wk = true;
            st.cast_any = true;
        } else if b == 81 && !st.cast_dash {
            st.cast_wq = true;
            st.cast_any = true;
        } else if b == 107 && !st.cast_dash {
            st.cast_bk = true;
            st.cast_any = true;
        } else if b == 113 && !st.cast_dash {
            st.cast_bq = true;
            st.cast_any = true;
        } else if b == 32 && st.cast_any {
            st.field = 3;
        } else {
            st.ok = false;
        }
        st
    } else {
        st
    }
}

proof fn lemma_run_snoc(s: Seq<u8>, i: int)
    requires
        0 <= i < s.len(),
    ensures
        fen_run(s.subrange(0, i + 1)) == fen_step(fen_run(s.subrange(0, i)), s[i]),
{
    let t = s.subrange(0, i + 1);
    assert(t.drop_last() =~= s.subrange(0, i));
    assert(t.last() == s[i]);
}

fn fen_run_bytes(s: &Vec<u8>) -> (r: FenState)
    ensures
        r@ == fen_run(s@),
        fen_st_wf(r@),
{
    let mut st = fen_init_state();
    let mut i: usize = 0;
    proof {
        assert(s@.subrange(0, 0) =~= Seq::<u8>::empty());
    }
    while i < s.len()
        invariant
            i <= s@.len(),
            st@ == fen_run(s@.subrange(0, i as int)),
            fen_st_wf(st@),
        decreases s@.len() - i,
    {
        proof {
            lemma_run_snoc(s@, i as int);
        }
        st = fen_step_state(st, s[i]);
        proof {
            lemma_fen_step_wf(fen_run(s@.subrange(0, i as int)), s@[i as int]);
        }
        i += 1;
    }
    proof {
        assert(s@.subrange(0, s@.len() as int) =~= s@);
        lemma_fen_run_wf(s@);
    }
    st
}

/// Parses a FEN string into a position.  Returns `None` exactly when the text
/// does not satisfy the FEN grammar accepted here (complete piece placement,
/// then optionally side to move, castling rights and further fields).
pub fn parse_fen(s: &Vec<u8>) -> (r: Option<Position>)
    ensures
        match r {
            Some(p) => spec_parse_fen(s@) == Some(p@) && pos_wf(p@),
            None => spec_parse_fen(s@) is None,
        },
{
    let st = fen_run_bytes(s);
    if st.ok && (st.field == 3 || (st.field == 2 && st.cast_any) || (st.field == 1 && st.turn_seen)
        || (st.field == 0 && st.rank == 0 && st.file == 8)) {
        let castling: u8 = (if st.cast_wk { 1u8 } else { 0u8 }) + (if st.cast_wq { 2u8 } else { 0u8 })
            + (if st.cast_bk { 4u8 } else { 0u8 }) + (if st.cast_bq { 8u8 } else { 0u8 });
        Some(Position { board: st.board, turn: st.turn, castling })
    } else {
        None
    }
}

/// Parses a bare piece-placement field (board part of a FEN) into the 64
/// piece codes.
pub fn parse_board_fen(s: &Vec<u8>) -> (r: Option<Position>)
    ensures
        match r {
            Some(p) => spec_parse_board(s@) == Some(p@.board) && pos_wf(p@) && p@.turn == 0
                && p@.castling == 0,
            None => spec_parse_board(s@) is None,
        },
{
    let st = fen_run_bytes(s);
    if st.ok && st.field == 0 && st.rank == 0 && st.file == 8 {
        Some(Position { board: st.board, turn: 0, castling: 0 })
    } else {
        None
    }
}

/// Low byte of the pawn-home mask: bit f is set when a white pawn stands on
/// file f of rank 2.
pub open spec fn spec_ph_white(board: Seq<u8>) -> u16 {
    ((if board[8] == W_PAWN { 0x1u16 } else { 0u16 })
        + (if board[9] == W_PAWN { 0x2u16 } else { 0u16 })
        + (if board[10] == W_PAWN { 0x4u16 } else { 0u16 })
        + (if board[11] == W_PAWN { 0x8u16 } else { 0u16 })
        + (if board[12] == W_PAWN { 0x10u16 } else { 0u16 })
        + (if board[13] == W_PAWN { 0x20u16 } else { 0u16 })
        + (if board[14] == W_PAWN { 0x40u16 } else { 0u16 })
        + (if board[15] == W_PAWN { 0x80u16 } else { 0u16 })) as u16
}

/// High byte of the pawn-home mask: bit 8 + f is set when a black pawn
/// stands on file f of rank 7.
pub open spec fn spec_ph_black(board: Seq<u8>) -> u16 {
    ((if board[48] == B_PAWN { 0x100u16 } else { 0u16 })
        + (if board[49] == B_PAWN { 0x200u16 } else { 0u16 })
        + (if board[50] == B_PAWN { 0x400u16 } else { 0u16 })
        + (if board[51] == B_PAWN { 0x800u16 } else { 0u16 })
        + (if board[52] == B_PAWN { 0x1000u16 } else { 0u16 })
        + (if board[53] == B_PAWN { 0x2000u16 } else { 0u16 })
        + (if board[54] == B_PAWN { 0x4000u16 } else { 0u16 })
        + (if board[55] == B_PAWN { 0x8000u16 } else { 0u16 })) as u16
}

/// The pawn-home mask of a board: bit f of the low byte is set when a white
/// pawn stands on file f of rank 2, bit f of the high byte when a black pawn
/// stands on file f of rank 7.
pub open spec fn spec_pawn_home(board: Seq<u8>) -> u16 {
    (spec_ph_white(board) + spec_ph_black(board)) as u16
}

pub proof fn lemma_pawn_home_parts(board: Seq<u8>)
    ensures
        spec_ph_white(board) <= 0xff,
        spec_ph_black(board) <= 0xff00,
        spec_pawn_home(board) == spec_ph_white(board) + spec_ph_black(board),
{
}

fn ph_white(p: &Position) -> (r: u16)
    requires
        pos_wf(p@),
    ensures
        r == spec_ph_white(p@.board),
{
    let b0: u16 = if p.board[8] == W_PAWN { 0x1 } else { 0 };
    let b1: u16 = if p.board[9] == W_PAWN { 0x2 } else { 0 };
    let b2: u16 = if p.board[10] == W_PAWN { 0x4 } else { 0 };
    let b3: u16 = if p.board[11] == W_PAWN { 0x8 } else { 0 };
    let b4: u16 = if p.board[12] == W_PAWN { 0x10 } else { 0 };
    let b5: u16 = if p.board[13] == W_PAWN { 0x20 } else { 0 };
    let b6: u16 = if p.board[14] == W_PAWN { 0x40 } else { 0 };
    let b7: u16 = if p.board[15] == W_PAWN { 0x80 } else { 0 };
    b0 + b1 + b2 + b3 + b4 + b5 + b6 + b7
}

fn ph_black(p: &Position) -> (r: u16)
    requires
        pos_wf(p@),
    ensures
        r == spec_ph_black(p@.board),
{
    let b8: u16 = if p.board[48] == B_PAWN { 0x100 } else { 0 };
    let b9: u16 = if p.board[49] == B_PAWN { 0x200 } else { 0 };
    let b10: u16 = if p.board[50] == B_PAWN { 0x400 } else { 0 };
    let b11: u16 = if p.board[51] == B_PAWN { 0x800 } else { 0 };
    let b12: u16 = if p.board[52] == B_PAWN { 0x1000 } else { 0 };
    let b13: u16 = if p.board[53] == B_PAWN { 0x2000 } else { 0 };
    let b14: u16 = if p.board[54] == B_PAWN { 0x4000 } else { 0 };
    let b15: u16 = if p.board[55] == B_PAWN { 0x8000 } else { 0 };
    b8 + b9 + b10 + b11 + b12 + b13 + b14 + b15
}

/// Computes the pawn-home mask of a position.
pub fn pawn_home(p: &Position) -> (r: u16)
    requires
        pos_wf(p@),
    ensures
        r == spec_pawn_home(p@.board),
{
    let w = ph_white(p);
    let b = ph_black(p);
    proof {
        lemma_pawn_home_parts(p@.board);
    }
    w + b
}

/// Conventional point value of a white piece code (pawn 1, knight and bishop
/// 3, rook 5, queen 9; the king carries no material value).
pub open spec fn white_points(c: u8) -> int {
    if c == W_PAWN {
        1
    } else if c == W_KNIGHT || c == W_BISHOP {
        3
    } else if c == W_ROOK {
        5
    } else if c == W_QUEEN {
        9
    } else {
        0
    }
}

/// Conventional point value of a black piece code.
pub open spec fn black_points(c: u8) -> int {
    if c == B_PAWN {
        1
    } else if c == B_KNIGHT || c == B_BISHOP {
        3
    } else if c == B_ROOK {
        5
    } else if c == B_QUEEN {
        9
    } else {
        0
    }
}

/// White material over the first `n` squares.
pub open spec fn spec_material_white(board: Seq<u8>, n: int) -> int
    decreases n,
{
    if n <= 0 {
        0
    } else {
        spec_material_white(board, n - 1) + white_points(board[n - 1])
    }
}

/// Black material over the first `n` squares.
pub open spec fn spec_material_black(board: Seq<u8>, n: int) -> int
    decreases n,
{
    if n <= 0 {
        0
    } else {
        spec_material_black(board, n - 1) + black_points(board[n - 1])
    }
}

/// Per-side material of a full board.
pub open spec fn spec_material(board: Seq<u8>) -> (int, int) {
    (spec_material_white(board, 64), spec_material_black(board, 64))
}

/// Sums the conventional piece values per side.
pub fn material(p: &Position) -> (r: (u32, u32))
    requires
        pos_wf(p@),
    ensures
        r.0 == spec_material_white(p@.board, 64),
        r.1 == spec_material_black(p@.board, 64),
        r.0 <= 576,
        r.1 <= 576,
{
    let mut w: u32 = 0;
    let mut b: u32 = 0;
    let mut i: usize = 0;
    while i < 64
        invariant
            i <= 64,
            pos_wf(p@),
            w == spec_material_white(p@.board, i as int),
            b == spec_material_black(p@.board, i as int),
            w <= 9 * i,
            b <= 9 * i,
        decreases 64 - i,
    {
        let c = p.board[i];
        if c == W_PAWN {
            w = w + 1;
        } else if c == W_KNIGHT || c == W_BISHOP {
            w = w + 3;
        } else if c == W_ROOK {
            w = w + 5;
        } else if c == W_QUEEN {
            w = w + 9;
        } else if c == B_PAWN {
            b = b + 1;
        } else if c == B_KNIGHT || c == B_BISHOP {
            b = b + 3;
        } else if c == B_ROOK {
            b = b + 5;
        } else if c == B_QUEEN {
            b = b + 9;
        }
        i += 1;
    }
    (w, b)
}

/// Copies a byte vector.
pub fn copy_bytes(x: &Vec<u8>) -> (r: Vec<u8>)
    ensures
        r@ == x@,
{
    let mut r: Vec<u8> = Vec::new();
    let mut i: usize = 0;
    while i < x.len()
        invariant
            i <= x@.len(),
            r@ == x@.subrange(0, i as int),
        decreases x@.len() - i,
    {
        r.push(x[i]);
        proof {
            assert(r@ =~= x@.subrange(0, i as int + 1));
        }
        i += 1;
    }
    proof {
        assert(x@.subrange(0, x@.len() as int) =~= x@);
    }
    r
}

/// Byte-sequence equality, usable on names and FEN strings.
pub fn eq_bytes(x: &Vec<u8>, y: &Vec<u8>) -> (r: bool)
    ensures
        r == (x@ == y@),
{
    if x.len() != y.len() {
        return false;
    }
    let mut i: usize = 0;
    while i < x.len()
        invariant
            i <= x@.len(),
            x@.len() == y@.len(),
            forall|j: int| 0 <= j < i ==> x@[j] == y@[j],
        decreases x@.len() - i,
    {
        if x[i] != y[i] {
            return false;
        }
        i += 1;
    }
    proof {
        assert(x@ =~= y@);
    }
    true
}

/// Bitwise subset of pawn-home masks: every bit set in `a` is also set in
/// `b`.
pub open spec fn ph_subset(a: u16, b: u16) -> bool {
    a & (!b) == 0
}

pub proof fn lemma_ph_subset_refl(a: u16)
    ensures
        ph_subset(a, a),
{
    assert(a & (!a) == 0) by (bit_vector);
}

pub proof fn lemma_ph_subset_trans(a: u16, b: u16, c: u16)
    requires
        ph_subset(a, b),
        ph_subset(b, c),
    ensures
        ph_subset(a, c),
{
    assert((a & (!b) == 0 && b & (!c) == 0) ==> a & (!c) == 0) by (bit_vector);
}

/// Whether two positions match: always by piece placement, and by side to
/// move and castling rights when the corresponding flag asks for it.
pub open spec fn spec_pos_matches(a: PosView, b: PosView, check_turn: bool, check_castling: bool) -> bool {
    &&& a.board == b.board
    &&& (check_turn ==> a.turn == b.turn)
    &&& (check_castling ==> a.castling == b.castling)
}

/// Compares two positions under the given sensitivity flags.
pub fn pos_matches(a: &Position, b: &Position, check_turn: bool, check_castling: bool) -> (r: bool)
    ensures
        r == spec_pos_matches(a@, b@, check_turn, check_castling),
{
    let boards = eq_bytes(&a.board, &b.board);
    let turn_ok = !check_turn || a.turn == b.turn;
    let cast_ok = !check_castling || a.castling == b.castling;
    boards && turn_ok && cast_ok
}

} // verus!
