use chessdb_core::board::parse_board_fen;
use chessdb_core::board::parse_fen;
use chessdb_core::board::pawn_home;
use chessdb_core::board::material;
use chessdb_core::codec::encode_move;
use chessdb_core::codec::decode_move;
use chessdb_core::codec::apply_move;
use chessdb_core::import::start_fen;
use chessdb_core::CodecError;

fn b(s: &str) -> Vec<u8> {
    s.as_bytes().to_vec()
}

const START: &str = "rnbqkbnr/pppppppp/8/8/8/8/PPPPPPPP/RNBQKBNR w KQkq - 0 1";

// pawn e2-e4 as a move triple: e2 = square 12, e4 = square 28, no promotion
const E2E4: (u8, u8, u8) = (12, 28, 0);
// pawn e7-e5: e7 = square 52, e5 = square 36
const E7E5: (u8, u8, u8) = (52, 36, 0);

#[test]
fn home_row() {
    let full = parse_board_fen(&b("rnbqkbnr/pppppppp/8/8/8/8/PPPPPPPP/RNBQKBNR")).unwrap();
    assert_eq!(pawn_home(&full), 0b1111111111111111);

    let mid = parse_board_fen(&b("8/pppp1ppp/8/4p3/4P3/8/PPPP1PPP/8")).unwrap();
    assert_eq!(pawn_home(&mid), 0b1110111111101111);

    let empty = parse_board_fen(&b("8/8/8/8/8/8/8/8")).unwrap();
    assert_eq!(pawn_home(&empty), 0b0000000000000000);
}

#[test]
fn start_fen_is_standard() {
    assert_eq!(start_fen(), b(START));
    let p = parse_fen(&start_fen()).unwrap();
    assert_eq!(p.turn, 0);
    assert_eq!(p.castling, 15);
    assert_eq!(pawn_home(&p), 0xffff);
    assert_eq!(material(&p), (39, 39));
}

#[test]
fn encode_e4_scenario() {
    // 1.e4 from the starting position encodes to a stable byte
    let byte = encode_move(&b(START), E2E4).unwrap();
    assert_eq!(byte, 13);

    // decoding that byte reproduces the move
    assert_eq!(decode_move(&b(START), byte), Some(E2E4));

    // and playing it reaches the expected position
    let after = apply_move(&b(START), E2E4).unwrap();
    assert_eq!(
        after,
        b("rnbqkbnr/pppppppp/8/8/4P3/8/PPPP1PPP/RNBQKBNR b KQkq - 0 1")
    );
}

#[test]
fn encode_is_deterministic() {
    let b1 = encode_move(&b(START), E2E4).unwrap();
    let b2 = encode_move(&b(START), E2E4).unwrap();
    assert_eq!(b1, b2);
}

#[test]
fn decode_round_trip_every_byte() {
    // every byte that decodes at all encodes back to itself
    let mut decoded = 0;
    for byte in 0..=255u8 {
        if let Some(m) = decode_move(&b(START), byte) {
            assert_eq!(encode_move(&b(START), m), Ok(byte));
            decoded += 1;
        }
    }
    // the starting position has exactly 20 legal moves
    assert_eq!(decoded, 20);
}

#[test]
fn decode_stop_signal() {
    // out-of-range bytes are the benign decode-stop signal
    assert_eq!(decode_move(&b(START), 20), None);
    assert_eq!(decode_move(&b(START), 255), None);
}

#[test]
fn encode_illegal_move() {
    // e2-f4 is no legal move
    assert_eq!(encode_move(&b(START), (12, 29, 0)), Err(CodecError::IllegalMove));
}

#[test]
fn encode_bad_position() {
    assert_eq!(encode_move(&b("not a fen"), E2E4), Err(CodecError::BadPosition));
    assert_eq!(decode_move(&b("not a fen"), 0), None);
    assert_eq!(apply_move(&b("not a fen"), E2E4), None);
}

#[test]
fn pawn_home_clears_on_advance() {
    // after 1.e4 e5 the e-file bit clears in both bytes
    let after_e4 = apply_move(&b(START), E2E4).unwrap();
    let after_e5 = apply_move(&after_e4, E7E5).unwrap();
    let p = parse_fen(&after_e5).unwrap();
    assert_eq!(pawn_home(&p), 0b1110111111101111);
}
