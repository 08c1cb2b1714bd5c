use chessdb_core::import::RawGame;
use chessdb_core::import::import_games;
use chessdb_core::search::MatchMode;
use chessdb_core::search::PositionQuery;
use chessdb_core::search::search_position;
use chessdb_core::search::is_position_in_db;
use chessdb_core::search::search_stats;
use chessdb_core::search::merge_stats;
use chessdb_core::search::PositionStats;
use chessdb_core::outcome::GameOutcome;
use chessdb_core::store::Database;
use chessdb_core::QueryError;

fn b(s: &str) -> Vec<u8> {
    s.as_bytes().to_vec()
}

fn game(headers: &[(&str, &str)], sans: &[&str]) -> RawGame {
    RawGame {
        headers: headers.iter().map(|(k, v)| (b(k), b(v))).collect(),
        sans: sans.iter().map(|s| b(s)).collect(),
    }
}

fn query(fen: &str, mode: MatchMode) -> PositionQuery {
    PositionQuery { fen: b(fen), mode, check_turn: true, check_castling: true }
}

const AFTER_E4_E5: &str = "rnbqkbnr/pppp1ppp/8/4p3/4P3/8/PPPP1PPP/RNBQKBNR w KQkq - 0 2";

fn sample_db() -> Database {
    let mut db = Database::new();
    let gs = vec![
        // passes through the position after 1.e4 e5, but does not end there
        game(&[("White", "Alice"), ("Black", "Bob"), ("Result", "1-0")], &["e4", "e5", "Nf3"]),
        // never reaches it
        game(&[("White", "Carol"), ("Black", "Dave"), ("Result", "0-1")], &["d4", "d5", "c4"]),
    ];
    import_games(&mut db, &gs).unwrap();
    db
}

#[test]
fn contains_position_finds_the_right_game() {
    let db = sample_db();
    let ids = search_position(&db, &query(AFTER_E4_E5, MatchMode::ContainsPosition)).unwrap();
    assert_eq!(ids, vec![0usize]);
}

#[test]
fn exact_final_needs_the_game_to_end_there() {
    let db = sample_db();
    let ids = search_position(&db, &query(AFTER_E4_E5, MatchMode::ExactFinal)).unwrap();
    assert_eq!(ids, Vec::<usize>::new());

    // a game that does end there is found
    let mut db2 = Database::new();
    let gs = vec![game(&[("White", "Alice")], &["e4", "e5"])];
    import_games(&mut db2, &gs).unwrap();
    let ids2 = search_position(&db2, &query(AFTER_E4_E5, MatchMode::ExactFinal)).unwrap();
    assert_eq!(ids2, vec![0usize]);
}

#[test]
fn existence_check() {
    let db = sample_db();
    assert_eq!(
        is_position_in_db(&db, &query(AFTER_E4_E5, MatchMode::ContainsPosition)),
        Ok(true)
    );
    // a position no stored game reaches: after 1.a4
    let after_a4 = "rnbqkbnr/pppppppp/8/8/P7/8/1PPPPPPP/RNBQKBNR b KQkq - 0 1";
    assert_eq!(
        is_position_in_db(&db, &query(after_a4, MatchMode::ContainsPosition)),
        Ok(false)
    );
}

#[test]
fn invalid_query_is_rejected_before_any_scan() {
    let db = sample_db();
    let bad = query("this is not a fen", MatchMode::ContainsPosition);
    assert_eq!(search_position(&db, &bad), Err(QueryError::InvalidQueryPosition));
    assert_eq!(is_position_in_db(&db, &bad), Err(QueryError::InvalidQueryPosition));
    // parses, but no king: not a reachable board state
    let no_kings = query("8/8/8/8/8/8/8/8 w - - 0 1", MatchMode::ContainsPosition);
    assert_eq!(search_position(&db, &no_kings), Err(QueryError::InvalidQueryPosition));
}

#[test]
fn side_to_move_sensitivity() {
    let db = sample_db();
    // same placement as after 1.e4 e5, but black to move: never reached
    let wrong_turn = "rnbqkbnr/pppp1ppp/8/4p3/4P3/8/PPPP1PPP/RNBQKBNR b KQkq - 0 2";
    let strict = query(wrong_turn, MatchMode::ContainsPosition);
    let ids = search_position(&db, &strict).unwrap();
    assert_eq!(ids, Vec::<usize>::new());
    // with the side-to-move flag off, the placement alone matches
    let lax = PositionQuery {
        fen: b(wrong_turn),
        mode: MatchMode::ContainsPosition,
        check_turn: false,
        check_castling: true,
    };
    let ids2 = search_position(&db, &lax).unwrap();
    assert_eq!(ids2, vec![0usize]);
}

#[test]
fn outcome_from_result_string() {
    assert_eq!(GameOutcome::from_str(&b("1-0"), true), Some(GameOutcome::Won));
    assert_eq!(GameOutcome::from_str(&b("1-0"), false), Some(GameOutcome::Lost));
    assert_eq!(GameOutcome::from_str(&b("1/2-1/2"), true), Some(GameOutcome::Drawn));
    assert_eq!(GameOutcome::from_str(&b("0-1"), true), Some(GameOutcome::Lost));
    assert_eq!(GameOutcome::from_str(&b("0-1"), false), Some(GameOutcome::Won));
    assert_eq!(GameOutcome::from_str(&b("*"), true), None);
}

#[test]
fn stats_over_matching_games() {
    let mut db = Database::new();
    let start = "rnbqkbnr/pppppppp/8/8/8/8/PPPPPPPP/RNBQKBNR w KQkq - 0 1";
    let gs = vec![
        game(&[("White", "Alice"), ("Result", "1-0")], &["e4", "e5"]),
        game(&[("White", "Bob"), ("Result", "0-1")], &["d4", "d5"]),
        game(&[("White", "Carol"), ("Result", "*")], &["c4"]),
    ];
    import_games(&mut db, &gs).unwrap();
    // every game starts at the standard position, so all three match
    let (ids, st) = search_stats(&db, &query(start, MatchMode::ContainsPosition)).unwrap();
    assert_eq!(ids, vec![0usize, 1, 2]);
    assert_eq!(st, PositionStats { total: 3, white_wins: 1, draws: 0, black_wins: 1 });
}

#[test]
fn stats_merge_is_order_independent() {
    let a = PositionStats { total: 3, white_wins: 1, draws: 0, black_wins: 1 };
    let b = PositionStats { total: 5, white_wins: 2, draws: 2, black_wins: 1 };
    let c = PositionStats { total: 1, white_wins: 0, draws: 1, black_wins: 0 };
    assert_eq!(merge_stats(a, b), merge_stats(b, a));
    assert_eq!(merge_stats(merge_stats(a, b), c), merge_stats(a, merge_stats(b, c)));
    assert_eq!(
        merge_stats(merge_stats(c, a), b),
        PositionStats { total: 9, white_wins: 3, draws: 3, black_wins: 2 }
    );
}
