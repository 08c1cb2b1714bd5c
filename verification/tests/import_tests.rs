use chessdb_core::import::RawGame;
use chessdb_core::import::ImportSummary;
use chessdb_core::import::import_games;
use chessdb_core::import::build_game;
use chessdb_core::import::parse_elo;
use chessdb_core::store::Database;
use chessdb_core::StoreError;

fn b(s: &str) -> Vec<u8> {
    s.as_bytes().to_vec()
}

fn game(headers: &[(&str, &str)], sans: &[&str]) -> RawGame {
    RawGame {
        headers: headers.iter().map(|(k, v)| (b(k), b(v))).collect(),
        sans: sans.iter().map(|s| b(s)).collect(),
    }
}

#[test]
fn parse_elo_values() {
    assert_eq!(parse_elo(&b("2700")), Some(2700));
    assert_eq!(parse_elo(&b("0")), Some(0));
    assert_eq!(parse_elo(&b("32000")), Some(32000));
    assert_eq!(parse_elo(&b("")), None);
    assert_eq!(parse_elo(&b("12a4")), None);
    assert_eq!(parse_elo(&b("-12")), None);
}

#[test]
fn build_encodes_moves() {
    let g = game(
        &[("White", "Alice"), ("Black", "Bob"), ("Result", "1-0")],
        &["e4", "e5"],
    );
    let rec = build_game(&g).unwrap();
    assert_eq!(rec.moves, vec![13u8, 8u8]);
    assert_eq!(rec.white_name, Some(b("Alice")));
    assert_eq!(rec.black_name, Some(b("Bob")));
    assert_eq!(rec.result, Some(b("1-0")));
    assert_eq!(rec.pawn_home, 0b1110111111101111);
    assert_eq!(rec.white_material, 39);
    assert_eq!(rec.black_material, 39);
    assert_eq!(rec.fen, None);
}

#[test]
fn build_with_custom_setup() {
    let setup = "rnbqkbnr/pppppppp/8/8/4P3/8/PPPP1PPP/RNBQKBNR b KQkq - 0 1";
    let g = game(&[("FEN", setup), ("White", "Alice")], &["e5"]);
    let rec = build_game(&g).unwrap();
    assert_eq!(rec.fen, Some(b(setup)));
    assert_eq!(rec.moves.len(), 1);
    assert_eq!(rec.pawn_home, 0b1110111111101111);
}

#[test]
fn build_rejects_bad_san() {
    let g = game(&[("White", "Alice")], &["e4", "Zz9"]);
    assert!(build_game(&g).is_none());
}

#[test]
fn build_rejects_bad_setup() {
    let g = game(&[("FEN", "definitely not a position")], &["e4"]);
    assert!(build_game(&g).is_none());
}

#[test]
fn import_commits_well_formed_and_counts_skipped() {
    let mut db = Database::new();
    let gs = vec![
        game(&[("White", "Alice"), ("Black", "Bob")], &["e4", "e5"]),
        game(&[("White", "Carol")], &["e4", "Zz9"]),  // malformed: skipped
        game(&[("White", "Alice"), ("Black", "Dave")], &["d4", "d5"]),
    ];
    let s = import_games(&mut db, &gs).unwrap();
    assert_eq!(s, ImportSummary { imported: 2, skipped: 1 });
    assert_eq!(db.game_count(), 2);
    // names are deduplicated: Alice, Bob, Dave
    assert_eq!(db.players.len(), 3);
    assert_eq!(db.games[0].white_id, 1);
    assert_eq!(db.games[0].black_id, 2);
    assert_eq!(db.games[1].white_id, 1);
    assert_eq!(db.games[1].black_id, 3);
    // absent names resolve to the reserved identifier 0
    assert_eq!(db.games[0].event_id, 0);
    assert_eq!(db.games[0].moves, vec![13u8, 8u8]);
}

#[test]
fn import_abort_rolls_back_everything() {
    let mut db = Database::new();
    let gs = vec![
        game(&[("White", "Alice")], &["e4"]),
        game(&[("White", "Bob")], &["d4"]),
        game(&[("White", "Carol")], &["c4"]),
        // parses fine, but violates the store's rating constraint
        game(&[("White", "Dave"), ("WhiteElo", "32000")], &["e4"]),
    ];
    let r = import_games(&mut db, &gs);
    assert_eq!(r, Err(StoreError::ConstraintViolation));
    assert_eq!(db.game_count(), 0);
    assert_eq!(db.players.len(), 0);
}

#[test]
fn import_keeps_earlier_commits() {
    let mut db = Database::new();
    let first = vec![game(&[("White", "Alice")], &["e4"])];
    import_games(&mut db, &first).unwrap();
    assert_eq!(db.game_count(), 1);
    // a failing later run rolls itself back, not the earlier commit
    let second = vec![game(&[("White", "Bob"), ("BlackElo", "9999")], &["d4"])];
    assert_eq!(import_games(&mut db, &second), Err(StoreError::ConstraintViolation));
    assert_eq!(db.game_count(), 1);
    // and a succeeding later run appends
    let third = vec![game(&[("White", "Bob")], &["d4"])];
    let s = import_games(&mut db, &third).unwrap();
    assert_eq!(s.imported, 1);
    assert_eq!(db.game_count(), 2);
}

#[test]
fn import_reads_metadata() {
    let mut db = Database::new();
    let gs = vec![game(
        &[
            ("Event", "Open"),
            ("Site", "Reykjavik"),
            ("Date", "2024.01.02"),
            ("UTCTime", "12:00:00"),
            ("Round", "3"),
            ("White", "Alice"),
            ("Black", "Bob"),
            ("WhiteElo", "2700"),
            ("BlackElo", "2650"),
            ("TimeControl", "300+3"),
            ("ECO", "C20"),
            ("Result", "1/2-1/2"),
        ],
        &["e4", "e5"],
    )];
    import_games(&mut db, &gs).unwrap();
    let g = &db.games[0];
    assert_eq!(g.white_elo, Some(2700));
    assert_eq!(g.black_elo, Some(2650));
    assert_eq!(g.date, Some(b("2024.01.02")));
    assert_eq!(g.time, Some(b("12:00:00")));
    assert_eq!(g.round, Some(b("3")));
    assert_eq!(g.eco, Some(b("C20")));
    assert_eq!(g.result, Some(b("1/2-1/2")));
    assert_eq!(g.time_control, Some(b("300+3")));
    assert_eq!(db.events, vec![b("Open")]);
    assert_eq!(db.sites, vec![b("Reykjavik")]);
}
