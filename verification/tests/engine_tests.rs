use reversi_core::board::{apply_move, compute_moves};
use reversi_core::engine::{search_moves_opt, search_moves_par, NO_MOVE};
use reversi_core::eval::default_cfg;
use reversi_core::game::{play_game_from_position, starting_position, sum_match_scores};
use reversi_core::openingbook::Position;
use reversi_core::zobrist::{
    compute_zobrist_hash, update_zobrist_hash, TTFlag, TranspositionTable, ZobristTable,
    PROBE_MISS_VALUE,
};

const START_BLACK: u64 = 0x0000_0008_1000_0000;
const START_WHITE: u64 = 0x0000_0010_0800_0000;

#[test]
fn test_search_from_start_depth_8() {
    let (mv, eval) = search_moves_par(
        START_WHITE,
        START_BLACK,
        false,
        8,
        -20000,
        20000,
        8,
        default_cfg(),
    );
    let legal = compute_moves(START_BLACK, START_WHITE);
    assert_ne!(mv, 0);
    assert_ne!(mv, NO_MOVE);
    assert_eq!(mv & (mv - 1), 0);
    assert_eq!(mv & legal, mv);
    assert!(-10000 <= eval && eval <= 10000);
    let (nw, nb) = apply_move(START_WHITE, START_BLACK, mv, false).unwrap();
    assert_eq!(nw & nb, 0);
}

#[test]
fn test_search_sequential_from_start() {
    let (mv, eval) = search_moves_opt(
        START_WHITE,
        START_BLACK,
        false,
        6,
        -20000,
        20000,
        6,
        default_cfg(),
    );
    let legal = compute_moves(START_BLACK, START_WHITE);
    assert_eq!(mv & legal, mv);
    assert_eq!(mv & (mv - 1), 0);
    assert_ne!(mv, 0);
    assert!(-10000 <= eval && eval <= 10000);
}

#[test]
fn test_search_deterministic_across_runs() {
    let first = search_moves_par(START_WHITE, START_BLACK, false, 5, -20000, 20000, 5, default_cfg());
    let second = search_moves_par(START_WHITE, START_BLACK, false, 5, -20000, 20000, 5, default_cfg());
    assert_eq!(first, second);
}

#[test]
fn test_search_terminal_white_crush() {
    // White holds 63 discs, black one: the game is over and black has lost.
    let white = !1u64;
    let black = 1u64;
    assert_eq!(
        reversi_core::board::check_game_status(white, black, false),
        reversi_core::board::STATUS_WHITE_WON
    );
    let r = search_moves_opt(white, black, false, 4, -20000, 20000, 4, default_cfg());
    assert_eq!(r, (NO_MOVE, -10000));
    let rp = search_moves_par(white, black, false, 4, -20000, 20000, 4, default_cfg());
    assert_eq!(rp, (NO_MOVE, -10000));
}

#[test]
fn test_search_terminal_draw_and_win() {
    let half_black = 0x0000_0000_FFFF_FFFFu64;
    let half_white = 0xFFFF_FFFF_0000_0000u64;
    let r = search_moves_opt(half_white, half_black, false, 3, -20000, 20000, 3, default_cfg());
    assert_eq!(r, (NO_MOVE, 0));
    let r2 = search_moves_opt(1u64, !1u64, true, 3, -20000, 20000, 3, default_cfg());
    assert_eq!(r2, (NO_MOVE, 10000));
}

#[test]
fn test_search_pass_position() {
    // White to move holds b1 alone against black on a1: white must pass.
    let r = search_moves_opt(2u64, 1u64, true, 3, -20000, 20000, 3, default_cfg());
    assert_eq!(r.0, NO_MOVE);
    assert!(-10000 <= r.1 && r.1 <= 10000);
}

#[test]
fn test_search_depth_zero_returns_static_eval() {
    let r = search_moves_opt(START_WHITE, START_BLACK, false, 0, -20000, 20000, 0, default_cfg());
    assert_eq!(r.0, NO_MOVE);
    assert_eq!(r.1, 0);
}

#[test]
fn test_zobrist_incremental_matches_recompute() {
    let zt = ZobristTable::new();
    let hash0 = compute_zobrist_hash(START_WHITE, START_BLACK, false, &zt);
    // Black plays d3.
    let mv = 1u64 << 19;
    let flips = reversi_core::board::compute_flips(START_BLACK, START_WHITE, mv);
    let (nw, nb) = apply_move(START_WHITE, START_BLACK, mv, false).unwrap();
    let incremental = update_zobrist_hash(hash0, mv, flips, false, &zt);
    let recomputed = compute_zobrist_hash(nw, nb, true, &zt);
    assert_eq!(incremental, recomputed);
    // The key table is a real key stream: positions hash apart.
    assert_ne!(hash0, recomputed);
    assert_ne!(hash0, 0);
}

#[test]
fn test_zobrist_stable_across_tables() {
    let zt1 = ZobristTable::new();
    let zt2 = ZobristTable::new();
    assert_eq!(
        compute_zobrist_hash(START_WHITE, START_BLACK, false, &zt1),
        compute_zobrist_hash(START_WHITE, START_BLACK, false, &zt2)
    );
    assert_ne!(
        compute_zobrist_hash(START_WHITE, START_BLACK, false, &zt1),
        compute_zobrist_hash(START_WHITE, START_BLACK, true, &zt1)
    );
}

#[test]
fn test_transposition_table_probe_and_insert() {
    let mut tt = TranspositionTable::new(8);
    let hash = 0xDEAD_BEEF_0123u64;
    assert_eq!(tt.probe(hash, -20000, 20000), (PROBE_MISS_VALUE, 0));
    tt.insert_position(hash, 42, TTFlag::Exact, 1u64 << 19);
    assert_eq!(tt.probe(hash, -20000, 20000), (42, 1u64 << 19));
    // A lower bound is usable only against a beaten window.
    tt.insert_position(hash, 100, TTFlag::AlphaBound, 1u64 << 20);
    assert_eq!(tt.probe(hash, -20000, 50), (100, 1u64 << 20));
    assert_eq!(tt.probe(hash, -20000, 200), (PROBE_MISS_VALUE, 0));
    // An upper bound is usable only below alpha.
    tt.insert_position(hash, -100, TTFlag::BetaBound, 1u64 << 21);
    assert_eq!(tt.probe(hash, -50, 20000), (-100, 1u64 << 21));
    assert_eq!(tt.probe(hash, -200, 20000), (PROBE_MISS_VALUE, 0));
    // A different hash mapping to the same slot misses on the key compare.
    assert_eq!(tt.probe(hash ^ (1u64 << 40), -20000, 20000), (PROBE_MISS_VALUE, 0));
}

#[test]
fn test_play_game_from_terminal_position() {
    let pos = Position { black: 1u64, white: !1u64, white_to_move: false };
    assert_eq!(play_game_from_position(default_cfg(), default_cfg(), 2, pos), -1);
    let pos2 = Position { black: !1u64, white: 1u64, white_to_move: false };
    assert_eq!(play_game_from_position(default_cfg(), default_cfg(), 2, pos2), 1);
}

#[test]
fn test_play_game_from_start_finishes() {
    let r = play_game_from_position(default_cfg(), default_cfg(), 1, starting_position());
    assert!(-1 <= r && r <= 1);
}

#[test]
fn test_sum_match_scores() {
    let scores: Vec<i32> = vec![2, -4, 4, 0, 2];
    assert_eq!(sum_match_scores(&scores), 4);
    let empty: Vec<i32> = Vec::new();
    assert_eq!(sum_match_scores(&empty), 0);
}
