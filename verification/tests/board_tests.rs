use reversi_core::board::{
    apply_move, check_game_status, compute_flips, compute_moves, lowest_set_bit, popcount,
    MoveError, STATUS_BLACK_WON, STATUS_DRAW, STATUS_PASS, STATUS_WHITE_WON,
};
use reversi_core::eval::{default_cfg, eval_position, eval_position_with_cfg, EvalCfg};
use reversi_core::notation::{move_to_algebraic, move_to_bitmap};

const START_BLACK: u64 = 0x0000_0008_1000_0000;
const START_WHITE: u64 = 0x0000_0010_0800_0000;

#[test]
fn test_eval_position() {
    assert_eq!(eval_position(4325574457067520514, 33909430323788925), 7);
}

#[test]
fn test_eval_position_legacy_weights_explicit() {
    let legacy = EvalCfg { corner_value: 10, edge_value: 5, antiedge_value: 0, anticorner_value: 0 };
    assert_eq!(eval_position_with_cfg(4325574457067520514, 33909430323788925, legacy), 7);
}

#[test]
fn test_eval_start_position_is_zero() {
    assert_eq!(eval_position(START_WHITE, START_BLACK), 0);
    assert_eq!(eval_position_with_cfg(START_WHITE, START_BLACK, default_cfg()), 0);
}

#[test]
fn test_opening_moves_black() {
    let moves = compute_moves(START_BLACK, START_WHITE);
    assert_eq!(moves, (1u64 << 19) | (1u64 << 26) | (1u64 << 37) | (1u64 << 44));
}

#[test]
fn test_opening_moves_colors_swapped() {
    let moves = compute_moves(START_WHITE, START_BLACK);
    assert_eq!(moves, (1u64 << 20) | (1u64 << 29) | (1u64 << 34) | (1u64 << 43));
}

#[test]
fn test_moves_land_on_empty() {
    let moves = compute_moves(START_BLACK, START_WHITE);
    assert_eq!(moves & (START_BLACK | START_WHITE), 0);
    let w = 35253361508352u64;
    let b = 171935537184u64;
    assert_eq!(compute_moves(w, b) & (w | b), 0);
    assert_eq!(compute_moves(b, w) & (w | b), 0);
}

#[test]
fn test_apply_move_scenario() {
    let white = 35253361508352u64;
    let black = 171935537184u64;
    let c4 = move_to_bitmap("c4").unwrap();
    assert_eq!(apply_move(white, black, c4, true), Ok((35253562834944, 171801319456)));
    let a1 = move_to_bitmap("a1").unwrap();
    assert_eq!(apply_move(white, black, a1, true), Err(MoveError::NoFlips));
    let a3 = move_to_bitmap("a3").unwrap();
    assert_eq!(apply_move(white, black, a3, true), Err(MoveError::Occupied));
}

#[test]
fn test_apply_move_flips_belong_to_opponent() {
    let white = 35253361508352u64;
    let black = 171935537184u64;
    let c4 = move_to_bitmap("c4").unwrap();
    let flips = compute_flips(white, black, c4);
    assert_ne!(flips, 0);
    assert_eq!(flips & black, flips);
    let (nw, nb) = apply_move(white, black, c4, true).unwrap();
    assert_eq!(flips & nw, flips);
    assert_eq!(nw & nb, 0);
}

#[test]
fn test_status_moves_available() {
    assert_eq!(
        check_game_status(START_WHITE, START_BLACK, false),
        (1u64 << 19) | (1u64 << 26) | (1u64 << 37) | (1u64 << 44)
    );
}

#[test]
fn test_status_terminal_white_won() {
    let white = !1u64;
    let black = 1u64;
    assert_eq!(check_game_status(white, black, false), STATUS_WHITE_WON);
    assert_eq!(check_game_status(white, black, true), STATUS_WHITE_WON);
}

#[test]
fn test_status_terminal_black_won_and_draw() {
    let black = !1u64;
    let white = 1u64;
    assert_eq!(check_game_status(white, black, false), STATUS_BLACK_WON);
    let half_black = 0x0000_0000_FFFF_FFFFu64;
    let half_white = 0xFFFF_FFFF_0000_0000u64;
    assert_eq!(check_game_status(half_white, half_black, false), STATUS_DRAW);
}

#[test]
fn test_status_pass() {
    // Black holds a1 alone, white holds b1: white to move has no flip in any
    // direction, black can take c1.
    let black = 1u64;
    let white = 2u64;
    assert_eq!(check_game_status(white, black, true), STATUS_PASS);
}

#[test]
fn test_popcount_and_lowest_bit() {
    assert_eq!(popcount(0), 0);
    assert_eq!(popcount(u64::MAX), 64);
    assert_eq!(popcount(START_BLACK | START_WHITE), 4);
    assert_eq!(lowest_set_bit(0), 0);
    assert_eq!(lowest_set_bit(0b1011000), 0b0001000);
}

#[test]
fn test_move_notation_round_trip_all_squares() {
    for i in 0..64u32 {
        let m = 1u64 << i;
        let s = move_to_algebraic(m).unwrap();
        assert_eq!(move_to_bitmap(&s), Some(m));
    }
}

#[test]
fn test_move_notation_corners() {
    assert_eq!(move_to_bitmap("a1"), Some(1u64));
    assert_eq!(move_to_bitmap("h8"), Some(1u64 << 63));
    assert_eq!(move_to_algebraic(1u64).unwrap(), "a1");
    assert_eq!(move_to_algebraic(1u64 << 63).unwrap(), "h8");
    assert_eq!(move_to_algebraic(1u64 << 19).unwrap(), "d3");
}

#[test]
fn test_move_notation_rejects() {
    assert_eq!(move_to_bitmap("pass"), None);
    assert_eq!(move_to_bitmap("resign"), None);
    assert_eq!(move_to_bitmap("i1"), None);
    assert_eq!(move_to_bitmap("a9"), None);
    assert_eq!(move_to_bitmap(""), None);
    assert_eq!(move_to_algebraic(0), None);
    assert_eq!(move_to_algebraic(3), None);
    assert_eq!(move_to_algebraic(u64::MAX), None);
}
