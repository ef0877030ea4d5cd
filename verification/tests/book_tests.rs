use reversi_core::game::{generate_opening_book, generate_opening_book_from, starting_position};
use reversi_core::openingbook::{
    flip_horizontal, flip_move_horizontal, flip_move_vertical, flip_position_horizontal,
    flip_position_vertical, flip_vertical, rotate90, rotate_move_90, rotate_position_90,
    OpeningBook, Position,
};
use reversi_core::persist::{format_position_key, parse_position_key, u64_to_decimal};
use reversi_core::session::{
    apply_opponent_move, choose_move_with_book, clamped_search_depth, outgoing_move_token,
    resign_on_loss,
};

const START_BLACK: u64 = 0x0000_0008_1000_0000;
const START_WHITE: u64 = 0x0000_0010_0800_0000;

#[test]
fn test_rotation_and_flip_values() {
    assert_eq!(rotate90(1u64 << 19), 1u64 << 29);
    assert_eq!(flip_vertical(1u64), 1u64 << 56);
    assert_eq!(flip_horizontal(1u64), 1u64 << 7);
    let x = 0x0123_4567_89AB_CDEFu64;
    assert_eq!(flip_vertical(flip_vertical(x)), x);
    assert_eq!(flip_horizontal(flip_horizontal(x)), x);
    assert_eq!(rotate90(rotate90(rotate90(rotate90(x)))), x);
}

#[test]
fn test_insert_position_dedup_and_order() {
    let mut book = OpeningBook::new();
    let pos = Position { black: START_BLACK, white: START_WHITE, white_to_move: false };
    book.insert_position(pos, 1u64 << 19);
    book.insert_position(pos, 1u64 << 26);
    book.insert_position(pos, 1u64 << 19);
    let entry = book.get(&pos).unwrap();
    assert_eq!(entry.suggested_moves.len(), 2);
    assert_eq!(entry.suggested_moves[0], 1u64 << 19);
    assert_eq!(entry.suggested_moves[1], 1u64 << 26);
}

#[test]
fn test_insert_all_rotations_covers_eight_images() {
    // An asymmetric position: the start after black plays d3.
    let pos = Position { black: 34762915840, white: 68719476736, white_to_move: true };
    let m = 1u64 << 34;
    let mut book = OpeningBook::new();
    book.insert_all_rotations(pos, m);
    let mut p = pos;
    let mut mm = m;
    for _ in 0..4 {
        assert!(book.get(&p).unwrap().suggested_moves.contains(&mm));
        assert!(
            book.get(&flip_position_vertical(&p)).unwrap().suggested_moves.contains(
                &flip_move_vertical(mm)
            )
        );
        assert!(
            book.get(&flip_position_horizontal(&p)).unwrap().suggested_moves.contains(
                &flip_move_horizontal(mm)
            )
        );
        p = rotate_position_90(&p);
        mm = rotate_move_90(mm);
    }
}

#[test]
fn test_horizontal_flip_pair_retrievable() {
    let pos = Position { black: 34762915840, white: 68719476736, white_to_move: true };
    let m = 1u64 << 34;
    let mut book = OpeningBook::new();
    book.insert_all_rotations(pos, m);
    assert!(book.get(&pos).unwrap().suggested_moves.contains(&m));
    let flipped = flip_position_horizontal(&pos);
    let flipped_move = flip_move_horizontal(m);
    assert!(book.get(&flipped).unwrap().suggested_moves.contains(&flipped_move));
}

#[test]
fn test_generate_book_covers_start_symmetries() {
    let book = generate_opening_book(2, 0, 1);
    assert!(book.entries.len() >= 1);
    let mut p = starting_position();
    for _ in 0..4 {
        assert!(book.get(&p).is_some());
        assert!(book.get(&flip_position_vertical(&p)).is_some());
        assert!(book.get(&flip_position_horizontal(&p)).is_some());
        p = rotate_position_90(&p);
    }
}

#[test]
fn test_generate_book_covers_first_layer() {
    // With one fully explored layer and two layers in all, every position
    // one legal move from the start has an entry.
    let book = generate_opening_book(1, 1, 2);
    let start = starting_position();
    let moves = reversi_core::board::find_legal_moves_alt(start.white, start.black, start.white_to_move);
    for mv in moves {
        let (w, b) = reversi_core::board::apply_move(start.white, start.black, mv, start.white_to_move).unwrap();
        let child = Position { black: b, white: w, white_to_move: !start.white_to_move };
        assert!(book.get(&child).is_some());
    }
}

#[test]
fn test_generate_book_resume_keeps_entries() {
    let mut seeded = OpeningBook::new();
    let marker = Position { black: 7, white: 0, white_to_move: false };
    seeded.insert_position(marker, 1u64 << 20);
    let book = generate_opening_book_from(seeded, 1, 0, 1);
    assert!(book.get(&marker).is_some());
    assert!(book.get(&starting_position()).is_some());
}

#[test]
fn test_decimal_codec() {
    assert_eq!(u64_to_decimal(0), "0");
    assert_eq!(u64_to_decimal(7), "7");
    assert_eq!(u64_to_decimal(12345), "12345");
    assert_eq!(u64_to_decimal(u64::MAX), "18446744073709551615");
}

#[test]
fn test_position_key_round_trip() {
    let cases = [
        Position { black: START_BLACK, white: START_WHITE, white_to_move: false },
        Position { black: 0, white: 0, white_to_move: true },
        Position { black: u64::MAX, white: 0, white_to_move: false },
        Position { black: 34762915840, white: 68719476736, white_to_move: true },
    ];
    for pos in cases {
        let key = format_position_key(&pos);
        let back = parse_position_key(&key).unwrap();
        assert_eq!(back.black, pos.black);
        assert_eq!(back.white, pos.white);
        assert_eq!(back.white_to_move, pos.white_to_move);
    }
    assert_eq!(format_position_key(&cases[0]), "34628173824,68853694464,0");
}

#[test]
fn test_position_key_rejects_malformed() {
    assert!(parse_position_key("").is_none());
    assert!(parse_position_key("1,2").is_none());
    assert!(parse_position_key("1,2,3,4").is_none());
    assert!(parse_position_key("a,2,1").is_none());
    assert!(parse_position_key("1,b,1").is_none());
    assert!(parse_position_key("1,2,x").is_none());
    assert!(parse_position_key("99999999999999999999999,2,1").is_none());
}

#[test]
fn test_choose_move_prefers_book() {
    let mut book = OpeningBook::new();
    let pos = Position { black: START_BLACK, white: START_WHITE, white_to_move: false };
    book.insert_position(pos, 1u64 << 26);
    let (mv, eval) = choose_move_with_book(&book, START_WHITE, START_BLACK, false, 4);
    assert_eq!(mv, 1u64 << 26);
    assert_eq!(eval, 0);
}

#[test]
fn test_choose_move_searches_without_book() {
    let book = OpeningBook::new();
    let (mv, _) = choose_move_with_book(&book, START_WHITE, START_BLACK, false, 4);
    let legal = reversi_core::board::compute_moves(START_BLACK, START_WHITE);
    assert_eq!(mv & legal, mv);
    assert_ne!(mv, 0);
}

#[test]
fn test_clamped_search_depth() {
    assert_eq!(clamped_search_depth(START_WHITE, START_BLACK, 8), 8);
    // 62 discs on the board: only two plies remain.
    let white = 0x0FFF_FFFF_FFFF_FFFFu64;
    let black = 0xC000_0000_0000_0000u64;
    assert_eq!(clamped_search_depth(white, black, 8), 2);
}

#[test]
fn test_outgoing_move_token() {
    assert_eq!(outgoing_move_token(0), "resign");
    assert_eq!(outgoing_move_token(u64::MAX), "pass");
    assert_eq!(outgoing_move_token(1u64 << 19), "d3");
}

#[test]
fn test_resign_on_loss() {
    // Black owns almost the whole board: white resigns, black does not.
    assert!(resign_on_loss(1u64, !1u64, false, true));
    assert!(!resign_on_loss(1u64, !1u64, false, false));
    assert!(!resign_on_loss(START_WHITE, START_BLACK, false, true));
}

#[test]
fn test_apply_opponent_move() {
    let white = 35253361508352u64;
    let black = 171935537184u64;
    assert_eq!(apply_opponent_move(white, black, true, "c4"), Some((35253562834944, 171801319456)));
    assert_eq!(apply_opponent_move(white, black, true, "a1"), None);
    assert_eq!(apply_opponent_move(white, black, true, "pass"), None);
}
