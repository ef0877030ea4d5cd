//! The play-time decisions a game driver needs, separated from the I/O
//! that surrounds them: choosing a move (book first, search second),
//! clamping the depth near the end of the game, naming an outgoing move on
//! the wire, deciding when a finished game means resignation, and applying
//! an opponent's move given in algebraic notation.

use vstd::prelude::*;

use crate::board::{
    apply_move, apply_ok, apply_result, is_single_bit, pc64, status_spec, STATUS_BLACK_WON,
    STATUS_WHITE_WON,
};
use crate::engine::{search_moves_par, search_ok, NO_MOVE, RESIGN};
use crate::eval::{default_cfg, default_cfg_spec};
use crate::notation::{alg_square, alg_valid, move_to_algebraic, move_to_bitmap};
use crate::openingbook::{lookup, OpeningBook, Position};

verus! {

/// Picks the side-to-move's move: the book's first suggestion when the
/// exact position is stored with at least one suggestion, else the parallel
/// search at the given depth with the engine's weights. A book move comes
/// with evaluation 0.
pub fn choose_move_with_book(
    book: &OpeningBook,
    white: u64,
    black: u64,
    white_to_move: bool,
    depth: u32,
) -> (r: (u64, i32))
    requires
        white & black == 0,
    ensures
        ({
            let l = lookup(book.entries@, Position { black, white, white_to_move });
            match l {
                Option::Some(ms) => if ms.len() > 0 {
                    r.0 == ms[0] && r.1 == 0
                } else {
                    search_ok(white, black, white_to_move, depth, default_cfg_spec(), r)
                },
                Option::None => search_ok(white, black, white_to_move, depth, default_cfg_spec(), r),
            }
        }),
{
    let pos = Position { black, white, white_to_move };
    match book.get(&pos) {
        Some(entry) => {
            if entry.suggested_moves.len() > 0 {
                (entry.suggested_moves[0], 0)
            } else {
                search_moves_par(white, black, white_to_move, depth, -20000, 20000, depth, default_cfg())
            }
        },
        None => {
            search_moves_par(white, black, white_to_move, depth, -20000, 20000, depth, default_cfg())
        },
    }
}

/// The depth to search at: the requested depth, clamped to the number of
/// empty squares so that the endgame is never searched past the board.
pub fn clamped_search_depth(white: u64, black: u64, search_depth: u32) -> (r: u32)
    ensures
        64 - pc64(white | black) > search_depth ==> r == search_depth,
        64 - pc64(white | black) <= search_depth ==> r == 64 - pc64(white | black),
{
    let piece_count = crate::board::popcount(white | black);
    if 64 - piece_count > search_depth {
        search_depth
    } else {
        64 - piece_count
    }
}

/// The wire name of a chosen move: "resign" when the search found nothing,
/// "pass" for the no-move sentinel, and the square's algebraic name for a
/// single-bit move. A bitmap that names no square also resigns.
pub fn outgoing_move_token(nxt_move: u64) -> (r: String)
    ensures
        nxt_move == RESIGN ==> r@ == "resign"@,
        nxt_move == NO_MOVE ==> r@ == "pass"@,
        is_single_bit(nxt_move) && nxt_move != NO_MOVE ==> alg_valid(r@) && (1u64 << (alg_square(
            r@,
        ) as u64)) == nxt_move,
{
    if nxt_move == RESIGN {
        return "resign".to_owned();
    }
    if nxt_move == NO_MOVE {
        return "pass".to_owned();
    }
    match move_to_algebraic(nxt_move) {
        Some(s) => s,
        None => "resign".to_owned(),
    }
}

/// After our move ends the game against us, the wire move becomes a
/// resignation: true exactly when the opponent's colour has won.
pub fn resign_on_loss(
    new_white: u64,
    new_black: u64,
    next_white_to_move: bool,
    my_color_is_white: bool,
) -> (r: bool)
    ensures
        r == ((status_spec(new_white, new_black, next_white_to_move) == STATUS_BLACK_WON
            && my_color_is_white) || (status_spec(new_white, new_black, next_white_to_move)
            == STATUS_WHITE_WON && !my_color_is_white)),
{
    let game_status = crate::board::check_game_status(new_white, new_black, next_white_to_move);
    (game_status == STATUS_BLACK_WON && my_color_is_white) || (game_status == STATUS_WHITE_WON
        && !my_color_is_white)
}

/// Applies an opponent's move named in algebraic notation: the new
/// `(white, black)` bitmaps when the name is a square and the move is
/// playable, nothing otherwise.
pub fn apply_opponent_move(white: u64, black: u64, white_to_move: bool, move_str: &str) -> (r:
    Option<(u64, u64)>)
    requires
        white & black == 0,
    ensures
        ({
            if alg_valid(move_str@) {
                let mv = 1u64 << (alg_square(move_str@) as u64);
                if apply_ok(white, black, mv, white_to_move) {
                    r == Some(apply_result(white, black, mv, white_to_move))
                } else {
                    r is None
                }
            } else {
                r is None
            }
        }),
{
    match move_to_bitmap(move_str) {
        Some(mv) => {
            match apply_move(white, black, mv, white_to_move) {
                Ok(p) => Some(p),
                Err(_) => None,
            }
        },
        None => None,
    }
}

} // verus!
