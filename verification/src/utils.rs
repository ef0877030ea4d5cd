//! The checked move application the interactive drivers call before they
//! render the new board.

use vstd::prelude::*;

use crate::board::{
    apply_move, apply_ok, apply_result, flips_all, me_of, opp_of, MoveError,
};

verus! {

/// Plays `move_bit` for the given side, with the same acceptance rules as
/// `apply_move`; the drivers render the returned board themselves. Rejects
/// an occupied square and a move that flips nothing.
pub fn apply_move_verbose(white: u64, black: u64, move_bit: u64, is_white_move: bool) -> (r: Result<
    (u64, u64),
    MoveError,
>)
    ensures
        move_bit & (white | black) != 0 ==> r == Result::<(u64, u64), MoveError>::Err(
            MoveError::Occupied,
        ),
        move_bit & (white | black) == 0 && flips_all(
            me_of(white, black, is_white_move),
            opp_of(white, black, is_white_move),
            move_bit,
        ) == 0 ==> r == Result::<(u64, u64), MoveError>::Err(MoveError::NoFlips),
        apply_ok(white, black, move_bit, is_white_move) ==> r == Result::<
            (u64, u64),
            MoveError,
        >::Ok(apply_result(white, black, move_bit, is_white_move)),
{
    apply_move(white, black, move_bit, is_white_move)
}

} // verus!
