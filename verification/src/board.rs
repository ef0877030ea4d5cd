//! Bitboard primitives: directional shifts with edge masks, legal-move
//! generation, flip computation, move application, and the game-status
//! classifier.
//!
//! Each side's discs are a 64-bit bitmap; bit `i` is the square with
//! file `i % 8` (file a is 0) and rank `i / 8` (rank 1 is 0). The two
//! bitmaps of a position are disjoint.

use vstd::prelude::*;

verus! {

/// All squares except file a.
pub const NOT_FILE_A: u64 = 0xFEFE_FEFE_FEFE_FEFE;

/// All squares except file h.
pub const NOT_FILE_H: u64 = 0x7F7F_7F7F_7F7F_7F7F;

/// Every square of the board.
pub const FULL_BOARD: u64 = 0xFFFF_FFFF_FFFF_FFFF;

/// Sentinel returned by the status classifier when the side to move must pass.
pub const STATUS_PASS: u64 = 0xFFFF_FFFF_FFFF_FFFF;

/// Sentinel returned by the status classifier when the game is over and black won.
pub const STATUS_BLACK_WON: u64 = 0xFFFF_FFFF_FFFF_FFFE;

/// Sentinel returned by the status classifier when the game is over and white won.
pub const STATUS_WHITE_WON: u64 = 0xFFFF_FFFF_FFFF_FFFD;

/// Sentinel returned by the status classifier when the game is over and drawn.
pub const STATUS_DRAW: u64 = 0xFFFF_FFFF_FFFF_FFFC;

/// True when `m` is a bitmap with exactly one set bit, i.e. one square.
pub open spec fn is_single_bit(m: u64) -> bool {
    m != 0 && (m & ((m - 1) as u64)) == 0
}

/// One directional step over the board: pre-mask the file that would wrap
/// around, then shift by `amt`. Every one of the eight compass directions is
/// an instance of this with a fixed `(left, amt, pre)` triple.
pub open spec fn dshift(x: u64, left: bool, amt: u64, pre: u64) -> u64 {
    if left {
        (x & pre) << amt
    } else {
        (x & pre) >> amt
    }
}

/// The legal landing squares in one direction: squares that are empty and lie
/// just past a contiguous run of one to six `opp` discs anchored on an `me`
/// disc. The run is grown by six masked shifts; the seventh lands on empty.
pub open spec fn moves_dir(me: u64, opp: u64, left: bool, amt: u64, pre: u64) -> u64 {
    let empty = !(me | opp);
    let g1 = dshift(me, left, amt, pre) & opp;
    let g2 = g1 | (dshift(g1, left, amt, pre) & opp);
    let g3 = g2 | (dshift(g2, left, amt, pre) & opp);
    let g4 = g3 | (dshift(g3, left, amt, pre) & opp);
    let g5 = g4 | (dshift(g4, left, amt, pre) & opp);
    let g6 = g5 | (dshift(g5, left, amt, pre) & opp);
    dshift(g6, left, amt, pre) & empty
}

/// All legal landing squares for the side whose discs are `me`.
pub open spec fn moves_all(me: u64, opp: u64) -> u64 {
    moves_dir(me, opp, true, 8, FULL_BOARD) | moves_dir(me, opp, false, 8, FULL_BOARD)
        | moves_dir(me, opp, true, 1, NOT_FILE_H) | moves_dir(me, opp, false, 1, NOT_FILE_A)
        | moves_dir(me, opp, true, 9, NOT_FILE_H) | moves_dir(me, opp, true, 7, NOT_FILE_A)
        | moves_dir(me, opp, false, 7, NOT_FILE_H) | moves_dir(me, opp, false, 9, NOT_FILE_A)
}

/// The discs flipped in one direction by a move on `mv`: the contiguous run
/// of `opp` discs starting one step from `mv`, provided an `me` disc
/// terminates the run; otherwise nothing flips in this direction.
pub open spec fn flips_dir(me: u64, opp: u64, mv: u64, left: bool, amt: u64, pre: u64) -> u64 {
    let f1 = dshift(mv, left, amt, pre) & opp;
    let f2 = f1 | (dshift(f1, left, amt, pre) & opp);
    let f3 = f2 | (dshift(f2, left, amt, pre) & opp);
    let f4 = f3 | (dshift(f3, left, amt, pre) & opp);
    let f5 = f4 | (dshift(f4, left, amt, pre) & opp);
    let f6 = f5 | (dshift(f5, left, amt, pre) & opp);
    if dshift(f6, left, amt, pre) & me != 0 {
        f6
    } else {
        0
    }
}

/// All discs flipped by a move on `mv`, over the eight directions.
pub open spec fn flips_all(me: u64, opp: u64, mv: u64) -> u64 {
    flips_dir(me, opp, mv, true, 8, FULL_BOARD) | flips_dir(me, opp, mv, false, 8, FULL_BOARD)
        | flips_dir(me, opp, mv, true, 1, NOT_FILE_H) | flips_dir(me, opp, mv, false, 1, NOT_FILE_A)
        | flips_dir(me, opp, mv, true, 9, NOT_FILE_H) | flips_dir(me, opp, mv, true, 7, NOT_FILE_A)
        | flips_dir(me, opp, mv, false, 7, NOT_FILE_H) | flips_dir(me, opp, mv, false, 9, NOT_FILE_A)
}

/// The mover's discs: white when white is to move, black otherwise.
pub open spec fn me_of(white: u64, black: u64, is_white_move: bool) -> u64 {
    if is_white_move {
        white
    } else {
        black
    }
}

/// The opponent's discs.
pub open spec fn opp_of(white: u64, black: u64, is_white_move: bool) -> u64 {
    if is_white_move {
        black
    } else {
        white
    }
}

/// True when playing `mv` is accepted: the square is empty and at least one
/// disc flips.
pub open spec fn apply_ok(white: u64, black: u64, mv: u64, is_white_move: bool) -> bool {
    let me = me_of(white, black, is_white_move);
    let opp = opp_of(white, black, is_white_move);
    mv & (white | black) == 0 && flips_all(me, opp, mv) != 0
}

/// The `(white, black)` bitmaps after playing `mv`: the mover gains the move
/// square and the flipped discs; the opponent loses the flipped discs.
pub open spec fn apply_result(white: u64, black: u64, mv: u64, is_white_move: bool) -> (u64, u64) {
    let me = me_of(white, black, is_white_move);
    let opp = opp_of(white, black, is_white_move);
    let f = flips_all(me, opp, mv);
    let me2 = me | mv | f;
    let opp2 = opp & !f;
    if is_white_move {
        (me2, opp2)
    } else {
        (opp2, me2)
    }
}

/// The empty squares of a position.
pub open spec fn empties(white: u64, black: u64) -> u64 {
    !(white | black)
}

/// Number of set bits among the low `n` bits of `x`.
pub open spec fn pc_upto(x: u64, n: int) -> int
    decreases n,
{
    if n <= 0 {
        0
    } else {
        pc_upto(x, n - 1) + (if (x >> ((n - 1) as u64)) & 1 == 1 {
            1int
        } else {
            0int
        })
    }
}

/// Number of set bits of `x`: the disc count of a bitmap.
pub open spec fn pc64(x: u64) -> int {
    pc_upto(x, 64)
}

/// The status word: the legal-move mask when the side to move has moves, the
/// pass sentinel when only the opponent has moves, and one of the three
/// terminal sentinels (ranked by disc count) when neither side has a move.
pub open spec fn status_spec(white: u64, black: u64, white_to_move: bool) -> u64 {
    let me = me_of(white, black, white_to_move);
    let opp = opp_of(white, black, white_to_move);
    let mm = moves_all(me, opp);
    if mm != 0 {
        mm
    } else if moves_all(opp, me) != 0 {
        STATUS_PASS
    } else if pc64(black) > pc64(white) {
        STATUS_BLACK_WON
    } else if pc64(white) > pc64(black) {
        STATUS_WHITE_WON
    } else {
        STATUS_DRAW
    }
}

/// Basic identities of the bitwise operators on zero.
pub proof fn lemma_bit_identities(a: u64)
    ensures
        a ^ 0 == a,
        a | 0 == a,
        0u64 | a == a,
        a & 0 == 0,
{
    assert(a ^ 0 == a && (a | 0) == a && (0u64 | a) == a && a & 0 == 0) by (bit_vector);
}

proof fn lemma_bit_decomp(a: u64, b: u64, k: u64)
    ensures
        a & b == 0 ==> ((a | b) >> k) & 1 == ((a >> k) & 1) + ((b >> k) & 1),
        (0u64 >> k) & 1 == 0,
        (a >> k) & 1 == 0 || (a >> k) & 1 == 1,
        (b >> k) & 1 == 0 || (b >> k) & 1 == 1,
        ((a | b) >> k) & 1 == 0 || ((a | b) >> k) & 1 == 1,
{
    assert((a & b == 0 ==> ((a | b) >> k) & 1 == ((a >> k) & 1) + ((b >> k) & 1)) && (0u64 >> k) & 1
        == 0 && ((a >> k) & 1 == 0 || (a >> k) & 1 == 1) && ((b >> k) & 1 == 0 || (b >> k) & 1 == 1)
        && (((a | b) >> k) & 1 == 0 || ((a | b) >> k) & 1 == 1)) by (bit_vector);
}

proof fn lemma_pc_upto_additive(a: u64, b: u64, n: int)
    requires
        a & b == 0,
        n <= 64,
    ensures
        pc_upto(a | b, n) == pc_upto(a, n) + pc_upto(b, n),
    decreases n,
{
    if n > 0 {
        lemma_pc_upto_additive(a, b, n - 1);
        lemma_bit_decomp(a, b, (n - 1) as u64);
    }
}

proof fn lemma_pc_upto_zero(n: int)
    requires
        n <= 64,
    ensures
        pc_upto(0, n) == 0,
    decreases n,
{
    if n > 0 {
        lemma_pc_upto_zero(n - 1);
        lemma_bit_decomp(0, 0, (n - 1) as u64);
    }
}

/// A single square counts one disc.
pub proof fn lemma_pc_single_bit(b: u64)
    requires
        is_single_bit(b),
    ensures
        pc64(b) == 1,
{
    assert(b != 0 && (b & ((b - 1) as u64)) == 0 ==> pc64(b) == 1) by (bit_vector);
}

/// Clearing one set square lowers the disc count by exactly one.
pub proof fn lemma_pc_clear_bit(x: u64, b: u64)
    requires
        is_single_bit(b),
        x & b == b,
    ensures
        pc64(x & !b) == pc64(x) - 1,
{
    lemma_pop_bits(x, b, 0, 0);
    lemma_pc_upto_additive(x & !b, b, 64);
    lemma_pc_single_bit(b);
}

/// The bit facts the move-list extraction loop steps on: popping the lowest
/// remaining square keeps the remainder above it, keeps it above every
/// square listed so far, and keeps every other remaining square remaining.
#[verifier::rlimit(100)]
proof fn lemma_pop_bits(tmp: u64, c: u64, e: u64, b: u64)
    ensures
        (c != 0 && (c & ((c - 1) as u64)) == 0 && tmp & c == c) ==> ((tmp & !c) & c == 0 && (tmp
            & !c) | c == tmp),
        (c != 0 && (c & ((c - 1) as u64)) == 0 && tmp & c == c && tmp & ((c - 1) as u64) == 0) ==> (
        tmp & !c) & (c | ((c - 1) as u64)) == 0,
        (e != 0 && (e & ((e - 1) as u64)) == 0 && tmp & (e | ((e - 1) as u64)) == 0) ==> (tmp & !c)
            & (e | ((e - 1) as u64)) == 0,
        (c != 0 && e != 0 && (e & ((e - 1) as u64)) == 0 && tmp & c == c && tmp & (e | ((e - 1)
            as u64)) == 0) ==> c > e,
        (b != 0 && (b & ((b - 1) as u64)) == 0 && c != 0 && (c & ((c - 1) as u64)) == 0 && b & tmp
            == b && b != c) ==> b & (tmp & !c) == b,
{
    assert(((c != 0 && (c & ((c - 1) as u64)) == 0 && tmp & c == c) ==> ((tmp & !c) & c == 0 && (tmp
        & !c) | c == tmp)) && ((c != 0 && (c & ((c - 1) as u64)) == 0 && tmp & c == c && tmp & ((c
        - 1) as u64) == 0) ==> (tmp & !c) & (c | ((c - 1) as u64)) == 0) && ((e != 0 && (e & ((e
        - 1) as u64)) == 0 && tmp & (e | ((e - 1) as u64)) == 0) ==> (tmp & !c) & (e | ((e - 1)
        as u64)) == 0) && ((c != 0 && e != 0 && (e & ((e - 1) as u64)) == 0 && tmp & c == c && tmp
        & (e | ((e - 1) as u64)) == 0) ==> c > e) && ((b != 0 && (b & ((b - 1) as u64)) == 0 && c
        != 0 && (c & ((c - 1) as u64)) == 0 && b & tmp == b && b != c) ==> b & (tmp & !c) == b))
        by (bit_vector);
}

/// Returns the lowest set bit of `x`, or zero when `x` is zero: the result
/// is one square of `x` and no lower square of `x` is set.
pub fn lowest_set_bit(x: u64) -> (r: u64)
    ensures
        x == 0 ==> r == 0,
        x != 0 ==> is_single_bit(r) && (x & r) == r && (x & ((r - 1) as u64)) == 0,
{
    if x == 0 {
        return 0;
    }
    let tz = x.trailing_zeros();
    proof {
        vstd::std_specs::bits::axiom_u64_trailing_zeros(x);
        let t = vstd::std_specs::bits::u64_trailing_zeros(x);
        assert(x << ((64 - t) as u64) == 0);
        assert(t < 64 && (x >> t as u64) & 1u64 == 1u64 && x << ((64 - t) as u64) == 0 ==> {
            let r = 1u64 << t as u64;
            is_single_bit(r) && (x & r) == r && (x & ((r - 1) as u64)) == 0
        }) by (bit_vector);
    }
    1u64 << (tz as u64)
}

fn moves_dir_exec(me: u64, opp: u64, left: bool, amt: u64, pre: u64) -> (r: u64)
    requires
        amt < 64,
    ensures
        r == moves_dir(me, opp, left, amt, pre),
{
    let empty = !(me | opp);
    let mut g = dshift_exec(me, left, amt, pre) & opp;
    g = g | (dshift_exec(g, left, amt, pre) & opp);
    g = g | (dshift_exec(g, left, amt, pre) & opp);
    g = g | (dshift_exec(g, left, amt, pre) & opp);
    g = g | (dshift_exec(g, left, amt, pre) & opp);
    g = g | (dshift_exec(g, left, amt, pre) & opp);
    dshift_exec(g, left, amt, pre) & empty
}

fn dshift_exec(x: u64, left: bool, amt: u64, pre: u64) -> (r: u64)
    requires
        amt < 64,
    ensures
        r == dshift(x, left, amt, pre),
{
    if left {
        (x & pre) << amt
    } else {
        (x & pre) >> amt
    }
}

/// The bitmap of all legal moves for the side whose discs are `me` against
/// discs `opp`.
pub fn compute_moves(me: u64, opp: u64) -> (r: u64)
    ensures
        r == moves_all(me, opp),
{
    moves_dir_exec(me, opp, true, 8, FULL_BOARD) | moves_dir_exec(me, opp, false, 8, FULL_BOARD)
        | moves_dir_exec(me, opp, true, 1, NOT_FILE_H) | moves_dir_exec(
        me,
        opp,
        false,
        1,
        NOT_FILE_A,
    ) | moves_dir_exec(me, opp, true, 9, NOT_FILE_H) | moves_dir_exec(me, opp, true, 7, NOT_FILE_A)
        | moves_dir_exec(me, opp, false, 7, NOT_FILE_H) | moves_dir_exec(
        me,
        opp,
        false,
        9,
        NOT_FILE_A,
    )
}

fn flips_dir_exec(me: u64, opp: u64, mv: u64, left: bool, amt: u64, pre: u64) -> (r: u64)
    requires
        amt < 64,
    ensures
        r == flips_dir(me, opp, mv, left, amt, pre),
{
    let mut f = dshift_exec(mv, left, amt, pre) & opp;
    f = f | (dshift_exec(f, left, amt, pre) & opp);
    f = f | (dshift_exec(f, left, amt, pre) & opp);
    f = f | (dshift_exec(f, left, amt, pre) & opp);
    f = f | (dshift_exec(f, left, amt, pre) & opp);
    f = f | (dshift_exec(f, left, amt, pre) & opp);
    if dshift_exec(f, left, amt, pre) & me != 0 {
        f
    } else {
        0
    }
}

/// The bitmap of all discs a move on `mv` would flip.
pub fn compute_flips(me: u64, opp: u64, mv: u64) -> (r: u64)
    ensures
        r == flips_all(me, opp, mv),
{
    flips_dir_exec(me, opp, mv, true, 8, FULL_BOARD) | flips_dir_exec(
        me,
        opp,
        mv,
        false,
        8,
        FULL_BOARD,
    ) | flips_dir_exec(me, opp, mv, true, 1, NOT_FILE_H) | flips_dir_exec(
        me,
        opp,
        mv,
        false,
        1,
        NOT_FILE_A,
    ) | flips_dir_exec(me, opp, mv, true, 9, NOT_FILE_H) | flips_dir_exec(
        me,
        opp,
        mv,
        true,
        7,
        NOT_FILE_A,
    ) | flips_dir_exec(me, opp, mv, false, 7, NOT_FILE_H) | flips_dir_exec(
        me,
        opp,
        mv,
        false,
        9,
        NOT_FILE_A,
    )
}

/// Why a move was rejected: the square is occupied, or no disc would flip.
#[derive(Clone, Copy, Debug, PartialEq, Eq, Structural)]
pub enum MoveError {
    Occupied,
    NoFlips,
}

/// Plays `mv` for the given side and returns the new `(white, black)`
/// bitmaps, or the reason the move is rejected.
pub fn apply_move(white: u64, black: u64, move_bit: u64, is_white_move: bool) -> (r: Result<
    (u64, u64),
    MoveError,
>)
    ensures
        move_bit & (white | black) != 0 ==> r == Result::<(u64, u64), MoveError>::Err(
            MoveError::Occupied,
        ),
        move_bit & (white | black) == 0 && flips_all(
            me_of(white, black, is_white_move),
            opp_of(white, black, is_white_move),
            move_bit,
        ) == 0 ==> r == Result::<(u64, u64), MoveError>::Err(MoveError::NoFlips),
        apply_ok(white, black, move_bit, is_white_move) ==> r == Result::<
            (u64, u64),
            MoveError,
        >::Ok(apply_result(white, black, move_bit, is_white_move)),
{
    if move_bit & (white | black) != 0 {
        return Err(MoveError::Occupied);
    }
    let (me, opp) = if is_white_move {
        (white, black)
    } else {
        (black, white)
    };
    let flips = compute_flips(me, opp, move_bit);
    if flips == 0 {
        return Err(MoveError::NoFlips);
    }
    let me2 = me | move_bit | flips;
    let opp2 = opp & !flips;
    if is_white_move {
        Ok((me2, opp2))
    } else {
        Ok((opp2, me2))
    }
}

/// Number of set bits of `x`, as executable code.
pub fn popcount(x: u64) -> (r: u32)
    ensures
        r == pc64(x),
        r <= 64,
{
    let mut i: u64 = 0;
    let mut acc: u32 = 0;
    while i < 64
        invariant
            0 <= i <= 64,
            acc == pc_upto(x, i as int),
            acc <= i,
        decreases 64 - i,
    {
        if (x >> i) & 1 == 1 {
            acc = acc + 1;
        }
        i = i + 1;
    }
    acc
}

/// Classifies a position for the side to move: its legal-move mask when it
/// has moves, the pass sentinel when only the opponent has moves, and a
/// terminal sentinel otherwise.
pub fn check_game_status(white: u64, black: u64, white_to_move: bool) -> (r: u64)
    ensures
        r == status_spec(white, black, white_to_move),
{
    let (me, opp) = if white_to_move {
        (white, black)
    } else {
        (black, white)
    };
    let my_moves = compute_moves(me, opp);
    if my_moves != 0 {
        return my_moves;
    }
    let opp_moves = compute_moves(opp, me);
    if opp_moves != 0 {
        return STATUS_PASS;
    }
    let black_cnt = popcount(black);
    let white_cnt = popcount(white);
    if black_cnt > white_cnt {
        STATUS_BLACK_WON
    } else if white_cnt > black_cnt {
        STATUS_WHITE_WON
    } else {
        STATUS_DRAW
    }
}

/// The legal moves of the side to move: exactly the set bits of the
/// legal-move mask, as single-bit bitmaps, without duplicates or omissions,
/// in ascending square order.
pub fn find_legal_moves_alt(white: u64, black: u64, is_white_to_move: bool) -> (r: Vec<u64>)
    ensures
        r@.len() == pc64(
            moves_all(
                me_of(white, black, is_white_to_move),
                opp_of(white, black, is_white_to_move),
            ),
        ),
        forall|i: int|
            0 <= i < r@.len() ==> is_single_bit(#[trigger] r@[i]) && r@[i] & moves_all(
                me_of(white, black, is_white_to_move),
                opp_of(white, black, is_white_to_move),
            ) == r@[i],
        forall|b: u64|
            is_single_bit(b) && b & moves_all(
                me_of(white, black, is_white_to_move),
                opp_of(white, black, is_white_to_move),
            ) == b ==> r@.contains(b),
        forall|i: int, j: int| 0 <= i < j < r@.len() ==> r@[i] < r@[j],
        moves_all(me_of(white, black, is_white_to_move), opp_of(white, black, is_white_to_move))
            != 0 ==> r@.len() > 0,
{
    let (me, opp) = if is_white_to_move {
        (white, black)
    } else {
        (black, white)
    };
    let all_moves = compute_moves(me, opp);
    let mut result: Vec<u64> = Vec::new();
    let mut tmp = all_moves;
    proof {
        assert(all_moves & all_moves == all_moves) by (bit_vector);
    }
    while tmp != 0
        invariant
            tmp & all_moves == tmp,
            all_moves == moves_all(
                me_of(white, black, is_white_to_move),
                opp_of(white, black, is_white_to_move),
            ),
            result@.len() + pc64(tmp) == pc64(all_moves),
            forall|i: int|
                0 <= i < result@.len() ==> is_single_bit(#[trigger] result@[i]) && result@[i]
                    & all_moves == result@[i],
            forall|i: int|
                0 <= i < result@.len() ==> tmp & ((#[trigger] result@[i]) | ((result@[i]
                    - 1) as u64)) == 0,
            forall|i: int, j: int| 0 <= i < j < result@.len() ==> result@[i] < result@[j],
            forall|b: u64|
                is_single_bit(b) && b & all_moves == b ==> result@.contains(b) || b & tmp == b,
            tmp == all_moves || result@.len() > 0,
        decreases tmp,
    {
        let bit = lowest_set_bit(tmp);
        let ghost old_result = result@;
        result.push(bit);
        proof {
            lemma_clear_bit_decreases(tmp, bit);
            lemma_pc_clear_bit(tmp, bit);
            lemma_pop_bits(tmp, bit, 0, 0);
            assert((tmp & !bit) & all_moves == (tmp & !bit) && bit & all_moves == bit) by (
            bit_vector)
                requires
                    tmp & all_moves == tmp && tmp & bit == bit,
            ;
            assert forall|i: int| 0 <= i < old_result.len() implies (tmp & !bit) & ((
            #[trigger] old_result[i]) | ((old_result[i] - 1) as u64)) == 0 && bit
                > old_result[i] by {
                lemma_pop_bits(tmp, bit, old_result[i], 0);
            }
            assert forall|b: u64|
                is_single_bit(b) && b & all_moves == b implies result@.contains(b) || b & (tmp
                & !bit) == b by {
                if old_result.contains(b) {
                    let k = choose|k: int| 0 <= k < old_result.len() && old_result[k] == b;
                    assert(result@[k] == b);
                } else if b & tmp == b {
                    if b == bit {
                        assert(result@[old_result.len() as int] == b);
                    } else {
                        lemma_pop_bits(tmp, bit, 0, b);
                    }
                }
            }
        }
        tmp = tmp & !bit;
    }
    proof {
        lemma_pc_upto_zero(64);
        assert forall|b: u64|
            is_single_bit(b) && b & all_moves == b implies result@.contains(b) by {
            lemma_bit_identities(b);
        }
    }
    result
}

/// Legal moves land on empty squares: the move mask never overlaps either
/// side's discs.
pub proof fn lemma_moves_on_empty(me: u64, opp: u64)
    ensures
        moves_all(me, opp) & (me | opp) == 0,
{
    assert(moves_all(me, opp) & (me | opp) == 0) by (bit_vector);
}

/// The flipped discs of any move all belong to the opponent before the move
/// is played, and to the mover after; playing an accepted move keeps the two
/// bitmaps disjoint and occupies exactly the move square.
pub proof fn lemma_apply_keeps_position_legal(white: u64, black: u64, mv: u64, is_white_move: bool)
    requires
        white & black == 0,
        mv & (white | black) == 0,
    ensures
        ({
            let me = me_of(white, black, is_white_move);
            let opp = opp_of(white, black, is_white_move);
            let f = flips_all(me, opp, mv);
            let (w2, b2) = apply_result(white, black, mv, is_white_move);
            f & opp == f && f & (me | mv | f) == f && w2 & b2 == 0 && (w2 | b2) == (white | black
                | mv)
        }),
{
    if is_white_move {
        assert({
            let f = flips_all(white, black, mv);
            f & black == f && f & (white | mv | f) == f && (white | mv | f) & (black & !f) == 0 && (
            (white | mv | f) | (black & !f)) == (white | black | mv)
        }) by (bit_vector)
            requires
                white & black == 0 && mv & (white | black) == 0,
        ;
    } else {
        assert({
            let f = flips_all(black, white, mv);
            f & white == f && f & (black | mv | f) == f && (white & !f) & (black | mv | f) == 0 && (
            (white & !f) | (black | mv | f)) == (white | black | mv)
        }) by (bit_vector)
            requires
                white & black == 0 && mv & (white | black) == 0,
        ;
    }
}

/// A single-bit legal move always flips at least one disc: move generation
/// and move application agree.
pub proof fn lemma_legal_move_flips(me: u64, opp: u64, mv: u64)
    requires
        me & opp == 0,
        is_single_bit(mv),
        mv & moves_all(me, opp) != 0,
    ensures
        flips_all(me, opp, mv) != 0,
{
    assert(mv & moves_all(me, opp) != 0 ==> (mv & moves_dir(me, opp, true, 8, FULL_BOARD) != 0 || mv
        & moves_dir(me, opp, false, 8, FULL_BOARD) != 0 || mv & moves_dir(me, opp, true, 1,
    NOT_FILE_H) != 0 || mv & moves_dir(me, opp, false, 1, NOT_FILE_A) != 0 || mv & moves_dir(
        me,
        opp,
        true,
        9,
        NOT_FILE_H,
    ) != 0 || mv & moves_dir(me, opp, true, 7, NOT_FILE_A) != 0 || mv & moves_dir(
        me,
        opp,
        false,
        7,
        NOT_FILE_H,
    ) != 0 || mv & moves_dir(me, opp, false, 9, NOT_FILE_A) != 0)) by (bit_vector);
    if mv & moves_dir(me, opp, true, 8, FULL_BOARD) != 0 {
        assert(flips_dir(me, opp, mv, false, 8, FULL_BOARD) != 0) by (bit_vector)
            requires
                me & opp == 0 && mv != 0 && (mv & ((mv - 1) as u64)) == 0 && mv & moves_dir(
                    me,
                    opp,
                    true,
                    8,
                    FULL_BOARD,
                ) != 0,
        ;
    } else if mv & moves_dir(me, opp, false, 8, FULL_BOARD) != 0 {
        assert(flips_dir(me, opp, mv, true, 8, FULL_BOARD) != 0) by (bit_vector)
            requires
                me & opp == 0 && mv != 0 && (mv & ((mv - 1) as u64)) == 0 && mv & moves_dir(
                    me,
                    opp,
                    false,
                    8,
                    FULL_BOARD,
                ) != 0,
        ;
    } else if mv & moves_dir(me, opp, true, 1, NOT_FILE_H) != 0 {
        assert(flips_dir(me, opp, mv, false, 1, NOT_FILE_A) != 0) by (bit_vector)
            requires
                me & opp == 0 && mv != 0 && (mv & ((mv - 1) as u64)) == 0 && mv & moves_dir(
                    me,
                    opp,
                    true,
                    1,
                    NOT_FILE_H,
                ) != 0,
        ;
    } else if mv & moves_dir(me, opp, false, 1, NOT_FILE_A) != 0 {
        assert(flips_dir(me, opp, mv, true, 1, NOT_FILE_H) != 0) by (bit_vector)
            requires
                me & opp == 0 && mv != 0 && (mv & ((mv - 1) as u64)) == 0 && mv & moves_dir(
                    me,
                    opp,
                    false,
                    1,
                    NOT_FILE_A,
                ) != 0,
        ;
    } else if mv & moves_dir(me, opp, true, 9, NOT_FILE_H) != 0 {
        assert(flips_dir(me, opp, mv, false, 9, NOT_FILE_A) != 0) by (bit_vector)
            requires
                me & opp == 0 && mv != 0 && (mv & ((mv - 1) as u64)) == 0 && mv & moves_dir(
                    me,
                    opp,
                    true,
                    9,
                    NOT_FILE_H,
                ) != 0,
        ;
    } else if mv & moves_dir(me, opp, true, 7, NOT_FILE_A) != 0 {
        assert(flips_dir(me, opp, mv, false, 7, NOT_FILE_H) != 0) by (bit_vector)
            requires
                me & opp == 0 && mv != 0 && (mv & ((mv - 1) as u64)) == 0 && mv & moves_dir(
                    me,
                    opp,
                    true,
                    7,
                    NOT_FILE_A,
                ) != 0,
        ;
    } else if mv & moves_dir(me, opp, false, 7, NOT_FILE_H) != 0 {
        assert(flips_dir(me, opp, mv, true, 7, NOT_FILE_A) != 0) by (bit_vector)
            requires
                me & opp == 0 && mv != 0 && (mv & ((mv - 1) as u64)) == 0 && mv & moves_dir(
                    me,
                    opp,
                    false,
                    7,
                    NOT_FILE_H,
                ) != 0,
        ;
    } else {
        assert(flips_dir(me, opp, mv, true, 9, NOT_FILE_H) != 0) by (bit_vector)
            requires
                me & opp == 0 && mv != 0 && (mv & ((mv - 1) as u64)) == 0 && mv & moves_dir(
                    me,
                    opp,
                    false,
                    9,
                    NOT_FILE_A,
                ) != 0,
        ;
    }
    assert(flips_all(me, opp, mv) != 0 <== (flips_dir(me, opp, mv, true, 8, FULL_BOARD) != 0
        || flips_dir(me, opp, mv, false, 8, FULL_BOARD) != 0 || flips_dir(me, opp, mv, true, 1,
    NOT_FILE_H) != 0 || flips_dir(me, opp, mv, false, 1, NOT_FILE_A) != 0 || flips_dir(
        me,
        opp,
        mv,
        true,
        9,
        NOT_FILE_H,
    ) != 0 || flips_dir(me, opp, mv, true, 7, NOT_FILE_A) != 0 || flips_dir(
        me,
        opp,
        mv,
        false,
        7,
        NOT_FILE_H,
    ) != 0 || flips_dir(me, opp, mv, false, 9, NOT_FILE_A) != 0)) by (bit_vector);
}

/// A nonzero legal-move mask is always strictly below the smallest status
/// sentinel, so the status word is unambiguous.
pub proof fn lemma_moves_below_sentinels(me: u64, opp: u64)
    ensures
        moves_all(me, opp) < STATUS_DRAW,
{
    assert(moves_all(me, opp) < 0xFFFF_FFFF_FFFF_FFFCu64) by (bit_vector);
}

/// The status word decodes unambiguously: it is the draw sentinel exactly
/// when neither side has a move and the disc counts are equal, the win
/// sentinels exactly when neither side has a move and that colour leads,
/// the pass sentinel exactly when only the opponent can move, and the
/// legal-move mask itself whenever the side to move has moves.
pub proof fn lemma_status_classification(white: u64, black: u64, white_to_move: bool)
    ensures
        ({
            let me = me_of(white, black, white_to_move);
            let opp = opp_of(white, black, white_to_move);
            let mm = moves_all(me, opp);
            let om = moves_all(opp, me);
            let st = status_spec(white, black, white_to_move);
            &&& (st == STATUS_DRAW <==> mm == 0 && om == 0 && pc64(black) == pc64(white))
            &&& (st == STATUS_BLACK_WON <==> mm == 0 && om == 0 && pc64(black) > pc64(white))
            &&& (st == STATUS_WHITE_WON <==> mm == 0 && om == 0 && pc64(white) > pc64(black))
            &&& (st == STATUS_PASS <==> mm == 0 && om != 0)
            &&& (mm != 0 ==> st == mm)
        }),
{
    let me = me_of(white, black, white_to_move);
    let opp = opp_of(white, black, white_to_move);
    lemma_moves_below_sentinels(me, opp);
}

/// Clearing a set bit strictly decreases a bitmap's value.
pub proof fn lemma_clear_bit_decreases(x: u64, b: u64)
    requires
        is_single_bit(b),
        x & b == b,
    ensures
        x & !b < x,
        x & !b == x - b,
{
    assert(x & !b < x && x & !b == x - b) by (bit_vector)
        requires
            b != 0 && (b & ((b - 1) as u64)) == 0 && x & b == b,
    ;
}

} // verus!
