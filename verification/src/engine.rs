//! The search: negamax with alpha-beta pruning, move-class ordering
//! (corners, then edges, then quiet interior, then X/C squares last),
//! mate-distance compression, a per-call transposition table, and a
//! root-parallel variant.
//!
//! Evaluations are from black's perspective throughout: the alpha-beta
//! bounds are never sign-flipped across recursion, and the cutoff tests
//! compare the child's black-perspective value against them asymmetrically
//! by side. At the root fan-out of the parallel variant pruning is disabled
//! on purpose: every root child is explored fully so that the reduction
//! (maximum by sign-normalised value, ties to the first seen) cannot depend
//! on scheduling, and each child searches with a fresh transposition table.

use vstd::prelude::*;

use crate::board::{
    apply_move, apply_result, check_game_status, compute_flips, empties, find_legal_moves_alt,
    is_single_bit, lowest_set_bit, me_of, moves_all, opp_of, pc64, status_spec, FULL_BOARD,
    STATUS_BLACK_WON, STATUS_DRAW, STATUS_PASS, STATUS_WHITE_WON,
};
use crate::board::{
    lemma_apply_keeps_position_legal, lemma_bit_identities, lemma_clear_bit_decreases,
    lemma_legal_move_flips, lemma_moves_below_sentinels, lemma_moves_on_empty,
};
use crate::eval::{
    eval_position_with_cfg, eval_spec, lemma_eval_bounded, weight_budget, EvalCfg, ANTICORNER_MASK,
    ANTIEDGE_MASK, CORNER_MASK, EDGE_MASK,
};
use crate::zobrist::{
    compute_zobrist_hash, update_zobrist_hash, TTFlag, TranspositionTable, ZobristTable,
    PROBE_MISS_VALUE,
};
use rayon::iter::IntoParallelRefIterator;
use rayon::iter::ParallelIterator;

verus! {

/// The move sentinel meaning "no move to record": the position was terminal,
/// passed, or evaluated statically.
pub const NO_MOVE: u64 = 0xFFFF_FFFF_FFFF_FFFF;

/// A search returning this as its move found no playable candidate; the
/// driver reads it as a resignation.
pub const RESIGN: u64 = 0;

/// The score of a position lost for black, before mate-distance compression.
pub const LOSS_SCORE: i32 = -10000;

/// The score of a position won for black.
pub const WIN_SCORE: i32 = 10000;

/// Largest weight budget the search accepts: it keeps every static
/// evaluation strictly inside the mate band.
pub const MAX_WEIGHT_BUDGET: i32 = 4900;

/// 1 when the side to move has no legal move, else 0. Second component of
/// the termination measure: a pass hands the turn to a side that can move.
pub open spec fn no_move_rank(white: u64, black: u64, is_white_move: bool) -> int {
    if moves_all(me_of(white, black, is_white_move), opp_of(white, black, is_white_move)) == 0 {
        1
    } else {
        0
    }
}

/// The value of a finished game, from black's perspective.
pub open spec fn terminal_value(white: u64, black: u64) -> i32 {
    if pc64(black) > pc64(white) {
        WIN_SCORE
    } else if pc64(white) > pc64(black) {
        LOSS_SCORE
    } else {
        0
    }
}

/// What every search variant promises of its `(move, value)` result: the
/// value stays in the mate band; a finished game yields its exact value and
/// no move; a pass yields no move (and, at depth zero, exactly the static
/// evaluation, since a pass hands the same board to the opponent without
/// spending depth); a depth-zero leaf yields the exact static evaluation;
/// and otherwise the move is one legal square.
pub open spec fn search_ok(
    white: u64,
    black: u64,
    is_white_move: bool,
    depth: u32,
    cfg: EvalCfg,
    r: (u64, i32),
) -> bool {
    let me = me_of(white, black, is_white_move);
    let opp = opp_of(white, black, is_white_move);
    let mm = moves_all(me, opp);
    let om = moves_all(opp, me);
    &&& LOSS_SCORE <= r.1 <= WIN_SCORE
    &&& (mm == 0 && om == 0) ==> r.0 == NO_MOVE && r.1 == terminal_value(white, black)
    &&& (mm == 0 && om != 0) ==> r.0 == NO_MOVE
    &&& (mm == 0 && om != 0 && depth == 0) ==> r.1 == eval_spec(white, black, cfg)
    &&& (mm != 0 && depth == 0) ==> r.0 == NO_MOVE && r.1 == eval_spec(white, black, cfg)
    &&& (mm != 0 && depth > 0) ==> is_single_bit(r.0) && r.0 & mm == r.0
}

pub(crate) proof fn lemma_flip_sides(white: u64, black: u64)
    requires
        white & black == 0,
    ensures
        black & white == 0,
        black | white == white | black,
{
    assert(black & white == 0 && (black | white) == (white | black)) by (bit_vector)
        requires
            white & black == 0,
    ;
}

pub(crate) proof fn lemma_candidate_empty(c: u64, mm: u64, white: u64, black: u64, is_white_move: bool)
    requires
        c & mm == c,
        c != 0,
        mm == moves_all(me_of(white, black, is_white_move), opp_of(white, black, is_white_move)),
    ensures
        c & (white | black) == 0,
{
    let me = me_of(white, black, is_white_move);
    let opp = opp_of(white, black, is_white_move);
    lemma_moves_on_empty(me, opp);
    assert(c & (white | black) == 0) by (bit_vector)
        requires
            c & mm == c && mm & (me | opp) == 0 && ((is_white_move && me == white && opp == black)
                || (!is_white_move && me == black && opp == white)),
    ;
}

proof fn lemma_child_measure(white: u64, black: u64, mv: u64, is_white_move: bool)
    requires
        white & black == 0,
        mv != 0,
        mv & (white | black) == 0,
    ensures
        ({
            let r = apply_result(white, black, mv, is_white_move);
            empties(r.0, r.1) < empties(white, black) && r.0 & r.1 == 0
        }),
{
    lemma_apply_keeps_position_legal(white, black, mv, is_white_move);
    let r = apply_result(white, black, mv, is_white_move);
    assert(!((white | black) | mv) < !(white | black)) by (bit_vector)
        requires
            mv != 0 && mv & (white | black) == 0,
    ;
    assert((r.0 | r.1) == (white | black | mv));
}

/// Compresses mate distances: values beyond the mate band's midpoint step
/// one closer to zero per ply, biasing toward shorter wins and longer
/// losses.
fn mate_adjust(orig_eval: i32) -> (r: i32)
    requires
        LOSS_SCORE <= orig_eval <= WIN_SCORE,
    ensures
        LOSS_SCORE <= r <= WIN_SCORE,
        orig_eval > 5000 ==> r == orig_eval - 1,
        orig_eval < -5000 ==> r == orig_eval + 1,
        -5000 <= orig_eval <= 5000 ==> r == orig_eval,
{
    if orig_eval > 5000 {
        orig_eval - 1
    } else if orig_eval < -5000 {
        orig_eval + 1
    } else {
        orig_eval
    }
}

/// The side-to-move view of a black-perspective value.
fn sign_normalize(is_white_move: bool, orig_eval: i32) -> (r: i32)
    requires
        LOSS_SCORE <= orig_eval <= WIN_SCORE,
    ensures
        r as int == (if is_white_move {
            -(orig_eval as int)
        } else {
            orig_eval as int
        }),
{
    if is_white_move {
        -orig_eval
    } else {
        orig_eval
    }
}

/// The sequential searcher: negamax with alpha-beta over class-ordered
/// moves, probing and filling the transposition table, with the Zobrist
/// hash maintained incrementally.
fn search_opt_rec(
    white: u64,
    black: u64,
    is_white_move: bool,
    depth: u32,
    alpha: i32,
    beta: i32,
    orig_depth: u32,
    cfg: EvalCfg,
    hash: u64,
    zt: &ZobristTable,
    tt: &mut TranspositionTable,
) -> (r: (u64, i32))
    requires
        white & black == 0,
        weight_budget(cfg) <= MAX_WEIGHT_BUDGET,
        zt.wf(),
        old(tt).wf(),
    ensures
        final(tt).wf(),
        search_ok(white, black, is_white_move, depth, cfg, r),
    decreases empties(white, black), no_move_rank(white, black, is_white_move),
{
    proof {
        lemma_flip_sides(white, black);
        lemma_moves_below_sentinels(me_of(white, black, is_white_move), opp_of(white, black, is_white_move));
        lemma_moves_below_sentinels(opp_of(white, black, is_white_move), me_of(white, black, is_white_move));
    }
    let status = check_game_status(white, black, is_white_move);
    if status == STATUS_WHITE_WON {
        return (NO_MOVE, LOSS_SCORE);
    } else if status == STATUS_BLACK_WON {
        return (NO_MOVE, WIN_SCORE);
    } else if status == STATUS_DRAW {
        return (NO_MOVE, 0);
    } else if status == STATUS_PASS {
        let passed = search_opt_rec(
            white,
            black,
            !is_white_move,
            depth,
            alpha,
            beta,
            orig_depth,
            cfg,
            hash ^ crate::zobrist::WHITE_TURN_KEY,
            zt,
            tt,
        );
        return (NO_MOVE, passed.1);
    }
    if depth == 0 {
        proof {
            lemma_eval_bounded(white, black, cfg);
        }
        return (NO_MOVE, eval_position_with_cfg(white, black, cfg));
    }
    let probed = tt.probe(hash, alpha, beta);
    if probed.0 != PROBE_MISS_VALUE {
        let tt_mv = probed.1;
        // A different position can share the slot and even the full hash, so
        // a stored move is used only when it is one of this node's legal
        // moves.
        if tt_mv != 0 && (tt_mv & (tt_mv - 1)) == 0 && (tt_mv & status) == tt_mv {
            return (tt_mv, probed.0);
        }
    }
    let ghost mm = status;
    let mut best_move: u64 = NO_MOVE;
    let mut best_eval: i32 = i32::MIN;
    let mut best_orig_eval: i32 = 0;
    let mut local_alpha = alpha;
    let mut local_beta = beta;
    let mut corner_moves = status & CORNER_MASK;
    let mut edge_moves = status & EDGE_MASK & !ANTIEDGE_MASK;
    let mut other_moves = status & !(CORNER_MASK | EDGE_MASK | ANTIEDGE_MASK | ANTICORNER_MASK);
    let mut risky_moves = status & (ANTIEDGE_MASK | ANTICORNER_MASK);
    proof {
        assert((status & CORNER_MASK) | (status & EDGE_MASK & !ANTIEDGE_MASK) | (status & !(
        CORNER_MASK | EDGE_MASK | ANTIEDGE_MASK | ANTICORNER_MASK)) | (status & (ANTIEDGE_MASK
            | ANTICORNER_MASK)) == status && (status & CORNER_MASK) & status == (status
            & CORNER_MASK) && (status & EDGE_MASK & !ANTIEDGE_MASK) & status == (status & EDGE_MASK
            & !ANTIEDGE_MASK) && (status & !(CORNER_MASK | EDGE_MASK | ANTIEDGE_MASK
            | ANTICORNER_MASK)) & status == (status & !(CORNER_MASK | EDGE_MASK | ANTIEDGE_MASK
            | ANTICORNER_MASK)) && (status & (ANTIEDGE_MASK | ANTICORNER_MASK)) & status == (status
            & (ANTIEDGE_MASK | ANTICORNER_MASK))) by (bit_vector);
    }
    while corner_moves > 0 || edge_moves > 0 || other_moves > 0 || risky_moves > 0
        invariant
            white & black == 0,
            weight_budget(cfg) <= MAX_WEIGHT_BUDGET,
            zt.wf(),
            tt.wf(),
            depth >= 1,
            mm == moves_all(
                me_of(white, black, is_white_move),
                opp_of(white, black, is_white_move),
            ),
            mm != 0,
            corner_moves & mm == corner_moves,
            edge_moves & mm == edge_moves,
            other_moves & mm == other_moves,
            risky_moves & mm == risky_moves,
            (best_move == NO_MOVE && best_eval == i32::MIN && (corner_moves | edge_moves
                | other_moves | risky_moves) == mm) || (is_single_bit(best_move) && best_move & mm
                == best_move && LOSS_SCORE <= best_orig_eval <= WIN_SCORE && best_eval
                > i32::MIN),
        decreases corner_moves, edge_moves, other_moves, risky_moves,
    {
        let candidate: u64;
        if corner_moves > 0 {
            candidate = lowest_set_bit(corner_moves);
            proof {
                lemma_clear_bit_decreases(corner_moves, candidate);
                lemma_union_member(candidate, corner_moves, mm);
            }
            corner_moves = corner_moves & !candidate;
        } else if edge_moves > 0 {
            candidate = lowest_set_bit(edge_moves);
            proof {
                lemma_clear_bit_decreases(edge_moves, candidate);
                lemma_union_member(candidate, edge_moves, mm);
            }
            edge_moves = edge_moves & !candidate;
        } else if other_moves > 0 {
            candidate = lowest_set_bit(other_moves);
            proof {
                lemma_clear_bit_decreases(other_moves, candidate);
                lemma_union_member(candidate, other_moves, mm);
            }
            other_moves = other_moves & !candidate;
        } else {
            candidate = lowest_set_bit(risky_moves);
            proof {
                lemma_clear_bit_decreases(risky_moves, candidate);
                lemma_union_member(candidate, risky_moves, mm);
            }
            risky_moves = risky_moves & !candidate;
        }
        proof {
            lemma_flip_sides(white, black);
            lemma_candidate_empty(candidate, mm, white, black, is_white_move);
            lemma_legal_move_flips(
                me_of(white, black, is_white_move),
                opp_of(white, black, is_white_move),
                candidate,
            );
            lemma_child_measure(white, black, candidate, is_white_move);
        }
        let flips = compute_flips(
            if is_white_move {
                white
            } else {
                black
            },
            if is_white_move {
                black
            } else {
                white
            },
            candidate,
        );
        let applied = apply_move(white, black, candidate, is_white_move);
        let (next_white, next_black) = match applied {
            Ok(p) => p,
            Err(_) => {
                proof {
                    assert(false);
                }
                (0, 0)
            },
        };
        let child_hash = update_zobrist_hash(hash, candidate, flips, is_white_move, zt);
        let child = search_opt_rec(
            next_white,
            next_black,
            !is_white_move,
            depth - 1,
            local_alpha,
            local_beta,
            orig_depth,
            cfg,
            child_hash,
            zt,
            tt,
        );
        let orig_eval = mate_adjust(child.1);
        let eval = sign_normalize(is_white_move, orig_eval);
        if eval > best_eval {
            best_orig_eval = orig_eval;
            best_eval = eval;
            best_move = candidate;
            if is_white_move {
                if orig_eval < local_alpha {
                    tt.insert_position(hash, orig_eval, TTFlag::BetaBound, candidate);
                    return (candidate, orig_eval);
                } else {
                    local_beta = orig_eval;
                }
            } else {
                if orig_eval > local_beta {
                    tt.insert_position(hash, orig_eval, TTFlag::AlphaBound, candidate);
                    return (candidate, orig_eval);
                } else {
                    local_alpha = orig_eval;
                }
            }
        }
    }
    proof {
        lemma_bit_identities(0);
    }
    tt.insert_position(hash, best_orig_eval, TTFlag::Exact, best_move);
    (best_move, best_orig_eval)
}

proof fn lemma_union_member(c: u64, part: u64, mm: u64)
    requires
        part & c == c,
        part & mm == part,
    ensures
        c & mm == c,
        (part & !c) & mm == (part & !c),
{
    assert(c & mm == c && (part & !c) & mm == (part & !c)) by (bit_vector)
        requires
            part & c == c && part & mm == part,
    ;
}

/// Relies on rayon's parallel iterator `map` over a vector (`par_iter`,
/// `map`, `collect`): the collected vector holds exactly one output per
/// input element, in input order, each related to its input by the mapped
/// closure's postcondition. The closure only calls a verified function of
/// this crate.
#[verifier::external_body]
pub(crate) fn par_map<T: Copy + Send + Sync, R: Send, F: Fn(T) -> R + Send + Sync>(v: &Vec<T>, f: F) -> (r:
    Vec<R>)
    requires
        forall|i: int| 0 <= i < v@.len() ==> call_requires(f, (v@[i],)),
    ensures
        r@.len() == v@.len(),
        forall|i: int| 0 <= i < v@.len() ==> call_ensures(f, (v@[i],), #[trigger] r@[i]),
{
    v.par_iter().map(|x| f(*x)).collect()
}

/// Evaluates one root candidate, already applied to give the child
/// position: the child is searched sequentially below the parallel levels,
/// and the result is tagged with the candidate, mate-adjusted at the root
/// layer, and sign-normalised for the root reduction.
fn search_root_child(
    cand: u64,
    next_white: u64,
    next_black: u64,
    is_white_move: bool,
    depth: u32,
    alpha: i32,
    beta: i32,
    orig_depth: u32,
    cfg: EvalCfg,
) -> (r: (u64, i32, i32))
    requires
        next_white & next_black == 0,
        weight_budget(cfg) <= MAX_WEIGHT_BUDGET,
        1 <= depth <= orig_depth,
    ensures
        r.0 == cand,
        LOSS_SCORE <= r.1 <= WIN_SCORE,
        LOSS_SCORE <= r.2 <= WIN_SCORE,
{
    if orig_depth - depth > 0 {
        let child = search_moves_opt(
            next_white,
            next_black,
            !is_white_move,
            depth - 1,
            alpha,
            beta,
            orig_depth,
            cfg,
        );
        let eval = sign_normalize(is_white_move, child.1);
        (cand, eval, child.1)
    } else {
        let child = par_level2(
            next_white,
            next_black,
            !is_white_move,
            depth - 1,
            alpha,
            beta,
            orig_depth,
            cfg,
        );
        let orig_eval = mate_adjust(child.1);
        let eval = sign_normalize(is_white_move, orig_eval);
        (cand, eval, orig_eval)
    }
}

/// The second fan-out level of the parallel search: every candidate is
/// explored with the unchanged window (no tightening between siblings, as
/// at the root) and the maximum by sign-normalised value wins, ties to the
/// first seen in ascending square order.
fn par_level2(
    white: u64,
    black: u64,
    is_white_move: bool,
    depth: u32,
    alpha: i32,
    beta: i32,
    orig_depth: u32,
    cfg: EvalCfg,
) -> (r: (u64, i32))
    requires
        white & black == 0,
        weight_budget(cfg) <= MAX_WEIGHT_BUDGET,
    ensures
        search_ok(white, black, is_white_move, depth, cfg, r),
{
    proof {
        lemma_flip_sides(white, black);
        lemma_moves_below_sentinels(
            me_of(white, black, is_white_move),
            opp_of(white, black, is_white_move),
        );
        lemma_moves_below_sentinels(
            opp_of(white, black, is_white_move),
            me_of(white, black, is_white_move),
        );
    }
    let status = check_game_status(white, black, is_white_move);
    if status == STATUS_WHITE_WON {
        return (NO_MOVE, LOSS_SCORE);
    } else if status == STATUS_BLACK_WON {
        return (NO_MOVE, WIN_SCORE);
    } else if status == STATUS_DRAW {
        return (NO_MOVE, 0);
    }
    if depth == 0 {
        proof {
            lemma_eval_bounded(white, black, cfg);
        }
        return (NO_MOVE, eval_position_with_cfg(white, black, cfg));
    }
    if status == STATUS_PASS {
        let passed = search_moves_opt(
            white,
            black,
            !is_white_move,
            depth,
            alpha,
            beta,
            orig_depth,
            cfg,
        );
        return (NO_MOVE, passed.1);
    }
    let ghost mm = status;
    let candidates = find_legal_moves_alt(white, black, is_white_move);
    let mut best_move: u64 = RESIGN;
    let mut best_eval: i32 = i32::MIN;
    let mut best_orig_eval: i32 = 0;
    let mut i: usize = 0;
    while i < candidates.len()
        invariant
            white & black == 0,
            weight_budget(cfg) <= MAX_WEIGHT_BUDGET,
            depth >= 1,
            mm == moves_all(
                me_of(white, black, is_white_move),
                opp_of(white, black, is_white_move),
            ),
            mm != 0,
            candidates@.len() > 0,
            0 <= i <= candidates@.len(),
            forall|j: int|
                0 <= j < candidates@.len() ==> is_single_bit(#[trigger] candidates@[j])
                    && candidates@[j] & mm == candidates@[j],
            (best_move == RESIGN && best_eval == i32::MIN && i == 0) || (is_single_bit(best_move)
                && best_move & mm == best_move && LOSS_SCORE <= best_orig_eval <= WIN_SCORE
                && best_eval > i32::MIN),
        decreases candidates@.len() - i,
    {
        let candidate = candidates[i];
        proof {
            lemma_flip_sides(white, black);
            lemma_candidate_empty(candidate, mm, white, black, is_white_move);
            lemma_legal_move_flips(
                me_of(white, black, is_white_move),
                opp_of(white, black, is_white_move),
                candidate,
            );
            lemma_child_measure(white, black, candidate, is_white_move);
        }
        let applied = apply_move(white, black, candidate, is_white_move);
        let (next_white, next_black) = match applied {
            Ok(p) => p,
            Err(_) => {
                proof {
                    assert(false);
                }
                (0, 0)
            },
        };
        let child = search_moves_opt(
            next_white,
            next_black,
            !is_white_move,
            depth - 1,
            alpha,
            beta,
            orig_depth,
            cfg,
        );
        let eval = sign_normalize(is_white_move, child.1);
        if eval > best_eval {
            best_orig_eval = child.1;
            best_eval = eval;
            best_move = candidate;
        }
        i = i + 1;
    }
    (best_move, best_orig_eval)
}

/// The root-parallel search: the root's candidates are fully explored in
/// parallel (no pruning at this fan-out, so the choice cannot depend on
/// scheduling), each with a fresh transposition table, and the reduction
/// takes the maximum by sign-normalised value with ties to the first seen.
pub fn search_moves_par(
    white: u64,
    black: u64,
    is_white_move: bool,
    depth: u32,
    alpha: i32,
    beta: i32,
    orig_depth: u32,
    cfg: EvalCfg,
) -> (r: (u64, i32))
    requires
        white & black == 0,
        weight_budget(cfg) <= MAX_WEIGHT_BUDGET,
        depth <= orig_depth,
    ensures
        search_ok(white, black, is_white_move, depth, cfg, r),
{
    proof {
        lemma_flip_sides(white, black);
        lemma_moves_below_sentinels(
            me_of(white, black, is_white_move),
            opp_of(white, black, is_white_move),
        );
        lemma_moves_below_sentinels(
            opp_of(white, black, is_white_move),
            me_of(white, black, is_white_move),
        );
    }
    let status = check_game_status(white, black, is_white_move);
    if status == STATUS_WHITE_WON {
        return (NO_MOVE, LOSS_SCORE);
    } else if status == STATUS_BLACK_WON {
        return (NO_MOVE, WIN_SCORE);
    } else if status == STATUS_DRAW {
        return (NO_MOVE, 0);
    }
    if depth == 0 {
        proof {
            lemma_eval_bounded(white, black, cfg);
        }
        return (NO_MOVE, eval_position_with_cfg(white, black, cfg));
    }
    if status == STATUS_PASS {
        let passed = search_moves_opt(
            white,
            black,
            !is_white_move,
            depth,
            alpha,
            beta,
            orig_depth,
            cfg,
        );
        return (NO_MOVE, passed.1);
    }
    let ghost mm = status;
    let candidates = find_legal_moves_alt(white, black, is_white_move);
    let mut applied: Vec<(u64, u64, u64)> = Vec::new();
    let mut i: usize = 0;
    while i < candidates.len()
        invariant
            white & black == 0,
            mm == moves_all(
                me_of(white, black, is_white_move),
                opp_of(white, black, is_white_move),
            ),
            mm != 0,
            0 <= i <= candidates@.len(),
            applied@.len() == i,
            forall|j: int|
                0 <= j < candidates@.len() ==> is_single_bit(#[trigger] candidates@[j])
                    && candidates@[j] & mm == candidates@[j],
            forall|j: int|
                0 <= j < i ==> (#[trigger] applied@[j]).0 == candidates@[j] && applied@[j].1
                    & applied@[j].2 == 0,
        decreases candidates@.len() - i,
    {
        let candidate = candidates[i];
        proof {
            lemma_flip_sides(white, black);
            lemma_candidate_empty(candidate, mm, white, black, is_white_move);
            lemma_legal_move_flips(
                me_of(white, black, is_white_move),
                opp_of(white, black, is_white_move),
                candidate,
            );
            lemma_child_measure(white, black, candidate, is_white_move);
        }
        let step = apply_move(white, black, candidate, is_white_move);
        let (next_white, next_black) = match step {
            Ok(p) => p,
            Err(_) => {
                proof {
                    assert(false);
                }
                (0, 0)
            },
        };
        applied.push((candidate, next_white, next_black));
        i = i + 1;
    }
    let f = |t: (u64, u64, u64)| -> (res: (u64, i32, i32))
        requires
            t.1 & t.2 == 0,
        ensures
            res.0 == t.0,
            LOSS_SCORE <= res.1 <= WIN_SCORE,
            LOSS_SCORE <= res.2 <= WIN_SCORE,
        { search_root_child(t.0, t.1, t.2, is_white_move, depth, alpha, beta, orig_depth, cfg) };
    let results = par_map(&applied, f);
    let mut best_move: u64 = RESIGN;
    let mut best_eval: i32 = i32::MIN;
    let mut best_orig_eval: i32 = 0;
    let mut j: usize = 0;
    while j < results.len()
        invariant
            mm != 0,
            candidates@.len() > 0,
            applied@.len() == candidates@.len(),
            results@.len() == applied@.len(),
            0 <= j <= results@.len(),
            forall|k: int|
                0 <= k < candidates@.len() ==> is_single_bit(#[trigger] candidates@[k])
                    && candidates@[k] & mm == candidates@[k],
            forall|k: int|
                0 <= k < applied@.len() ==> (#[trigger] applied@[k]).0 == candidates@[k],
            forall|k: int|
                0 <= k < results@.len() ==> call_ensures(f, (applied@[k],), #[trigger] results@[k]),
            forall|x: (u64, u64, u64), y: (u64, i32, i32)|
                #[trigger] call_ensures(f, (x,), y) ==> y.0 == x.0 && LOSS_SCORE <= y.1 <= WIN_SCORE
                    && LOSS_SCORE <= y.2 <= WIN_SCORE,
            (best_move == RESIGN && best_eval == i32::MIN && j == 0) || (is_single_bit(best_move)
                && best_move & mm == best_move && LOSS_SCORE <= best_orig_eval <= WIN_SCORE
                && best_eval > i32::MIN),
        decreases results@.len() - j,
    {
        let entry = results[j];
        if entry.1 > best_eval && entry.0 != 0 {
            best_move = entry.0;
            best_eval = entry.1;
            best_orig_eval = entry.2;
        }
        j = j + 1;
    }
    (best_move, best_orig_eval)
}

/// The sequential search: alpha-beta from the given window, with a fresh
/// transposition table for this call.
pub fn search_moves_opt(
    white: u64,
    black: u64,
    is_white_move: bool,
    depth: u32,
    alpha: i32,
    beta: i32,
    orig_depth: u32,
    cfg: EvalCfg,
) -> (r: (u64, i32))
    requires
        white & black == 0,
        weight_budget(cfg) <= MAX_WEIGHT_BUDGET,
    ensures
        search_ok(white, black, is_white_move, depth, cfg, r),
{
    let zt = ZobristTable::new();
    let mut tt = TranspositionTable::new(16);
    let hash = compute_zobrist_hash(white, black, is_white_move, &zt);
    search_opt_rec(white, black, is_white_move, depth, alpha, beta, orig_depth, cfg, hash, &zt, &mut tt)
}

} // verus!
