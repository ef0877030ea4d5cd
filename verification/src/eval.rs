//! The positional evaluator: a linear sum of four weighted square-class
//! popcounts plus the raw disc count, per side, with the result expressed as
//! black minus white. Black maximises, white minimises, throughout the
//! engine.

use vstd::prelude::*;

use crate::board::{pc64, pc_upto, popcount};

verus! {

/// The four corner squares.
pub const CORNER_MASK: u64 = 0x8100_0000_0000_0081;

/// The squares adjacent to the corners (along edges and diagonals).
pub const EDGE_MASK: u64 = 0x42C3_0000_0000_C342;

/// The C-squares: edge squares adjacent to a corner.
pub const ANTIEDGE_MASK: u64 = 0x4281_0000_0000_8142;

/// The X-squares: squares diagonally adjacent to a corner.
pub const ANTICORNER_MASK: u64 = 0x0042_0000_0000_4200;

/// The evaluation weights of the four square classes.
#[derive(Clone, Copy)]
pub struct EvalCfg {
    pub corner_value: i32,
    pub edge_value: i32,
    pub antiedge_value: i32,
    pub anticorner_value: i32,
}

/// The magnitude of a weight.
pub open spec fn abs_w(x: i32) -> int {
    if x >= 0 {
        x as int
    } else {
        -(x as int)
    }
}

/// True when every weight magnitude is at most `b`.
pub open spec fn eval_weights_bounded(cfg: EvalCfg, b: int) -> bool {
    abs_w(cfg.corner_value) <= b && abs_w(cfg.edge_value) <= b && abs_w(cfg.antiedge_value) <= b
        && abs_w(cfg.anticorner_value) <= b
}

/// The largest magnitude one side's weighted class terms can reach, by the
/// popcounts of the four class masks.
pub open spec fn weight_budget(cfg: EvalCfg) -> int {
    4 * abs_w(cfg.corner_value) + 12 * abs_w(cfg.edge_value) + 8 * abs_w(cfg.antiedge_value) + 4
        * abs_w(cfg.anticorner_value)
}

/// One side's score: weighted class counts plus the raw disc count.
pub open spec fn side_score(bits: u64, cfg: EvalCfg) -> int {
    pc64(bits & CORNER_MASK) * cfg.corner_value + pc64(bits & EDGE_MASK) * cfg.edge_value + pc64(
        bits,
    ) + pc64(bits & ANTIEDGE_MASK) * cfg.antiedge_value + pc64(bits & ANTICORNER_MASK)
        * cfg.anticorner_value
}

/// The evaluation of a position, from black's perspective.
pub open spec fn eval_spec(white: u64, black: u64, cfg: EvalCfg) -> int {
    side_score(black, cfg) - side_score(white, cfg)
}

/// The weights the engine plays with.
pub open spec fn default_cfg_spec() -> EvalCfg {
    EvalCfg { corner_value: 70, edge_value: 17, antiedge_value: -22i32, anticorner_value: -34i32 }
}

/// The weights of the legacy evaluation: corners 10, corner-adjacent squares
/// 5, nothing else.
pub open spec fn legacy_cfg_spec() -> EvalCfg {
    EvalCfg { corner_value: 10, edge_value: 5, antiedge_value: 0, anticorner_value: 0 }
}

/// The weights the engine plays with, as a value.
pub fn default_cfg() -> (r: EvalCfg)
    ensures
        r == default_cfg_spec(),
{
    EvalCfg { corner_value: 70, edge_value: 17, antiedge_value: -22, anticorner_value: -34 }
}

proof fn lemma_pc_upto_bound(x: u64, n: int)
    ensures
        0 <= pc_upto(x, n) <= (if n >= 0 {
            n
        } else {
            0
        }),
    decreases n,
{
    if n > 0 {
        lemma_pc_upto_bound(x, n - 1);
    }
}

/// The popcount of any bitmap lies between 0 and 64.
pub proof fn lemma_pc64_bound(x: u64)
    ensures
        0 <= pc64(x) <= 64,
{
    lemma_pc_upto_bound(x, 64);
}

proof fn lemma_term_bound(p: int, w: i32, c: int)
    requires
        0 <= p <= c,
        0 <= c,
    ensures
        -(c * abs_w(w)) <= p * w <= c * abs_w(w),
{
    assert(-(c * abs_w(w)) <= p * w <= c * abs_w(w)) by (nonlinear_arith)
        requires
            0 <= p <= c && (w >= 0 ==> abs_w(w) == w) && (w < 0 ==> abs_w(w) == -(w as int)),
    ;
}

proof fn lemma_side_score_bound(bits: u64, cfg: EvalCfg)
    ensures
        -weight_budget(cfg) <= side_score(bits, cfg) <= weight_budget(cfg) + 64,
{
    lemma_pc64_bound(bits);
    assert(0 <= pc64(bits & 0x8100_0000_0000_0081u64) <= 4) by (bit_vector);
    assert(0 <= pc64(bits & 0x42C3_0000_0000_C342u64) <= 12) by (bit_vector);
    assert(0 <= pc64(bits & 0x4281_0000_0000_8142u64) <= 8) by (bit_vector);
    assert(0 <= pc64(bits & 0x0042_0000_0000_4200u64) <= 4) by (bit_vector);
    lemma_term_bound(pc64(bits & CORNER_MASK), cfg.corner_value, 4);
    lemma_term_bound(pc64(bits & EDGE_MASK), cfg.edge_value, 12);
    lemma_term_bound(pc64(bits & ANTIEDGE_MASK), cfg.antiedge_value, 8);
    lemma_term_bound(pc64(bits & ANTICORNER_MASK), cfg.anticorner_value, 4);
}

/// The evaluation is bounded by twice one side's largest score: with weights
/// within the engine's band, it stays well inside the mate scores.
pub proof fn lemma_eval_bounded(white: u64, black: u64, cfg: EvalCfg)
    ensures
        -(weight_budget(cfg) + 64) - weight_budget(cfg) <= eval_spec(white, black, cfg)
            <= weight_budget(cfg) + 64 + weight_budget(cfg),
{
    lemma_side_score_bound(white, cfg);
    lemma_side_score_bound(black, cfg);
}

/// The evaluation of a position under the given weights, from black's
/// perspective.
pub fn eval_position_with_cfg(white: u64, black: u64, eval_cfg: EvalCfg) -> (r: i32)
    requires
        eval_weights_bounded(eval_cfg, 1_000_000),
    ensures
        r == eval_spec(white, black, eval_cfg),
{
    let white_score = side_score_exec(white, eval_cfg);
    let black_score = side_score_exec(black, eval_cfg);
    proof {
        lemma_side_score_bound(white, eval_cfg);
        lemma_side_score_bound(black, eval_cfg);
    }
    black_score - white_score
}

fn side_score_exec(bits: u64, cfg: EvalCfg) -> (r: i32)
    requires
        eval_weights_bounded(cfg, 1_000_000),
    ensures
        r == side_score(bits, cfg),
{
    let pc_c = popcount(bits & CORNER_MASK);
    let pc_e = popcount(bits & EDGE_MASK);
    let pc_d = popcount(bits);
    let pc_ae = popcount(bits & ANTIEDGE_MASK);
    let pc_ac = popcount(bits & ANTICORNER_MASK);
    proof {
        lemma_term_bound(pc_c as int, cfg.corner_value, 64);
        lemma_term_bound(pc_e as int, cfg.edge_value, 64);
        lemma_term_bound(pc_ae as int, cfg.antiedge_value, 64);
        lemma_term_bound(pc_ac as int, cfg.anticorner_value, 64);
    }
    pc_c as i32 * cfg.corner_value + pc_e as i32 * cfg.edge_value + pc_d as i32 + pc_ae as i32
        * cfg.antiedge_value + pc_ac as i32 * cfg.anticorner_value
}

/// The legacy evaluation: corners weigh 10, corner-adjacent squares 5, plus
/// the raw disc count, black minus white.
pub fn eval_position(white: u64, black: u64) -> (r: i32)
    ensures
        r == eval_spec(white, black, legacy_cfg_spec()),
{
    eval_position_with_cfg(
        white,
        black,
        EvalCfg { corner_value: 10, edge_value: 5, antiedge_value: 0, anticorner_value: 0 },
    )
}

} // verus!
