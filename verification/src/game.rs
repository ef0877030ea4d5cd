//! Whole-game drivers: playing a game out between two weight
//! configurations, comparing configurations over a generated position set,
//! and generating the opening book.

use vstd::prelude::*;

use crate::board::{
    apply_move, apply_ok, apply_result, check_game_status, empties, find_legal_moves_alt,
    flips_all, me_of, opp_of, status_spec, STATUS_BLACK_WON, STATUS_DRAW, STATUS_PASS,
    STATUS_WHITE_WON,
};
use crate::board::{lemma_apply_keeps_position_legal, lemma_moves_below_sentinels};
use crate::board::{is_single_bit, moves_all, lemma_legal_move_flips};
use crate::engine::{
    lemma_candidate_empty, lemma_flip_sides, no_move_rank, search_moves_opt, search_moves_par,
};
use crate::eval::{default_cfg, weight_budget, EvalCfg};
use crate::openingbook::{
    book_has, flip_position_horizontal, flip_position_vertical, hflip64, hflip_pos, lookup,
    rot64, rot_pos, rotate_position_90, vflip64, vflip_pos, OpeningBook, Position,
};

verus! {

/// The standard starting position: black on d5 and e4, white on d4 and e5,
/// black to move.
pub fn starting_position() -> (r: Position)
    ensures
        r.black == 0x0000_0008_1000_0000u64,
        r.white == 0x0000_0010_0800_0000u64,
        r.white_to_move == false,
        r.black & r.white == 0,
        r.white & r.black == 0,
{
    proof {
        assert(0x0000_0008_1000_0000u64 & 0x0000_0010_0800_0000u64 == 0
            && 0x0000_0010_0800_0000u64 & 0x0000_0008_1000_0000u64 == 0) by (bit_vector);
    }
    Position {
        black: 0x0000_0008_1000_0000u64,
        white: 0x0000_0010_0800_0000u64,
        white_to_move: false,
    }
}

proof fn lemma_zero_move_no_flips(me: u64, opp: u64)
    ensures
        flips_all(me, opp, 0) == 0,
{
    assert(flips_all(me, opp, 0) == 0) by (bit_vector);
}

proof fn lemma_game_step(white: u64, black: u64, mv: u64, is_white_move: bool)
    requires
        white & black == 0,
        apply_ok(white, black, mv, is_white_move),
    ensures
        ({
            let r = apply_result(white, black, mv, is_white_move);
            r.0 & r.1 == 0 && empties(r.0, r.1) < empties(white, black)
        }),
{
    lemma_zero_move_no_flips(
        me_of(white, black, is_white_move),
        opp_of(white, black, is_white_move),
    );
    lemma_apply_keeps_position_legal(white, black, mv, is_white_move);
    let r = apply_result(white, black, mv, is_white_move);
    assert(!((white | black) | mv) < !(white | black)) by (bit_vector)
        requires
            mv != 0 && mv & (white | black) == 0,
    ;
    assert((r.0 | r.1) == (white | black | mv));
}

/// The position after playing `mv` on `mid`.
pub open spec fn move_child(mid: Position, mv: u64) -> Position {
    let r = apply_result(mid.white, mid.black, mv, mid.white_to_move);
    Position { black: r.1, white: r.0, white_to_move: !mid.white_to_move }
}

/// One step of a legal playout: the side to move passes (the board is
/// unchanged and the turn is handed over), or one legal single-square move
/// is applied.
pub open spec fn play_step(a: Position, b: Position) -> bool {
    ||| (status_spec(a.white, a.black, a.white_to_move) == STATUS_PASS && b == (Position {
        black: a.black,
        white: a.white,
        white_to_move: !a.white_to_move,
    }))
    ||| (exists|mv: u64|
        is_single_bit(mv) && apply_ok(a.white, a.black, mv, a.white_to_move) && b == move_child(
            a,
            mv,
        ))
}

/// A legal playout: consecutive positions related by passes or legal moves.
pub open spec fn play_trace_ok(t: Seq<Position>) -> bool {
    forall|i: int| 0 <= i < t.len() - 1 ==> play_step(#[trigger] t[i], t[i + 1])
}

/// The finished game at `s` is won by the side `r` names: 1 for black, -1
/// for white, 0 for a draw.
pub open spec fn terminal_outcome(s: Position, r: i32) -> bool {
    let st = status_spec(s.white, s.black, s.white_to_move);
    ||| (st == STATUS_BLACK_WON && r == 1)
    ||| (st == STATUS_WHITE_WON && r == -1)
    ||| (st == STATUS_DRAW && r == 0)
}

/// `r` is the disc-count winner of some legal playout from `pos` to a
/// finished game.
pub open spec fn playout_result(pos: Position, r: i32) -> bool {
    exists|t: Seq<Position>|
        t.len() >= 1 && t[0] == pos && play_trace_ok(t) && terminal_outcome(t[t.len() - 1], r)
}

/// `q` is reached from `p` by exactly `k` legal single-square moves.
pub open spec fn reach(p: Position, q: Position, k: nat) -> bool
    decreases k,
{
    if k == 0 {
        q == p
    } else {
        exists|mid: Position, mv: u64|
            reach(p, mid, (k - 1) as nat) && is_single_bit(mv) && mv & moves_all(
                me_of(mid.white, mid.black, mid.white_to_move),
                opp_of(mid.white, mid.black, mid.white_to_move),
            ) == mv && q == move_child(mid, mv)
    }
}

proof fn lemma_push_contains<T>(s: Seq<T>, e: T, x: T)
    requires
        s.contains(x),
    ensures
        s.push(e).contains(x),
{
    let k = choose|k: int| 0 <= k < s.len() && s[k] == x;
    assert(s.push(e)[k] == x);
}

/// Plays one game out from `pos`: black searches with `first`, white with
/// `second`, both to the given depth. Returns 1 when black wins, -1 when
/// white wins, 0 on a draw or when a searcher fails to produce a playable
/// move. At any positive depth the result is the winner of the legal
/// playout the two searchers produced.
pub fn play_game_from_position(first: EvalCfg, second: EvalCfg, depth: u32, pos: Position) -> (r:
    i32)
    requires
        pos.white & pos.black == 0,
        weight_budget(first) <= crate::engine::MAX_WEIGHT_BUDGET,
        weight_budget(second) <= crate::engine::MAX_WEIGHT_BUDGET,
    ensures
        -1 <= r <= 1,
        status_spec(pos.white, pos.black, pos.white_to_move) == STATUS_BLACK_WON ==> r == 1,
        status_spec(pos.white, pos.black, pos.white_to_move) == STATUS_WHITE_WON ==> r == -1,
        status_spec(pos.white, pos.black, pos.white_to_move) == STATUS_DRAW ==> r == 0,
        depth >= 1 ==> playout_result(pos, r),
{
    let mut white = pos.white;
    let mut black = pos.black;
    let mut white_to_move = pos.white_to_move;
    let mut first_round = true;
    let ghost mut trace: Seq<Position> = seq![pos];
    loop
        invariant
            white & black == 0,
            weight_budget(first) <= crate::engine::MAX_WEIGHT_BUDGET,
            weight_budget(second) <= crate::engine::MAX_WEIGHT_BUDGET,
            first_round ==> white == pos.white && black == pos.black && white_to_move
                == pos.white_to_move,
            !first_round ==> status_spec(pos.white, pos.black, pos.white_to_move)
                != STATUS_BLACK_WON && status_spec(pos.white, pos.black, pos.white_to_move)
                != STATUS_WHITE_WON && status_spec(pos.white, pos.black, pos.white_to_move)
                != STATUS_DRAW,
            depth >= 1 ==> trace.len() >= 1 && trace[0] == pos && play_trace_ok(trace)
                && trace[trace.len() - 1] == (Position { black, white, white_to_move }),
        decreases empties(white, black), no_move_rank(white, black, white_to_move),
    {
        proof {
            lemma_moves_below_sentinels(
                me_of(white, black, white_to_move),
                opp_of(white, black, white_to_move),
            );
            lemma_moves_below_sentinels(
                opp_of(white, black, white_to_move),
                me_of(white, black, white_to_move),
            );
        }
        let status = check_game_status(white, black, white_to_move);
        if status == STATUS_PASS {
            let ghost prev = Position { black, white, white_to_move };
            let ghost t0 = trace;
            white_to_move = !white_to_move;
            first_round = false;
            proof {
                if depth >= 1 {
                    let nxt = Position { black, white, white_to_move };
                    assert(play_step(prev, nxt));
                    trace = t0.push(nxt);
                    assert forall|i: int| 0 <= i < trace.len() - 1 implies play_step(
                        #[trigger] trace[i],
                        trace[i + 1],
                    ) by {
                        if i < t0.len() - 1 {
                            assert(trace[i] == t0[i] && trace[i + 1] == t0[i + 1]);
                        } else {
                            assert(trace[i] == prev && trace[i + 1] == nxt);
                        }
                    }
                }
            }
        } else if status == STATUS_BLACK_WON {
            proof {
                if depth >= 1 {
                    assert(terminal_outcome(trace[trace.len() - 1], 1));
                    assert(playout_result(pos, 1));
                }
            }
            return 1;
        } else if status == STATUS_WHITE_WON {
            proof {
                if depth >= 1 {
                    assert(terminal_outcome(trace[trace.len() - 1], -1i32));
                    assert(playout_result(pos, -1i32));
                }
            }
            return -1;
        } else if status == STATUS_DRAW {
            proof {
                if depth >= 1 {
                    assert(terminal_outcome(trace[trace.len() - 1], 0));
                    assert(playout_result(pos, 0));
                }
            }
            return 0;
        } else {
            let curr_cfg = if white_to_move {
                second
            } else {
                first
            };
            let found = search_moves_opt(
                white,
                black,
                white_to_move,
                depth,
                -20000,
                20000,
                depth,
                curr_cfg,
            );
            match apply_move(white, black, found.0, white_to_move) {
                Ok(p) => {
                    proof {
                        lemma_game_step(white, black, found.0, white_to_move);
                    }
                    let ghost prev = Position { black, white, white_to_move };
                    let ghost t0 = trace;
                    let ghost mv = found.0;
                    white = p.0;
                    black = p.1;
                    white_to_move = !white_to_move;
                    first_round = false;
                    proof {
                        if depth >= 1 {
                            let nxt = Position { black, white, white_to_move };
                            assert(is_single_bit(mv) && apply_ok(
                                prev.white,
                                prev.black,
                                mv,
                                prev.white_to_move,
                            ) && nxt == move_child(prev, mv));
                            assert(play_step(prev, nxt));
                            trace = t0.push(nxt);
                            assert forall|i: int| 0 <= i < trace.len() - 1 implies play_step(
                                #[trigger] trace[i],
                                trace[i + 1],
                            ) by {
                                if i < t0.len() - 1 {
                                    assert(trace[i] == t0[i] && trace[i + 1] == t0[i + 1]);
                                } else {
                                    assert(trace[i] == prev && trace[i + 1] == nxt);
                                }
                            }
                        }
                    }
                },
                Err(_) => {
                    proof {
                        if depth >= 1 {
                            lemma_flip_sides(white, black);
                            lemma_candidate_empty(found.0, status, white, black, white_to_move);
                            lemma_legal_move_flips(
                                me_of(white, black, white_to_move),
                                opp_of(white, black, white_to_move),
                                found.0,
                            );
                            assert(false);
                        }
                    }
                    return 0;
                },
            }
        }
    }
}

/// The sum of the first `n` match scores.
pub open spec fn sum_scores(s: Seq<i32>, n: int) -> int
    decreases n,
{
    if n <= 0 {
        0
    } else {
        sum_scores(s, n - 1) + s[n - 1]
    }
}

/// Adds the per-position match scores up, saturating at the integer limits
/// (which a realistic position set never reaches).
pub fn sum_match_scores(scores: &Vec<i32>) -> (r: i32)
    ensures
        i32::MIN <= sum_scores(scores@, scores@.len() as int) <= i32::MAX ==> r == sum_scores(
            scores@,
            scores@.len() as int,
        ),
{
    let mut acc: i128 = 0;
    let mut i: usize = 0;
    while i < scores.len()
        invariant
            0 <= i <= scores@.len(),
            acc == sum_scores(scores@, i as int),
            -0x8000_0000i128 * (i as i128) <= acc <= 0x8000_0000i128 * (i as i128),
        decreases scores@.len() - i,
    {
        acc = acc + scores[i] as i128;
        i = i + 1;
    }
    if acc > i32::MAX as i128 {
        i32::MAX
    } else if acc < i32::MIN as i128 {
        i32::MIN
    } else {
        acc as i32
    }
}

/// Whether the position is already recorded in the deduplication cache.
fn cache_contains(cache: &Vec<Position>, pos: &Position) -> (r: bool)
    ensures
        r == cache@.contains(*pos),
{
    let n = cache.len();
    let mut i: usize = 0;
    while i < n
        invariant
            n == cache@.len(),
            0 <= i <= n,
            forall|j: int| 0 <= j < i ==> cache@[j] != *pos,
        decreases n - i,
    {
        if cache[i] == *pos {
            return true;
        }
        i = i + 1;
    }
    proof {
        assert(!cache@.contains(*pos));
    }
    false
}

/// Generates the comparison position set: positions reached from the
/// start in exactly six plies, with positions whose symmetry images were
/// already expanded skipped.
pub fn generate_comparison_positions() -> (r: Vec<Position>)
    ensures
        forall|i: int| 0 <= i < r@.len() ==> (#[trigger] r@[i]).white & r@[i].black == 0,
        forall|i: int| 0 <= i < r@.len() ==> reach(start_pos_spec(), #[trigger] r@[i], 6),
{
    let starting_pos = starting_position();
    let mut queue: Vec<Position> = Vec::new();
    let mut dedup_cache: Vec<Position> = Vec::new();
    queue.push(starting_pos);
    let mut ply: u32 = 0;
    while ply < 6
        invariant
            0 <= ply <= 6,
            forall|i: int| 0 <= i < queue@.len() ==> (#[trigger] queue@[i]).white & queue@[i].black
                == 0,
            forall|i: int|
                0 <= i < queue@.len() ==> reach(start_pos_spec(), #[trigger] queue@[i], ply as nat),
        decreases 6 - ply,
    {
        let mut next_queue: Vec<Position> = Vec::new();
        let mut k: usize = 0;
        while k < queue.len()
            invariant
                0 <= ply <= 5,
                forall|i: int|
                    0 <= i < queue@.len() ==> (#[trigger] queue@[i]).white & queue@[i].black == 0,
                forall|i: int|
                    0 <= i < queue@.len() ==> reach(
                        start_pos_spec(),
                        #[trigger] queue@[i],
                        ply as nat,
                    ),
                forall|i: int|
                    0 <= i < next_queue@.len() ==> (#[trigger] next_queue@[i]).white
                        & next_queue@[i].black == 0,
                forall|i: int|
                    0 <= i < next_queue@.len() ==> reach(
                        start_pos_spec(),
                        #[trigger] next_queue@[i],
                        (ply + 1) as nat,
                    ),
                0 <= k <= queue@.len(),
            decreases queue@.len() - k,
        {
            let pos = queue[k];
            if !cache_contains(&dedup_cache, &pos) {
                let next_moves = find_legal_moves_alt(pos.white, pos.black, pos.white_to_move);
                let mut mi: usize = 0;
                while mi < next_moves.len()
                    invariant
                        0 <= ply <= 5,
                        pos.white & pos.black == 0,
                        reach(start_pos_spec(), pos, ply as nat),
                        forall|i: int|
                            0 <= i < next_moves@.len() ==> is_single_bit(#[trigger] next_moves@[i])
                                && next_moves@[i] & moves_all(
                                me_of(pos.white, pos.black, pos.white_to_move),
                                opp_of(pos.white, pos.black, pos.white_to_move),
                            ) == next_moves@[i],
                        forall|i: int|
                            0 <= i < next_queue@.len() ==> (#[trigger] next_queue@[i]).white
                                & next_queue@[i].black == 0,
                        forall|i: int|
                            0 <= i < next_queue@.len() ==> reach(
                                start_pos_spec(),
                                #[trigger] next_queue@[i],
                                (ply + 1) as nat,
                            ),
                        0 <= mi <= next_moves@.len(),
                    decreases next_moves@.len() - mi,
                {
                    let next_move = next_moves[mi];
                    match apply_move(pos.white, pos.black, next_move, pos.white_to_move) {
                        Ok(p) => {
                            proof {
                                lemma_game_step(pos.white, pos.black, next_move, pos.white_to_move);
                            }
                            let new_pos = Position {
                                black: p.1,
                                white: p.0,
                                white_to_move: !pos.white_to_move,
                            };
                            proof {
                                assert(new_pos == move_child(pos, next_move));
                                assert(reach(start_pos_spec(), new_pos, (ply + 1) as nat));
                            }
                            let mut img = pos;
                            let mut rot_i: u32 = 0;
                            while rot_i < 4
                                decreases 4 - rot_i,
                            {
                                dedup_cache.push(img);
                                dedup_cache.push(flip_position_vertical(&img));
                                dedup_cache.push(flip_position_horizontal(&img));
                                img = rotate_position_90(&img);
                                rot_i = rot_i + 1;
                            }
                            next_queue.push(new_pos);
                        },
                        Err(_) => {},
                    }
                    mi = mi + 1;
                }
            }
            k = k + 1;
        }
        queue = next_queue;
        ply = ply + 1;
    }
    queue
}

/// One comparison score explained: twice the difference of two playout
/// outcomes of the position.
pub open spec fn score_explained(p: Position, s: i32) -> bool {
    exists|a: i32, b: i32|
        -1 <= a <= 1 && -1 <= b <= 1 && s == 2 * a - 2 * b && playout_result(p, a)
            && playout_result(p, b)
}

/// The comparator's result `r` explained: one score per compared position,
/// every position six legal plies from the start, every score twice the
/// difference of two playout outcomes of that position (one with each
/// configuration as black), and `r` their sum.
pub open spec fn comparison_outcome(ps: Seq<Position>, g: Seq<i32>, depth: u32, r: i32) -> bool {
    &&& g.len() == ps.len()
    &&& forall|i: int| 0 <= i < ps.len() ==> reach(start_pos_spec(), #[trigger] ps[i], 6)
    &&& forall|i: int| 0 <= i < g.len() ==> -4 <= #[trigger] g[i] <= 4
    &&& depth >= 1 ==> forall|i: int|
        0 <= i < g.len() ==> score_explained(ps[i], #[trigger] g[i])
    &&& (i32::MIN <= sum_scores(g, g.len() as int) <= i32::MAX ==> r == sum_scores(
        g,
        g.len() as int,
    ))
}

/// Compares two weight configurations: every comparison position is played
/// out twice at the given depth, once with each configuration as black, and
/// the per-position scores (twice the game outcomes, so each lies between
/// -4 and 4) are added up in parallel order. Positive favours `first`.
pub fn compare_configs(first: EvalCfg, second: EvalCfg, depth: u32) -> (r: i32)
    requires
        weight_budget(first) <= crate::engine::MAX_WEIGHT_BUDGET,
        weight_budget(second) <= crate::engine::MAX_WEIGHT_BUDGET,
    ensures
        exists|ps: Seq<Position>, g: Seq<i32>| comparison_outcome(ps, g, depth, r),
{
    let queue = generate_comparison_positions();
    let f = (|p: Position| -> (res: i32)
        requires
            p.white & p.black == 0,
            weight_budget(first) <= crate::engine::MAX_WEIGHT_BUDGET,
            weight_budget(second) <= crate::engine::MAX_WEIGHT_BUDGET,
        ensures
            -4 <= res <= 4,
            depth >= 1 ==> score_explained(p, res),
        {
            let a = play_game_from_position(first, second, depth, p);
            let b = play_game_from_position(second, first, depth, p);
            let res = 2 * a - 2 * b;
            proof {
                if depth >= 1 {
                    assert(-1 <= a <= 1 && -1 <= b <= 1 && res == 2 * a - 2 * b && playout_result(
                        p,
                        a,
                    ) && playout_result(p, b));
                }
            }
            res
        });
    let scores = crate::engine::par_map(&queue, f);
    let ghost g = scores@;
    let total = sum_match_scores(&scores);
    proof {
        assert forall|i: int| 0 <= i < g.len() implies -4 <= #[trigger] g[i] <= 4 by {
            assert(call_ensures(f, (queue@[i],), g[i]));
        }
        if depth >= 1 {
            assert forall|i: int| 0 <= i < g.len() implies score_explained(
                queue@[i],
                #[trigger] g[i],
            ) by {
                assert(call_ensures(f, (queue@[i],), g[i]));
            }
        }
        assert(comparison_outcome(queue@, g, depth, total));
    }
    total
}

/// The eight dihedral images of `pos` are all recorded, each with the
/// correspondingly transformed suggestion.
pub open spec fn symmetry_covered(
    s: Seq<(crate::openingbook::Position, crate::openingbook::BookEntry)>,
    pos: Position,
    m: u64,
) -> bool {
    &&& book_has(s, pos, m)
    &&& book_has(s, rot_pos(pos), rot64(m))
    &&& book_has(s, rot_pos(rot_pos(pos)), rot64(rot64(m)))
    &&& book_has(s, rot_pos(rot_pos(rot_pos(pos))), rot64(rot64(rot64(m))))
    &&& book_has(s, vflip_pos(rot_pos(pos)), vflip64(rot64(m)))
    &&& book_has(s, hflip_pos(rot_pos(pos)), hflip64(rot64(m)))
    &&& book_has(s, vflip_pos(rot_pos(rot_pos(pos))), vflip64(rot64(rot64(m))))
    &&& book_has(s, hflip_pos(rot_pos(rot_pos(pos))), hflip64(rot64(rot64(m))))
}

/// The starting position, at the specification level.
pub open spec fn start_pos_spec() -> Position {
    Position {
        black: 0x0000_0008_1000_0000u64,
        white: 0x0000_0010_0800_0000u64,
        white_to_move: false,
    }
}

/// Continues generating an opening book into an already loaded one, so an
/// interrupted generation can resume. Layers of positions are explored
/// breadth-first from the start: each position the book does not yet hold
/// is searched at `calculation_depth` and its best move recorded under all
/// eight symmetries; layers below `full_depth` enqueue every child, later
/// layers only the best-move child. Nothing stored is lost, and every
/// position within reach of the fully explored layers receives an entry.
#[verifier::rlimit(60)]
pub fn generate_opening_book_from(
    initial: OpeningBook,
    calculation_depth: u32,
    full_depth: u32,
    partial_depth: u32,
) -> (r: OpeningBook)
    requires
        initial.wf(),
    ensures
        r.wf(),
        partial_depth >= 1 && lookup(initial.entries@, start_pos_spec()) is None ==> exists|m: u64|
            symmetry_covered(r.entries@, start_pos_spec(), m),
        partial_depth >= 1 ==> lookup(r.entries@, start_pos_spec()) is Some,
        forall|q: Position, j: nat|
            j < partial_depth && j <= full_depth && #[trigger] reach(start_pos_spec(), q, j)
                ==> lookup(r.entries@, q) is Some,
        forall|q: Position|
            lookup(initial.entries@, q) is Some ==> #[trigger] lookup(r.entries@, q) is Some,
{
    let ghost init_entries = initial.entries@;
    let starting_pos = starting_position();
    let mut book = initial;
    let mut queue: Vec<Position> = Vec::new();
    queue.push(starting_pos);
    proof {
        assert(queue@[0] == start_pos_spec());
        assert forall|q: Position| reach(start_pos_spec(), q, 0nat) implies queue@.contains(
            q,
        ) by {
            assert(queue@[0] == q);
        }
    }
    let mut layer: u32 = 0;
    while layer < partial_depth
        invariant
            book.wf(),
            forall|i: int| 0 <= i < queue@.len() ==> (#[trigger] queue@[i]).white & queue@[i].black
                == 0,
            layer == 0 ==> queue@.len() == 1 && queue@[0] == start_pos_spec()
                && book.entries@ == init_entries,
            layer >= 1 ==> (lookup(init_entries, start_pos_spec()) is None ==> exists|m: u64|
                symmetry_covered(book.entries@, start_pos_spec(), m)) && lookup(
                book.entries@,
                start_pos_spec(),
            ) is Some,
            forall|q: Position|
                lookup(init_entries, q) is Some ==> #[trigger] lookup(book.entries@, q) is Some,
            forall|q: Position, j: nat|
                j < layer && j <= full_depth && #[trigger] reach(start_pos_spec(), q, j)
                    ==> lookup(book.entries@, q) is Some,
            layer <= full_depth ==> forall|q: Position|
                #[trigger] reach(start_pos_spec(), q, layer as nat) ==> queue@.contains(q),
        decreases partial_depth - layer,
    {
        let mut next_queue: Vec<Position> = Vec::new();
        let mut k: usize = 0;
        while k < queue.len()
            invariant
                book.wf(),
                forall|i: int|
                    0 <= i < queue@.len() ==> (#[trigger] queue@[i]).white & queue@[i].black == 0,
                forall|i: int|
                    0 <= i < next_queue@.len() ==> (#[trigger] next_queue@[i]).white
                        & next_queue@[i].black == 0,
                0 <= k <= queue@.len(),
                layer == 0 ==> queue@.len() == 1 && queue@[0] == start_pos_spec(),
                layer == 0 && k == 0 ==> book.entries@ == init_entries,
                layer >= 1 || k >= 1 ==> (lookup(init_entries, start_pos_spec()) is None
                    ==> exists|m: u64| symmetry_covered(book.entries@, start_pos_spec(), m))
                    && lookup(book.entries@, start_pos_spec()) is Some,
                forall|q: Position|
                    lookup(init_entries, q) is Some ==> #[trigger] lookup(
                        book.entries@,
                        q,
                    ) is Some,
                forall|q: Position, j: nat|
                    j < layer && j <= full_depth && #[trigger] reach(start_pos_spec(), q, j)
                        ==> lookup(book.entries@, q) is Some,
                forall|j: int|
                    0 <= j < k ==> #[trigger] lookup(book.entries@, queue@[j]) is Some,
                layer < full_depth ==> forall|j: int, mv: u64|
                    0 <= j < k && is_single_bit(mv) && mv & moves_all(
                        me_of(queue@[j].white, queue@[j].black, queue@[j].white_to_move),
                        opp_of(queue@[j].white, queue@[j].black, queue@[j].white_to_move),
                    ) == mv ==> #[trigger] next_queue@.contains(move_child(queue@[j], mv)),
            decreases queue@.len() - k,
        {
            let pos = queue[k];
            let cached = book.get(&pos);
            let is_cached = match cached {
                Some(_) => true,
                None => false,
            };
            if !is_cached {
                let found = search_moves_par(
                    pos.white,
                    pos.black,
                    pos.white_to_move,
                    calculation_depth,
                    -20000,
                    20000,
                    calculation_depth,
                    default_cfg(),
                );
                let ghost pre_entries = book.entries@;
                book.insert_all_rotations(pos, found.0);
                proof {
                    if layer >= 1 || k >= 1 {
                        if lookup(init_entries, start_pos_spec()) is None {
                            let m0 = choose|m0: u64|
                                symmetry_covered(pre_entries, start_pos_spec(), m0);
                            assert(symmetry_covered(book.entries@, start_pos_spec(), m0));
                        }
                    } else {
                        assert(symmetry_covered(book.entries@, start_pos_spec(), found.0));
                    }
                }
                if layer >= full_depth {
                    match apply_move(pos.white, pos.black, found.0, pos.white_to_move) {
                        Ok(p) => {
                            proof {
                                lemma_game_step(pos.white, pos.black, found.0, pos.white_to_move);
                            }
                            next_queue.push(
                                Position {
                                    black: p.1,
                                    white: p.0,
                                    white_to_move: !pos.white_to_move,
                                },
                            );
                        },
                        Err(_) => {},
                    }
                }
            }
            let next_moves = find_legal_moves_alt(pos.white, pos.black, pos.white_to_move);
            if layer < full_depth {
                let mut mi: usize = 0;
                while mi < next_moves.len()
                    invariant
                        pos.white & pos.black == 0,
                        pos == queue@[k as int],
                        0 <= k < queue@.len(),
                        layer < full_depth,
                        forall|i: int|
                            0 <= i < next_moves@.len() ==> is_single_bit(#[trigger] next_moves@[i])
                                && next_moves@[i] & moves_all(
                                me_of(pos.white, pos.black, pos.white_to_move),
                                opp_of(pos.white, pos.black, pos.white_to_move),
                            ) == next_moves@[i],
                        forall|b: u64|
                            is_single_bit(b) && b & moves_all(
                                me_of(pos.white, pos.black, pos.white_to_move),
                                opp_of(pos.white, pos.black, pos.white_to_move),
                            ) == b ==> next_moves@.contains(b),
                        forall|i: int|
                            0 <= i < next_queue@.len() ==> (#[trigger] next_queue@[i]).white
                                & next_queue@[i].black == 0,
                        forall|j: int, mv: u64|
                            0 <= j < k && is_single_bit(mv) && mv & moves_all(
                                me_of(queue@[j].white, queue@[j].black, queue@[j].white_to_move),
                                opp_of(queue@[j].white, queue@[j].black, queue@[j].white_to_move),
                            ) == mv ==> #[trigger] next_queue@.contains(move_child(queue@[j], mv)),
                        forall|m2: int|
                            0 <= m2 < mi ==> #[trigger] next_queue@.contains(
                                move_child(pos, next_moves@[m2]),
                            ),
                        0 <= mi <= next_moves@.len(),
                    decreases next_moves@.len() - mi,
                {
                    let next_move = next_moves[mi];
                    proof {
                        lemma_flip_sides(pos.white, pos.black);
                        lemma_candidate_empty(
                            next_move,
                            moves_all(
                                me_of(pos.white, pos.black, pos.white_to_move),
                                opp_of(pos.white, pos.black, pos.white_to_move),
                            ),
                            pos.white,
                            pos.black,
                            pos.white_to_move,
                        );
                        lemma_legal_move_flips(
                            me_of(pos.white, pos.black, pos.white_to_move),
                            opp_of(pos.white, pos.black, pos.white_to_move),
                            next_move,
                        );
                    }
                    match apply_move(pos.white, pos.black, next_move, pos.white_to_move) {
                        Ok(p) => {
                            proof {
                                lemma_game_step(pos.white, pos.black, next_move, pos.white_to_move);
                            }
                            let new_pos = Position {
                                black: p.1,
                                white: p.0,
                                white_to_move: !pos.white_to_move,
                            };
                            let ghost nq0 = next_queue@;
                            next_queue.push(new_pos);
                            proof {
                                assert(new_pos == move_child(pos, next_move));
                                assert forall|j: int, mv: u64|
                                    0 <= j < k && is_single_bit(mv) && mv & moves_all(
                                        me_of(
                                            queue@[j].white,
                                            queue@[j].black,
                                            queue@[j].white_to_move,
                                        ),
                                        opp_of(
                                            queue@[j].white,
                                            queue@[j].black,
                                            queue@[j].white_to_move,
                                        ),
                                    ) == mv implies #[trigger] next_queue@.contains(
                                    move_child(queue@[j], mv),
                                ) by {
                                    lemma_push_contains(nq0, new_pos, move_child(queue@[j], mv));
                                }
                                assert forall|m2: int|
                                    0 <= m2 < mi + 1 implies #[trigger] next_queue@.contains(
                                    move_child(pos, next_moves@[m2]),
                                ) by {
                                    if m2 < mi {
                                        lemma_push_contains(
                                            nq0,
                                            new_pos,
                                            move_child(pos, next_moves@[m2]),
                                        );
                                    } else {
                                        assert(next_queue@[nq0.len() as int] == new_pos);
                                    }
                                }
                            }
                        },
                        Err(_) => {
                            proof {
                                assert(false);
                            }
                        },
                    }
                    mi = mi + 1;
                }
                proof {
                    assert forall|mv: u64|
                        is_single_bit(mv) && mv & moves_all(
                            me_of(pos.white, pos.black, pos.white_to_move),
                            opp_of(pos.white, pos.black, pos.white_to_move),
                        ) == mv implies #[trigger] next_queue@.contains(
                        move_child(queue@[k as int], mv),
                    ) by {
                        let m2 = choose|m2: int|
                            0 <= m2 < next_moves@.len() && next_moves@[m2] == mv;
                        assert(next_queue@.contains(move_child(pos, next_moves@[m2])));
                    }
                }
            }
            k = k + 1;
        }
        proof {
            assert forall|q: Position, j: nat|
                j < layer + 1 && j <= full_depth && #[trigger] reach(start_pos_spec(), q, j)
                    implies lookup(book.entries@, q) is Some by {
                if j == layer {
                    assert(queue@.contains(q));
                    let j0 = choose|j0: int| 0 <= j0 < queue@.len() && queue@[j0] == q;
                    assert(lookup(book.entries@, queue@[j0]) is Some);
                }
            }
            if layer + 1 <= full_depth {
                assert forall|q: Position|
                    reach(start_pos_spec(), q, (layer + 1) as nat) implies next_queue@.contains(
                    q,
                ) by {
                    let (mid, mv) = choose|mid: Position, mv: u64|
                        reach(start_pos_spec(), mid, ((layer + 1) as nat - 1) as nat)
                            && is_single_bit(mv) && mv & moves_all(
                            me_of(mid.white, mid.black, mid.white_to_move),
                            opp_of(mid.white, mid.black, mid.white_to_move),
                        ) == mv && q == move_child(mid, mv);
                    assert(reach(start_pos_spec(), mid, layer as nat));
                    assert(queue@.contains(mid));
                    let j0 = choose|j0: int| 0 <= j0 < queue@.len() && queue@[j0] == mid;
                    assert(next_queue@.contains(move_child(queue@[j0], mv)));
                }
            }
        }
        queue = next_queue;
        layer = layer + 1;
    }
    book
}

/// Generates an opening book in memory, starting empty. Layers of
/// positions are explored breadth-first from the start: each uncached
/// position is searched at `calculation_depth` and its best move recorded
/// under all eight symmetries; layers below `full_depth` enqueue every
/// child, later layers only the best-move child. Every position within
/// reach of the fully explored layers receives an entry, and when at least
/// one layer runs the starting position and all its symmetry images are
/// covered.
pub fn generate_opening_book(calculation_depth: u32, full_depth: u32, partial_depth: u32) -> (r:
    OpeningBook)
    ensures
        r.wf(),
        partial_depth >= 1 ==> exists|m: u64| symmetry_covered(r.entries@, start_pos_spec(), m),
        forall|q: Position, j: nat|
            j < partial_depth && j <= full_depth && #[trigger] reach(start_pos_spec(), q, j)
                ==> lookup(r.entries@, q) is Some,
{
    let empty = OpeningBook::new();
    generate_opening_book_from(empty, calculation_depth, full_depth, partial_depth)
}

} // verus!