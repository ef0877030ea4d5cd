//! Zobrist hashing and the transposition table.
//!
//! A table of 64-bit keys, two per square (one for a white disc, one for a
//! black disc), is drawn once from a deterministically seeded generator so
//! that hashes are stable across runs and processes. The hash of a position
//! is the XOR of the keys of all occupied squares, plus a fixed key when
//! white is to move, and can be updated incrementally from the played square
//! and the flipped mask. The transposition table is a direct-mapped,
//! always-replace cache indexed by the low bits of the hash.

use vstd::prelude::*;

use rand::Rng;
use rand::SeedableRng;

verus! {

/// The seed of the Zobrist key stream.
pub const ZOBRIST_SEED: u64 = 123456789;

/// XORed into the hash of every position where white is to move.
pub const WHITE_TURN_KEY: u64 = 0x9E37_79B9_7F4A_7C15;

/// Number of keys drawn: two per square.
pub const ZOBRIST_KEYS: usize = 128;

/// The probe result that signals a miss; it lies outside any reachable
/// evaluation.
pub const PROBE_MISS_VALUE: i32 = -163840;

/// The stream of values a deterministically seeded generator yields: `n`
/// draws from rand's standard generator seeded with `seed`.
pub uninterp spec fn seeded_stream(seed: u64, n: int) -> Seq<u64>;

/// Relies on rand's `StdRng` (the ChaCha12 generator in the pinned rand
/// version) with `SeedableRng::seed_from_u64` and `Rng::gen`: the stream of
/// draws is a function of the seed alone, on every machine and in every
/// process.
#[verifier::external_body]
fn seeded_randoms(seed: u64, n: usize) -> (r: Vec<u64>)
    ensures
        r@ == seeded_stream(seed, n as int),
        r@.len() == n,
{
    let mut rng = rand::rngs::StdRng::seed_from_u64(seed);
    let mut v: Vec<u64> = Vec::with_capacity(n);
    for _ in 0..n {
        v.push(rng.gen());
    }
    v
}

/// The process-wide table of Zobrist keys: `keys[2 * sq]` hashes a white
/// disc on `sq`, `keys[2 * sq + 1]` a black disc.
pub struct ZobristTable {
    pub keys: Vec<u64>,
}

impl ZobristTable {
    /// The table holds exactly two keys per square.
    pub open spec fn wf(&self) -> bool {
        self.keys@.len() == 128
    }

    /// Draws the key table from the fixed seed.
    pub fn new() -> (r: ZobristTable)
        ensures
            r.wf(),
            r.keys@ == seeded_stream(ZOBRIST_SEED, 128),
    {
        ZobristTable { keys: seeded_randoms(ZOBRIST_SEED, ZOBRIST_KEYS) }
    }
}

/// The key contributed by square `i`: the white key when white occupies it,
/// the black key when black does, zero when it is empty.
pub open spec fn cell_key(white: u64, black: u64, keys: Seq<u64>, i: int) -> u64 {
    if (white >> (i as u64)) & 1 == 1 {
        keys[2 * i]
    } else if (black >> (i as u64)) & 1 == 1 {
        keys[2 * i + 1]
    } else {
        0
    }
}

/// XOR of the cell keys of the squares below `n`.
pub open spec fn zob_upto(white: u64, black: u64, keys: Seq<u64>, n: int) -> u64
    decreases n,
{
    if n <= 0 {
        0
    } else {
        zob_upto(white, black, keys, n - 1) ^ cell_key(white, black, keys, n - 1)
    }
}

/// The full Zobrist hash of a position.
pub open spec fn zobrist_spec(white: u64, black: u64, white_to_move: bool, keys: Seq<u64>) -> u64 {
    zob_upto(white, black, keys, 64) ^ (if white_to_move {
        WHITE_TURN_KEY
    } else {
        0
    })
}

/// The key delta square `i` contributes to an incremental update: the
/// mover's key when the move landed there, XOR the pair of keys when a disc
/// there flipped.
pub open spec fn delta_cell(
    mv: u64,
    flips: u64,
    white_moved: bool,
    keys: Seq<u64>,
    i: int,
) -> u64 {
    (if (mv >> (i as u64)) & 1 == 1 {
        if white_moved {
            keys[2 * i]
        } else {
            keys[2 * i + 1]
        }
    } else {
        0
    }) ^ (if (flips >> (i as u64)) & 1 == 1 {
        keys[2 * i] ^ keys[2 * i + 1]
    } else {
        0
    })
}

/// XOR of the deltas of the squares below `n`.
pub open spec fn delta_upto(mv: u64, flips: u64, white_moved: bool, keys: Seq<u64>, n: int) -> u64
    decreases n,
{
    if n <= 0 {
        0
    } else {
        delta_upto(mv, flips, white_moved, keys, n - 1) ^ delta_cell(
            mv,
            flips,
            white_moved,
            keys,
            n - 1,
        )
    }
}

/// The incrementally updated hash after a move: place the mover's disc,
/// replace the opponent's key by the mover's on every flipped square, and
/// pass the turn.
pub open spec fn update_spec(
    hash: u64,
    mv: u64,
    flips: u64,
    white_moved: bool,
    keys: Seq<u64>,
) -> u64 {
    hash ^ delta_upto(mv, flips, white_moved, keys, 64) ^ WHITE_TURN_KEY
}

/// Computes the Zobrist hash of a position from scratch.
pub fn compute_zobrist_hash(white: u64, black: u64, white_to_move: bool, zt: &ZobristTable) -> (r:
    u64)
    requires
        zt.wf(),
    ensures
        r == zobrist_spec(white, black, white_to_move, zt.keys@),
{
    let mut hash: u64 = 0;
    let mut cell: usize = 0;
    while cell < 64
        invariant
            zt.wf(),
            0 <= cell <= 64,
            hash == zob_upto(white, black, zt.keys@, cell as int),
        decreases 64 - cell,
    {
        let k: u64 = if (white >> (cell as u64)) & 1 == 1 {
            zt.keys[2 * cell]
        } else if (black >> (cell as u64)) & 1 == 1 {
            zt.keys[2 * cell + 1]
        } else {
            0
        };
        hash = hash ^ k;
        cell = cell + 1;
    }
    if white_to_move {
        hash ^ WHITE_TURN_KEY
    } else {
        proof {
            crate::board::lemma_bit_identities(hash);
        }
        hash
    }
}

/// Updates a position's hash incrementally from the played square and the
/// flipped mask, in time linear in the board rather than in the position's
/// discs.
pub fn update_zobrist_hash(hash: u64, mv: u64, flips: u64, white_moved: bool, zt: &ZobristTable)
    -> (r: u64)
    requires
        zt.wf(),
    ensures
        r == update_spec(hash, mv, flips, white_moved, zt.keys@),
{
    let mut acc: u64 = 0;
    let mut cell: usize = 0;
    while cell < 64
        invariant
            zt.wf(),
            0 <= cell <= 64,
            acc == delta_upto(mv, flips, white_moved, zt.keys@, cell as int),
        decreases 64 - cell,
    {
        let m: u64 = if (mv >> (cell as u64)) & 1 == 1 {
            if white_moved {
                zt.keys[2 * cell]
            } else {
                zt.keys[2 * cell + 1]
            }
        } else {
            0
        };
        let f: u64 = if (flips >> (cell as u64)) & 1 == 1 {
            zt.keys[2 * cell] ^ zt.keys[2 * cell + 1]
        } else {
            0
        };
        acc = acc ^ (m ^ f);
        cell = cell + 1;
    }
    hash ^ acc ^ WHITE_TURN_KEY
}

proof fn lemma_xor_shuffle(a: u64, b: u64, c: u64, d: u64)
    ensures
        (a ^ b) ^ (c ^ d) == (a ^ c) ^ (b ^ d),
{
    assert((a ^ b) ^ (c ^ d) == (a ^ c) ^ (b ^ d)) by (bit_vector);
}

proof fn lemma_delta_upto_applies(
    white: u64,
    black: u64,
    w2: u64,
    b2: u64,
    mv: u64,
    f: u64,
    white_moved: bool,
    keys: Seq<u64>,
    n: int,
)
    requires
        white & black == 0,
        mv & (white | black) == 0,
        n <= 64,
        white_moved ==> w2 == (white | mv | f) && b2 == (black & !f) && f & black == f,
        !white_moved ==> b2 == (black | mv | f) && w2 == (white & !f) && f & white == f,
    ensures
        zob_upto(w2, b2, keys, n) == zob_upto(white, black, keys, n) ^ delta_upto(
            mv,
            f,
            white_moved,
            keys,
            n,
        ),
    decreases n,
{
    if n <= 0 {
        crate::board::lemma_bit_identities(0);
    } else {
        lemma_delta_upto_applies(white, black, w2, b2, mv, f, white_moved, keys, n - 1);
        let k = (n - 1) as u64;
        let kw = keys[2 * (n - 1)];
        let kb = keys[2 * (n - 1) + 1];
        if white_moved {
            assert((if (w2 >> k) & 1 == 1 {
                kw
            } else if (b2 >> k) & 1 == 1 {
                kb
            } else {
                0u64
            }) == (if (white >> k) & 1 == 1 {
                kw
            } else if (black >> k) & 1 == 1 {
                kb
            } else {
                0u64
            }) ^ ((if (mv >> k) & 1 == 1 {
                kw
            } else {
                0u64
            }) ^ (if (f >> k) & 1 == 1 {
                kw ^ kb
            } else {
                0u64
            }))) by (bit_vector)
                requires
                    white & black == 0 && mv & (white | black) == 0 && w2 == (white | mv | f) && b2
                        == (black & !f) && f & black == f,
            ;
        } else {
            assert((if (w2 >> k) & 1 == 1 {
                kw
            } else if (b2 >> k) & 1 == 1 {
                kb
            } else {
                0u64
            }) == (if (white >> k) & 1 == 1 {
                kw
            } else if (black >> k) & 1 == 1 {
                kb
            } else {
                0u64
            }) ^ ((if (mv >> k) & 1 == 1 {
                kb
            } else {
                0u64
            }) ^ (if (f >> k) & 1 == 1 {
                kw ^ kb
            } else {
                0u64
            }))) by (bit_vector)
                requires
                    white & black == 0 && mv & (white | black) == 0 && b2 == (black | mv | f) && w2
                        == (white & !f) && f & white == f,
            ;
        }
        lemma_xor_shuffle(
            zob_upto(white, black, keys, n - 1),
            delta_upto(mv, f, white_moved, keys, n - 1),
            cell_key(white, black, keys, n - 1),
            delta_cell(mv, f, white_moved, keys, n - 1),
        );
    }
}

/// Zobrist consistency: after any move application, updating the previous
/// position's hash incrementally from the played square and the flipped mask
/// equals recomputing the hash of the resulting position from scratch.
pub proof fn lemma_incremental_hash(
    white: u64,
    black: u64,
    is_white_move: bool,
    mv: u64,
    keys: Seq<u64>,
)
    requires
        white & black == 0,
        mv & (white | black) == 0,
    ensures
        ({
            let me = crate::board::me_of(white, black, is_white_move);
            let opp = crate::board::opp_of(white, black, is_white_move);
            let f = crate::board::flips_all(me, opp, mv);
            let r = crate::board::apply_result(white, black, mv, is_white_move);
            update_spec(zobrist_spec(white, black, is_white_move, keys), mv, f, is_white_move, keys)
                == zobrist_spec(r.0, r.1, !is_white_move, keys)
        }),
{
    crate::board::lemma_apply_keeps_position_legal(white, black, mv, is_white_move);
    let me = crate::board::me_of(white, black, is_white_move);
    let opp = crate::board::opp_of(white, black, is_white_move);
    let f = crate::board::flips_all(me, opp, mv);
    let r = crate::board::apply_result(white, black, mv, is_white_move);
    lemma_delta_upto_applies(white, black, r.0, r.1, mv, f, is_white_move, keys, 64);
    let z = zob_upto(white, black, keys, 64);
    let d = delta_upto(mv, f, is_white_move, keys, 64);
    if is_white_move {
        assert(((z ^ WHITE_TURN_KEY) ^ d) ^ WHITE_TURN_KEY == (z ^ d) ^ 0) by (bit_vector);
    } else {
        assert(((z ^ 0) ^ d) ^ WHITE_TURN_KEY == (z ^ d) ^ WHITE_TURN_KEY) by (bit_vector);
    }
}

/// The bound kind a transposition entry carries.
#[derive(Clone, Copy, Debug, PartialEq, Eq, Structural)]
pub enum TTFlag {
    /// The stored value is the node's exact result.
    Exact,
    /// The stored value is a lower bound (the node cut off while black moved).
    AlphaBound,
    /// The stored value is an upper bound (the node cut off while white moved).
    BetaBound,
    /// The slot is empty.
    NotFound,
}

/// One transposition slot: the full hash it was stored under, the bound
/// kind, the value, and the best move found.
#[derive(Clone, Copy)]
pub struct TTEntry {
    pub key: u64,
    pub flag: TTFlag,
    pub value: i32,
    pub best_move: u64,
}

impl Default for TTEntry {
    /// The empty slot.
    fn default() -> (r: Self)
        ensures
            r.key == 0 && r.flag == TTFlag::NotFound && r.value == 0 && r.best_move == 0,
    {
        TTEntry { key: 0, flag: TTFlag::NotFound, value: 0, best_move: 0 }
    }
}

/// A direct-mapped, always-replace transposition table with `2^size` slots,
/// indexed by the low `size` bits of the hash.
pub struct TranspositionTable {
    pub entries: Vec<TTEntry>,
    pub size: usize,
}

/// The slot the hash maps to.
pub open spec fn slot_of(hash: u64, size: usize) -> int {
    (hash & (((1u64 << (size as u64)) - 1) as u64)) as int
}

impl TranspositionTable {
    /// The table has exactly `2^size` slots and every filled slot holds a
    /// value inside the mate band.
    pub open spec fn wf(&self) -> bool {
        &&& self.size < 32
        &&& self.entries@.len() == (1u64 << (self.size as u64)) as int
        &&& forall|i: int|
            0 <= i < self.entries@.len() && (#[trigger] self.entries@[i]).flag != TTFlag::NotFound
                ==> -10000 <= self.entries@[i].value <= 10000
    }

    /// An empty table with `2^size` slots.
    pub fn new(size: usize) -> (r: Self)
        requires
            size < 24,
        ensures
            r.wf(),
            r.size == size,
            r.entries@.len() == (1u64 << (size as u64)) as int,
            forall|i: int|
                0 <= i < r.entries@.len() ==> (#[trigger] r.entries@[i]) == (TTEntry {
                    key: 0,
                    flag: TTFlag::NotFound,
                    value: 0,
                    best_move: 0,
                }),
    {
        let n: usize = 1usize << size;
        proof {
            assert(1usize << size >= 1 && (1usize << size) as int == (1u64 << (size as u64)) as int)
                by (bit_vector)
                requires
                    size < 24usize,
            ;
        }
        let mut entries: Vec<TTEntry> = Vec::with_capacity(n);
        let mut i: usize = 0;
        while i < n
            invariant
                0 <= i <= n,
                entries@.len() == i,
                forall|j: int|
                    0 <= j < i ==> (#[trigger] entries@[j]) == (TTEntry {
                        key: 0,
                        flag: TTFlag::NotFound,
                        value: 0,
                        best_move: 0,
                    }),
            decreases n - i,
        {
            entries.push(TTEntry::default());
            i = i + 1;
        }
        TranspositionTable { entries, size }
    }

    /// Stores an entry, unconditionally overwriting the slot.
    pub fn insert_position(&mut self, hash: u64, eval: i32, kind: TTFlag, mv: u64)
        requires
            old(self).wf(),
            -10000 <= eval <= 10000,
        ensures
            final(self).wf(),
            final(self).size == old(self).size,
            final(self).entries@ == old(self).entries@.update(
                slot_of(hash, old(self).size),
                TTEntry { key: hash, flag: kind, value: eval, best_move: mv },
            ),
    {
        let index = find_index(hash, self.size);
        proof {
            assert(self.entries@.len() == (1u64 << (self.size as u64)) as int);
        }
        self.entries[index] = TTEntry { key: hash, flag: kind, value: eval, best_move: mv };
    }

    /// What a probe yields: the stored value and move on a usable hit, the
    /// miss sentinel otherwise. A stored bound is usable only when it already
    /// decides the node against the caller's window.
    pub open spec fn probe_spec(&self, hash: u64, alpha: i32, beta: i32) -> (i32, u64) {
        let e = self.entries@[slot_of(hash, self.size)];
        if e.key != hash {
            (PROBE_MISS_VALUE, 0)
        } else {
            match e.flag {
                TTFlag::NotFound => (PROBE_MISS_VALUE, 0),
                TTFlag::Exact => (e.value, e.best_move),
                TTFlag::AlphaBound => if e.value >= beta {
                    (e.value, e.best_move)
                } else {
                    (PROBE_MISS_VALUE, 0)
                },
                TTFlag::BetaBound => if e.value <= alpha {
                    (e.value, e.best_move)
                } else {
                    (PROBE_MISS_VALUE, 0)
                },
            }
        }
    }

    /// Looks the hash up; on a usable hit the returned value lies in the
    /// mate band, so a miss is always distinguishable.
    pub fn probe(&mut self, hash: u64, alpha: i32, beta: i32) -> (r: (i32, u64))
        requires
            old(self).wf(),
        ensures
            *final(self) == *old(self),
            r == old(self).probe_spec(hash, alpha, beta),
            r.0 != PROBE_MISS_VALUE ==> -10000 <= r.0 <= 10000,
    {
        let index = find_index(hash, self.size);
        let entry = self.entries[index];
        if entry.key != hash {
            return (PROBE_MISS_VALUE, 0);
        }
        match entry.flag {
            TTFlag::NotFound => (PROBE_MISS_VALUE, 0),
            TTFlag::Exact => (entry.value, entry.best_move),
            TTFlag::AlphaBound => {
                if entry.value >= beta {
                    (entry.value, entry.best_move)
                } else {
                    (PROBE_MISS_VALUE, 0)
                }
            },
            TTFlag::BetaBound => {
                if entry.value <= alpha {
                    (entry.value, entry.best_move)
                } else {
                    (PROBE_MISS_VALUE, 0)
                }
            },
        }
    }
}

/// The slot index: the hash masked to the table's low `size` bits.
fn find_index(hash: u64, size: usize) -> (r: usize)
    requires
        size < 32,
    ensures
        r as int == slot_of(hash, size),
        r < (1u64 << (size as u64)),
{
    proof {
        assert({
            let m = ((1u64 << (size as u64)) - 1) as u64;
            hash & m <= m && m < (1u64 << (size as u64)) && (1u64 << (size as u64)) >= 1 && (1u64
                << (size as u64)) <= 0x8000_0000u64
        }) by (bit_vector)
            requires
                size < 32usize,
        ;
    }
    (hash & ((1u64 << (size as u64)) - 1)) as usize
}

} // verus!
