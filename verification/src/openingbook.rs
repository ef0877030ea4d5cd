//! The opening book: a mapping from positions to ordered, deduplicated
//! move suggestions, with all eight dihedral images of a position inserted
//! on write so that lookup needs no canonicalization.
//!
//! Rotation maps the square at rank `r`, file `c` to rank `c`, file `7 - r`;
//! the vertical flip swaps ranks and the horizontal flip reverses files.
//! Each is computed on whole bitmaps by constant-time bit permutations.

use vstd::prelude::*;

use crate::board::is_single_bit;

verus! {

/// A board position: the two disc bitmaps and the side to move.
#[derive(Clone, Copy, PartialEq, Eq, Structural, Debug)]
pub struct Position {
    pub black: u64,
    pub white: u64,
    pub white_to_move: bool,
}

/// A move suggestion bitmap.
pub type MoveMask = u64;

/// Reverses the files within every rank: the horizontal flip of a bitmap.
pub open spec fn hflip64(x: u64) -> u64 {
    let a = ((x >> 1) & 0x5555_5555_5555_5555) | ((x & 0x5555_5555_5555_5555) << 1);
    let b = ((a >> 2) & 0x3333_3333_3333_3333) | ((a & 0x3333_3333_3333_3333) << 2);
    ((b >> 4) & 0x0F0F_0F0F_0F0F_0F0F) | ((b & 0x0F0F_0F0F_0F0F_0F0F) << 4)
}

/// Reverses the order of the ranks: the vertical flip of a bitmap.
pub open spec fn vflip64(x: u64) -> u64 {
    let a = ((x >> 8) & 0x00FF_00FF_00FF_00FF) | ((x & 0x00FF_00FF_00FF_00FF) << 8);
    let b = ((a >> 16) & 0x0000_FFFF_0000_FFFF) | ((a & 0x0000_FFFF_0000_FFFF) << 16);
    (b >> 32) | (b << 32)
}

/// Mirrors a bitmap across the a1-h8 diagonal.
pub open spec fn transpose64(x: u64) -> u64 {
    let t1 = (x ^ (x >> 7)) & 0x00AA_00AA_00AA_00AA;
    let x1 = x ^ t1 ^ (t1 << 7);
    let t2 = (x1 ^ (x1 >> 14)) & 0x0000_CCCC_0000_CCCC;
    let x2 = x1 ^ t2 ^ (t2 << 14);
    let t3 = (x2 ^ (x2 >> 28)) & 0x0000_0000_F0F0_F0F0;
    x2 ^ t3 ^ (t3 << 28)
}

/// Rotates a bitmap a quarter turn: the square at rank `r`, file `c` moves
/// to rank `c`, file `7 - r`.
pub open spec fn rot64(x: u64) -> u64 {
    hflip64(transpose64(x))
}

/// Rotates a quarter turn, as executable code.
pub fn rotate90(b: u64) -> (r: u64)
    ensures
        r == rot64(b),
{
    let t1 = (b ^ (b >> 7)) & 0x00AA_00AA_00AA_00AA;
    let x1 = b ^ t1 ^ (t1 << 7);
    let t2 = (x1 ^ (x1 >> 14)) & 0x0000_CCCC_0000_CCCC;
    let x2 = x1 ^ t2 ^ (t2 << 14);
    let t3 = (x2 ^ (x2 >> 28)) & 0x0000_0000_F0F0_F0F0;
    let tr = x2 ^ t3 ^ (t3 << 28);
    flip_horizontal(tr)
}

/// Vertical flip, as executable code.
pub fn flip_vertical(x: u64) -> (r: u64)
    ensures
        r == vflip64(x),
{
    let a = ((x >> 8) & 0x00FF_00FF_00FF_00FF) | ((x & 0x00FF_00FF_00FF_00FF) << 8);
    let b = ((a >> 16) & 0x0000_FFFF_0000_FFFF) | ((a & 0x0000_FFFF_0000_FFFF) << 16);
    (b >> 32) | (b << 32)
}

/// Horizontal flip, as executable code.
pub fn flip_horizontal(x: u64) -> (r: u64)
    ensures
        r == hflip64(x),
{
    let a = ((x >> 1) & 0x5555_5555_5555_5555) | ((x & 0x5555_5555_5555_5555) << 1);
    let b = ((a >> 2) & 0x3333_3333_3333_3333) | ((a & 0x3333_3333_3333_3333) << 2);
    ((b >> 4) & 0x0F0F_0F0F_0F0F_0F0F) | ((b & 0x0F0F_0F0F_0F0F_0F0F) << 4)
}

proof fn lemma_transpose_involution(y: u64)
    ensures
        transpose64(transpose64(y)) == y,
{
    assert(transpose64(transpose64(y)) == y) by (bit_vector);
}

proof fn lemma_hflip_involution(y: u64)
    ensures
        hflip64(hflip64(y)) == y,
{
    assert(hflip64(hflip64(y)) == y) by (bit_vector);
}

proof fn lemma_vflip_involution(y: u64)
    ensures
        vflip64(vflip64(y)) == y,
{
    assert(vflip64(vflip64(y)) == y) by (bit_vector);
}

proof fn lemma_t_h_t(y: u64)
    ensures
        transpose64(hflip64(transpose64(y))) == vflip64(y),
{
    assert(transpose64(hflip64(transpose64(y))) == vflip64(y)) by (bit_vector);
}

proof fn lemma_flips_commute(y: u64)
    ensures
        hflip64(vflip64(y)) == vflip64(hflip64(y)),
{
    assert(hflip64(vflip64(y)) == vflip64(hflip64(y))) by (bit_vector);
}

proof fn lemma_t_v(y: u64)
    ensures
        transpose64(vflip64(y)) == hflip64(transpose64(y)),
{
    assert(transpose64(vflip64(y)) == hflip64(transpose64(y))) by (bit_vector);
}

/// Both flips are involutions, and four quarter turns are the identity.
pub proof fn lemma_dihedral_laws(x: u64)
    ensures
        hflip64(hflip64(x)) == x,
        vflip64(vflip64(x)) == x,
        rot64(rot64(rot64(rot64(x)))) == x,
{
    lemma_hflip_involution(x);
    lemma_vflip_involution(x);
    let r1 = rot64(x);
    let r2 = rot64(r1);
    let r3 = rot64(r2);
    lemma_t_h_t(x);
    assert(transpose64(r1) == vflip64(x));
    lemma_flips_commute(x);
    assert(r2 == hflip64(vflip64(x)));
    assert(r2 == vflip64(hflip64(x)));
    lemma_t_v(hflip64(x));
    assert(transpose64(r2) == hflip64(transpose64(hflip64(x))));
    lemma_hflip_involution(transpose64(hflip64(x)));
    assert(r3 == hflip64(hflip64(transpose64(hflip64(x)))));
    assert(r3 == transpose64(hflip64(x)));
    lemma_transpose_involution(hflip64(x));
    assert(rot64(r3) == hflip64(transpose64(transpose64(hflip64(x)))));
    assert(rot64(r3) == hflip64(hflip64(x)));
}

/// The horizontal flip is the vertical flip of the half turn: with the
/// rotation identity this writes each of the four reflections as a vertical
/// flip of a rotation.
pub proof fn lemma_hflip_is_vflip_of_half_turn(x: u64)
    ensures
        hflip64(x) == vflip64(rot64(rot64(x))),
{
    lemma_t_h_t(x);
    lemma_flips_commute(x);
    assert(rot64(rot64(x)) == vflip64(hflip64(x)));
    lemma_vflip_involution(hflip64(x));
}

/// A rotated position: both bitmaps rotated, the turn unchanged.
pub open spec fn rot_pos(p: Position) -> Position {
    Position { black: rot64(p.black), white: rot64(p.white), white_to_move: p.white_to_move }
}

/// A vertically flipped position.
pub open spec fn vflip_pos(p: Position) -> Position {
    Position { black: vflip64(p.black), white: vflip64(p.white), white_to_move: p.white_to_move }
}

/// A horizontally flipped position.
pub open spec fn hflip_pos(p: Position) -> Position {
    Position { black: hflip64(p.black), white: hflip64(p.white), white_to_move: p.white_to_move }
}

/// The dihedral laws lifted to positions: four quarter turns are the
/// identity, and the horizontal flip is the vertical flip of the half turn.
pub proof fn lemma_pos_symmetries(p: Position)
    ensures
        rot_pos(rot_pos(rot_pos(rot_pos(p)))) == p,
        hflip_pos(p) == vflip_pos(rot_pos(rot_pos(p))),
{
    lemma_dihedral_laws(p.black);
    lemma_dihedral_laws(p.white);
    lemma_hflip_is_vflip_of_half_turn(p.black);
    lemma_hflip_is_vflip_of_half_turn(p.white);
}

/// Rotates a position a quarter turn.
pub fn rotate_position_90(pos: &Position) -> (r: Position)
    ensures
        r == rot_pos(*pos),
{
    Position {
        black: rotate90(pos.black),
        white: rotate90(pos.white),
        white_to_move: pos.white_to_move,
    }
}

/// Rotates a move bitmap a quarter turn.
pub fn rotate_move_90(m: MoveMask) -> (r: MoveMask)
    ensures
        r == rot64(m),
{
    rotate90(m)
}

/// Flips a position vertically.
pub fn flip_position_vertical(pos: &Position) -> (r: Position)
    ensures
        r == vflip_pos(*pos),
{
    Position {
        black: flip_vertical(pos.black),
        white: flip_vertical(pos.white),
        white_to_move: pos.white_to_move,
    }
}

/// Flips a position horizontally.
pub fn flip_position_horizontal(pos: &Position) -> (r: Position)
    ensures
        r == hflip_pos(*pos),
{
    Position {
        black: flip_horizontal(pos.black),
        white: flip_horizontal(pos.white),
        white_to_move: pos.white_to_move,
    }
}

/// Flips a move bitmap vertically.
pub fn flip_move_vertical(m: MoveMask) -> (r: MoveMask)
    ensures
        r == vflip64(m),
{
    flip_vertical(m)
}

/// Flips a move bitmap horizontally.
pub fn flip_move_horizontal(m: MoveMask) -> (r: MoveMask)
    ensures
        r == hflip64(m),
{
    flip_horizontal(m)
}

/// The suggestions stored for one position: deduplicated, in insertion
/// order.
#[derive(Clone, Debug)]
pub struct BookEntry {
    pub suggested_moves: Vec<MoveMask>,
}

/// The opening book: a mapping from positions to entries, stored as a
/// vector of pairs with pairwise distinct positions.
#[derive(Debug)]
pub struct OpeningBook {
    pub entries: Vec<(Position, BookEntry)>,
}

/// The suggestions stored under `pos`: those of its first (and, in a
/// well-formed book, only) occurrence.
pub open spec fn lookup(s: Seq<(Position, BookEntry)>, pos: Position) -> Option<Seq<MoveMask>>
    decreases s.len(),
{
    if s.len() == 0 {
        None
    } else if s[0].0 == pos {
        Some(s[0].1.suggested_moves@)
    } else {
        lookup(s.drop_first(), pos)
    }
}

/// No position occurs twice.
pub open spec fn book_unique(s: Seq<(Position, BookEntry)>) -> bool {
    forall|a: int, b: int| 0 <= a < b < s.len() ==> (#[trigger] s[a]).0 != (#[trigger] s[b]).0
}

/// The book suggests `v` for `pos`.
pub open spec fn book_has(s: Seq<(Position, BookEntry)>, pos: Position, v: MoveMask) -> bool {
    lookup(s, pos) matches Some(ms) && ms.contains(v)
}

proof fn lemma_lookup_at(s: Seq<(Position, BookEntry)>, pos: Position, i: int)
    requires
        0 <= i < s.len(),
        s[i].0 == pos,
        forall|j: int| 0 <= j < i ==> (#[trigger] s[j]).0 != pos,
    ensures
        lookup(s, pos) == Some(s[i].1.suggested_moves@),
    decreases i,
{
    if i > 0 {
        lemma_lookup_at(s.drop_first(), pos, i - 1);
    }
}

proof fn lemma_lookup_none(s: Seq<(Position, BookEntry)>, pos: Position)
    requires
        forall|j: int| 0 <= j < s.len() ==> (#[trigger] s[j]).0 != pos,
    ensures
        lookup(s, pos) is None,
    decreases s.len(),
{
    if s.len() > 0 {
        lemma_lookup_none(s.drop_first(), pos);
    }
}

proof fn lemma_lookup_push(s: Seq<(Position, BookEntry)>, pair: (Position, BookEntry), q: Position)
    ensures
        lookup(s, q) is Some ==> lookup(s.push(pair), q) == lookup(s, q),
        lookup(s, q) is None && q == pair.0 ==> lookup(s.push(pair), q) == Some(
            pair.1.suggested_moves@,
        ),
        lookup(s, q) is None && q != pair.0 ==> lookup(s.push(pair), q) is None,
    decreases s.len(),
{
    if s.len() == 0 {
        assert(s.push(pair).drop_first() =~= s);
    } else {
        lemma_lookup_push(s.drop_first(), pair, q);
        assert(s.push(pair).drop_first() =~= s.drop_first().push(pair));
    }
}

proof fn lemma_lookup_update(
    s: Seq<(Position, BookEntry)>,
    i: int,
    pair: (Position, BookEntry),
    q: Position,
)
    requires
        0 <= i < s.len(),
        pair.0 == s[i].0,
        forall|j: int| 0 <= j < i ==> (#[trigger] s[j]).0 != s[i].0,
    ensures
        lookup(s.update(i, pair), pair.0) == Some(pair.1.suggested_moves@),
        q != pair.0 ==> lookup(s.update(i, pair), q) == lookup(s, q),
    decreases i,
{
    if i == 0 {
        assert(s.update(0, pair).drop_first() =~= s.drop_first());
    } else {
        lemma_lookup_update(s.drop_first(), i - 1, pair, q);
        assert(s.update(i, pair).drop_first() =~= s.drop_first().update(i - 1, pair));
    }
}

impl OpeningBook {
    /// A book is well formed when its positions are pairwise distinct.
    pub open spec fn wf(&self) -> bool {
        book_unique(self.entries@)
    }

    /// The empty book.
    pub fn new() -> (r: OpeningBook)
        ensures
            r.wf(),
            r.entries@.len() == 0,
    {
        OpeningBook { entries: Vec::new() }
    }

    /// Records `move_mask` as a suggestion for `pos`: appended to the
    /// position's entry unless already present, in a fresh entry when the
    /// position is new. Every other position's suggestions are unchanged.
    pub fn insert_position(&mut self, pos: Position, move_mask: MoveMask)
        requires
            old(self).wf(),
        ensures
            final(self).wf(),
            lookup(final(self).entries@, pos) == Some(
                match lookup(old(self).entries@, pos) {
                    Option::None => seq![move_mask],
                    Option::Some(ms) => if ms.contains(move_mask) {
                        ms
                    } else {
                        ms.push(move_mask)
                    },
                },
            ),
            forall|q: Position|
                q != pos ==> #[trigger] lookup(final(self).entries@, q) == lookup(
                    old(self).entries@,
                    q,
                ),
            book_has(final(self).entries@, pos, move_mask),
            forall|q: Position, v: MoveMask|
                book_has(old(self).entries@, q, v) ==> #[trigger] book_has(
                    final(self).entries@,
                    q,
                    v,
                ),
    {
        let ghost s0 = self.entries@;
        let n = self.entries.len();
        let mut i: usize = 0;
        while i < n
            invariant
                self.entries@ == s0,
                s0 == old(self).entries@,
                book_unique(s0),
                n == s0.len(),
                0 <= i <= n,
                forall|j: int| 0 <= j < i ==> (#[trigger] s0[j]).0 != pos,
            decreases n - i,
        {
            if self.entries[i].0 == pos {
                proof {
                    lemma_lookup_at(self.entries@, pos, i as int);
                }
                let mut moves = self.entries[i].1.suggested_moves.clone();
                proof {
                    assert(moves@ =~= self.entries@[i as int].1.suggested_moves@);
                }
                let present = contains_move(&moves, move_mask);
                if !present {
                    moves.push(move_mask);
                }
                let entry = BookEntry { suggested_moves: moves };
                let p = self.entries[i].0;
                self.entries[i] = (p, entry);
                proof {
                    assert forall|q: Position| true implies #[trigger] lookup(
                        self.entries@,
                        q,
                    ) == (if q == pos {
                        Some(
                            match lookup(s0, pos) {
                                Option::None => seq![move_mask],
                                Option::Some(ms) => if ms.contains(move_mask) {
                                    ms
                                } else {
                                    ms.push(move_mask)
                                },
                            },
                        )
                    } else {
                        lookup(s0, q)
                    }) by {
                        lemma_lookup_update(s0, i as int, self.entries@[i as int], q);
                    }
                    let ms = s0[i as int].1.suggested_moves@;
                    if !ms.contains(move_mask) {
                        assert(ms.push(move_mask)[ms.len() as int] == move_mask);
                        assert(ms.push(move_mask).contains(move_mask));
                    }
                    assert forall|q: Position, v: MoveMask|
                        book_has(s0, q, v) implies #[trigger] book_has(
                        self.entries@,
                        q,
                        v,
                    ) by {
                        if q == pos && !ms.contains(move_mask) {
                            let k = choose|k: int| 0 <= k < ms.len() && ms[k] == v;
                            assert(ms.push(move_mask)[k] == v);
                            assert(ms.push(move_mask).contains(v));
                        }
                    }
                }
                return ;
            }
            i = i + 1;
        }
        proof {
            lemma_lookup_none(self.entries@, pos);
        }
        let mut moves: Vec<MoveMask> = Vec::new();
        moves.push(move_mask);
        let entry = BookEntry { suggested_moves: moves };
        proof {
            assert(entry.suggested_moves@ =~= seq![move_mask]);
        }
        self.entries.push((pos, entry));
        proof {
            assert forall|q: Position| true implies #[trigger] lookup(self.entries@, q) == (if q
                == pos {
                Some(seq![move_mask])
            } else {
                lookup(s0, q)
            }) by {
                lemma_lookup_push(s0, self.entries@[s0.len() as int], q);
            }
            assert(seq![move_mask][0] == move_mask);
            assert(seq![move_mask].contains(move_mask));
        }
    }

    /// The stored entry for exactly this position, if any; all symmetries
    /// are stored explicitly, so no canonicalization happens here.
    pub fn get(&self, pos: &Position) -> (r: Option<&BookEntry>)
        ensures
            match r {
                Option::Some(e) => lookup(self.entries@, *pos) == Some(e.suggested_moves@),
                Option::None => lookup(self.entries@, *pos) is None,
            },
    {
        let n = self.entries.len();
        let mut i: usize = 0;
        while i < n
            invariant
                n == self.entries@.len(),
                0 <= i <= n,
                forall|j: int| 0 <= j < i ==> (#[trigger] self.entries@[j]).0 != *pos,
            decreases n - i,
        {
            if self.entries[i].0 == *pos {
                proof {
                    lemma_lookup_at(self.entries@, *pos, i as int);
                }
                return Some(&self.entries[i].1);
            }
            i = i + 1;
        }
        proof {
            lemma_lookup_none(self.entries@, *pos);
        }
        None
    }

    /// Records the suggestion under all eight dihedral images of the
    /// position, each with the correspondingly transformed move: the four
    /// rotations, and the four reflections (which arise as vertical and
    /// horizontal flips of the first and second rotation). Every position
    /// outside the eight images keeps its suggestions unchanged, and no
    /// stored position loses its entry.
    pub fn insert_all_rotations(&mut self, pos: Position, move_mask: MoveMask)
        requires
            old(self).wf(),
        ensures
            final(self).wf(),
            forall|q: Position|
                lookup(old(self).entries@, q) is Some ==> #[trigger] lookup(
                    final(self).entries@,
                    q,
                ) is Some,
            forall|q: Position|
                q != pos && q != rot_pos(pos) && q != rot_pos(rot_pos(pos)) && q != rot_pos(
                    rot_pos(rot_pos(pos)),
                ) && q != vflip_pos(pos) && q != vflip_pos(rot_pos(pos)) && q != vflip_pos(
                    rot_pos(rot_pos(pos)),
                ) && q != vflip_pos(rot_pos(rot_pos(rot_pos(pos)))) ==> #[trigger] lookup(
                    final(self).entries@,
                    q,
                ) == lookup(old(self).entries@, q),
            book_has(final(self).entries@, pos, move_mask),
            book_has(final(self).entries@, rot_pos(pos), rot64(move_mask)),
            book_has(final(self).entries@, rot_pos(rot_pos(pos)), rot64(rot64(move_mask))),
            book_has(
                final(self).entries@,
                rot_pos(rot_pos(rot_pos(pos))),
                rot64(rot64(rot64(move_mask))),
            ),
            book_has(final(self).entries@, vflip_pos(rot_pos(pos)), vflip64(rot64(move_mask))),
            book_has(final(self).entries@, hflip_pos(rot_pos(pos)), hflip64(rot64(move_mask))),
            book_has(
                final(self).entries@,
                vflip_pos(rot_pos(rot_pos(pos))),
                vflip64(rot64(rot64(move_mask))),
            ),
            book_has(
                final(self).entries@,
                hflip_pos(rot_pos(rot_pos(pos))),
                hflip64(rot64(rot64(move_mask))),
            ),
            forall|q: Position, v: MoveMask|
                book_has(old(self).entries@, q, v) ==> #[trigger] book_has(
                    final(self).entries@,
                    q,
                    v,
                ),
    {
        let mut p = pos;
        let mut m = move_mask;
        self.insert_position(p, m);
        p = rotate_position_90(&p);
        m = rotate_move_90(m);
        self.insert_position(flip_position_vertical(&p), flip_move_vertical(m));
        self.insert_position(flip_position_horizontal(&p), flip_move_horizontal(m));
        self.insert_position(p, m);
        p = rotate_position_90(&p);
        m = rotate_move_90(m);
        self.insert_position(flip_position_vertical(&p), flip_move_vertical(m));
        self.insert_position(flip_position_horizontal(&p), flip_move_horizontal(m));
        self.insert_position(p, m);
        p = rotate_position_90(&p);
        m = rotate_move_90(m);
        self.insert_position(flip_position_vertical(&p), flip_move_vertical(m));
        self.insert_position(flip_position_horizontal(&p), flip_move_horizontal(m));
        self.insert_position(p, m);
        p = rotate_position_90(&p);
        m = rotate_move_90(m);
        self.insert_position(flip_position_vertical(&p), flip_move_vertical(m));
        self.insert_position(flip_position_horizontal(&p), flip_move_horizontal(m));
        proof {
            lemma_pos_symmetries(pos);
            lemma_pos_symmetries(rot_pos(pos));
            lemma_pos_symmetries(rot_pos(rot_pos(pos)));
            lemma_pos_symmetries(rot_pos(rot_pos(rot_pos(pos))));
        }
    }
}

/// Whether the vector already holds this move.
fn contains_move(v: &Vec<MoveMask>, m: MoveMask) -> (r: bool)
    ensures
        r == v@.contains(m),
{
    let n = v.len();
    let mut i: usize = 0;
    while i < n
        invariant
            n == v@.len(),
            0 <= i <= n,
            forall|j: int| 0 <= j < i ==> v@[j] != m,
        decreases n - i,
    {
        if v[i] == m {
            return true;
        }
        i = i + 1;
    }
    proof {
        assert(!v@.contains(m));
    }
    false
}

} // verus!
