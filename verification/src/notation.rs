//! Algebraic square notation: the square with file `f` (a..h) and rank `r`
//! (1..8) is bit `r * 8 + f` of a bitmap, so a1 is bit 0 and h8 is bit 63.

use vstd::prelude::*;

use crate::board::is_single_bit;

verus! {

/// True when `s` names a square: a file letter then a rank digit.
pub open spec fn alg_valid(s: Seq<char>) -> bool {
    s.len() == 2 && 'a' <= s[0] && s[0] <= 'h' && '1' <= s[1] && s[1] <= '8'
}

/// The square index a valid name denotes.
pub open spec fn alg_square(s: Seq<char>) -> int {
    (s[1] as int - '1' as int) * 8 + (s[0] as int - 'a' as int)
}

/// Parses a square name into a single-bit move bitmap.
pub fn move_to_bitmap(s: &str) -> (r: Option<u64>)
    ensures
        alg_valid(s@) ==> r == Some(1u64 << (alg_square(s@) as u64)),
        !alg_valid(s@) ==> r is None,
{
    let len = s.unicode_len();
    if len != 2 {
        return None;
    }
    let c0 = s.get_char(0);
    let c1 = s.get_char(1);
    let f0 = c0 as u32;
    let r1 = c1 as u32;
    if f0 < 'a' as u32 || f0 > 'h' as u32 || r1 < '1' as u32 || r1 > '8' as u32 {
        return None;
    }
    let file = f0 - 'a' as u32;
    let rank = r1 - '1' as u32;
    Some(1u64 << ((rank * 8 + file) as u64))
}

/// Writes a single-bit move bitmap as a square name; any other bitmap has
/// no name.
pub fn move_to_algebraic(m: u64) -> (r: Option<String>)
    ensures
        is_single_bit(m) ==> (r matches Some(s) && alg_valid(s@) && (1u64 << (alg_square(s@)
            as u64)) == m),
        !is_single_bit(m) ==> r is None,
{
    if m == 0 {
        return None;
    }
    if (m & (m - 1)) != 0 {
        return None;
    }
    let idx = m.trailing_zeros();
    proof {
        vstd::std_specs::bits::axiom_u64_trailing_zeros(m);
        let t = vstd::std_specs::bits::u64_trailing_zeros(m);
        assert(m != 0 && (m & ((m - 1) as u64)) == 0 && t < 64 && (m >> (t as u64)) & 1u64 == 1u64
            ==> (1u64 << (t as u64)) == m) by (bit_vector);
    }
    let file = idx % 8;
    let rank = idx / 8;
    let file_str: &str = match file {
        0 => "a",
        1 => "b",
        2 => "c",
        3 => "d",
        4 => "e",
        5 => "f",
        6 => "g",
        _ => "h",
    };
    let rank_str: &str = match rank {
        0 => "1",
        1 => "2",
        2 => "3",
        3 => "4",
        4 => "5",
        5 => "6",
        6 => "7",
        _ => "8",
    };
    proof {
        reveal_strlit("a");
        reveal_strlit("b");
        reveal_strlit("c");
        reveal_strlit("d");
        reveal_strlit("e");
        reveal_strlit("f");
        reveal_strlit("g");
        reveal_strlit("h");
        reveal_strlit("1");
        reveal_strlit("2");
        reveal_strlit("3");
        reveal_strlit("4");
        reveal_strlit("5");
        reveal_strlit("6");
        reveal_strlit("7");
        reveal_strlit("8");
    }
    let mut out = file_str.to_owned();
    out.append(rank_str);
    Some(out)
}

/// Two square names denoting the same square are the same name: with the
/// parser's and writer's contracts this makes the notation a round trip on
/// all 64 squares.
pub proof fn lemma_algebraic_injective(s1: Seq<char>, s2: Seq<char>)
    requires
        alg_valid(s1),
        alg_valid(s2),
        (1u64 << (alg_square(s1) as u64)) == (1u64 << (alg_square(s2) as u64)),
    ensures
        s1 =~= s2,
{
    let a = alg_square(s1) as u64;
    let b = alg_square(s2) as u64;
    assert(a < 64 && b < 64 && (1u64 << a) == (1u64 << b) ==> a == b) by (bit_vector);
    assert(s1[0] as int == s2[0] as int && s1[1] as int == s2[1] as int);
    assert(s1[0] == s2[0] && s1[1] == s2[1]);
}

} // verus!
