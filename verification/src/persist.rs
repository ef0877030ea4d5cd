//! The book file's key grammar: a position is written as
//! `<black>,<white>,<flag>` with both bitmaps in decimal and the flag 1
//! when white is to move. The decimal codec and the key codec are exact, so
//! a written key always reads back as the same position.

use vstd::prelude::*;

use crate::openingbook::Position;

verus! {

/// The character of one decimal digit.
pub open spec fn digit_char(d: int) -> char {
    if d == 0 {
        '0'
    } else if d == 1 {
        '1'
    } else if d == 2 {
        '2'
    } else if d == 3 {
        '3'
    } else if d == 4 {
        '4'
    } else if d == 5 {
        '5'
    } else if d == 6 {
        '6'
    } else if d == 7 {
        '7'
    } else if d == 8 {
        '8'
    } else {
        '9'
    }
}

/// Whether a character is a decimal digit.
pub open spec fn is_digit(c: char) -> bool {
    '0' <= c && c <= '9'
}

/// The numeric value of a digit character.
pub open spec fn char_digit(c: char) -> int {
    c as int - '0' as int
}

/// The decimal numeral of a nonnegative number, most significant digit
/// first.
pub open spec fn dec_digits(n: int) -> Seq<char>
    decreases n,
{
    if n <= 9 {
        seq![digit_char(n)]
    } else {
        dec_digits(n / 10).push(digit_char(n % 10))
    }
}

/// Whether every character of `s` is a digit.
pub open spec fn all_digits(s: Seq<char>) -> bool {
    forall|i: int| 0 <= i < s.len() ==> is_digit(#[trigger] s[i])
}

/// The number a digit string denotes.
pub open spec fn dec_value(s: Seq<char>) -> int
    decreases s.len(),
{
    if s.len() == 0 {
        0
    } else {
        dec_value(s.drop_last()) * 10 + char_digit(s.last())
    }
}

/// Every numeral consists of digits and is nonempty.
pub proof fn lemma_dec_digits_shape(n: int)
    ensures
        all_digits(dec_digits(n)),
        dec_digits(n).len() >= 1,
    decreases n,
{
    if n > 9 {
        lemma_dec_digits_shape(n / 10);
        assert forall|i: int| 0 <= i < dec_digits(n).len() implies is_digit(
            #[trigger] dec_digits(n)[i],
        ) by {
            if i < dec_digits(n / 10).len() {
                assert(dec_digits(n)[i] == dec_digits(n / 10)[i]);
            }
        }
    }
}

/// Writing a number and reading the numeral back gives the number: the
/// decimal codec round-trips.
pub proof fn lemma_dec_round_trip(n: int)
    requires
        n >= 0,
    ensures
        dec_value(dec_digits(n)) == n,
    decreases n,
{
    if n <= 9 {
        assert(dec_digits(n).drop_last() =~= Seq::<char>::empty());
        assert(dec_digits(n).last() == digit_char(n));
        assert(char_digit(digit_char(n)) == n);
        assert(dec_value(dec_digits(n)) == dec_value(dec_digits(n).drop_last()) * 10 + char_digit(
            dec_digits(n).last(),
        ));
    } else {
        lemma_dec_round_trip(n / 10);
        assert(dec_digits(n).drop_last() =~= dec_digits(n / 10));
        assert(dec_digits(n).last() == digit_char(n % 10));
        assert(0 <= n % 10 <= 9);
        assert(char_digit(digit_char(n % 10)) == n % 10);
        assert(dec_value(dec_digits(n)) == dec_value(dec_digits(n).drop_last()) * 10 + char_digit(
            dec_digits(n).last(),
        ));
        assert((n / 10) * 10 + n % 10 == n) by (nonlinear_arith);
    }
}

proof fn lemma_dec_value_nonneg(s: Seq<char>)
    requires
        all_digits(s),
    ensures
        dec_value(s) >= 0,
    decreases s.len(),
{
    if s.len() > 0 {
        assert(all_digits(s.drop_last()));
        lemma_dec_value_nonneg(s.drop_last());
    }
}

proof fn lemma_dec_value_prefix(s: Seq<char>, j: int)
    requires
        all_digits(s),
        0 <= j <= s.len(),
    ensures
        dec_value(s.take(j)) <= dec_value(s),
    decreases s.len() - j,
{
    if j < s.len() {
        lemma_dec_value_prefix(s, j + 1);
        assert(s.take(j + 1).drop_last() =~= s.take(j));
        assert(s.take(j + 1).last() == s[j]);
        assert(all_digits(s.take(j)));
        lemma_dec_value_nonneg(s.take(j));
        assert(dec_value(s.take(j)) <= dec_value(s.take(j)) * 10 + char_digit(s[j])) by (
        nonlinear_arith)
            requires
                dec_value(s.take(j)) >= 0 && char_digit(s[j]) >= 0,
        ;
    } else {
        assert(s.take(j) =~= s);
    }
}

/// Appends one digit's character.
fn append_digit(out: &mut String, d: u64)
    requires
        d <= 9,
    ensures
        final (out)@ == old(out)@.push(digit_char(d as int)),
{
    proof {
        reveal_strlit("0");
        reveal_strlit("1");
        reveal_strlit("2");
        reveal_strlit("3");
        reveal_strlit("4");
        reveal_strlit("5");
        reveal_strlit("6");
        reveal_strlit("7");
        reveal_strlit("8");
        reveal_strlit("9");
    }
    let lit: &str = match d {
        0 => "0",
        1 => "1",
        2 => "2",
        3 => "3",
        4 => "4",
        5 => "5",
        6 => "6",
        7 => "7",
        8 => "8",
        _ => "9",
    };
    out.append(lit);
    proof {
        assert(final (out)@ =~= old(out)@.push(digit_char(d as int)));
    }
}

/// Appends the decimal numeral of `n`.
fn push_decimal(out: &mut String, n: u64)
    ensures
        final (out)@ == old(out)@ + dec_digits(n as int),
    decreases n,
{
    if n >= 10 {
        push_decimal(out, n / 10);
        append_digit(out, n % 10);
        proof {
            assert(final (out)@ =~= old(out)@ + dec_digits(n as int));
        }
    } else {
        append_digit(out, n);
        proof {
            assert(final (out)@ =~= old(out)@ + dec_digits(n as int));
        }
    }
}

/// The decimal numeral of `n`, as a string.
pub fn u64_to_decimal(n: u64) -> (r: String)
    ensures
        r@ == dec_digits(n as int),
{
    let mut out = String::new();
    push_decimal(&mut out, n);
    proof {
        assert(Seq::<char>::empty() + dec_digits(n as int) =~= dec_digits(n as int));
    }
    out
}

/// The characters of a position's key: black's discs, white's discs and
/// the turn flag, comma separated.
pub open spec fn key_chars(p: Position) -> Seq<char> {
    dec_digits(p.black as int) + seq![','] + dec_digits(p.white as int) + seq![','] + seq![
        if p.white_to_move {
            '1'
        } else {
            '0'
        },
    ]
}

/// Writes a position's book key.
pub fn format_position_key(pos: &Position) -> (r: String)
    ensures
        r@ == key_chars(*pos),
{
    proof {
        reveal_strlit(",");
        reveal_strlit("0");
        reveal_strlit("1");
    }
    let mut out = u64_to_decimal(pos.black);
    out.append(",");
    let white_part = u64_to_decimal(pos.white);
    out.append(white_part.as_str());
    out.append(",");
    if pos.white_to_move {
        out.append("1");
    } else {
        out.append("0");
    }
    proof {
        assert(out@ =~= key_chars(*pos));
    }
    out
}

/// Reads the digits of `s` between `from` and `to` as a number: the denoted
/// value when the range is nonempty, all digits, and in range; nothing
/// otherwise.
fn parse_digits(s: &str, from: usize, to: usize) -> (r: Option<u64>)
    requires
        from <= to <= s@.len(),
    ensures
        ({
            let part = s@.subrange(from as int, to as int);
            if all_digits(part) && part.len() >= 1 && dec_value(part) <= u64::MAX {
                r == Some(dec_value(part) as u64)
            } else {
                r is None
            }
        }),
{
    let ghost part = s@.subrange(from as int, to as int);
    if from == to {
        return None;
    }
    let mut acc: u64 = 0;
    let mut i: usize = from;
    while i < to
        invariant
            from <= i <= to <= s@.len(),
            part == s@.subrange(from as int, to as int),
            all_digits(part.take(i - from)),
            acc == dec_value(part.take(i - from)),
        decreases to - i,
    {
        let c = s.get_char(i);
        let cv = c as u32;
        if cv < '0' as u32 || cv > '9' as u32 {
            proof {
                assert(part[i - from] == s@[i as int]);
            }
            return None;
        }
        let d = (cv - '0' as u32) as u64;
        proof {
            assert(part.take(i + 1 - from).drop_last() =~= part.take(i - from));
            assert(part.take(i + 1 - from).last() == s@[i as int]);
        }
        if acc > 1_844_674_407_370_955_161u64 {
            proof {
                if all_digits(part) {
                    lemma_dec_value_prefix(part, i + 1 - from);
                }
            }
            return None;
        }
        let shifted = acc * 10;
        if d > u64::MAX - shifted {
            proof {
                if all_digits(part) {
                    lemma_dec_value_prefix(part, i + 1 - from);
                }
            }
            return None;
        }
        acc = shifted + d;
        i = i + 1;
    }
    proof {
        assert(part.take(to - from) =~= part);
    }
    Some(acc)
}

proof fn lemma_key_shape(p: Position, s: Seq<char>)
    requires
        s =~= key_chars(p),
    ensures
        ({
            let c1 = dec_digits(p.black as int).len() as int;
            let c2 = c1 + 1 + dec_digits(p.white as int).len() as int;
            &&& s.len() == c2 + 2
            &&& 1 <= c1
            &&& c1 + 2 <= c2
            &&& s[c1] == ','
            &&& s[c2] == ','
            &&& s.subrange(0, c1) =~= dec_digits(p.black as int)
            &&& s.subrange(c1 + 1, c2) =~= dec_digits(p.white as int)
            &&& s[c2 + 1] == (if p.white_to_move {
                '1'
            } else {
                '0'
            })
            &&& forall|j: int| 0 <= j < s.len() && s[j] == ',' ==> j == c1 || j == c2
            &&& dec_value(dec_digits(p.black as int)) == p.black
            &&& dec_value(dec_digits(p.white as int)) == p.white
        }),
{
    lemma_dec_digits_shape(p.black as int);
    lemma_dec_digits_shape(p.white as int);
    lemma_dec_round_trip(p.black as int);
    lemma_dec_round_trip(p.white as int);
    let c1 = dec_digits(p.black as int).len() as int;
    let c2 = c1 + 1 + dec_digits(p.white as int).len() as int;
    assert forall|j: int| 0 <= j < s.len() && s[j] == ',' implies j == c1 || j == c2 by {
        if j < c1 {
            assert(s[j] == dec_digits(p.black as int)[j]);
            assert(is_digit(s[j]));
        } else if c1 < j < c2 {
            assert(s[j] == dec_digits(p.white as int)[j - c1 - 1]);
            assert(is_digit(s[j]));
        }
    }
}

proof fn lemma_scan_matches(p: Position, s: Seq<char>, fc: int, sc: int)
    requires
        s =~= key_chars(p),
        0 <= fc < sc < s.len(),
        s[fc] == ',',
        s[sc] == ',',
        forall|j: int| 0 <= j < fc ==> s[j] != ',',
        forall|j: int| fc < j < sc ==> s[j] != ',',
    ensures
        fc == dec_digits(p.black as int).len(),
        sc == fc + 1 + dec_digits(p.white as int).len(),
{
    lemma_key_shape(p, s);
    let c1 = dec_digits(p.black as int).len() as int;
    let c2 = c1 + 1 + dec_digits(p.white as int).len() as int;
    assert(fc == c1 || fc == c2);
    if fc == c2 {
        assert(s[c1] != ',');
        assert(false);
    }
    assert(sc == c1 || sc == c2);
    if sc == c1 {
        assert(false);
    }
}

/// Reads a book key back into a position: the exact written form of any
/// position parses back to that position.
pub fn parse_position_key(s: &str) -> (r: Option<Position>)
    ensures
        forall|p: Position| s@ =~= key_chars(p) ==> r == Some(p),
{
    let n = s.unicode_len();
    let mut first_comma: usize = 0;
    let mut second_comma: usize = 0;
    let mut comma_count: u32 = 0;
    let mut i: usize = 0;
    while i < n
        invariant
            0 <= i <= n,
            n == s@.len(),
            comma_count <= 2,
            comma_count == 0 ==> (forall|j: int| 0 <= j < i ==> s@[j] != ','),
            comma_count >= 1 ==> first_comma < i && s@[first_comma as int] == ',' && (forall|j: int|
                0 <= j < first_comma ==> s@[j] != ','),
            comma_count == 1 ==> (forall|j: int| first_comma < j < i ==> s@[j] != ','),
            comma_count == 2 ==> first_comma < second_comma < i && s@[second_comma as int] == ','
                && (forall|j: int|
                first_comma < j < second_comma ==> s@[j] != ',') && (forall|j: int|
                second_comma < j < i ==> s@[j] != ','),
        decreases n - i,
    {
        let c = s.get_char(i);
        if c == ',' {
            if comma_count == 0 {
                first_comma = i;
                comma_count = 1;
            } else if comma_count == 1 {
                second_comma = i;
                comma_count = 2;
            } else {
                proof {
                    assert forall|p: Position| !(s@ =~= key_chars(p)) by {
                        if s@ =~= key_chars(p) {
                            lemma_key_shape(p, s@);
                            lemma_scan_matches(p, s@, first_comma as int, second_comma as int);
                            assert(s@[i as int] == ',');
                        }
                    }
                }
                return None;
            }
        }
        i = i + 1;
    }
    if comma_count != 2 {
        proof {
            assert forall|p: Position| !(s@ =~= key_chars(p)) by {
                if s@ =~= key_chars(p) {
                    lemma_key_shape(p, s@);
                    let c1 = dec_digits(p.black as int).len() as int;
                    let c2 = c1 + 1 + dec_digits(p.white as int).len() as int;
                    if comma_count == 0 {
                        assert(s@[c1] != ',');
                    } else {
                        assert(first_comma as int == c1 || first_comma as int == c2);
                        if first_comma as int == c1 {
                            assert(s@[c2] != ',');
                        } else {
                            assert(s@[c1] != ',');
                        }
                    }
                }
            }
        }
        return None;
    }
    if n < 2 || second_comma != n - 2 {
        proof {
            assert forall|p: Position| !(s@ =~= key_chars(p)) by {
                if s@ =~= key_chars(p) {
                    lemma_key_shape(p, s@);
                    lemma_scan_matches(p, s@, first_comma as int, second_comma as int);
                }
            }
        }
        return None;
    }
    let black = match parse_digits(s, 0, first_comma) {
        Some(v) => v,
        None => {
            proof {
                assert forall|p: Position| !(s@ =~= key_chars(p)) by {
                    if s@ =~= key_chars(p) {
                        lemma_key_shape(p, s@);
                        lemma_scan_matches(p, s@, first_comma as int, second_comma as int);
                        lemma_dec_digits_shape(p.black as int);
                        assert(s@.subrange(0, first_comma as int) =~= dec_digits(p.black as int));
                    }
                }
            }
            return None;
        },
    };
    let white = match parse_digits(s, first_comma + 1, second_comma) {
        Some(v) => v,
        None => {
            proof {
                assert forall|p: Position| !(s@ =~= key_chars(p)) by {
                    if s@ =~= key_chars(p) {
                        lemma_key_shape(p, s@);
                        lemma_scan_matches(p, s@, first_comma as int, second_comma as int);
                        lemma_dec_digits_shape(p.white as int);
                        assert(s@.subrange(first_comma + 1, second_comma as int) =~= dec_digits(
                            p.white as int,
                        ));
                    }
                }
            }
            return None;
        },
    };
    let flag = s.get_char(second_comma + 1);
    if flag != '0' && flag != '1' {
        proof {
            assert forall|p: Position| !(s@ =~= key_chars(p)) by {
                if s@ =~= key_chars(p) {
                    lemma_key_shape(p, s@);
                    lemma_scan_matches(p, s@, first_comma as int, second_comma as int);
                }
            }
        }
        return None;
    }
    let white_to_move = flag == '1';
    let result = Position { black, white, white_to_move };
    proof {
        assert forall|p: Position| s@ =~= key_chars(p) implies Some(result) == Some::<Position>(
            p,
        ) by {
            lemma_key_shape(p, s@);
            lemma_scan_matches(p, s@, first_comma as int, second_comma as int);
            assert(s@.subrange(0, first_comma as int) =~= dec_digits(p.black as int));
            assert(s@.subrange(first_comma + 1, second_comma as int) =~= dec_digits(
                p.white as int,
            ));
        }
    }
    Some(result)
}

} // verus!
