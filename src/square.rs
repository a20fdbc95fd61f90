use vstd::prelude::*;
use crate::error::ParseError;

verus! {

/// The single-bit word that marks square `sq` (0 is a1, 63 is h8).
pub open spec fn square_bit(sq: int) -> u64 {
    1u64 << (sq as u64)
}

/// The letter of file `col` (0 is `a`).
pub open spec fn file_char(col: int) -> char {
    ((97 + col) as u32) as char
}

/// The digit of rank `row` (0 is `1`).
pub open spec fn rank_char(row: int) -> char {
    ((49 + row) as u32) as char
}

/// The algebraic name of square `sq`: its file letter, then its rank digit.
pub open spec fn square_name(sq: int) -> Seq<char> {
    seq![file_char(sq % 8), rank_char(sq / 8)]
}

/// The square that a two-character name designates, or why it designates none.
pub open spec fn spec_position_to_bit(s: Seq<char>) -> Result<u64, ParseError> {
    if s.len() != 2 {
        Err(ParseError::InvalidLength)
    } else if !('a' <= s[0] && s[0] <= 'h') {
        Err(ParseError::InvalidColumn)
    } else if !('1' <= s[1] && s[1] <= '8') {
        Err(ParseError::InvalidRow)
    } else {
        Ok(square_bit((s[1] as int - 49) * 8 + (s[0] as int - 97)))
    }
}

/// What `bit_to_position` reports for `bit`: the name of its lowest set
/// bit, or `NoPiece` for zero.
pub open spec fn spec_bit_to_position(bit: u64) -> Result<Seq<char>, ParseError> {
    if bit == 0 {
        Err(ParseError::NoPiece)
    } else {
        Ok(square_name(bit.trailing_zeros() as int))
    }
}

/// The lowest set bit of the word of square `i` is `i`.
pub proof fn lemma_square_bit_scan(i: int)
    requires
        0 <= i < 64,
    ensures
        square_bit(i) != 0,
        square_bit(i).trailing_zeros() == i,
{
    broadcast use vstd::std_specs::bits::axiom_u64_trailing_zeros;
    let x = square_bit(i);
    let k = i as u64;
    assert(x != 0 && (x >> k) & 1 == 1) by (bit_vector)
        requires
            x == 1u64 << k,
            k < 64,
    ;
    let t = x.trailing_zeros() as u64;
    if t < k {
        assert((x >> t) & 1 == 0) by (bit_vector)
            requires
                x == 1u64 << k,
                t < k,
                k < 64,
        ;
    }
    if t > k {
        assert((x >> k) & 1 == 0);
    }
}

/// Square names and single-bit words convert into each other without loss:
/// the name of square `i` reads back as its bit, and its bit is reported
/// under its name.
pub proof fn lemma_square_round_trip(i: int)
    requires
        0 <= i < 64,
    ensures
        spec_position_to_bit(square_name(i)) == Ok::<u64, ParseError>(square_bit(i)),
        spec_bit_to_position(square_bit(i)) == Ok::<Seq<char>, ParseError>(square_name(i)),
{
    lemma_square_bit_scan(i);
    let s = square_name(i);
    assert(s[0] as int == 97 + i % 8);
    assert(s[1] as int == 49 + i / 8);
    assert((s[1] as int - 49) * 8 + (s[0] as int - 97) == i);
}

/// Algebraic name of `index`, as `index_to_position` gives it.
pub fn index_to_position(index: usize) -> (r: String)
    requires
        index < 64,
    ensures
        r@ == square_name(index as int),
{
    let files = "abcdefgh";
    let ranks = "12345678";
    proof {
        reveal_strlit("abcdefgh");
        reveal_strlit("12345678");
    }
    let col = index % 8;
    let row = index / 8;
    let mut r = String::from_str(files.substring_char(col, col + 1));
    r.append(ranks.substring_char(row, row + 1));
    assert(r@ =~= square_name(index as int));
    r
}

/// The square of `bit` given as the two characters of its name.
pub(crate) fn coords_to_bit(col: char, row: char) -> (r: Result<u64, ParseError>)
    ensures
        r == spec_position_to_bit(seq![col, row]),
{
    if !('a' <= col && col <= 'h') {
        return Err(ParseError::InvalidColumn);
    }
    if !('1' <= row && row <= '8') {
        return Err(ParseError::InvalidRow);
    }
    let c = (col as u32 - 97) as u64;
    let rw = (row as u32 - 49) as u64;
    let sq = rw * 8 + c;
    Ok(1u64 << sq)
}

/// The single-bit word of the square named by `position` (`"a1"` is bit 0).
pub fn position_to_bit(position: &str) -> (r: Result<u64, ParseError>)
    ensures
        r == spec_position_to_bit(position@),
{
    if position.unicode_len() != 2 {
        return Err(ParseError::InvalidLength);
    }
    let col = position.get_char(0);
    let row = position.get_char(1);
    assert(position@ =~= seq![col, row]);
    coords_to_bit(col, row)
}

/// The index of the lowest set bit of a nonzero word.
pub fn bit_scan(bit: u64) -> (r: usize)
    requires
        bit != 0,
    ensures
        r < 64,
        r == bit.trailing_zeros(),
        (bit >> r as u64) & 1 == 1,
        forall|j: u64| j < r ==> #[trigger] (bit >> j) & 1 == 0,
{
    broadcast use vstd::std_specs::bits::axiom_u64_trailing_zeros;
    bit.trailing_zeros() as usize
}

/// The name of the square that `bit` marks; of several set bits the lowest
/// is taken.
pub fn bit_to_position(bit: u64) -> (r: Result<String, ParseError>)
    ensures
        match r {
            Ok(s) => spec_bit_to_position(bit) == Ok::<Seq<char>, ParseError>(s@),
            Err(e) => spec_bit_to_position(bit) == Err::<Seq<char>, ParseError>(e),
        },
{
    if bit == 0 {
        Err(ParseError::NoPiece)
    } else {
        let index = bit_scan(bit);
        Ok(index_to_position(index))
    }
}

} // verus!
