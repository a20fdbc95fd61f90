use vstd::prelude::*;
use crate::castling::CastlingRights;
use crate::error::ParseError;
use crate::piece::Color;
use crate::square::{coords_to_bit, spec_position_to_bit};

verus! {

/// The parts of `s` between occurrences of `sep`, empty parts included:
/// one part more than `s` has separators.
pub open spec fn split_on(s: Seq<char>, sep: char) -> Seq<Seq<char>>
    decreases s.len(),
{
    if s.len() == 0 {
        seq![Seq::empty()]
    } else {
        let parts = split_on(s.drop_last(), sep);
        if s.last() == sep {
            parts.push(Seq::empty())
        } else {
            parts.update(parts.len() - 1, parts.last().push(s.last()))
        }
    }
}

/// Splitting gives at least one part.
pub proof fn lemma_split_nonempty(s: Seq<char>, sep: char)
    ensures
        split_on(s, sep).len() >= 1,
    decreases s.len(),
{
    if s.len() > 0 {
        lemma_split_nonempty(s.drop_last(), sep);
    }
}

/// A string without the separator is a single part.
pub proof fn lemma_split_single(s: Seq<char>, sep: char)
    requires
        !s.contains(sep),
    ensures
        split_on(s, sep) == seq![s],
    decreases s.len(),
{
    if s.len() == 0 {
        assert(s =~= Seq::<char>::empty());
    } else {
        let d = s.drop_last();
        assert(!d.contains(sep)) by {
            if d.contains(sep) {
                let i = choose|i: int| 0 <= i < d.len() && d[i] == sep;
                assert(s[i] == sep);
            }
        }
        lemma_split_single(d, sep);
        assert(s.last() != sep) by {
            assert(s[s.len() - 1] == s.last());
        }
        assert(d.push(s.last()) =~= s);
        let parts = split_on(d, sep);
        assert(parts.len() == 1 && parts.last() == d);
        assert(split_on(s, sep) == parts.update(0, d.push(s.last())));
        assert(split_on(s, sep) =~= seq![s]);
    }
}

/// Splitting at one separator splits the two sides independently.
pub proof fn lemma_split_join(a: Seq<char>, b: Seq<char>, sep: char)
    ensures
        split_on(a + seq![sep] + b, sep) == split_on(a, sep) + split_on(b, sep),
    decreases b.len(),
{
    let ab = a + seq![sep] + b;
    if b.len() == 0 {
        assert(ab.drop_last() =~= a);
        assert(split_on(b, sep) =~= seq![Seq::<char>::empty()]);
        assert(split_on(ab, sep) =~= split_on(a, sep) + split_on(b, sep));
    } else {
        let b2 = b.drop_last();
        assert(ab.drop_last() =~= a + seq![sep] + b2);
        assert(ab.last() == b.last());
        lemma_split_join(a, b2, sep);
        lemma_split_nonempty(b2, sep);
        assert(split_on(ab, sep) =~= split_on(a, sep) + split_on(b, sep));
    }
}

/// The views of a list of character vectors.
pub open spec fn views(v: Seq<Vec<char>>) -> Seq<Seq<char>> {
    v.map_values(|x: Vec<char>| x@)
}

/// The characters of `s`, one element each.
pub fn chars_of(s: &str) -> (r: Vec<char>)
    ensures
        r@ == s@,
{
    let n = s.unicode_len();
    let mut r: Vec<char> = Vec::new();
    let mut i: usize = 0;
    while i < n
        invariant
            n == s@.len(),
            i <= n,
            r@ == s@.subrange(0, i as int),
        decreases n - i,
    {
        r.push(s.get_char(i));
        i = i + 1;
    }
    assert(r@ =~= s@);
    r
}

/// Splits `s` at each `sep`, as `split_on` describes.
pub fn split_chars(s: &Vec<char>, sep: char) -> (r: Vec<Vec<char>>)
    ensures
        views(r@) == split_on(s@, sep),
{
    let mut parts: Vec<Vec<char>> = Vec::new();
    let mut current: Vec<char> = Vec::new();
    let mut i: usize = 0;
    while i < s.len()
        invariant
            i <= s@.len(),
            split_on(s@.subrange(0, i as int), sep) == views(parts@).push(current@),
        decreases s@.len() - i,
    {
        let c = s[i];
        assert(s@.subrange(0, i as int + 1).drop_last() =~= s@.subrange(0, i as int));
        if c == sep {
            parts.push(current);
            current = Vec::new();
            assert(views(parts@).push(current@) =~= split_on(s@.subrange(0, i as int + 1), sep));
        } else {
            current.push(c);
            assert(views(parts@).push(current@) =~= split_on(s@.subrange(0, i as int + 1), sep));
        }
        i = i + 1;
    }
    assert(s@.subrange(0, s@.len() as int) =~= s@);
    parts.push(current);
    assert(views(parts@) =~= split_on(s@, sep));
    parts
}

/// The numeric value of a string of decimal digits.
pub open spec fn digits_value(s: Seq<char>) -> nat
    decreases s.len(),
{
    if s.len() == 0 {
        0
    } else {
        (digits_value(s.drop_last()) * 10 + (s.last() as int - 48)) as nat
    }
}

/// Every character of `s` is a decimal digit.
pub open spec fn all_digits(s: Seq<char>) -> bool {
    forall|i: int| 0 <= i < s.len() ==> '0' <= #[trigger] s[i] && s[i] <= '9'
}

/// The digits of a number: `s` without its leading `+`, if any.
pub open spec fn number_body(s: Seq<char>) -> Seq<char> {
    if s.len() > 0 && s[0] == '+' {
        s.drop_first()
    } else {
        s
    }
}

/// The number that `s` writes in decimal, with an optional leading `+`, if it
/// has at least one digit, only digits, and fits in `usize`.
pub open spec fn spec_parse_number(s: Seq<char>) -> Option<usize> {
    let body = number_body(s);
    if body.len() == 0 || !all_digits(body) || digits_value(body) > usize::MAX {
        None
    } else {
        Some(digits_value(body) as usize)
    }
}

/// A string of digits is worth at least as much as each of its prefixes.
proof fn lemma_digits_prefix(s: Seq<char>, j: int)
    requires
        0 <= j <= s.len(),
        all_digits(s),
    ensures
        digits_value(s.subrange(0, j)) <= digits_value(s),
    decreases s.len(),
{
    if j < s.len() {
        assert(all_digits(s.drop_last()));
        assert(s.drop_last().subrange(0, j) =~= s.subrange(0, j));
        lemma_digits_prefix(s.drop_last(), j);
    } else {
        assert(s.subrange(0, j) =~= s);
    }
}

/// Reads a decimal number as `spec_parse_number` describes.
pub fn parse_number(s: &Vec<char>) -> (r: Option<usize>)
    ensures
        r == spec_parse_number(s@),
{
    let n = s.len();
    let start: usize = if n > 0 && s[0] == '+' { 1 } else { 0 };
    let ghost body = number_body(s@);
    assert(body =~= s@.subrange(start as int, n as int));
    if start == n {
        return None;
    }
    let mut acc: usize = 0;
    let mut i: usize = start;
    while i < n
        invariant
            start <= i <= n,
            n == s@.len(),
            body == s@.subrange(start as int, n as int),
            body == number_body(s@),
            all_digits(s@.subrange(start as int, i as int)),
            acc as nat == digits_value(s@.subrange(start as int, i as int)),
        decreases n - i,
    {
        let c = s[i];
        let ghost pre = s@.subrange(start as int, i as int);
        let ghost next = s@.subrange(start as int, i as int + 1);
        assert(next.drop_last() =~= pre);
        assert(body.subrange(0, i - start) =~= pre);
        if !('0' <= c && c <= '9') {
            assert(body[i - start] == c);
            assert(!all_digits(body));
            return None;
        }
        let d = (c as u32 - 48) as usize;
        assert(next.last() == c);
        assert(digits_value(next) == acc * 10 + d);
        if acc > (usize::MAX - d) / 10 {
            assert(acc * 10 + d > usize::MAX) by (nonlinear_arith)
                requires
                    acc > (usize::MAX - d) / 10,
                    d <= 9,
            ;
            assert(body.subrange(0, i - start + 1) =~= next);
            proof {
                if all_digits(body) {
                    lemma_digits_prefix(body, i - start + 1);
                }
            }
            return None;
        }
        assert(acc * 10 + d <= usize::MAX) by (nonlinear_arith)
            requires
                acc <= (usize::MAX - d) / 10,
                d <= 9,
        ;
        acc = acc * 10 + d;
        i = i + 1;
    }
    Some(acc)
}

/// The side to move that a field names.
pub open spec fn spec_parse_color(s: Seq<char>) -> Result<Color, ParseError> {
    if s == seq!['w'] {
        Ok(Color::White)
    } else if s == seq!['b'] {
        Ok(Color::Black)
    } else {
        Err(ParseError::UnknownColor)
    }
}

/// Reads the active-color field.
pub fn parse_color(s: &Vec<char>) -> (r: Result<Color, ParseError>)
    ensures
        r == spec_parse_color(s@),
{
    if s.len() == 1 && s[0] == 'w' {
        assert(s@ =~= seq!['w']);
        Ok(Color::White)
    } else if s.len() == 1 && s[0] == 'b' {
        assert(s@ =~= seq!['b']);
        Ok(Color::Black)
    } else {
        assert(s@ != seq!['w'] && s@ != seq!['b']) by {
            if s@.len() == 1 {
                assert(seq!['w'][0] == 'w' && seq!['b'][0] == 'b');
            }
        }
        Err(ParseError::UnknownColor)
    }
}

/// The en-passant target that a field names: none for `-`, else a square.
pub open spec fn spec_parse_en_passant(s: Seq<char>) -> Result<Option<u64>, ParseError> {
    if s == seq!['-'] {
        Ok(None)
    } else {
        match spec_position_to_bit(s) {
            Ok(b) => Ok(Some(b)),
            Err(e) => Err(e),
        }
    }
}

/// Reads the en-passant field.
pub fn parse_en_passant(s: &Vec<char>) -> (r: Result<Option<u64>, ParseError>)
    ensures
        r == spec_parse_en_passant(s@),
{
    if s.len() == 1 && s[0] == '-' {
        assert(s@ =~= seq!['-']);
        return Ok(None);
    }
    assert(s@ != seq!['-']) by {
        if s@.len() == 1 {
            assert(seq!['-'][0] == '-');
        }
    }
    if s.len() != 2 {
        return Err(ParseError::InvalidLength);
    }
    assert(s@ =~= seq![s@[0], s@[1]]);
    match coords_to_bit(s[0], s[1]) {
        Ok(b) => Ok(Some(b)),
        Err(e) => Err(e),
    }
}

/// The right that a castling character grants: `K`, `Q`, `k`, `q` give one
/// bit each, `-` gives none.
pub open spec fn castling_char_bits(c: char) -> u8 {
    if c == 'K' {
        1
    } else if c == 'Q' {
        2
    } else if c == 'k' {
        4
    } else if c == 'q' {
        8
    } else {
        0
    }
}

/// A character that may stand in the castling field.
pub open spec fn is_castling_char(c: char) -> bool {
    c == 'K' || c == 'Q' || c == 'k' || c == 'q' || c == '-'
}

/// The union of the rights that the characters of `s` grant, or an error at
/// the first character that grants none.
pub open spec fn spec_parse_castling(s: Seq<char>) -> Result<u8, ParseError>
    decreases s.len(),
{
    if s.len() == 0 {
        Ok(0)
    } else {
        match spec_parse_castling(s.drop_last()) {
            Err(e) => Err(e),
            Ok(b) => if is_castling_char(s.last()) {
                Ok(b | castling_char_bits(s.last()))
            } else {
                Err(ParseError::InvalidCastlingChar)
            },
        }
    }
}

/// An error in a prefix of the castling field is the error of the field.
proof fn lemma_castling_error(s: Seq<char>, i: int, e: ParseError)
    requires
        0 <= i <= s.len(),
        spec_parse_castling(s.subrange(0, i)) == Err::<u8, ParseError>(e),
    ensures
        spec_parse_castling(s) == Err::<u8, ParseError>(e),
    decreases s.len(),
{
    if i < s.len() {
        assert(s.drop_last().subrange(0, i) =~= s.subrange(0, i));
        lemma_castling_error(s.drop_last(), i, e);
    } else {
        assert(s.subrange(0, i) =~= s);
    }
}

/// Reads the castling field.
pub fn parse_castling(s: &Vec<char>) -> (r: Result<CastlingRights, ParseError>)
    ensures
        match r {
            Ok(c) => spec_parse_castling(s@) == Ok::<u8, ParseError>(c@),
            Err(e) => spec_parse_castling(s@) == Err::<u8, ParseError>(e),
        },
{
    let mut rights = CastlingRights::none();
    let mut i: usize = 0;
    while i < s.len()
        invariant
            i <= s@.len(),
            spec_parse_castling(s@.subrange(0, i as int)) == Ok::<u8, ParseError>(rights@),
        decreases s@.len() - i,
    {
        let c = s[i];
        let ghost pre = s@.subrange(0, i as int);
        let ghost next = s@.subrange(0, i as int + 1);
        assert(next.drop_last() =~= pre);
        assert(next.last() == c);
        let ghost before = rights@;
        match c {
            'K' => rights.insert(CastlingRights::white_kingside()),
            'Q' => rights.insert(CastlingRights::white_queenside()),
            'k' => rights.insert(CastlingRights::black_kingside()),
            'q' => rights.insert(CastlingRights::black_queenside()),
            '-' => {
                assert(before | 0u8 == before) by (bit_vector);
            },
            _ => {
                proof {
                    lemma_castling_error(s@, i as int + 1, ParseError::InvalidCastlingChar);
                }
                return Err(ParseError::InvalidCastlingChar);
            },
        }
        i = i + 1;
    }
    assert(s@.subrange(0, s@.len() as int) =~= s@);
    Ok(rights)
}

} // verus!
