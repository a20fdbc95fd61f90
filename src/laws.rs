use vstd::prelude::*;
use crate::error::ParseError;
use crate::fen::{parse_placement, spec_read_fen};
use crate::fields::{
    castling_char_bits, is_castling_char, spec_parse_castling, spec_parse_color,
    spec_parse_en_passant, spec_parse_number, split_on,
};
use crate::game::Position;
use crate::piece::Color;
use crate::square::spec_position_to_bit;

verus! {

/// A record is accepted only when each of its six fields is accepted by its
/// own reader, and the position holds exactly what those readers give:
/// nothing is filled in by default.
pub proof fn lemma_accepted_fields(fen: Seq<char>)
    requires
        spec_read_fen(fen) is Ok,
    ensures
        ({
            let fields = split_on(fen, ' ');
            let p = spec_read_fen(fen)->Ok_0;
            &&& fields.len() >= 6
            &&& parse_placement(fields[0]) == Ok::<Seq<crate::game::Cell>, ParseError>(p.board)
            &&& spec_parse_color(fields[1]) == Ok::<Color, ParseError>(p.active_color)
            &&& spec_parse_castling(fields[2]) == Ok::<u8, ParseError>(p.castling)
            &&& spec_parse_en_passant(fields[3]) == Ok::<Option<u64>, ParseError>(p.en_passant)
            &&& spec_parse_number(fields[4]) == Some(p.halfmove_clock)
            &&& spec_parse_number(fields[5]) == Some(p.fullmove_number)
            &&& p.fullmove_number >= 1
        }),
{
}

/// The side to move is Black for the field `b` and White for `w`; with a
/// valid placement, any other field is rejected as an unknown color.
pub proof fn lemma_active_color(fen: Seq<char>)
    requires
        split_on(fen, ' ').len() >= 6,
    ensures
        ({
            let fields = split_on(fen, ' ');
            &&& (fields[1] == seq!['b'] && spec_read_fen(fen) is Ok) ==> spec_read_fen(fen)->Ok_0.active_color == Color::Black
            &&& (fields[1] == seq!['w'] && spec_read_fen(fen) is Ok) ==> spec_read_fen(fen)->Ok_0.active_color == Color::White
            &&& (parse_placement(fields[0]) is Ok && fields[1] != seq!['w'] && fields[1] != seq!['b'])
                ==> spec_read_fen(fen) == Err::<Position, ParseError>(ParseError::UnknownColor)
        }),
{
    assert(seq!['b'][0] == 'b' && seq!['w'][0] == 'w');
    assert(seq!['b'] != seq!['w']);
}

/// The castling field that lists, in the order `K Q k q`, the rights whose
/// bits are set in `b`, or `-` when none is.
pub open spec fn castling_text(b: u8) -> Seq<char> {
    let t1 = if b & 1 != 0 { seq!['K'] } else { Seq::empty() };
    let t2 = if b & 2 != 0 { t1.push('Q') } else { t1 };
    let t3 = if b & 4 != 0 { t2.push('k') } else { t2 };
    let t4 = if b & 8 != 0 { t3.push('q') } else { t3 };
    if b == 0 { seq!['-'] } else { t4 }
}

/// Reading one more valid castling character adds its right.
proof fn lemma_castling_push(s: Seq<char>, c: char)
    requires
        is_castling_char(c),
        spec_parse_castling(s) is Ok,
    ensures
        spec_parse_castling(s.push(c)) == Ok::<u8, ParseError>(
            spec_parse_castling(s)->Ok_0 | castling_char_bits(c),
        ),
{
    assert(s.push(c).drop_last() =~= s);
}

/// Each of the sixteen sets of castling rights reads back from its field as
/// exactly that set, the empty set from `-`; so does a record whose castling
/// field it is.
pub proof fn lemma_castling_exhaustive(b: u8, fen: Seq<char>)
    requires
        b < 16,
    ensures
        spec_parse_castling(castling_text(b)) == Ok::<u8, ParseError>(b),
        ({
            let fields = split_on(fen, ' ');
            (fields.len() >= 6 && fields[2] == castling_text(b) && spec_read_fen(fen) is Ok)
                ==> spec_read_fen(fen)->Ok_0.castling == b
        }),
{
    let e: Seq<char> = Seq::empty();
    assert(spec_parse_castling(e) == Ok::<u8, ParseError>(0));
    let t1 = if b & 1 != 0 { e.push('K') } else { e };
    assert(seq!['K'] =~= e.push('K'));
    let b1: u8 = if b & 1 != 0 { 1 } else { 0 };
    if b & 1 != 0 {
        lemma_castling_push(e, 'K');
        assert(0u8 | 1u8 == 1u8) by (bit_vector);
    }
    let t2 = if b & 2 != 0 { t1.push('Q') } else { t1 };
    let b2: u8 = if b & 2 != 0 { b1 | 2 } else { b1 };
    if b & 2 != 0 {
        lemma_castling_push(t1, 'Q');
    }
    let t3 = if b & 4 != 0 { t2.push('k') } else { t2 };
    let b3: u8 = if b & 4 != 0 { b2 | 4 } else { b2 };
    if b & 4 != 0 {
        lemma_castling_push(t2, 'k');
    }
    let t4 = if b & 8 != 0 { t3.push('q') } else { t3 };
    let b4: u8 = if b & 8 != 0 { b3 | 8 } else { b3 };
    if b & 8 != 0 {
        lemma_castling_push(t3, 'q');
    }
    assert(spec_parse_castling(t4) == Ok::<u8, ParseError>(b4));
    assert(b4 == b) by (bit_vector)
        requires
            b < 16,
            b1 == if b & 1 != 0 { 1u8 } else { 0u8 },
            b2 == if b & 2 != 0 { b1 | 2 } else { b1 },
            b3 == if b & 4 != 0 { b2 | 4 } else { b2 },
            b4 == if b & 8 != 0 { b3 | 8 } else { b3 },
    ;
    if b == 0 {
        lemma_castling_push(e, '-');
        assert(seq!['-'] =~= e.push('-'));
        assert(0u8 | 0u8 == 0u8) by (bit_vector);
    } else {
        assert(castling_text(b) == t4);
    }
}

/// The en-passant target is absent for the field `-`, and otherwise is the
/// bit of the square that the field names.
pub proof fn lemma_en_passant(fen: Seq<char>)
    requires
        spec_read_fen(fen) is Ok,
    ensures
        ({
            let fields = split_on(fen, ' ');
            let p = spec_read_fen(fen)->Ok_0;
            &&& fields[3] == seq!['-'] ==> p.en_passant is None
            &&& fields[3] != seq!['-'] ==> spec_position_to_bit(fields[3]) == Ok::<u64, ParseError>(p.en_passant->Some_0)
        }),
{
}

/// The clocks of an accepted record are the numbers its fifth and sixth
/// fields write; with the fields before them valid, a fifth or sixth field
/// that is not a number is rejected.
pub proof fn lemma_move_clocks(fen: Seq<char>)
    requires
        split_on(fen, ' ').len() >= 6,
    ensures
        ({
            let fields = split_on(fen, ' ');
            let valid_before = parse_placement(fields[0]) is Ok && spec_parse_color(fields[1]) is Ok
                && spec_parse_castling(fields[2]) is Ok && spec_parse_en_passant(fields[3]) is Ok;
            &&& spec_read_fen(fen) is Ok ==> spec_parse_number(fields[4]) == Some(spec_read_fen(fen)->Ok_0.halfmove_clock)
            &&& spec_read_fen(fen) is Ok ==> spec_parse_number(fields[5]) == Some(spec_read_fen(fen)->Ok_0.fullmove_number)
            &&& (valid_before && spec_parse_number(fields[4]) is None)
                ==> spec_read_fen(fen) == Err::<Position, ParseError>(ParseError::InvalidHalfmove)
            &&& (valid_before && spec_parse_number(fields[4]) is Some && spec_parse_number(fields[5]) is None)
                ==> spec_read_fen(fen) == Err::<Position, ParseError>(ParseError::InvalidFullmove)
        }),
{
}

} // verus!
