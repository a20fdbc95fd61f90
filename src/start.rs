use vstd::prelude::*;
use crate::error::ParseError;
use crate::fen::{board_of, parse_ranks, rank_prefix, spec_read_fen};
use crate::fields::{
    all_digits, digits_value, lemma_split_join, lemma_split_single, number_body, spec_parse_number,
    split_on,
};
use crate::game::{Cell, Game, Position};
use crate::piece::{letter_piece, Color, PieceType};

verus! {

/// The kind of piece that starts on file `f` of a back rank.
pub open spec fn back_rank_type(f: int) -> PieceType {
    if f == 0 || f == 7 {
        PieceType::Rook
    } else if f == 1 || f == 6 {
        PieceType::Knight
    } else if f == 2 || f == 5 {
        PieceType::Bishop
    } else if f == 3 {
        PieceType::Queen
    } else {
        PieceType::King
    }
}

/// What square `sq` holds at the start of a game.
#[verifier::opaque]
pub open spec fn start_cell(sq: int) -> Cell {
    if sq < 8 {
        Some((Color::White, back_rank_type(sq)))
    } else if sq < 16 {
        Some((Color::White, PieceType::Pawn))
    } else if sq < 48 {
        None
    } else if sq < 56 {
        Some((Color::Black, PieceType::Pawn))
    } else {
        Some((Color::Black, back_rank_type(sq - 56)))
    }
}

/// The starting position: White to move, all castling rights, no
/// en-passant target, halfmove clock 0 and fullmove number 1.
pub open spec fn start_position() -> Position {
    Position {
        board: Seq::new(64, |sq: int| start_cell(sq)),
        active_color: Color::White,
        castling: 15,
        en_passant: None,
        halfmove_clock: 0,
        fullmove_number: 1,
    }
}

/// A rank written with piece letters only reads as those pieces.
proof fn lemma_letters_rank(row: Seq<char>)
    requires
        row.len() <= 8,
        forall|i: int| 0 <= i < row.len() ==> letter_piece(#[trigger] row[i]) is Some,
    ensures
        rank_prefix(row) == Ok::<Seq<Cell>, ParseError>(row.map_values(|c: char| letter_piece(c))),
    decreases row.len(),
{
    if row.len() == 0 {
        assert(row.map_values(|c: char| letter_piece(c)) =~= Seq::<Cell>::empty());
    } else {
        let d = row.drop_last();
        assert(forall|i: int| 0 <= i < d.len() ==> d[i] == row[i]);
        lemma_letters_rank(d);
        assert(letter_piece(row[row.len() - 1]) is Some);
        assert(d.map_values(|c: char| letter_piece(c)).push(letter_piece(row.last()))
            =~= row.map_values(|c: char| letter_piece(c)));
    }
}

/// The eight ranks of the standard placement, from rank 8 down to rank 1.
pub open spec fn start_ranks() -> Seq<Seq<char>> {
    seq![
        seq!['r', 'n', 'b', 'q', 'k', 'b', 'n', 'r'],
        seq!['p', 'p', 'p', 'p', 'p', 'p', 'p', 'p'],
        seq!['8'],
        seq!['8'],
        seq!['8'],
        seq!['8'],
        seq!['P', 'P', 'P', 'P', 'P', 'P', 'P', 'P'],
        seq!['R', 'N', 'B', 'Q', 'K', 'B', 'N', 'R'],
    ]
}

/// The standard placement field splits into its eight ranks.
proof fn lemma_start_placement_split(place: Seq<char>)
    requires
        place == start_ranks()[0] + seq!['/'] + start_ranks()[1] + seq!['/'] + start_ranks()[2]
            + seq!['/'] + start_ranks()[3] + seq!['/'] + start_ranks()[4] + seq!['/']
            + start_ranks()[5] + seq!['/'] + start_ranks()[6] + seq!['/'] + start_ranks()[7],
    ensures
        split_on(place, '/') == start_ranks(),
{
    let r = start_ranks();
    let sl = seq!['/'];
    let head2 = r[0] + sl + r[1];
    let head3 = head2 + sl + r[2];
    let head4 = head3 + sl + r[3];
    let head5 = head4 + sl + r[4];
    let head6 = head5 + sl + r[5];
    let head7 = head6 + sl + r[6];
    assert(!r[0].contains('/') && !r[1].contains('/') && !r[2].contains('/') && !r[6].contains('/') && !r[7].contains('/'));
    lemma_split_single(r[0], '/');
    lemma_split_single(r[1], '/');
    lemma_split_single(r[2], '/');
    lemma_split_single(r[6], '/');
    lemma_split_single(r[7], '/');
    lemma_split_join(r[0], r[1], '/');
    lemma_split_join(head2, r[2], '/');
    lemma_split_join(head3, r[3], '/');
    lemma_split_join(head4, r[4], '/');
    lemma_split_join(head5, r[5], '/');
    lemma_split_join(head6, r[6], '/');
    lemma_split_join(head7, r[7], '/');
    assert(split_on(place, '/') =~= r);
}

/// The ranks of the standard placement read as the starting board.
proof fn lemma_start_board()
    ensures
        parse_ranks(start_ranks()) is Ok,
        board_of(parse_ranks(start_ranks())->Ok_0) =~= Seq::new(64, |sq: int| start_cell(sq)),
{
    let r = start_ranks();
    lemma_letters_rank(r[0]);
    lemma_letters_rank(r[1]);
    lemma_letters_rank(r[6]);
    lemma_letters_rank(r[7]);
    let e = r[2];
    let empty: Seq<char> = Seq::empty();
    assert(e.drop_last() =~= empty);
    assert(rank_prefix(empty) == Ok::<Seq<Cell>, ParseError>(Seq::empty()));
    assert(letter_piece('8') is None);
    assert(rank_prefix(e) is Ok);
    let none8 = rank_prefix(e)->Ok_0;
    assert(none8.len() == 8);
    assert(forall|i: int| 0 <= i < 8 ==> none8[i] is None);
    let c8 = r[0].map_values(|c: char| letter_piece(c));
    let c7 = r[1].map_values(|c: char| letter_piece(c));
    let c2 = r[6].map_values(|c: char| letter_piece(c));
    let c1 = r[7].map_values(|c: char| letter_piece(c));
    let rs = seq![c8, c7, none8, none8, none8, none8, c2, c1];
    reveal_with_fuel(parse_ranks, 9);
    assert(r.drop_last() =~= seq![r[0], r[1], e, e, e, e, r[6]]);
    assert(r.drop_last().drop_last() =~= seq![r[0], r[1], e, e, e, e]);
    assert(r.drop_last().drop_last().drop_last() =~= seq![r[0], r[1], e, e, e]);
    assert(r.drop_last().drop_last().drop_last().drop_last() =~= seq![r[0], r[1], e, e]);
    assert(r.drop_last().drop_last().drop_last().drop_last().drop_last() =~= seq![r[0], r[1], e]);
    assert(r.drop_last().drop_last().drop_last().drop_last().drop_last().drop_last() =~= seq![r[0], r[1]]);
    assert(seq![r[0], r[1]].drop_last() =~= seq![r[0]]);
    assert(seq![r[0]].drop_last() =~= Seq::<Seq<char>>::empty());
    assert(parse_ranks(r) == Ok::<Seq<Seq<Cell>>, ParseError>(rs)) by {
        assert(rs =~= seq![c8].push(c7).push(none8).push(none8).push(none8).push(none8).push(c2).push(c1));
    }
    assert(board_of(rs) =~= Seq::new(64, |sq: int| start_cell(sq))) by {
        reveal(start_cell);
    }
}

/// The standard FEN record of the starting position decodes to it.
#[verifier::rlimit(50)]
pub proof fn lemma_start_record()
    ensures
        spec_read_fen("rnbqkbnr/pppppppp/8/8/8/8/PPPPPPPP/RNBQKBNR w KQkq - 0 1"@)
            == Ok::<Position, ParseError>(start_position()),
{
    reveal_strlit("rnbqkbnr/pppppppp/8/8/8/8/PPPPPPPP/RNBQKBNR w KQkq - 0 1");
    let fen = "rnbqkbnr/pppppppp/8/8/8/8/PPPPPPPP/RNBQKBNR w KQkq - 0 1"@;
    let r = start_ranks();
    let sl = seq!['/'];
    let place = r[0] + sl + r[1] + sl + r[2] + sl + r[3] + sl + r[4] + sl + r[5] + sl + r[6] + sl + r[7];
    let sp = seq![' '];
    let w = seq!['w'];
    let kq = seq!['K', 'Q', 'k', 'q'];
    let dash = seq!['-'];
    let zero = seq!['0'];
    let one = seq!['1'];
    let f1 = place + sp + w;
    let f2 = f1 + sp + kq;
    let f3 = f2 + sp + dash;
    let f4 = f3 + sp + zero;
    assert(fen =~= f4 + sp + one);
    assert(!place.contains(' '));
    lemma_split_single(place, ' ');
    lemma_split_single(w, ' ');
    lemma_split_single(kq, ' ');
    lemma_split_single(dash, ' ');
    lemma_split_single(zero, ' ');
    lemma_split_single(one, ' ');
    lemma_split_join(place, w, ' ');
    lemma_split_join(f1, kq, ' ');
    lemma_split_join(f2, dash, ' ');
    lemma_split_join(f3, zero, ' ');
    lemma_split_join(f4, one, ' ');
    assert(split_on(fen, ' ') =~= seq![place, w, kq, dash, zero, one]);

    lemma_start_placement_split(place);
    lemma_start_board();

    crate::laws::lemma_castling_exhaustive(15, fen);
    assert(15u8 & 1 != 0 && 15u8 & 2 != 0 && 15u8 & 4 != 0 && 15u8 & 8 != 0) by (bit_vector);
    assert(crate::laws::castling_text(15) =~= kq);
    let empty: Seq<char> = Seq::empty();
    assert(zero.drop_last() =~= empty);
    assert(one.drop_last() =~= empty);
    assert(digits_value(empty) == 0);
    assert(digits_value(zero) == 0);
    assert(digits_value(one) == 1);
    assert(all_digits(zero) && all_digits(one));
    assert(number_body(zero) == zero);
    assert(number_body(one) == one);
    assert(spec_parse_number(zero) == Some(0usize));
    assert(spec_parse_number(one) == Some(1usize));
    assert(spec_read_fen(fen)->Ok_0.board =~= start_position().board);
}

impl Game {
    /// The position at the start of a game, decoded from its standard FEN
    /// record `rnbqkbnr/pppppppp/8/8/8/8/PPPPPPPP/RNBQKBNR w KQkq - 0 1`.
    pub fn initialize() -> (r: Game)
        ensures
            r.wf(),
            r@ == start_position(),
    {
        proof {
            lemma_start_record();
        }
        Game::read_FEN("rnbqkbnr/pppppppp/8/8/8/8/PPPPPPPP/RNBQKBNR w KQkq - 0 1").unwrap()
    }
}

} // verus!
