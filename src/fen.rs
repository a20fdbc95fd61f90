use vstd::prelude::*;
use crate::error::ParseError;
use crate::fields::{
    chars_of, parse_castling, parse_color, parse_en_passant, parse_number, spec_parse_castling,
    spec_parse_color, spec_parse_en_passant, spec_parse_number, split_chars, split_on, views,
};
use crate::game::{board_linked, square_cell, Cell, Game, Position};
use crate::piece::{letter_piece, piece_of_letter, Color, Piece, PieceType, Square};
use crate::square::{lemma_square_bit_scan, square_bit};

verus! {

/// A digit that stands for a run of one to eight empty squares.
pub open spec fn is_run_digit(c: char) -> bool {
    '1' <= c && c <= '8'
}

/// Accepts the cells of a rank read so far unless they pass the eighth file.
pub open spec fn within_rank(cells: Seq<Cell>) -> Result<Seq<Cell>, ParseError> {
    if cells.len() > 8 {
        Err(ParseError::RankOverflow)
    } else {
        Ok(cells)
    }
}

/// The cells that the characters of a rank describe, from file a onwards,
/// or the error at the first character that breaks the rank.
pub open spec fn rank_prefix(row: Seq<char>) -> Result<Seq<Cell>, ParseError>
    decreases row.len(),
{
    if row.len() == 0 {
        Ok(Seq::empty())
    } else {
        match rank_prefix(row.drop_last()) {
            Err(e) => Err(e),
            Ok(cells) => {
                let c = row.last();
                if letter_piece(c) is Some {
                    within_rank(cells.push(letter_piece(c)))
                } else if is_run_digit(c) {
                    within_rank(cells + Seq::new((c as int - 48) as nat, |i: int| None::<(Color, PieceType)>))
                } else {
                    Err(ParseError::InvalidPieceChar)
                }
            },
        }
    }
}

/// The eight cells of one rank of the piece placement.
pub open spec fn parse_rank(row: Seq<char>) -> Result<Seq<Cell>, ParseError> {
    match rank_prefix(row) {
        Err(e) => Err(e),
        Ok(cells) => if cells.len() == 8 {
            Ok(cells)
        } else {
            Err(ParseError::WrongSquareCount)
        },
    }
}

/// An error in a prefix of a rank is the error of the rank.
proof fn lemma_rank_error(row: Seq<char>, i: int, e: ParseError)
    requires
        0 <= i <= row.len(),
        rank_prefix(row.subrange(0, i)) == Err::<Seq<Cell>, ParseError>(e),
    ensures
        rank_prefix(row) == Err::<Seq<Cell>, ParseError>(e),
    decreases row.len(),
{
    if i < row.len() {
        assert(row.drop_last().subrange(0, i) =~= row.subrange(0, i));
        lemma_rank_error(row.drop_last(), i, e);
    } else {
        assert(row.subrange(0, i) =~= row);
    }
}

/// What square `f` of a rank holds, where the rank's pieces are numbered from `base`.
pub open spec fn row_cell(ps: Seq<Piece>, sqs: Seq<Square>, base: int, f: int) -> Cell {
    match sqs[f] {
        Square::Empty => None,
        Square::Occupied(k) => Some((ps[k - base].color, ps[k - base].piece_type)),
    }
}

/// The squares and pieces of a rank agree: each occupied square refers to a
/// piece of the rank that stands on it, and each piece stands on a square of
/// the rank that refers to it.
pub open spec fn row_linked(ps: Seq<Piece>, sqs: Seq<Square>, base: int, start: int) -> bool {
    &&& forall|f: int| 0 <= f < sqs.len() ==>
        (#[trigger] sqs[f] matches Square::Occupied(k) ==> {
            &&& base <= k < base + ps.len()
            &&& ps[k - base].position == square_bit(start + f)
        })
    &&& forall|j: int| 0 <= j < ps.len() ==> {
            let sq = (#[trigger] ps[j]).position.trailing_zeros() as int;
            &&& start <= sq < start + sqs.len()
            &&& sqs[sq - start] == Square::Occupied((base + j) as usize)
        }
}

/// Reads one rank of the piece placement whose first square is
/// `piece_position` and whose first piece gets index `piece_index`: the
/// rank's pieces and its eight squares from file a to file h.
pub fn parse_row(row: &Vec<char>, piece_index: usize, piece_position: usize) -> (r: Result<
    (Vec<Piece>, Vec<Square>),
    ParseError,
>)
    requires
        piece_position + 8 <= 64,
        piece_index + 8 <= usize::MAX,
    ensures
        match r {
            Err(e) => parse_rank(row@) == Err::<Seq<Cell>, ParseError>(e),
            Ok((ps, sqs)) => {
                &&& parse_rank(row@) is Ok
                &&& sqs@.len() == 8
                &&& ps@.len() <= 8
                &&& row_linked(ps@, sqs@, piece_index as int, piece_position as int)
                &&& forall|f: int| 0 <= f < 8 ==>
                    #[trigger] row_cell(ps@, sqs@, piece_index as int, f) == parse_rank(row@)->Ok_0[f]
            },
        },
{
    let mut pieces: Vec<Piece> = Vec::new();
    let mut squares: Vec<Square> = Vec::new();
    let ghost base = piece_index as int;
    let ghost start = piece_position as int;
    let mut i: usize = 0;
    assert(row@.subrange(0, 0) =~= Seq::<char>::empty());
    assert(Seq::new(0, |f: int| row_cell(pieces@, squares@, base, f)) =~= Seq::<Cell>::empty());
    while i < row.len()
        invariant
            i <= row@.len(),
            piece_position + 8 <= 64,
            piece_index + 8 <= usize::MAX,
            base == piece_index,
            start == piece_position,
            squares@.len() <= 8,
            pieces@.len() <= squares@.len(),
            row_linked(pieces@, squares@, base, start),
            rank_prefix(row@.subrange(0, i as int)) == Ok::<Seq<Cell>, ParseError>(
                Seq::new(squares@.len(), |f: int| row_cell(pieces@, squares@, base, f)),
            ),
        decreases row@.len() - i,
    {
        let c = row[i];
        let ghost pre = row@.subrange(0, i as int);
        let ghost next = row@.subrange(0, i as int + 1);
        let ghost cells = Seq::new(squares@.len(), |f: int| row_cell(pieces@, squares@, base, f));
        let ghost old_pieces = pieces@;
        let ghost old_squares = squares@;
        assert(next.drop_last() =~= pre);
        assert(next.last() == c);
        match piece_of_letter(c) {
            Some((color, piece_type)) => {
                if squares.len() == 8 {
                    proof {
                        lemma_rank_error(row@, i as int + 1, ParseError::RankOverflow);
                    }
                    return Err(ParseError::RankOverflow);
                }
                let sq = piece_position + squares.len();
                let k = piece_index + pieces.len();
                pieces.push(Piece { position: 1u64 << (sq as u64), color, piece_type });
                squares.push(Square::Occupied(k));
                proof {
                    lemma_square_bit_scan(sq as int);
                    assert forall|f: int| 0 <= f < squares@.len() implies
                        (#[trigger] squares@[f] matches Square::Occupied(k2) ==> {
                            &&& base <= k2 < base + pieces@.len()
                            &&& pieces@[k2 - base].position == square_bit(start + f)
                        }) by {
                        if f < old_squares.len() {
                            assert(squares@[f] == old_squares[f]);
                        }
                    }
                    assert forall|j: int| 0 <= j < pieces@.len() implies {
                        let s2 = (#[trigger] pieces@[j]).position.trailing_zeros() as int;
                        &&& start <= s2 < start + squares@.len()
                        &&& squares@[s2 - start] == Square::Occupied((base + j) as usize)
                    } by {
                        if j < old_pieces.len() {
                            assert(pieces@[j] == old_pieces[j]);
                        }
                    }
                    assert(Seq::new(squares@.len(), |f: int| row_cell(pieces@, squares@, base, f))
                        =~= cells.push(letter_piece(c)));
                }
            },
            None => {
                if !('1' <= c && c <= '8') {
                    proof {
                        lemma_rank_error(row@, i as int + 1, ParseError::InvalidPieceChar);
                    }
                    return Err(ParseError::InvalidPieceChar);
                }
                let run = (c as u32 - 48) as usize;
                if squares.len() + run > 8 {
                    proof {
                        lemma_rank_error(row@, i as int + 1, ParseError::RankOverflow);
                    }
                    return Err(ParseError::RankOverflow);
                }
                let mut j: usize = 0;
                while j < run
                    invariant
                        j <= run,
                        old_squares.len() + run <= 8,
                        pieces@ == old_pieces,
                        squares@.len() == old_squares.len() + j,
                        forall|f: int| 0 <= f < old_squares.len() ==> squares@[f] == old_squares[f],
                        forall|f: int| old_squares.len() <= f < squares@.len() ==> squares@[f] == Square::Empty,
                    decreases run - j,
                {
                    squares.push(Square::Empty);
                    j = j + 1;
                }
                proof {
                    assert forall|f: int| 0 <= f < squares@.len() implies
                        (#[trigger] squares@[f] matches Square::Occupied(k2) ==> {
                            &&& base <= k2 < base + pieces@.len()
                            &&& pieces@[k2 - base].position == square_bit(start + f)
                        }) by {
                        if f < old_squares.len() {
                            assert(squares@[f] == old_squares[f]);
                        }
                    }
                    assert forall|j2: int| 0 <= j2 < pieces@.len() implies {
                        let s2 = (#[trigger] pieces@[j2]).position.trailing_zeros() as int;
                        &&& start <= s2 < start + squares@.len()
                        &&& squares@[s2 - start] == Square::Occupied((base + j2) as usize)
                    } by {
                        let s2 = pieces@[j2].position.trailing_zeros() as int;
                        assert(squares@[s2 - start] == old_squares[s2 - start]);
                    }
                    assert(Seq::new(squares@.len(), |f: int| row_cell(pieces@, squares@, base, f))
                        =~= cells + Seq::new((c as int - 48) as nat, |f: int| None::<(Color, PieceType)>));
                }
            },
        }
        i = i + 1;
    }
    assert(row@.subrange(0, row@.len() as int) =~= row@);
    if squares.len() != 8 {
        return Err(ParseError::WrongSquareCount);
    }
    Ok((pieces, squares))
}

/// The cells of each rank, in the order the ranks are written, or the error
/// of the first rank that is malformed.
pub open spec fn parse_ranks(ranks: Seq<Seq<char>>) -> Result<Seq<Seq<Cell>>, ParseError>
    decreases ranks.len(),
{
    if ranks.len() == 0 {
        Ok(Seq::empty())
    } else {
        match parse_ranks(ranks.drop_last()) {
            Err(e) => Err(e),
            Ok(rs) => match parse_rank(ranks.last()) {
                Err(e) => Err(e),
                Ok(cells) => Ok(rs.push(cells)),
            },
        }
    }
}

/// The 64 cells from a1 to h8 of eight ranks written from rank 8 down to rank 1.
pub open spec fn board_of(rs: Seq<Seq<Cell>>) -> Seq<Cell> {
    Seq::new(64, |sq: int| rs[7 - sq / 8][sq % 8])
}

/// The board that a piece-placement field describes: eight ranks separated
/// by `/`, from rank 8 down to rank 1.
pub open spec fn parse_placement(field: Seq<char>) -> Result<Seq<Cell>, ParseError> {
    let ranks = split_on(field, '/');
    if ranks.len() != 8 {
        Err(ParseError::WrongSquareCount)
    } else {
        match parse_ranks(ranks) {
            Err(e) => Err(e),
            Ok(rs) => Ok(board_of(rs)),
        }
    }
}

/// An error in the first ranks is the error of all of them.
proof fn lemma_ranks_error(ranks: Seq<Seq<char>>, i: int, e: ParseError)
    requires
        0 <= i <= ranks.len(),
        parse_ranks(ranks.subrange(0, i)) == Err::<Seq<Seq<Cell>>, ParseError>(e),
    ensures
        parse_ranks(ranks) == Err::<Seq<Seq<Cell>>, ParseError>(e),
    decreases ranks.len(),
{
    if i < ranks.len() {
        assert(ranks.drop_last().subrange(0, i) =~= ranks.subrange(0, i));
        lemma_ranks_error(ranks.drop_last(), i, e);
    } else {
        assert(ranks.subrange(0, i) =~= ranks);
    }
}

/// The cells of the ranks read so far, through the piece list.
pub open spec fn rows_cells(pieces: Seq<Piece>, rows: Seq<Vec<Square>>) -> Seq<Seq<Cell>> {
    Seq::new(rows.len(), |t: int| Seq::new(8, |f: int| square_cell(pieces, rows[t]@[f])))
}

/// Reads the piece-placement field into the piece list and the 64 squares
/// from a1 to h8.
pub fn read_placement(field: &Vec<char>) -> (r: Result<(Vec<Piece>, Vec<Square>), ParseError>)
    ensures
        match r {
            Err(e) => parse_placement(field@) == Err::<Seq<Cell>, ParseError>(e),
            Ok((ps, sqs)) => {
                &&& sqs@.len() == 64
                &&& board_linked(ps@, sqs@)
                &&& parse_placement(field@) == Ok::<Seq<Cell>, ParseError>(
                    Seq::new(64, |sq: int| square_cell(ps@, sqs@[sq])),
                )
            },
        },
{
    let ranks = split_chars(field, '/');
    if ranks.len() != 8 {
        return Err(ParseError::WrongSquareCount);
    }
    let ghost rv = views(ranks@);
    let mut pieces: Vec<Piece> = Vec::new();
    let mut rows: Vec<Vec<Square>> = Vec::new();
    let mut t: usize = 0;
    assert(rv.subrange(0, 0) =~= Seq::<Seq<char>>::empty());
    assert(rows_cells(pieces@, rows@) =~= Seq::<Seq<Cell>>::empty());
    while t < 8
        invariant
            t <= 8,
            ranks@.len() == 8,
            rv == views(ranks@),
            rv == split_on(field@, '/'),
            rows@.len() == t,
            pieces@.len() <= 8 * t,
            forall|t2: int| 0 <= t2 < t ==> (#[trigger] rows@[t2])@.len() == 8,
            forall|t2: int, f: int| 0 <= t2 < t && 0 <= f < 8 ==>
                (#[trigger] rows@[t2]@[f] matches Square::Occupied(k) ==> {
                    &&& k < pieces@.len()
                    &&& pieces@[k as int].position == square_bit((7 - t2) * 8 + f)
                }),
            forall|k: int| 0 <= k < pieces@.len() ==> {
                let sq = (#[trigger] pieces@[k]).position.trailing_zeros() as int;
                &&& (8 - t) * 8 <= sq < 64
                &&& rows@[7 - sq / 8]@[sq % 8] == Square::Occupied(k as usize)
            },
            parse_ranks(rv.subrange(0, t as int)) == Ok::<Seq<Seq<Cell>>, ParseError>(
                rows_cells(pieces@, rows@),
            ),
        decreases 8 - t,
    {
        let base = pieces.len();
        let start = (7 - t) * 8;
        let ghost old_pieces = pieces@;
        let ghost old_rows = rows@;
        let ghost pre = rv.subrange(0, t as int);
        let ghost next = rv.subrange(0, t as int + 1);
        assert(next.drop_last() =~= pre);
        assert(next.last() == ranks@[t as int]@);
        match parse_row(&ranks[t], base, start) {
            Err(e) => {
                proof {
                    lemma_ranks_error(rv, t as int + 1, e);
                }
                return Err(e);
            },
            Ok((ps, sqs)) => {
                let ghost cells = parse_rank(ranks@[t as int]@)->Ok_0;
                let ghost psv = ps@;
                let mut ps = ps;
                pieces.append(&mut ps);
                rows.push(sqs);
                proof {
                    assert(pieces@ == old_pieces + psv);
                    assert forall|t2: int| 0 <= t2 < t + 1 implies (#[trigger] rows@[t2])@.len() == 8 by {
                        if t2 < t {
                            assert(rows@[t2] == old_rows[t2]);
                        }
                    }
                    assert forall|t2: int, f: int| 0 <= t2 < t + 1 && 0 <= f < 8 implies
                        (#[trigger] rows@[t2]@[f] matches Square::Occupied(k) ==> {
                            &&& k < pieces@.len()
                            &&& pieces@[k as int].position == square_bit((7 - t2) * 8 + f)
                        }) by {
                        if t2 < t {
                            assert(rows@[t2] == old_rows[t2]);
                        } else {
                            assert(rows@[t2] == sqs);
                            if let Square::Occupied(k) = sqs@[f] {
                                assert(pieces@[k as int] == psv[k - base]);
                            }
                        }
                    }
                    assert forall|k: int| 0 <= k < pieces@.len() implies {
                        let sq = (#[trigger] pieces@[k]).position.trailing_zeros() as int;
                        &&& (8 - (t + 1)) * 8 <= sq < 64
                        &&& rows@[7 - sq / 8]@[sq % 8] == Square::Occupied(k as usize)
                    } by {
                        if k < base {
                            assert(pieces@[k] == old_pieces[k]);
                            let sq = old_pieces[k].position.trailing_zeros() as int;
                            assert(7 - sq / 8 < t);
                            assert(rows@[7 - sq / 8] == old_rows[7 - sq / 8]);
                        } else {
                            let j = k - base;
                            assert(pieces@[k] == psv[j]);
                            let sq = psv[j].position.trailing_zeros() as int;
                            assert(start <= sq < start + 8);
                            assert(sq / 8 == 7 - t);
                            assert(sq % 8 == sq - start);
                            assert(rows@[7 - sq / 8] == sqs);
                        }
                    }
                    assert forall|f: int| 0 <= f < 8 implies
                        square_cell(pieces@, sqs@[f]) == #[trigger] cells[f] by {
                        assert(row_cell(psv, sqs@, base as int, f) == cells[f]);
                        if let Square::Occupied(k) = sqs@[f] {
                            assert(pieces@[k as int] == psv[k - base]);
                        }
                    }
                    let old_cells = rows_cells(old_pieces, old_rows);
                    assert forall|t2: int| 0 <= t2 < t implies
                        #[trigger] rows_cells(pieces@, rows@)[t2] == old_cells[t2] by {
                        assert(rows@[t2] == old_rows[t2]);
                        assert forall|f: int| 0 <= f < 8 implies
                            square_cell(pieces@, rows@[t2]@[f]) == square_cell(old_pieces, old_rows[t2]@[f]) by {
                            if let Square::Occupied(k) = old_rows[t2]@[f] {
                                assert(pieces@[k as int] == old_pieces[k as int]);
                            }
                        }
                        assert(rows_cells(pieces@, rows@)[t2] =~= old_cells[t2]);
                    }
                    assert(rows_cells(pieces@, rows@)[t as int] =~= cells);
                    assert(rows_cells(pieces@, rows@) =~= old_cells.push(cells));
                }
            },
        }
        t = t + 1;
    }
    assert(rv.subrange(0, 8) =~= rv);
    let ghost rs = rows_cells(pieces@, rows@);
    let mut squares: Vec<Square> = Vec::new();
    let mut sq: usize = 0;
    while sq < 64
        invariant
            sq <= 64,
            rows@.len() == 8,
            forall|t2: int| 0 <= t2 < 8 ==> (#[trigger] rows@[t2])@.len() == 8,
            squares@.len() == sq,
            forall|s: int| 0 <= s < sq ==> #[trigger] squares@[s] == rows@[7 - s / 8]@[s % 8],
        decreases 64 - sq,
    {
        squares.push(rows[7 - sq / 8][sq % 8]);
        sq = sq + 1;
    }
    proof {
        assert forall|s: int| 0 <= s < 64 implies
            (#[trigger] squares@[s] matches Square::Occupied(k) ==> {
                &&& k < pieces@.len()
                &&& pieces@[k as int].position == square_bit(s)
            }) by {
            let t2 = 7 - s / 8;
            let f = s % 8;
            assert(squares@[s] == rows@[t2]@[f]);
            assert((7 - t2) * 8 + f == s);
        }
        assert forall|k: int| 0 <= k < pieces@.len() implies {
            let s = (#[trigger] pieces@[k]).position.trailing_zeros() as int;
            &&& s < squares@.len()
            &&& squares@[s] == Square::Occupied(k as usize)
        } by {
            let s = pieces@[k].position.trailing_zeros() as int;
            assert(squares@[s] == rows@[7 - s / 8]@[s % 8]);
        }
        assert(board_of(rs) =~= Seq::new(64, |s: int| square_cell(pieces@, squares@[s])));
    }
    Ok((pieces, squares))
}

/// The position that a FEN record describes, or the first error met when its
/// fields are read in order: placement, side to move, castling rights,
/// en-passant target, halfmove clock, fullmove number. Fields are separated
/// by single spaces; fields after the sixth are ignored.
pub open spec fn spec_read_fen(fen: Seq<char>) -> Result<Position, ParseError> {
    let fields = split_on(fen, ' ');
    if fields.len() < 6 {
        Err(ParseError::MissingField)
    } else {
        match parse_placement(fields[0]) {
            Err(e) => Err(e),
            Ok(board) => match spec_parse_color(fields[1]) {
                Err(e) => Err(e),
                Ok(active_color) => match spec_parse_castling(fields[2]) {
                    Err(e) => Err(e),
                    Ok(castling) => match spec_parse_en_passant(fields[3]) {
                        Err(e) => Err(e),
                        Ok(en_passant) => match spec_parse_number(fields[4]) {
                            None => Err(ParseError::InvalidHalfmove),
                            Some(halfmove_clock) => match spec_parse_number(fields[5]) {
                                None => Err(ParseError::InvalidFullmove),
                                Some(fullmove_number) => if fullmove_number == 0 {
                                    Err(ParseError::InvalidFullmove)
                                } else {
                                    Ok(
                                        Position {
                                            board,
                                            active_color,
                                            castling,
                                            en_passant,
                                            halfmove_clock,
                                            fullmove_number,
                                        },
                                    )
                                },
                            },
                        },
                    },
                },
            },
        }
    }
}

impl Game {
    /// Decodes a FEN record into a well-formed position, or reports why it
    /// is malformed.
    #[allow(non_snake_case)]
    pub fn read_FEN(fen: &str) -> (r: Result<Game, ParseError>)
        ensures
            match r {
                Ok(g) => g.wf() && spec_read_fen(fen@) == Ok::<Position, ParseError>(g@),
                Err(e) => spec_read_fen(fen@) == Err::<Position, ParseError>(e),
            },
    {
        let chars = chars_of(fen);
        let fields = split_chars(&chars, ' ');
        let ghost fv = views(fields@);
        if fields.len() < 6 {
            return Err(ParseError::MissingField);
        }
        assert(fv[0] == fields@[0]@ && fv[1] == fields@[1]@ && fv[2] == fields@[2]@);
        assert(fv[3] == fields@[3]@ && fv[4] == fields@[4]@ && fv[5] == fields@[5]@);
        let (pieces, squares) = match read_placement(&fields[0]) {
            Ok(placed) => placed,
            Err(e) => return Err(e),
        };
        let active_color = match parse_color(&fields[1]) {
            Ok(c) => c,
            Err(e) => return Err(e),
        };
        let castling_rights = match parse_castling(&fields[2]) {
            Ok(c) => c,
            Err(e) => return Err(e),
        };
        let en_passant = match parse_en_passant(&fields[3]) {
            Ok(ep) => ep,
            Err(e) => return Err(e),
        };
        let halfmove_clock = match parse_number(&fields[4]) {
            Some(n) => n,
            None => return Err(ParseError::InvalidHalfmove),
        };
        let fullmove_number = match parse_number(&fields[5]) {
            Some(n) => n,
            None => return Err(ParseError::InvalidFullmove),
        };
        if fullmove_number == 0 {
            return Err(ParseError::InvalidFullmove);
        }
        let game = Game {
            pieces,
            squares,
            active_color,
            castling_rights,
            en_passant,
            halfmove_clock,
            fullmove_number,
        };
        assert(game@.board =~= Seq::new(64, |sq: int| square_cell(game.pieces@, game.squares@[sq])));
        Ok(game)
    }
}

} // verus!
