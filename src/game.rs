use vstd::prelude::*;
use crate::castling::CastlingRights;
use crate::piece::{piece_letter, Color, Piece, PieceType, Square};
use crate::square::{index_to_position, square_bit, square_name};

verus! {

/// What a square holds, as side and kind, or `None` when it is empty.
pub type Cell = Option<(Color, PieceType)>;

/// The content of a position: 64 cells from a1 to h8, the side to move, the
/// bits of the castling rights, the en-passant target and the two clocks.
pub struct Position {
    pub board: Seq<Cell>,
    pub active_color: Color,
    pub castling: u8,
    pub en_passant: Option<u64>,
    pub halfmove_clock: usize,
    pub fullmove_number: usize,
}

/// A chess position: the pieces in the order they were placed, the 64
/// squares from a1 to h8 that refer to them, and the state of play.
pub struct Game {
    pub pieces: Vec<Piece>,
    pub squares: Vec<Square>,
    pub active_color: Color,
    pub castling_rights: CastlingRights,
    pub en_passant: Option<u64>,
    pub halfmove_clock: usize,
    pub fullmove_number: usize,
}

/// What a square refers to in `pieces`, as side and kind.
pub open spec fn square_cell(pieces: Seq<Piece>, s: Square) -> Cell {
    match s {
        Square::Empty => None,
        Square::Occupied(k) => Some((pieces[k as int].color, pieces[k as int].piece_type)),
    }
}

/// Squares and pieces agree: every occupied square refers to a piece that
/// stands on it, and every piece stands on a square that refers to it.
pub open spec fn board_linked(pieces: Seq<Piece>, squares: Seq<Square>) -> bool {
    &&& forall|sq: int| 0 <= sq < squares.len() ==>
        (#[trigger] squares[sq] matches Square::Occupied(k) ==> {
            &&& k < pieces.len()
            &&& pieces[k as int].position == square_bit(sq)
        })
    &&& forall|k: int| 0 <= k < pieces.len() ==> {
            let sq = (#[trigger] pieces[k]).position.trailing_zeros() as int;
            &&& sq < squares.len()
            &&& squares[sq] == Square::Occupied(k as usize)
        }
}

impl Game {
    /// What square `sq` holds.
    pub open spec fn cell(&self, sq: int) -> Cell {
        square_cell(self.pieces@, self.squares@[sq])
    }

    /// Every occupied square refers to a piece of the list.
    pub open spec fn refs_in_range(&self) -> bool {
        forall|sq: int| 0 <= sq < self.squares@.len() ==>
            (#[trigger] self.squares@[sq] matches Square::Occupied(k) ==> k < self.pieces@.len())
    }

    /// The board has 64 squares, squares and pieces agree, and the fullmove
    /// number is positive.
    pub open spec fn wf(&self) -> bool {
        &&& self.squares@.len() == 64
        &&& board_linked(self.pieces@, self.squares@)
        &&& self.fullmove_number >= 1
    }

    /// The text of one square: its piece's letter and a space, or its name
    /// when it is empty.
    pub open spec fn square_text(&self, sq: int) -> Seq<char> {
        match self.squares@[sq] {
            Square::Empty => square_name(sq),
            Square::Occupied(k) => seq![
                piece_letter(self.pieces@[k as int].color, self.pieces@[k as int].piece_type),
                ' ',
            ],
        }
    }

    /// The texts of the first `n` squares of rank `row` (0 is rank 1).
    pub open spec fn rank_text(&self, row: int, n: int) -> Seq<char>
        decreases n,
    {
        if n <= 0 {
            Seq::empty()
        } else {
            self.rank_text(row, n - 1) + self.square_text(row * 8 + n - 1)
        }
    }

    /// The lines of the top `n` ranks, from rank 8 downwards, each ended by a newline.
    pub open spec fn board_text(&self, n: int) -> Seq<char>
        decreases n,
    {
        if n <= 0 {
            Seq::empty()
        } else {
            self.board_text(n - 1) + self.rank_text(8 - n, 8) + seq!['\n']
        }
    }
}

impl View for Game {
    type V = Position;

    open spec fn view(&self) -> Position {
        Position {
            board: Seq::new(self.squares@.len(), |sq: int| self.cell(sq)),
            active_color: self.active_color,
            castling: self.castling_rights@,
            en_passant: self.en_passant,
            halfmove_clock: self.halfmove_clock,
            fullmove_number: self.fullmove_number,
        }
    }
}

impl Game {
    /// Places a new piece on square `position`: the piece goes to the end of
    /// the list and the next square refers to it by `*index`, which then
    /// moves on by one.
    pub fn push_piece_and_square(
        &mut self,
        position: usize,
        color: Color,
        piece_type: PieceType,
        index: &mut usize,
    )
        requires
            position < 64,
            *old(index) < usize::MAX,
        ensures
            final(self).pieces@ == old(self).pieces@.push(
                (Piece { position: square_bit(position as int), color, piece_type }),
            ),
            final(self).squares@ == old(self).squares@.push(Square::Occupied(*old(index))),
            *final(index) == *old(index) + 1,
            final(self).active_color == old(self).active_color,
            final(self).castling_rights == old(self).castling_rights,
            final(self).en_passant == old(self).en_passant,
            final(self).halfmove_clock == old(self).halfmove_clock,
            final(self).fullmove_number == old(self).fullmove_number,
    {
        self.pieces.push(Piece { position: 1u64 << (position as u64), color, piece_type });
        self.squares.push(Square::Occupied(*index));
        *index = *index + 1;
    }

    /// Appends an empty square.
    pub fn push_empty_square(&mut self)
        ensures
            final(self).pieces@ == old(self).pieces@,
            final(self).squares@ == old(self).squares@.push(Square::Empty),
            final(self).active_color == old(self).active_color,
            final(self).castling_rights == old(self).castling_rights,
            final(self).en_passant == old(self).en_passant,
            final(self).halfmove_clock == old(self).halfmove_clock,
            final(self).fullmove_number == old(self).fullmove_number,
    {
        self.squares.push(Square::Empty);
    }

    /// The board as eight lines from rank 8 down to rank 1: each square is
    /// its piece's letter and a space, or its own name when it is empty.
    pub fn to_string(&self) -> (r: String)
        requires
            self.squares@.len() == 64,
            self.refs_in_range(),
        ensures
            r@ == self.board_text(8),
    {
        let newline = "\n";
        proof {
            reveal_strlit("\n");
        }
        let mut board = String::new();
        let mut n: usize = 0;
        while n < 8
            invariant
                n <= 8,
                self.squares@.len() == 64,
                self.refs_in_range(),
                newline@ == seq!['\n'],
                board@ == self.board_text(n as int),
            decreases 8 - n,
        {
            let row = 7 - n;
            let mut line = String::new();
            let mut f: usize = 0;
            while f < 8
                invariant
                    f <= 8,
                    row < 8,
                    self.squares@.len() == 64,
                    self.refs_in_range(),
                    line@ == self.rank_text(row as int, f as int),
                decreases 8 - f,
            {
                let sq = row * 8 + f;
                match self.squares[sq] {
                    Square::Empty => {
                        let name = index_to_position(sq);
                        line.append(name.as_str());
                    },
                    Square::Occupied(k) => {
                        let text = self.pieces[k].to_string();
                        line.append(text.as_str());
                    },
                }
                f = f + 1;
            }
            board.append(line.as_str());
            board.append(newline);
            n = n + 1;
        }
        board
    }
}

} // verus!
