use vstd::prelude::*;

verus! {

/// The side a piece belongs to, or the side to move.
#[derive(Debug, Clone, Copy, PartialEq, Eq, Structural)]
pub enum Color {
    White,
    Black,
}

/// The kind of a chess piece.
#[derive(Debug, Clone, Copy, PartialEq, Eq, Structural)]
pub enum PieceType {
    Pawn,
    Rook,
    Knight,
    Bishop,
    Queen,
    King,
}

/// A piece on the board: the single-bit word of its square, its side and its kind.
#[derive(Debug, Clone, Copy, PartialEq, Eq, Structural)]
pub struct Piece {
    pub position: u64,
    pub color: Color,
    pub piece_type: PieceType,
}

/// One square of the board: empty, or holding the piece at an index of the
/// board's piece list.
#[derive(Debug, Clone, Copy, PartialEq, Eq, Structural)]
pub enum Square {
    Empty,
    Occupied(usize),
}

/// The FEN letter of a piece: `p r n b q k` for Black, upper case for White.
pub open spec fn piece_letter(color: Color, piece_type: PieceType) -> char {
    let lower = match piece_type {
        PieceType::Pawn => 'p',
        PieceType::Rook => 'r',
        PieceType::Knight => 'n',
        PieceType::Bishop => 'b',
        PieceType::Queen => 'q',
        PieceType::King => 'k',
    };
    match color {
        Color::White => ((lower as u32) - 32) as char,
        Color::Black => lower,
    }
}

/// The side and kind that a FEN piece letter stands for, if it is one.
pub open spec fn letter_piece(c: char) -> Option<(Color, PieceType)> {
    if c == 'p' { Some((Color::Black, PieceType::Pawn)) }
    else if c == 'r' { Some((Color::Black, PieceType::Rook)) }
    else if c == 'n' { Some((Color::Black, PieceType::Knight)) }
    else if c == 'b' { Some((Color::Black, PieceType::Bishop)) }
    else if c == 'q' { Some((Color::Black, PieceType::Queen)) }
    else if c == 'k' { Some((Color::Black, PieceType::King)) }
    else if c == 'P' { Some((Color::White, PieceType::Pawn)) }
    else if c == 'R' { Some((Color::White, PieceType::Rook)) }
    else if c == 'N' { Some((Color::White, PieceType::Knight)) }
    else if c == 'B' { Some((Color::White, PieceType::Bishop)) }
    else if c == 'Q' { Some((Color::White, PieceType::Queen)) }
    else if c == 'K' { Some((Color::White, PieceType::King)) }
    else { None }
}

/// Executable form of `letter_piece`.
pub fn piece_of_letter(c: char) -> (r: Option<(Color, PieceType)>)
    ensures
        r == letter_piece(c),
{
    match c {
        'p' => Some((Color::Black, PieceType::Pawn)),
        'r' => Some((Color::Black, PieceType::Rook)),
        'n' => Some((Color::Black, PieceType::Knight)),
        'b' => Some((Color::Black, PieceType::Bishop)),
        'q' => Some((Color::Black, PieceType::Queen)),
        'k' => Some((Color::Black, PieceType::King)),
        'P' => Some((Color::White, PieceType::Pawn)),
        'R' => Some((Color::White, PieceType::Rook)),
        'N' => Some((Color::White, PieceType::Knight)),
        'B' => Some((Color::White, PieceType::Bishop)),
        'Q' => Some((Color::White, PieceType::Queen)),
        'K' => Some((Color::White, PieceType::King)),
        _ => None,
    }
}

impl Piece {
    /// The piece's letter followed by a space.
    pub fn to_string(&self) -> (r: String)
        ensures
            r@ == seq![piece_letter(self.color, self.piece_type), ' '],
    {
        let text = match (self.color, self.piece_type) {
            (Color::White, PieceType::Pawn) => "P ",
            (Color::White, PieceType::Rook) => "R ",
            (Color::White, PieceType::Knight) => "N ",
            (Color::White, PieceType::Bishop) => "B ",
            (Color::White, PieceType::Queen) => "Q ",
            (Color::White, PieceType::King) => "K ",
            (Color::Black, PieceType::Pawn) => "p ",
            (Color::Black, PieceType::Rook) => "r ",
            (Color::Black, PieceType::Knight) => "n ",
            (Color::Black, PieceType::Bishop) => "b ",
            (Color::Black, PieceType::Queen) => "q ",
            (Color::Black, PieceType::King) => "k ",
        };
        proof {
            reveal_strlit("P ");
            reveal_strlit("R ");
            reveal_strlit("N ");
            reveal_strlit("B ");
            reveal_strlit("Q ");
            reveal_strlit("K ");
            reveal_strlit("p ");
            reveal_strlit("r ");
            reveal_strlit("n ");
            reveal_strlit("b ");
            reveal_strlit("q ");
            reveal_strlit("k ");
        }
        let r = String::from_str(text);
        assert(r@ =~= seq![piece_letter(self.color, self.piece_type), ' ']);
        r
    }
}

} // verus!
