use vstd::prelude::*;

verus! {

/// Why a square name, a bit position or a FEN record was rejected.
#[derive(Debug, Clone, Copy, PartialEq, Eq, Structural)]
pub enum ParseError {
    /// A square name that is not two characters long.
    InvalidLength,
    /// A square name whose file is not one of `a` to `h`.
    InvalidColumn,
    /// A square name whose rank is not one of `1` to `8`.
    InvalidRow,
    /// A bit position of zero, which names no square.
    NoPiece,
    /// A character in the piece placement that is neither a piece letter nor a run of empty squares.
    InvalidPieceChar,
    /// A rank of the piece placement that describes more than eight files.
    RankOverflow,
    /// A piece placement that does not describe exactly eight ranks of eight files.
    WrongSquareCount,
    /// An active-color field other than `w` or `b`.
    UnknownColor,
    /// A castling field with a character other than `K`, `Q`, `k`, `q` or `-`.
    InvalidCastlingChar,
    /// A halfmove clock that is not a decimal number.
    InvalidHalfmove,
    /// A fullmove number that is not a positive decimal number.
    InvalidFullmove,
    /// A record with fewer than six space-separated fields.
    MissingField,
}

} // verus!
