use vstd::prelude::*;

verus! {

/// Which of the four castling moves are still allowed, one bit each:
/// White king side 1, White queen side 2, Black king side 4, Black queen side 8.
#[derive(Debug, Clone, Copy, PartialEq, Eq, Structural)]
pub struct CastlingRights {
    bits: u8,
}

impl View for CastlingRights {
    type V = u8;

    closed spec fn view(&self) -> u8 {
        self.bits
    }
}

impl CastlingRights {
    /// No right at all.
    pub fn none() -> (r: CastlingRights)
        ensures
            r@ == 0,
    {
        CastlingRights { bits: 0 }
    }

    /// All four rights.
    pub fn all() -> (r: CastlingRights)
        ensures
            r@ == 15,
    {
        CastlingRights { bits: 15 }
    }

    /// White may castle on the king side.
    pub fn white_kingside() -> (r: CastlingRights)
        ensures
            r@ == 1,
    {
        CastlingRights { bits: 1 }
    }

    /// White may castle on the queen side.
    pub fn white_queenside() -> (r: CastlingRights)
        ensures
            r@ == 2,
    {
        CastlingRights { bits: 2 }
    }

    /// Black may castle on the king side.
    pub fn black_kingside() -> (r: CastlingRights)
        ensures
            r@ == 4,
    {
        CastlingRights { bits: 4 }
    }

    /// Black may castle on the queen side.
    pub fn black_queenside() -> (r: CastlingRights)
        ensures
            r@ == 8,
    {
        CastlingRights { bits: 8 }
    }

    /// The set whose bits are `bits`, unless a bit outside the four rights is set.
    pub fn from_bits(bits: u8) -> (r: Option<CastlingRights>)
        ensures
            bits < 16 <==> r is Some,
            r matches Some(c) ==> c@ == bits,
    {
        if bits < 16 {
            Some(CastlingRights { bits })
        } else {
            None
        }
    }

    /// The bits of the set.
    pub fn bits(&self) -> (r: u8)
        ensures
            r == self@,
    {
        self.bits
    }

    /// The rights held by either set.
    pub fn union(self, other: CastlingRights) -> (r: CastlingRights)
        ensures
            r@ == self@ | other@,
    {
        CastlingRights { bits: self.bits | other.bits }
    }

    /// Adds the rights of `other`.
    pub fn insert(&mut self, other: CastlingRights)
        ensures
            final(self)@ == old(self)@ | other@,
    {
        self.bits = self.bits | other.bits;
    }

    /// Whether every right of `other` is held.
    pub fn contains(&self, other: CastlingRights) -> (r: bool)
        ensures
            r == (self@ & other@ == other@),
    {
        self.bits & other.bits == other.bits
    }

    /// Whether no right is held.
    pub fn is_empty(&self) -> (r: bool)
        ensures
            r == (self@ == 0),
    {
        self.bits == 0
    }
}

} // verus!
