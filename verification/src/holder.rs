use crate::enums::Rotation;
use crate::pieces::Piece;
use vstd::prelude::*;

verus! {

/// The piece in the hold slot, with the mark that says whether the slot was
/// already used for the piece now in play.
#[derive(Debug)]
pub struct HoldPiece {
    pub piece: Piece,
    pub already_hold: bool,
}

impl HoldPiece {
    /// Holds a piece: it is set upright, and the slot counts as used.
    pub fn new(piece: Piece) -> (hold: HoldPiece)
        ensures
            hold.piece.wf(),
            hold.piece.piece_type == piece.piece_type,
            hold.piece.rotation == Rotation::R0,
            hold.already_hold,
    {
        let mut piece = piece;
        piece.set_rotation(Rotation::R0);
        HoldPiece { piece, already_hold: true }
    }

    /// Marks the slot as used.
    pub fn set_hold(&mut self)
        ensures
            final(self).already_hold,
            final(self).piece == old(self).piece,
    {
        self.already_hold = true;
    }

    /// Marks the slot as free to use again.
    pub fn reset_hold(&mut self)
        ensures
            !final(self).already_hold,
            final(self).piece == old(self).piece,
    {
        self.already_hold = false;
    }
}

/// A hold slot that can say whether the piece in play may be swapped with it.
pub trait Swappable {
    /// Whether a swap is allowed.
    spec fn swappable(&self) -> bool;

    /// Whether a swap is allowed.
    fn can_swap(&self) -> (b: bool)
        ensures
            b == self.swappable(),
    ;
}

impl Swappable for Option<HoldPiece> {
    /// An empty slot can always be swapped with; a full one if it was not
    /// yet used for the piece in play.
    open spec fn swappable(&self) -> bool {
        match self {
            Some(hold) => !hold.already_hold,
            None => true,
        }
    }

    fn can_swap(&self) -> (b: bool) {
        match self {
            Some(hold) => !hold.already_hold,
            None => true,
        }
    }
}

} // verus!
