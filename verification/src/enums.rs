use vstd::prelude::*;

verus! {

/// The seven piece shapes.
#[derive(Debug, Clone, Copy, PartialEq, Eq, Hash, Structural)]
pub enum PieceType {
    T,
    L,
    J,
    O,
    I,
    S,
    Z,
}

/// What a filled cell is made of: a block of a playable piece, or a block
/// that was put on the board by other means.
#[derive(Debug, Clone, Copy, PartialEq, Eq, Structural)]
pub enum PieceTypeColor {
    Playable(PieceType),
    NotPlayable,
}

/// The four orientations of a piece, in clockwise order.
#[derive(Debug, Clone, Copy, PartialEq, Eq, Hash, Structural)]
pub enum Rotation {
    R0,
    R90,
    R180,
    R270,
}

/// The error of parsing a piece type from text that names none.
#[derive(Debug, Clone, Copy, PartialEq, Eq, Structural)]
pub struct ParsePieceTypeError;

impl PieceType {
    /// The piece type that a letter names, if it names one.
    pub open spec fn of_char(c: char) -> Option<PieceType> {
        if c == 'T' {
            Some(PieceType::T)
        } else if c == 'L' {
            Some(PieceType::L)
        } else if c == 'J' {
            Some(PieceType::J)
        } else if c == 'O' {
            Some(PieceType::O)
        } else if c == 'I' {
            Some(PieceType::I)
        } else if c == 'S' {
            Some(PieceType::S)
        } else if c == 'Z' {
            Some(PieceType::Z)
        } else {
            None
        }
    }

    /// The piece type that a text names: the text is exactly one letter, and
    /// the letter names a piece type.
    pub open spec fn of_name(s: Seq<char>) -> Option<PieceType> {
        if s.len() == 1 {
            Self::of_char(s[0])
        } else {
            None
        }
    }

    /// The position of a piece type in the order of declaration.
    pub open spec fn ordinal(self) -> nat {
        match self {
            PieceType::T => 0,
            PieceType::L => 1,
            PieceType::J => 2,
            PieceType::O => 3,
            PieceType::I => 4,
            PieceType::S => 5,
            PieceType::Z => 6,
        }
    }

    /// Reads a piece type from its one-letter code.
    pub fn from_char(c: char) -> (r: Option<PieceType>)
        ensures
            r == Self::of_char(c),
    {
        if c == 'T' {
            Some(PieceType::T)
        } else if c == 'L' {
            Some(PieceType::L)
        } else if c == 'J' {
            Some(PieceType::J)
        } else if c == 'O' {
            Some(PieceType::O)
        } else if c == 'I' {
            Some(PieceType::I)
        } else if c == 'S' {
            Some(PieceType::S)
        } else if c == 'Z' {
            Some(PieceType::Z)
        } else {
            None
        }
    }

    /// Reads a piece type from a text that holds its one-letter code and
    /// nothing else.
    pub fn parse(s: &str) -> (r: Result<PieceType, ParsePieceTypeError>)
        ensures
            match Self::of_name(s@) {
                Some(p) => r == Ok::<PieceType, ParsePieceTypeError>(p),
                None => r.is_err(),
            },
    {
        if s.unicode_len() == 1 {
            match Self::from_char(s.get_char(0)) {
                Some(p) => Ok(p),
                None => Err(ParsePieceTypeError),
            }
        } else {
            Err(ParsePieceTypeError)
        }
    }
}

impl std::str::FromStr for PieceType {
    type Err = ParsePieceTypeError;

    fn from_str(s: &str) -> (r: Result<PieceType, ParsePieceTypeError>)
        ensures
            match PieceType::of_name(s@) {
                Some(p) => r == Ok::<PieceType, ParsePieceTypeError>(p),
                None => r.is_err(),
            },
    {
        PieceType::parse(s)
    }
}

impl Rotation {
    /// The number of quarter turns clockwise from the upright orientation.
    pub open spec fn index(self) -> int {
        match self {
            Rotation::R0 => 0,
            Rotation::R90 => 1,
            Rotation::R180 => 2,
            Rotation::R270 => 3,
        }
    }

    /// The orientation that is `n` quarter turns clockwise from upright,
    /// counted modulo four.
    pub open spec fn of_index(n: int) -> Rotation {
        let m = n % 4;
        if m == 0 {
            Rotation::R0
        } else if m == 1 {
            Rotation::R90
        } else if m == 2 {
            Rotation::R180
        } else {
            Rotation::R270
        }
    }

    /// The orientation one quarter turn clockwise from this one.
    pub open spec fn succ(self) -> Rotation {
        Self::of_index(self.index() + 1)
    }

    /// The orientation one quarter turn counterclockwise from this one.
    pub open spec fn pred(self) -> Rotation {
        Self::of_index(self.index() + 3)
    }

    /// Whether `to` is one quarter turn away from `self`, in either direction.
    pub open spec fn is_quarter_turn_to(self, to: Rotation) -> bool {
        to == self.succ() || to == self.pred()
    }

    /// The orientation with the given number of quarter turns.
    pub fn from(u: u8) -> (r: Rotation)
        requires
            u < 4,
        ensures
            r.index() == u,
            r == Self::of_index(u as int),
    {
        if u == 0 {
            Rotation::R0
        } else if u == 1 {
            Rotation::R90
        } else if u == 2 {
            Rotation::R180
        } else {
            Rotation::R270
        }
    }

    /// The number of quarter turns of this orientation.
    pub fn to_index(self) -> (u: u8)
        ensures
            u == self.index(),
            u < 4,
    {
        match self {
            Rotation::R0 => 0,
            Rotation::R90 => 1,
            Rotation::R180 => 2,
            Rotation::R270 => 3,
        }
    }

    /// One quarter turn clockwise.
    pub fn next(self) -> (r: Rotation)
        ensures
            r == self.succ(),
    {
        Rotation::from((self.to_index() + 1) % 4)
    }

    /// One quarter turn counterclockwise.
    pub fn prev(self) -> (r: Rotation)
        ensures
            r == self.pred(),
    {
        Rotation::from((self.to_index() + 3) % 4)
    }
}

/// Four quarter turns clockwise lead back to the orientation they started
/// from, and so do four counterclockwise; a turn one way undoes a turn the
/// other way.
pub proof fn lemma_rotation_cycle(r: Rotation)
    ensures
        r.succ().succ().succ().succ() == r,
        r.pred().pred().pred().pred() == r,
        r.succ().pred() == r,
        r.pred().succ() == r,
        r.succ() != r,
        r.pred() != r,
{
}

} // verus!
