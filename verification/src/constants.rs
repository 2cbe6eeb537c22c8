use crate::enums::{PieceType, Rotation};
use vstd::prelude::*;

verus! {

/// The number of rows of the visible field.
pub const R: isize = 20;

/// The number of columns of the field.
pub const C: isize = 10;

/// An offset that is tried to rescue a rotation: first the horizontal part,
/// then the vertical part.
pub type Kick = (isize, isize);

/// The shape of a piece in one orientation: one bit pattern for each row of
/// the piece's own grid, row 0 first. In a pattern the highest bit that the
/// grid's width allows stands for column 0.
pub open spec fn shape_rows(piece: PieceType, rotation: Rotation) -> Seq<u8> {
    match piece {
        PieceType::I => match rotation {
            Rotation::R0 => seq![0u8, 15u8, 0u8, 0u8],
            Rotation::R90 => seq![2u8, 2u8, 2u8, 2u8],
            Rotation::R180 => seq![0u8, 0u8, 15u8, 0u8],
            Rotation::R270 => seq![4u8, 4u8, 4u8, 4u8],
        },
        PieceType::O => seq![6u8, 6u8, 0u8, 0u8],
        PieceType::Z => match rotation {
            Rotation::R0 => seq![6u8, 3u8, 0u8],
            Rotation::R90 => seq![1u8, 3u8, 2u8],
            Rotation::R180 => seq![0u8, 6u8, 3u8],
            Rotation::R270 => seq![2u8, 6u8, 4u8],
        },
        PieceType::S => match rotation {
            Rotation::R0 => seq![3u8, 6u8, 0u8],
            Rotation::R90 => seq![2u8, 3u8, 1u8],
            Rotation::R180 => seq![0u8, 3u8, 6u8],
            Rotation::R270 => seq![4u8, 6u8, 2u8],
        },
        PieceType::J => match rotation {
            Rotation::R0 => seq![4u8, 7u8, 0u8],
            Rotation::R90 => seq![3u8, 2u8, 2u8],
            Rotation::R180 => seq![0u8, 7u8, 1u8],
            Rotation::R270 => seq![2u8, 2u8, 6u8],
        },
        PieceType::L => match rotation {
            Rotation::R0 => seq![1u8, 7u8, 0u8],
            Rotation::R90 => seq![2u8, 2u8, 3u8],
            Rotation::R180 => seq![0u8, 7u8, 4u8],
            Rotation::R270 => seq![6u8, 2u8, 2u8],
        },
        PieceType::T => match rotation {
            Rotation::R0 => seq![2u8, 7u8, 0u8],
            Rotation::R90 => seq![2u8, 3u8, 2u8],
            Rotation::R180 => seq![0u8, 7u8, 2u8],
            Rotation::R270 => seq![2u8, 6u8, 2u8],
        },
    }
}

/// The row patterns of a piece in one orientation.
pub fn get_rotations(piece: PieceType, rotation: Rotation) -> (rows: Vec<u8>)
    ensures
        rows@ == shape_rows(piece, rotation),
{
    let rows: Vec<u8> = match piece {
        PieceType::I => match rotation {
            Rotation::R0 => vec![0u8, 15u8, 0u8, 0u8],
            Rotation::R90 => vec![2u8, 2u8, 2u8, 2u8],
            Rotation::R180 => vec![0u8, 0u8, 15u8, 0u8],
            Rotation::R270 => vec![4u8, 4u8, 4u8, 4u8],
        },
        PieceType::O => vec![6u8, 6u8, 0u8, 0u8],
        PieceType::Z => match rotation {
            Rotation::R0 => vec![6u8, 3u8, 0u8],
            Rotation::R90 => vec![1u8, 3u8, 2u8],
            Rotation::R180 => vec![0u8, 6u8, 3u8],
            Rotation::R270 => vec![2u8, 6u8, 4u8],
        },
        PieceType::S => match rotation {
            Rotation::R0 => vec![3u8, 6u8, 0u8],
            Rotation::R90 => vec![2u8, 3u8, 1u8],
            Rotation::R180 => vec![0u8, 3u8, 6u8],
            Rotation::R270 => vec![4u8, 6u8, 2u8],
        },
        PieceType::J => match rotation {
            Rotation::R0 => vec![4u8, 7u8, 0u8],
            Rotation::R90 => vec![3u8, 2u8, 2u8],
            Rotation::R180 => vec![0u8, 7u8, 1u8],
            Rotation::R270 => vec![2u8, 2u8, 6u8],
        },
        PieceType::L => match rotation {
            Rotation::R0 => vec![1u8, 7u8, 0u8],
            Rotation::R90 => vec![2u8, 2u8, 3u8],
            Rotation::R180 => vec![0u8, 7u8, 4u8],
            Rotation::R270 => vec![6u8, 2u8, 2u8],
        },
        PieceType::T => match rotation {
            Rotation::R0 => vec![2u8, 7u8, 0u8],
            Rotation::R90 => vec![2u8, 3u8, 2u8],
            Rotation::R180 => vec![0u8, 7u8, 2u8],
            Rotation::R270 => vec![2u8, 6u8, 2u8],
        },
    };
    assert(rows@ =~= shape_rows(piece, rotation));
    rows
}

/// The place of a quarter turn in the kick tables, in the order
/// 0>90, 90>0, 90>180, 180>90, 180>270, 270>180, 270>0, 0>270.
/// A pair of orientations that is no quarter turn has no place: 8.
pub open spec fn kick_slot(from: Rotation, to: Rotation) -> int {
    match (from, to) {
        (Rotation::R0, Rotation::R90) => 0,
        (Rotation::R90, Rotation::R0) => 1,
        (Rotation::R90, Rotation::R180) => 2,
        (Rotation::R180, Rotation::R90) => 3,
        (Rotation::R180, Rotation::R270) => 4,
        (Rotation::R270, Rotation::R180) => 5,
        (Rotation::R270, Rotation::R0) => 6,
        (Rotation::R0, Rotation::R270) => 7,
        _ => 8,
    }
}

/// The kicks of the I piece for the quarter turn at `slot`, in the order in
/// which they are tried.
pub open spec fn i_kicks(slot: int) -> Seq<Kick> {
    if slot == 0 {
        seq![(0isize, 0isize), (-2isize, 0isize), (1isize, 0isize), (-2isize, -1isize), (1isize, 2isize)]
    } else if slot == 1 {
        seq![(0isize, 0isize), (2isize, 0isize), (-1isize, 0isize), (2isize, 1isize), (-1isize, -2isize)]
    } else if slot == 2 {
        seq![(0isize, 0isize), (-1isize, 0isize), (2isize, 0isize), (-1isize, 2isize), (2isize, -1isize)]
    } else if slot == 3 {
        seq![(0isize, 0isize), (1isize, 0isize), (-2isize, 0isize), (1isize, -2isize), (-2isize, 1isize)]
    } else if slot == 4 {
        seq![(0isize, 0isize), (2isize, 0isize), (-1isize, 0isize), (2isize, 1isize), (-1isize, -2isize)]
    } else if slot == 5 {
        seq![(0isize, 0isize), (-2isize, 0isize), (1isize, 0isize), (-2isize, -1isize), (1isize, 2isize)]
    } else if slot == 6 {
        seq![(0isize, 0isize), (1isize, 0isize), (-2isize, 0isize), (1isize, -2isize), (-2isize, 1isize)]
    } else {
        seq![(0isize, 0isize), (-1isize, 0isize), (2isize, 0isize), (-1isize, 2isize), (2isize, -1isize)]
    }
}

/// The kicks of the pieces T, L, J, S and Z for the quarter turn at `slot`,
/// in the order in which they are tried.
pub open spec fn default_kicks(slot: int) -> Seq<Kick> {
    if slot == 0 {
        seq![(0isize, 0isize), (-1isize, 0isize), (-1isize, 1isize), (0isize, -2isize), (-1isize, -2isize)]
    } else if slot == 1 {
        seq![(0isize, 0isize), (1isize, 0isize), (1isize, -1isize), (0isize, 2isize), (1isize, 2isize)]
    } else if slot == 2 {
        seq![(0isize, 0isize), (1isize, 0isize), (1isize, -1isize), (0isize, 2isize), (1isize, 2isize)]
    } else if slot == 3 {
        seq![(0isize, 0isize), (-1isize, 0isize), (-1isize, 1isize), (0isize, -2isize), (-1isize, -2isize)]
    } else if slot == 4 {
        seq![(0isize, 0isize), (1isize, 0isize), (1isize, 1isize), (0isize, -2isize), (1isize, -2isize)]
    } else if slot == 5 {
        seq![(0isize, 0isize), (-1isize, 0isize), (-1isize, -1isize), (0isize, 2isize), (-1isize, 2isize)]
    } else if slot == 6 {
        seq![(0isize, 0isize), (-1isize, 0isize), (-1isize, -1isize), (0isize, 2isize), (-1isize, 2isize)]
    } else {
        seq![(0isize, 0isize), (1isize, 0isize), (1isize, 1isize), (0isize, -2isize), (1isize, -2isize)]
    }
}

/// The kicks that are tried when a piece of the given type has turned from
/// `from` to `to`, a quarter turn, in the order in which they are tried. The
/// O piece has the one kick that moves nothing.
pub open spec fn kick_table(piece: PieceType, from: Rotation, to: Rotation) -> Seq<Kick> {
    match piece {
        PieceType::I => i_kicks(kick_slot(from, to)),
        PieceType::O => seq![(0isize, 0isize)],
        _ => default_kicks(kick_slot(from, to)),
    }
}

/// The kicks of the I piece for the quarter turn at `slot`.
pub fn i_kick_row(slot: u8) -> (kicks: Vec<Kick>)
    requires
        slot < 8,
    ensures
        kicks@ == i_kicks(slot as int),
{
    let kicks: Vec<Kick> = if slot == 0 {
        vec![(0isize, 0isize), (-2isize, 0isize), (1isize, 0isize), (-2isize, -1isize), (1isize, 2isize)]
    } else if slot == 1 {
        vec![(0isize, 0isize), (2isize, 0isize), (-1isize, 0isize), (2isize, 1isize), (-1isize, -2isize)]
    } else if slot == 2 {
        vec![(0isize, 0isize), (-1isize, 0isize), (2isize, 0isize), (-1isize, 2isize), (2isize, -1isize)]
    } else if slot == 3 {
        vec![(0isize, 0isize), (1isize, 0isize), (-2isize, 0isize), (1isize, -2isize), (-2isize, 1isize)]
    } else if slot == 4 {
        vec![(0isize, 0isize), (2isize, 0isize), (-1isize, 0isize), (2isize, 1isize), (-1isize, -2isize)]
    } else if slot == 5 {
        vec![(0isize, 0isize), (-2isize, 0isize), (1isize, 0isize), (-2isize, -1isize), (1isize, 2isize)]
    } else if slot == 6 {
        vec![(0isize, 0isize), (1isize, 0isize), (-2isize, 0isize), (1isize, -2isize), (-2isize, 1isize)]
    } else {
        vec![(0isize, 0isize), (-1isize, 0isize), (2isize, 0isize), (-1isize, 2isize), (2isize, -1isize)]
    };
    assert(kicks@ =~= i_kicks(slot as int));
    kicks
}

/// The kicks of the pieces T, L, J, S and Z for the quarter turn at `slot`.
pub fn default_kick_row(slot: u8) -> (kicks: Vec<Kick>)
    requires
        slot < 8,
    ensures
        kicks@ == default_kicks(slot as int),
{
    let kicks: Vec<Kick> = if slot == 0 {
        vec![(0isize, 0isize), (-1isize, 0isize), (-1isize, 1isize), (0isize, -2isize), (-1isize, -2isize)]
    } else if slot == 1 {
        vec![(0isize, 0isize), (1isize, 0isize), (1isize, -1isize), (0isize, 2isize), (1isize, 2isize)]
    } else if slot == 2 {
        vec![(0isize, 0isize), (1isize, 0isize), (1isize, -1isize), (0isize, 2isize), (1isize, 2isize)]
    } else if slot == 3 {
        vec![(0isize, 0isize), (-1isize, 0isize), (-1isize, 1isize), (0isize, -2isize), (-1isize, -2isize)]
    } else if slot == 4 {
        vec![(0isize, 0isize), (1isize, 0isize), (1isize, 1isize), (0isize, -2isize), (1isize, -2isize)]
    } else if slot == 5 {
        vec![(0isize, 0isize), (-1isize, 0isize), (-1isize, -1isize), (0isize, 2isize), (-1isize, 2isize)]
    } else if slot == 6 {
        vec![(0isize, 0isize), (-1isize, 0isize), (-1isize, -1isize), (0isize, 2isize), (-1isize, 2isize)]
    } else {
        vec![(0isize, 0isize), (1isize, 0isize), (1isize, 1isize), (0isize, -2isize), (1isize, -2isize)]
    };
    assert(kicks@ =~= default_kicks(slot as int));
    kicks
}

} // verus!
