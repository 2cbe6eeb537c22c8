use rust_tetris_core::enums::PieceType::I;
use rust_tetris_core::enums::{PieceType, Rotation};
use rust_tetris_core::holder::{HoldPiece, Swappable};
use rust_tetris_core::pieces::Piece;

#[test]
fn test_swappable_option() {
    let empty: Option<HoldPiece> = None;
    assert!(empty.can_swap());

    let mut h = HoldPiece::new(Piece::new(I));
    h.reset_hold();
    let not_already_hold: Option<HoldPiece> = Some(h);
    assert!(not_already_hold.can_swap());

    let mut h = HoldPiece::new(Piece::new(I));
    h.set_hold();
    let already_hold: Option<HoldPiece> = Some(h);
    assert!(!already_hold.can_swap());
}

#[test]
fn test_new() {
    let mut p = Piece::new(I);
    p.rotate_piece();
    assert_ne!(p.rotation, Rotation::R0);
    let h = HoldPiece::new(p);
    assert_eq!(h.piece.rotation, Rotation::R0);
    assert!(h.already_hold);
}

#[test]
fn test_set_clear() {
    let p = Piece::new(I);
    let mut h = HoldPiece::new(p);

    assert!(h.already_hold);
    h.reset_hold();
    assert!(!h.already_hold);
    h.set_hold();
    assert!(h.already_hold);
    h.set_hold();
    assert!(h.already_hold);
    h.reset_hold();
    assert!(!h.already_hold);
    h.reset_hold();
    assert!(!h.already_hold);
    h.set_hold();
    assert!(h.already_hold);
}

#[test]
fn test_hold_redraws_the_grid_upright() {
    let mut p = Piece::new(PieceType::T);
    p.rotate_piece();
    p.rotate_piece();
    let h = HoldPiece::new(p);
    assert_eq!(h.piece.piece_type, PieceType::T);
    assert_eq!(h.piece.to_string(), Piece::new(PieceType::T).to_string());
    assert!(!Some(h).can_swap());
}
