use rust_tetris_core::score::ComboState::{Continuing, Empty, Started};
use rust_tetris_core::score::ScoreType::{
    AllClear, Double, Single, TSpinDouble, TSpinMini, TSpinSingle, TSpinTriple, Tetris, Triple,
};
use rust_tetris_core::score::{is_b2b_worth, ComboState, Moves, ScoreUpdater};

#[test]
fn test_combo_next() {
    let rows = [1, 2, 1, 2, 0, 1, 1, 2, 0, 0, 1, 0];
    let states = [
        Started,
        Continuing(1),
        Continuing(2),
        Continuing(3),
        Empty,
        Started,
        Continuing(1),
        Continuing(2),
        Empty,
        Empty,
        Started,
        Empty,
    ];
    let mut cur = Empty;

    for (r, s) in rows.into_iter().zip(states.into_iter()) {
        cur = cur.next(r);
        assert_eq!(cur, s);
    }
}

#[test]
fn test_combo_value() {
    assert_eq!(Empty.value(), None);
    assert_eq!(Started.value(), None);
    assert_eq!(Continuing(1).value(), Some(1));
    assert_eq!(Continuing(5).value(), Some(5));
}

#[test]
fn test_is_b2b_worth() {
    assert!(is_b2b_worth(TSpinSingle));
    assert!(is_b2b_worth(TSpinDouble));
    assert!(is_b2b_worth(TSpinTriple));
    assert!(is_b2b_worth(TSpinMini));
    assert!(is_b2b_worth(Tetris));
    assert!(is_b2b_worth(AllClear));
    assert!(!is_b2b_worth(Single));
    assert!(!is_b2b_worth(Double));
    assert!(!is_b2b_worth(Triple));
}

#[test]
fn test_combo_default_is_empty() {
    assert_eq!(ComboState::default(), Empty);
}

#[test]
fn test_combo_next_at_the_limit() {
    assert_eq!(
        Continuing(u32::MAX - 1).next(4),
        Continuing(u32::MAX)
    );
    assert_eq!(Continuing(u32::MAX).next(0), Empty);
}

#[test]
fn test_score_updater_default() {
    let updater = ScoreUpdater::default();
    assert_eq!(updater.get_combo(), Empty);
    assert_eq!(updater.get_last_score(), None);
    assert_eq!(updater.get_b2b(), 0);
    assert_eq!(updater.get_last_move(), Moves::Fall);
}

#[test]
fn test_set_last_move() {
    let mut updater = ScoreUpdater::default();
    updater.set_last_move(Moves::Rotate);
    assert_eq!(updater.get_last_move(), Moves::Rotate);
    updater.set_last_move(Moves::Side);
    assert_eq!(updater.get_last_move(), Moves::Side);
    assert_eq!(updater.get_combo(), Empty);
    assert_eq!(updater.get_b2b(), 0);
}
