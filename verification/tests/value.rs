use shogi_mate_solver::eval::value::{INF_BITS, PLY_MASK};
use shogi_mate_solver::eval::Value;
use shogi_mate_solver::{Eval};

#[test]
fn new_packs_the_three_fields() {
    let v = Value::new(5, 3, 2);
    assert_eq!(v.0, (5 << 20) | ((0xff - 3) << 12) | (0xfff - 2));
    assert_eq!(v.0, 0x005f_cffd);
    assert_eq!((v.plies(), v.pieces(), v.futile()), (5, 3, 2));
    assert!(v.is_mate());
    assert_eq!(Value::new(12, 0, 0).0, 0x00cf_ffff);
    assert_eq!(Value::new(0, 0xff, 0xfff).0, 0);
    assert_eq!(Value::new(0, 0xff, 0xfff), Value::zero());
}

#[test]
fn zero_and_inf() {
    assert_eq!(Value::zero().0, 0);
    assert_eq!(Value::inf().0, INF_BITS);
    assert!(Value::zero().is_mate());
    assert!(!Value::inf().is_mate());
    assert!(!Value(PLY_MASK).is_mate());
    assert!(Value(PLY_MASK - 1).is_mate());
    assert_eq!(Value::inf().plies(), 0xfff);
    assert!(Value::zero() < Value::new(0, 0, 0));
    assert!(Value::new(0xffe, 0, 0) < Value::inf());
}

#[test]
fn fewer_plies_then_more_pieces_then_more_futile() {
    assert!(Value::new(3, 0, 9) < Value::new(4, 9, 0));
    assert!(Value::new(3, 2, 9) < Value::new(3, 1, 0));
    assert!(Value::new(3, 2, 1) < Value::new(3, 2, 0));
}

#[test]
fn plies_added_and_taken_away() {
    let v = Value::new(5, 3, 2);
    assert_eq!(v.plies_added_unchecked(4), Value::new(9, 3, 2));
    assert_eq!(v.plies_added_unchecked(4).plies_added_unchecked(-4), v);
    assert_eq!(v.plies_added_unchecked(-5), Value::new(0, 3, 2));
    assert_eq!(v.plies_added_unchecked(0xff9).plies(), 0xffe);
}

#[test]
fn plies_added_saturates() {
    let v = Value::new(5, 3, 2);
    assert_eq!(v.plies_added_unchecked(0xffa), Value::inf());
    assert_eq!(v.plies_added_unchecked(i32::MAX), Value::inf());
    assert_eq!(v.plies_added_unchecked(-6), Value::inf());
    assert_eq!(v.plies_added_unchecked(i32::MIN), Value::inf());
    assert_eq!(Value::inf().plies_added_unchecked(-1), Value::inf());
    assert_eq!(Value(PLY_MASK).plies_added_unchecked(0), Value::inf());
}

#[test]
fn pieces_and_futile_added() {
    let v = Value::new(5, 3, 2);
    assert_eq!(v.pieces_added_unchecked(2), Value::new(5, 5, 2));
    assert_eq!(v.pieces_added_unchecked(-3), Value::new(5, 0, 2));
    assert_eq!(v.pieces_added_unchecked(-4), Value::inf());
    assert_eq!(v.pieces_added_unchecked(253), Value::inf());
    assert_eq!(v.pieces_added_unchecked(252), Value::new(5, 255, 2));
    assert_eq!(v.futile_added_unchecked(7), Value::new(5, 3, 9));
    assert_eq!(v.futile_added_unchecked(-2), Value::new(5, 3, 0));
    assert_eq!(v.futile_added_unchecked(-3), Value::inf());
    assert_eq!(v.futile_added_unchecked(0xffe), Value::inf());
    assert_eq!(Value::inf().pieces_added_unchecked(1), Value::inf());
    assert_eq!(Value::inf().futile_added_unchecked(1), Value::inf());
}

#[test]
fn eval_from_value() {
    assert_eq!(
        Eval::from(Value::new(5, 3, 2)),
        Eval {
            num_moves: 5,
            pieces: 3,
            futile: 2
        }
    );
}
