use hacd::fixed::Fixed;
use hacd::scalar::{max_of, min_of};
use hacd::Scalar;

fn steps(n: i64) -> Fixed {
    Fixed { steps: n }
}

#[test]
fn whole_numbers_add_and_subtract() {
    let (a, b) = (Fixed::whole(3), Fixed::whole(-5));
    assert_eq!(a.add(b), Fixed::whole(-2));
    assert_eq!(a.sub(b), Fixed::whole(8));
    assert_eq!(Fixed::zero(), Fixed::whole(0));
    assert_eq!(Fixed::one(), Fixed::whole(1));
}

#[test]
fn sums_stop_at_the_bounds() {
    let top = Fixed::max_value();
    assert_eq!(top.add(Fixed::one()), top);
    assert_eq!(top.neg().sub(Fixed::one()), steps(i64::MIN));
}

#[test]
fn bounds_are_opposites() {
    let top = Fixed::max_value();
    assert_eq!(top.neg(), steps(i64::MIN));
    assert_eq!(top.neg().neg(), top);
    assert_eq!(Fixed::whole(7).neg(), Fixed::whole(-7));
}

#[test]
fn nothing_lies_below_the_opposite_of_the_upper_bound() {
    let lowest = Fixed::max_value().neg();
    for n in [i64::MIN, i64::MIN + 1, -1, 0, 1, i64::MAX] {
        assert!(!steps(n).less(lowest));
    }
}

#[test]
fn products_and_quotients_round_towards_zero() {
    assert_eq!(Fixed::whole(6).mul(Fixed::whole(-7)), Fixed::whole(-42));
    assert_eq!(steps(3).mul(steps(32768)), steps(1));
    assert_eq!(steps(-3).mul(steps(32768)), steps(-1));
    assert_eq!(Fixed::whole(1).div(Fixed::whole(4)), steps(16384));
    assert_eq!(Fixed::whole(1).div(Fixed::whole(3)), steps(21845));
    assert_eq!(Fixed::whole(-1).div(Fixed::whole(3)), steps(-21845));
    assert_eq!(Fixed::max_value().mul(Fixed::whole(2)), Fixed::max_value());
}

#[test]
fn division_by_zero_gives_a_bound() {
    assert_eq!(Fixed::one().div(Fixed::zero()), steps(i64::MAX));
    assert_eq!(Fixed::whole(-1).div(Fixed::zero()), steps(i64::MIN));
    assert_eq!(Fixed::ratio(1, 0), steps(i64::MAX));
}

#[test]
fn fractions_are_rounded_down() {
    assert_eq!(Fixed::ratio(1, 2), steps(32768));
    assert_eq!(Fixed::ratio(1, 10), steps(6553));
    assert_eq!(Fixed::ratio(u32::MAX, 1), steps(65536 * (u32::MAX as i64)));
}

#[test]
fn square_roots_are_rounded_down() {
    assert_eq!(Fixed::whole(25).sqrt(), Fixed::whole(5));
    assert_eq!(Fixed::whole(2).sqrt(), steps(92681));
    assert_eq!(Fixed::zero().sqrt(), Fixed::zero());
    assert_eq!(Fixed::whole(-4).sqrt(), Fixed::zero());
    let r = Fixed::max_value().sqrt().steps as i128;
    let n = (i64::MAX as i128) * 65536;
    assert!(r * r <= n && n < (r + 1) * (r + 1));
}

#[test]
fn numbers_a_step_apart_are_near() {
    assert!(steps(5).approx_eq(steps(6)));
    assert!(steps(6).approx_eq(steps(5)));
    assert!(!steps(5).approx_eq(steps(7)));
    assert!(!Fixed::max_value().approx_eq(Fixed::max_value().neg()));
    assert!(Fixed::zero().is_zero() && !steps(1).is_zero());
}

#[test]
fn the_greater_and_the_smaller_of_two() {
    let (a, b) = (Fixed::whole(1), Fixed::whole(2));
    assert_eq!(max_of(a, b), b);
    assert_eq!(max_of(b, a), b);
    assert_eq!(min_of(a, b), a);
    assert_eq!(min_of(b, a), a);
}
