use coop_scheduler::Shot;

#[test]
fn zero_passes_asks_for_no_bound() {
    assert_eq!(Shot::new(0), Shot::Infinity);
    assert_eq!(Shot::new(1), Shot::Custom(1));
    assert_eq!(Shot::new(7), Shot::Custom(7));
}

#[test]
fn a_bounded_counter_goes_down_by_one() {
    let mut shot = Shot::Custom(3);
    shot.decrement();
    assert_eq!(shot, Shot::Custom(2));
    shot.decrement();
    assert_eq!(shot, Shot::Custom(1));
    shot.decrement();
    assert_eq!(shot, Shot::Custom(0));
}

#[test]
fn zero_and_unbounded_absorb_a_decrement() {
    let mut zero = Shot::Custom(0);
    zero.decrement();
    assert_eq!(zero, Shot::Custom(0));
    let mut unbounded = Shot::Infinity;
    unbounded.decrement();
    assert_eq!(unbounded, Shot::Infinity);
}

#[test]
fn only_bounded_zero_is_exhausted() {
    assert!(Shot::Custom(0).is_exhausted());
    assert!(!Shot::Custom(1).is_exhausted());
    assert!(!Shot::Custom(usize::MAX).is_exhausted());
    assert!(!Shot::Infinity.is_exhausted());
    let mut shot = Shot::new(1);
    assert!(!shot.is_exhausted());
    shot.decrement();
    assert!(shot.is_exhausted());
}
