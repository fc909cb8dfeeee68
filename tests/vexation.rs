use panll::constraint::{Constraint, ConstraintKind};
use panll::validator::{validate, ConstraintSet, Verdict};
use panll::vexation::{
    contribution_at, half_life_length, indicator_for, HalfLife, SeverityPolicy, StressIndicator,
    VexationTracker, LOAD_UNIT, UNIT,
};

fn ind(timestamp: u64, magnitude: u32, half_life: HalfLife) -> StressIndicator {
    StressIndicator { timestamp, magnitude, half_life }
}

#[test]
fn three_indicators_then_ten_half_lives() {
    let mut t = VexationTracker::new();
    for _ in 0..3 {
        t.record(ind(0, 300_000, HalfLife::Medium));
    }
    let at_start = t.current_index(0);
    assert_eq!(at_start.load(), 3 * 300_000 * 4_294_967_296);
    assert_eq!(at_start.millionths(), 473_684);
    assert!(at_start.millionths() < 1_000_000);
    let later = t.current_index(10 * half_life_length(HalfLife::Medium));
    assert_eq!(later.load(), 3_774_864_600_000);
    assert_eq!(later.millionths(), 878);
    assert!(later.millionths() < at_start.millionths());
}

#[test]
fn record_with_positive_magnitude_raises_the_index() {
    let mut t = VexationTracker::new();
    t.record(ind(0, 100_000, HalfLife::Short));
    let before = t.current_index(5);
    t.record(ind(5, 1, HalfLife::Short));
    let after = t.current_index(5);
    assert!(after.load() > before.load());
    assert_eq!(t.len(), 2);
}

#[test]
fn decay_follows_the_half_life() {
    let mut t = VexationTracker::new();
    t.record(ind(0, UNIT as u32, HalfLife::Short));
    assert_eq!(t.current_index(0).load(), LOAD_UNIT);
    assert_eq!(t.current_index(1).load(), 4_294_672_156_999_999);
    assert_eq!(t.current_index(5_000).load(), 3_037_000_499_995_000);
    assert_eq!(t.current_index(10_000).load(), 2_147_483_647_990_000);
    assert_eq!(t.current_index(15_000).load(), 1_518_500_249_985_000);
    assert!(t.current_index(20_000).load() < t.current_index(10_000).load());
}

#[test]
fn index_stays_below_one() {
    let mut t = VexationTracker::new();
    for _ in 0..10 {
        t.record(ind(0, u32::MAX, HalfLife::Long));
    }
    let i = t.current_index(0);
    assert_eq!(i.load(), 10 * u32::MAX as u128 * 4_294_967_296);
    assert_eq!(i.millionths(), 999_976);
    assert!(i.millionths() < 1_000_000);
    assert!(i.millionths() > 999_000);
    assert_eq!(VexationTracker::new().current_index(7).millionths(), 0);
}

#[test]
fn future_indicators_count_in_full() {
    let s = ind(100, 4_000, HalfLife::Short);
    assert_eq!(contribution_at(&s, 50), 17_179_869_184_000);
    assert_eq!(contribution_at(&s, 100 + 10_000), 8_589_934_582_000);
}

#[test]
fn half_life_lengths() {
    assert_eq!(half_life_length(HalfLife::Short), 10_000);
    assert_eq!(half_life_length(HalfLife::Medium), 300_000);
    assert_eq!(half_life_length(HalfLife::Long), 3_600_000);
}

#[test]
fn rejections_become_weighted_indicators() {
    let mut set = ConstraintSet::new();
    set.push(Constraint::new(ConstraintKind::ForbidSubstring, "x").unwrap());
    set.push(Constraint::new(ConstraintKind::CustomPredicate, "single_line").unwrap());
    let policy = SeverityPolicy::standard();
    let v = validate("a\nb", &set);
    let s = indicator_for(&v, &set, &policy, 42).unwrap();
    assert_eq!(s, ind(42, 500_000, HalfLife::Medium));
    let v = validate("x", &set);
    assert_eq!(indicator_for(&v, &set, &policy, 1).unwrap().magnitude, 200_000);
    let ok = validate("fine", &set);
    assert!(matches!(ok, Verdict::Accepted));
    assert!(indicator_for(&ok, &set, &policy, 1).is_none());
}

#[test]
fn standard_substring_weight_falls_every_millisecond() {
    let mut t = VexationTracker::new();
    t.record(ind(0, 200_000, HalfLife::Medium));
    let a = t.current_index(0);
    let b = t.current_index(1);
    assert_eq!(a.load(), 858_993_459_200_000);
    assert_eq!(b.load(), 858_991_491_799_999);
    assert!(b.load() < a.load());
}

#[test]
fn pruning_keeps_the_load() {
    let mut t = VexationTracker::new();
    t.record(ind(0, 1, HalfLife::Short));
    t.record(ind(0, UNIT as u32, HalfLife::Long));
    let before = [t.current_index(400_000).load(), t.current_index(500_000).load()];
    t.prune(400_000);
    assert_eq!(t.len(), 1);
    assert_eq!(before, [t.current_index(400_000).load(), t.current_index(500_000).load()]);
    t.prune(400_000);
    assert_eq!(t.len(), 1);
}

#[test]
fn latest_timestamp_bounds_the_history() {
    let mut t = VexationTracker::new();
    assert_eq!(t.latest_timestamp(), 0);
    t.record(ind(40, 5, HalfLife::Short));
    t.record(ind(90, 5, HalfLife::Short));
    t.record(ind(70, 5, HalfLife::Short));
    assert_eq!(t.latest_timestamp(), 90);
    let a = t.current_index(90).load();
    let b = t.current_index(91).load();
    assert!(b < a);
}
