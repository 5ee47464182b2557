use kiriko::rational::{rat, Rational};
use kiriko::retime::{Ease, RateSegment, Retime, RetimeSegment};
use kiriko::speed_keys::speed_with_key;

fn to_f64(r: Rational) -> f64 {
    r.num() as f64 / r.den() as f64
}

/// The speed of a Linear Rate segment `u` of the way (0..1) through it.
fn linear_speed(seg: &RetimeSegment, u: f64) -> f64 {
    match seg {
        RetimeSegment::Rate(RateSegment { v0, v1, ease: Ease::Linear }) => to_f64(*v0) + (to_f64(*v1) - to_f64(*v0)) * u,
        _ => panic!("expected a linear rate segment"),
    }
}

// Dragging the end key of a 2 s constant-speed clip to 50% authors a
// 100% → 50% ramp: the speed set is the speed read back, the start is kept.
#[test]
fn retime_speed_keyframe_edit_round_trips() {
    let dur = rat(2000, 1000);
    let base = Some(Retime::constant_speed(dur, Rational::zero(), Rational::one()));
    let speed = rat(500, 1000);
    let edited = speed_with_key(&base, dur, rat(2, 1), speed).expect("retime rebuilds");
    assert_eq!(edited.segments.len(), 1);
    let end = linear_speed(&edited.segments[0], (2.0 - 1e-6) / 2.0) * 100.0;
    assert!((end - 50.0).abs() < 1.0, "end speed {end} ≈ 50");
    let start = linear_speed(&edited.segments[0], 1e-6 / 2.0) * 100.0;
    assert!((start - 100.0).abs() < 1.0, "start speed {start} ≈ 100");
}

#[test]
fn speed_key_in_the_middle_adds_a_key_in_time_order() {
    let dur = rat(4, 1);
    let base = Some(Retime::constant_speed(dur, Rational::zero(), Rational::one()));
    let edited = speed_with_key(&base, dur, rat(1, 1), rat(2, 1)).unwrap();
    assert_eq!(
        edited.speed_keyframes().unwrap(),
        vec![(rat(0, 1), rat(1, 1)), (rat(1, 1), rat(2, 1)), (rat(4, 1), rat(1, 1))]
    );
    // 1→2 over the first second covers 1.5 s of source.
    assert_eq!(edited.boundaries[1].s, rat(3, 2));
}

#[test]
fn speed_key_without_a_store_starts_from_full_speed() {
    let edited = speed_with_key(&None, rat(3, 1), rat(0, 1), rat(1, 2)).unwrap();
    assert_eq!(edited.speed_keyframes().unwrap(), vec![(rat(0, 1), rat(1, 2)), (rat(3, 1), rat(1, 1))]);
}

#[test]
fn speed_key_on_an_eased_store_starts_from_full_speed() {
    let base = Some(Retime::single_ramp(rat(2, 1), rat(0, 1), rat(1, 1), rat(2, 1), Ease::Smooth));
    let edited = speed_with_key(&base, rat(2, 1), rat(1, 1), rat(3, 1)).unwrap();
    assert_eq!(
        edited.speed_keyframes().unwrap(),
        vec![(rat(0, 1), rat(1, 1)), (rat(1, 1), rat(3, 1)), (rat(2, 1), rat(1, 1))]
    );
}

#[test]
fn speed_key_on_a_zero_length_clip_makes_no_store() {
    assert!(speed_with_key(&None, rat(0, 1), rat(0, 1), rat(2, 1)).is_none());
}
