use kiriko::rational::{rat, Rational};
use kiriko::retime::{
    add_with_flick_fallback, rate_advance, Boundary, Ease, Interpolation, MapSegment, RateSegment, Retime, RetimeError,
    RetimeSegment,
};

fn store(bounds: &[(Rational, Rational)], segments: Vec<RetimeSegment>) -> Retime {
    Retime {
        boundaries: bounds.iter().map(|&(t, s)| Boundary::new(t, s)).collect(),
        segments,
        allow_reverse: false,
        interpolation: Interpolation::Nearest,
    }
}

fn rate(v0: Rational, v1: Rational, ease: Ease) -> RetimeSegment {
    RetimeSegment::Rate(RateSegment::new(v0, v1, ease))
}

fn to_f64(r: Rational) -> f64 {
    r.num() as f64 / r.den() as f64
}

#[test]
fn speed_keyframes_build_and_round_trip() {
    let keys = [(rat(0, 1), rat(1, 1)), (rat(2, 1), rat(1, 1)), (rat(4, 1), rat(2, 1))];
    let r = Retime::from_speed_keyframes(rat(0, 1), &keys).unwrap();
    assert_eq!(r.speed_keyframes().unwrap(), keys.to_vec());
    // 1× for the first 2 s ⇒ source time 2 at t = 2 (exactly, at the boundary).
    assert_eq!(r.boundaries[1].s, rat(2, 1));
    // 2 s more ramping 1 → 2: 2·(1 + ½) = 3 further.
    assert_eq!(r.boundaries[2].s, rat(5, 1));
}

#[test]
fn from_speed_keyframes_rejects_bad_input() {
    assert!(Retime::from_speed_keyframes(rat(0, 1), &[(rat(0, 1), rat(1, 1))]).is_none());
    assert!(Retime::from_speed_keyframes(rat(0, 1), &[(rat(1, 1), rat(1, 1)), (rat(2, 1), rat(1, 1))]).is_none());
    assert!(Retime::from_speed_keyframes(rat(0, 1), &[(rat(0, 1), rat(1, 1)), (rat(0, 1), rat(2, 1))]).is_none());
}

#[test]
fn value_keyframes_build_and_round_trip() {
    let keys = [(rat(0, 1), rat(0, 1)), (rat(2, 1), rat(1, 1)), (rat(4, 1), rat(5, 1))];
    let r = Retime::from_value_keyframes(&keys).unwrap();
    assert_eq!(r.value_keyframes(), keys.to_vec());
    // Constant speed within a span: ½× on [0,2], 2× on [2,4].
    match (r.segments[0], r.segments[1]) {
        (RetimeSegment::Rate(a), RetimeSegment::Rate(b)) => {
            assert_eq!((a.v0, a.v1), (rat(1, 2), rat(1, 2)));
            assert_eq!((b.v0, b.v1), (rat(2, 1), rat(2, 1)));
        },
        _ => panic!("expected rate segments"),
    }
}

#[test]
fn from_value_keyframes_allows_reverse_and_rejects_bad_input() {
    let back = Retime::from_value_keyframes(&[(rat(0, 1), rat(2, 1)), (rat(1, 1), rat(0, 1))]).unwrap();
    assert!(back.allow_reverse);
    match back.segments[0] {
        RetimeSegment::Rate(a) => assert_eq!(a.v0, rat(-2, 1)),
        _ => panic!("expected a rate segment"),
    }
    assert!(Retime::from_value_keyframes(&[(rat(0, 1), rat(0, 1))]).is_none());
    assert!(Retime::from_value_keyframes(&[(rat(1, 1), rat(0, 1)), (rat(2, 1), rat(1, 1))]).is_none());
    assert!(Retime::from_value_keyframes(&[(rat(0, 1), rat(0, 1)), (rat(0, 1), rat(1, 1))]).is_none());
}

#[test]
fn value_keyframes_read_any_store() {
    let eased = Retime::single_ramp(rat(4, 1), rat(0, 1), rat(1, 1), rat(2, 1), Ease::Smooth);
    assert!(eased.speed_keyframes().is_none());
    let vks = eased.value_keyframes();
    assert_eq!(vks.len(), 2);
    assert_eq!(vks[0], (rat(0, 1), rat(0, 1)));
}

#[test]
fn speed_keyframes_none_for_eased_store() {
    let eased = Retime::single_ramp(rat(4, 1), rat(0, 1), rat(1, 1), rat(2, 1), Ease::Smooth);
    assert!(eased.speed_keyframes().is_none());
}

#[test]
fn identity_is_a_straight_pass_through() {
    let r = Retime::identity(rat(4, 1), rat(3, 2));
    r.validate().unwrap();
    assert_eq!(r.boundaries[0].s, rat(3, 2));
    assert_eq!(r.boundaries[1].s, rat(11, 2));
}

#[test]
fn double_speed_covers_twice_the_source() {
    let mut r = store(&[(rat(0, 1), rat(5, 1)), (rat(2, 1), rat(0, 1))], vec![rate(rat(2, 1), rat(2, 1), Ease::Linear)]);
    r.recompute_boundaries().unwrap();
    assert_eq!(r.boundaries[1].s, rat(9, 1));
}

#[test]
fn constant_speed_evaluates_as_linear_from_source_in() {
    let r = Retime::constant_speed(rat(4, 1), rat(2, 1), rat(1, 2));
    assert_eq!(r.boundaries[1].s, rat(4, 1));
    r.validate().unwrap();
}

#[test]
fn split_reproduces_the_curve_for_linear_segments() {
    let r = Retime::constant_speed(rat(4, 1), rat(5, 1), rat(2, 1));
    let (l, rt) = r.split_at(rat(3, 2)).unwrap();
    // Left ends at the cut, where 2× from 5 has reached 8; the right starts
    // there and ends where the uncut store ends.
    assert_eq!(*l.boundaries.last().unwrap(), Boundary::new(rat(3, 2), rat(8, 1)));
    assert_eq!(rt.boundaries[0], Boundary::new(rat(0, 1), rat(8, 1)));
    assert_eq!(*rt.boundaries.last().unwrap(), Boundary::new(rat(5, 2), rat(13, 1)));
    assert_eq!(l.boundaries.last().unwrap().s, rt.boundaries[0].s);

    let ramp = Retime::single_ramp(rat(4, 1), rat(0, 1), rat(1, 1), rat(3, 1), Ease::Linear);
    let (rl, rr) = ramp.split_at(rat(2, 1)).unwrap();
    assert_eq!(rl.boundaries.last().unwrap().s, rr.boundaries[0].s);
    assert_eq!(rr.boundaries.last().unwrap().s, ramp.boundaries[1].s);

    assert!(r.split_at(rat(0, 1)).is_none());
    assert!(r.split_at(rat(4, 1)).is_none());
}

fn assert_split_meets(orig: &Retime, cut: Rational) {
    let (l, r) = orig.split_at(cut).expect("split supported");
    l.validate().unwrap();
    r.validate().unwrap();
    assert_eq!(l.boundaries.last().unwrap().t, cut);
    assert_eq!(l.boundaries.last().unwrap().s, r.boundaries[0].s);
    assert_eq!(r.boundaries.last().unwrap().s, orig.boundaries.last().unwrap().s);
    assert!(l.segments.iter().all(|s| matches!(s, RetimeSegment::Cubic(_))));
    assert!(r.segments.iter().all(|s| matches!(s, RetimeSegment::Cubic(_))));
}

#[test]
fn splitting_an_eased_ramp_preserves_the_curve() {
    let r = Retime::single_ramp(rat(4, 1), rat(0, 1), rat(1, 1), rat(3, 1), Ease::Slow);
    assert_split_meets(&r, rat(3, 2));
    let r = Retime::single_ramp(rat(4, 1), rat(0, 1), rat(1, 1), rat(3, 1), Ease::Fast);
    assert_split_meets(&r, rat(5, 2));
}

#[test]
fn splitting_a_smooth_ramp_works_either_side_of_the_midpoint() {
    for ease in [Ease::Smooth, Ease::Sharp] {
        let r = Retime::single_ramp(rat(4, 1), rat(0, 1), rat(1, 2), rat(2, 1), ease);
        assert_split_meets(&r, rat(1, 1));
        assert_split_meets(&r, rat(3, 1));
    }
}

#[test]
fn splitting_a_polynomial_map_segment_preserves_the_curve() {
    let third = rat(1, 3);
    let rt = store(
        &[(rat(0, 1), rat(0, 1)), (rat(2, 1), rat(3, 1))],
        vec![RetimeSegment::Cubic(MapSegment::new(rat(1, 1), rat(2, 1), third, third))],
    );
    assert_split_meets(&rt, rat(1, 1));
}

#[test]
fn merging_two_collinear_linear_rates_stays_one_rate() {
    let mut rt = store(
        &[(rat(0, 1), rat(0, 1)), (rat(2, 1), rat(0, 1)), (rat(4, 1), rat(0, 1))],
        vec![rate(rat(1, 1), rat(2, 1), Ease::Linear), rate(rat(2, 1), rat(3, 1), Ease::Linear)],
    );
    rt.recompute_boundaries().unwrap();
    let m = rt.merge_boundary(1).expect("interior boundary merges");
    assert_eq!(m.segments.len(), 1);
    assert!(matches!(m.segments[0], RetimeSegment::Rate(_)));
    assert_eq!(m.boundaries.last().unwrap().s, rt.boundaries.last().unwrap().s);
}

#[test]
fn merging_a_kink_pins_the_outer_boundaries_and_speeds() {
    let mut rt = store(
        &[(rat(0, 1), rat(0, 1)), (rat(2, 1), rat(0, 1)), (rat(4, 1), rat(0, 1))],
        vec![rate(rat(1, 1), rat(2, 1), Ease::Linear), rate(rat(2, 1), rat(1, 1), Ease::Linear)],
    );
    rt.recompute_boundaries().unwrap();
    let m = rt.merge_boundary(1).expect("interior boundary merges");
    assert_eq!(m.segments.len(), 1);
    match m.segments[0] {
        RetimeSegment::Cubic(seg) => {
            // Outer one-sided speeds preserved: 100% at each end.
            assert_eq!(seg.m0, rat(1, 1));
            assert_eq!(seg.m1, rat(1, 1));
        },
        _ => panic!("expected a cubic segment"),
    }
    assert_eq!(m.boundaries.first().unwrap(), rt.boundaries.first().unwrap());
    assert_eq!(m.boundaries.last().unwrap(), rt.boundaries.last().unwrap());
    assert!(rt.merge_boundary(0).is_none());
    assert!(rt.merge_boundary(2).is_none());
}

#[test]
fn shifting_source_translates_the_curve_without_reshaping_it() {
    let r = Retime::single_ramp(rat(4, 1), rat(0, 1), rat(1, 1), rat(3, 1), Ease::Slow);
    let shifted = r.shift_source(rat(5, 1)).unwrap();
    for (a, b) in r.boundaries.iter().zip(shifted.boundaries.iter()) {
        assert_eq!(b.t, a.t);
        assert_eq!(b.s, a.s.checked_add(rat(5, 1)).unwrap());
    }
    assert_eq!(shifted.segments, r.segments);
}

#[test]
fn inserting_a_freeze_holds_the_frame_and_crops_the_tail() {
    let r = Retime::constant_speed(rat(4, 1), rat(0, 1), rat(1, 1));
    let f = r.insert_freeze(rat(1, 1), rat(1, 1)).expect("interior freeze");
    f.validate().unwrap();
    assert_eq!(f.boundaries.last().unwrap().t, rat(4, 1));
    // The hold: source 1 at both ends of [1, 2].
    assert_eq!(f.boundaries[1], Boundary::new(rat(1, 1), rat(1, 1)));
    assert_eq!(f.boundaries[2], Boundary::new(rat(2, 1), rat(1, 1)));
    // The old tail was pushed off the end: at D the source is now 3.
    assert_eq!(f.boundaries.last().unwrap().s, rat(3, 1));
    assert!(r.insert_freeze(rat(0, 1), rat(1, 1)).is_none());
    assert!(r.insert_freeze(rat(1, 1), rat(0, 1)).is_none());
}

#[test]
fn single_ramp_eases_speed_across_the_clip() {
    let r = Retime::single_ramp(rat(2, 1), rat(0, 1), rat(1, 1), rat(3, 1), Ease::Linear);
    assert_eq!(r.boundaries[1].s, rat(4, 1));
    r.validate().unwrap();
}

#[test]
fn freeze_holds_one_source_position() {
    let mut r = store(&[(rat(0, 1), rat(7, 2)), (rat(3, 1), rat(99, 1))], vec![rate(rat(0, 1), rat(0, 1), Ease::Linear)]);
    r.recompute_boundaries().unwrap();
    assert_eq!(r.boundaries[1].s, rat(7, 2));
}

#[test]
fn linear_ramp_matches_the_hand_integral() {
    let mut r = store(&[(rat(0, 1), rat(0, 1)), (rat(1, 1), rat(0, 1))], vec![rate(rat(1, 1), rat(3, 1), Ease::Linear)]);
    r.recompute_boundaries().unwrap();
    assert_eq!(r.boundaries[1].s, rat(2, 1));
}

#[test]
fn boundary_consistency_matches_f64_evaluation_for_every_ease() {
    // s_end = ¼ + 2·[½ + 2·E(1)].
    let expected = [
        (Ease::Linear, rat(13, 4)),
        (Ease::Slow, rat(31, 12)),
        (Ease::Fast, rat(47, 12)),
        (Ease::Smooth, rat(13, 4)),
        (Ease::Sharp, rat(13, 4)),
    ];
    for (ease, want) in expected {
        let mut r = store(&[(rat(0, 1), rat(1, 4)), (rat(2, 1), rat(0, 1))], vec![rate(rat(1, 2), rat(5, 2), ease)]);
        r.recompute_boundaries().unwrap();
        assert_eq!(r.boundaries[1].s, want, "{ease:?}");
    }
}

#[test]
fn ease_integrals_agree_with_their_exact_endpoints() {
    assert_eq!(Ease::Linear.e_at_1(), rat(1, 2));
    assert_eq!(Ease::Slow.e_at_1(), rat(1, 3));
    assert_eq!(Ease::Fast.e_at_1(), rat(2, 3));
    assert_eq!(Ease::Smooth.e_at_1(), rat(1, 2));
    assert_eq!(Ease::Sharp.e_at_1(), rat(1, 2));
}

#[test]
fn reverse_speeds_clamp_when_reverse_is_off() {
    let mut r = store(&[(rat(0, 1), rat(5, 1)), (rat(2, 1), rat(0, 1))], vec![rate(rat(-1, 1), rat(-1, 1), Ease::Linear)]);
    r.recompute_boundaries().unwrap();
    assert_eq!(r.boundaries[1].s, rat(5, 1));
    r.allow_reverse = true;
    r.recompute_boundaries().unwrap();
    assert_eq!(r.boundaries[1].s, rat(3, 1));
}

#[test]
fn worked_example_from_the_spec_is_bit_exact() {
    let mut r = store(
        &[
            (rat(0, 1), rat(0, 1)),
            (rat(6, 5), rat(0, 1)),
            (rat(29, 20), rat(0, 1)),
            (rat(14, 5), rat(0, 1)),
            (rat(4, 1), rat(0, 1)),
        ],
        vec![
            rate(rat(1, 1), rat(1, 1), Ease::Linear),
            rate(rat(17, 2), rat(17, 2), Ease::Linear),
            rate(rat(1, 5), rat(1, 5), Ease::Linear),
            rate(rat(1, 1), rat(1, 1), Ease::Linear),
        ],
    );
    r.recompute_boundaries().unwrap();
    let expected = [rat(0, 1), rat(6, 5), rat(133, 40), rat(719, 200), rat(959, 200)];
    for (i, want) in expected.iter().enumerate() {
        assert_eq!(r.boundaries[i].s, *want, "boundary {i}");
    }
}

#[test]
fn validate_rejects_malformed_stores() {
    let good = Retime::identity(rat(1, 1), rat(0, 1));

    let mut no_segments = good.clone();
    no_segments.segments.clear();
    assert!(no_segments.validate().is_err());

    let mut miscounted = good.clone();
    miscounted.boundaries.push(Boundary::new(rat(2, 1), rat(2, 1)));
    assert!(miscounted.validate().is_err());

    let mut late_start = good.clone();
    late_start.boundaries[0].t = rat(1, 2);
    assert!(late_start.validate().is_err());

    let mut not_increasing = good.clone();
    not_increasing.boundaries[1].t = rat(0, 1);
    assert!(not_increasing.validate().is_err());

    assert!(good.validate().is_ok());
}

#[test]
fn overflow_falls_back_to_the_flick_grid() {
    let a = rat(1_000_003, 4_294_967_297);
    let b = rat(1_000_003, 8_589_934_591);
    assert!(a.checked_add(b).is_err(), "expected raw overflow");
    let sum = add_with_flick_fallback(a, b).unwrap();
    let exact = 1_000_003.0 / 4_294_967_297.0 + 1_000_003.0 / 8_589_934_591.0;
    assert!((to_f64(sum) - exact).abs() < 2.0 / kiriko::rational::FLICK_DEN as f64, "grid-rounded {sum:?} too far from {exact}");
}

#[test]
fn changing_segment_ease_pins_start_and_recomputes_downstream() {
    let base = Retime::single_ramp(rat(2, 1), rat(0, 1), rat(1, 1), rat(0, 1), Ease::Linear);
    assert_eq!(base.boundaries[1].s, rat(1, 1));
    let slow = base.with_segment_ease(rat(1, 1), Ease::Slow).unwrap();
    assert_eq!(slow.boundaries[0].s, rat(0, 1), "start is pinned");
    assert_eq!(slow.boundaries[1].s, rat(4, 3), "downstream source recomputed for the new ease");
    slow.validate().unwrap();
}

#[test]
fn setting_segment_speeds_recomputes_and_pins_start() {
    let base = Retime::constant_speed(rat(2, 1), rat(0, 1), rat(1, 1));
    assert_eq!(base.boundaries[1].s, rat(2, 1));
    let ramp = base.with_segment_speeds(rat(1, 1), rat(1, 1), rat(1, 2)).unwrap();
    assert_eq!(ramp.boundaries[0].s, rat(0, 1), "start pinned");
    assert_eq!(ramp.boundaries[1].s, rat(3, 2), "downstream source recomputed");
    ramp.validate().unwrap();
}

#[test]
fn segment_index_at_locates_and_bounds() {
    let keys = [(rat(0, 1), rat(1, 1)), (rat(2, 1), rat(1, 1)), (rat(4, 1), rat(1, 1))];
    let r = Retime::from_speed_keyframes(rat(0, 1), &keys).unwrap();
    assert_eq!(r.segment_index_at(rat(1, 1)), Some(0));
    assert_eq!(r.segment_index_at(rat(3, 1)), Some(1));
    assert_eq!(r.segment_index_at(rat(4, 1)), Some(1));
    assert_eq!(r.segment_index_at(rat(-1, 1)), None);
    assert_eq!(r.segment_index_at(rat(5, 1)), None);
}

#[test]
fn setting_speeds_pins_the_edited_segment_start() {
    for v0 in [1i64, 7, 29] {
        for v1 in [1i64, 13, 29] {
            for (nv0, nv1) in [(1i64, 29i64), (17, 3), (29, 29)] {
                let keys = [
                    (rat(0, 1), rat(v0, 10)),
                    (rat(1, 1), rat(v1, 10)),
                    (rat(2, 1), rat(v0, 10)),
                    (rat(3, 1), rat(v1, 10)),
                ];
                let base = Retime::from_speed_keyframes(rat(0, 1), &keys).unwrap();
                let i = base.segment_index_at(rat(3, 2)).unwrap();
                let start_before = base.boundaries[i].s;
                let edited = base.with_segment_speeds(rat(3, 2), rat(nv0, 10), rat(nv1, 10)).unwrap();
                assert_eq!(edited.boundaries[i].s, start_before);
                edited.validate().unwrap();
            }
        }
    }
}

#[test]
fn recomputing_twice_changes_nothing() {
    let mut r = store(
        &[(rat(0, 1), rat(1, 3)), (rat(5, 7), rat(0, 1)), (rat(2, 1), rat(0, 1))],
        vec![rate(rat(3, 2), rat(1, 4), Ease::Smooth), rate(rat(1, 4), rat(9, 5), Ease::Fast)],
    );
    r.recompute_boundaries().unwrap();
    let once = r.boundaries.clone();
    r.recompute_boundaries().unwrap();
    assert_eq!(r.boundaries, once);
}

#[test]
fn validate_reports_each_rule() {
    let good = Retime::identity(rat(1, 1), rat(0, 1));
    let mut no_segments = good.clone();
    no_segments.segments.clear();
    assert_eq!(
        no_segments.validate(),
        Err(RetimeError::InvalidStructure("a retime needs at least one segment"))
    );
    let mut late_start = good.clone();
    late_start.boundaries[0].t = rat(1, 2);
    assert_eq!(
        late_start.validate(),
        Err(RetimeError::InvalidStructure("the first boundary must sit at local time zero"))
    );
}

#[test]
fn recompute_reports_arithmetic_overflow() {
    // A huge speed over a long span: the exact advance does not fit.
    let mut r = store(
        &[(rat(0, 1), rat(0, 1)), (rat(i64::MAX, 1), rat(0, 1))],
        vec![rate(rat(i64::MAX, 1), rat(i64::MAX, 1), Ease::Linear)],
    );
    assert!(matches!(r.recompute_boundaries(), Err(RetimeError::Arithmetic(_))));
}

#[test]
fn splitting_inside_an_eased_segment_keeps_every_other_boundary() {
    let mut rt = store(
        &[(rat(0, 1), rat(0, 1)), (rat(2, 1), rat(0, 1)), (rat(5, 1), rat(0, 1))],
        vec![rate(rat(1, 1), rat(3, 1), Ease::Smooth), rate(rat(2, 1), rat(2, 1), Ease::Linear)],
    );
    rt.recompute_boundaries().unwrap();
    let before = rt.boundaries.clone();
    let (l, r) = rt.split_at(rat(1, 2)).unwrap();
    // Upstream of the cut: the first boundary is untouched.
    assert_eq!(l.boundaries[0], before[0]);
    // Downstream: the old boundaries, half a second earlier, same sources.
    let n = r.boundaries.len();
    assert_eq!(r.boundaries[n - 2], Boundary { t: rat(3, 2), s: before[1].s, smooth: false });
    assert_eq!(r.boundaries[n - 1], Boundary { t: rat(9, 2), s: before[2].s, smooth: false });
}

#[test]
fn merging_a_settled_store_moves_no_boundary() {
    let mut rt = store(
        &[(rat(0, 1), rat(0, 1)), (rat(1, 1), rat(0, 1)), (rat(3, 1), rat(0, 1)), (rat(4, 1), rat(0, 1))],
        vec![
            rate(rat(1, 1), rat(2, 1), Ease::Linear),
            rate(rat(2, 1), rat(1, 1), Ease::Slow),
            rate(rat(1, 1), rat(1, 1), Ease::Linear),
        ],
    );
    rt.recompute_boundaries().unwrap();
    let before = rt.boundaries.clone();
    let merged = rt.merge_boundary(1).unwrap();
    assert_eq!(merged.boundaries.len(), 3);
    assert_eq!(merged.boundaries[0], before[0]);
    assert_eq!(merged.boundaries[1], before[2]);
    assert_eq!(merged.boundaries[2], before[3]);
}

#[test]
fn an_advance_that_overflows_rounds_onto_the_flick_grid() {
    let d = rat(6_000_000_001, 2_000_000_003);
    let v = rat(5_000_000_003, 4_000_000_007);
    // The exact product does not fit i64 ...
    assert!(d.checked_mul(v).is_err());
    // ... so the advance is the exact value rounded onto the flick grid.
    assert_eq!(rate_advance(d, v, v, Ease::Linear), Ok(rat(2_645_999_993, 705_600_000)));
}

#[test]
fn setting_speeds_whose_advance_overflows_still_edits_the_store() {
    let d = rat(6_000_000_001, 2_000_000_003);
    let mut rt = store(&[(rat(0, 1), rat(0, 1)), (d, rat(0, 1))], vec![rate(rat(1, 1), rat(1, 1), Ease::Linear)]);
    rt.recompute_boundaries().unwrap();
    let v = rat(5_000_000_003, 4_000_000_007);
    let e = rt.with_segment_speeds(rat(1, 1), v, v).expect("edited store");
    assert_eq!(e.boundaries[0], rt.boundaries[0]);
    assert_eq!(e.boundaries[1].s, rat(2_645_999_993, 705_600_000));
}

#[test]
fn segment_search_answers_a_store_short_of_boundaries_before_its_end() {
    // Two segments but only two boundaries: a time before the last boundary
    // still resolves to the segment it falls in.
    let rt = store(
        &[(rat(0, 1), rat(0, 1)), (rat(2, 1), rat(2, 1))],
        vec![rate(rat(1, 1), rat(1, 1), Ease::Linear), rate(rat(1, 1), rat(1, 1), Ease::Linear)],
    );
    assert_eq!(rt.segment_index_at(rat(1, 1)), Some(0));
    assert_eq!(rt.segment_index_at(rat(3, 1)), None);
}

#[test]
fn a_split_whose_exact_cut_overflows_rounds_the_cut_onto_the_flick_grid() {
    let third = rat(1, 3);
    let rt = store(
        &[(rat(0, 1), rat(0, 1)), (rat(6_000_000_001, 2_000_000_003), rat(5_000_000_003, 4_000_000_007))],
        vec![RetimeSegment::Cubic(MapSegment::new(
            rat(1_000_000_007, 999_999_937),
            rat(999_999_929, 1_000_000_009),
            third,
            third,
        ))],
    );
    let (l, r) = rt.split_at(rat(1, 1)).expect("split on the grid");
    let cut = l.boundaries.last().unwrap().s;
    assert_eq!(r.boundaries[0].s, cut);
    // The cut sits on the flick grid, within a few ticks of the exact curve.
    assert_eq!(705_600_000 % cut.den(), 0);
    assert!((to_f64(cut) - 0.5462963448125018).abs() < 1e-8);
}
