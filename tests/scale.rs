use nicer_ticks::conversion::{default_format_composite, default_from_composite, default_to_composite};
use nicer_ticks::{CompositeUnit, Gregorian, Scale, ScaleBuilder, ScaleError, Sign, Standard, Unit};

fn clock() -> Scale<Standard> {
    ScaleBuilder::new("clock")
        .unit(|u| u.name("ms"))
        .unit(|u| u.name("s").relative_to_last(1000))
        .unit(|u| u.name("m").relative_to_last(60))
        .unit(|u| u.name("h").relative_to_last(60))
        .unit(|u| u.name("d").relative_to_last(24))
        .build()
}

fn length() -> Scale<Standard> {
    ScaleBuilder::new("length")
        .unit(|u| u.name("sun"))
        .unit(|u| u.name("shaku").relative_to_last(10))
        .unit(|u| u.name("jo").relative_to_last(10))
        .unit(|u| u.name("ken").relative_to("jo", 6))
        .unit(|u| u.name("cho").relative_to_last(60))
        .unit(|u| u.name("ri").relative_to_last(36))
        .build()
}

fn composite(values: Vec<u64>) -> CompositeUnit {
    CompositeUnit { values, sign: Sign::Positive }
}

#[test]
fn clock_to_composite() {
    let scale = clock();
    assert_eq!(scale.to_composite(3605000), composite(vec![0, 1, 0, 5, 0]));
}

#[test]
fn clock_format_base_drops_outer_zeros() {
    let scale = clock();
    assert_eq!(scale.fmt_base_unit(3605000), "1 h 0 m 5 s");
    assert_eq!(scale.fmt_base_unit(7205000), "2 h 0 m 5 s");
    assert_eq!(scale.fmt_base_unit(7380000), "2 h 3 m");
    assert_eq!(scale.fmt_base_unit(12345), "12 s 345 ms");
    assert_eq!(scale.fmt_base_unit(90061001), "1 d 1 h 1 m 1 s 1 ms");
}

#[test]
fn format_of_zero_is_empty() {
    let scale = clock();
    assert_eq!(scale.fmt_base_unit(0), "");
    assert_eq!(scale.fmt_composite(&composite(vec![0, 0, 0, 0, 0])), "");
}

#[test]
fn clock_unit_sizes() {
    let scale = clock();
    assert_eq!(scale.get_unit("ms").unwrap().size, 1);
    assert_eq!(scale.get_unit("h").unwrap().size, 3_600_000);
    assert_eq!(scale.get_unit("d").unwrap().size, 86_400_000);
    assert!(scale.get_unit("week").is_none());
    assert_eq!(scale.unit_count(), 5);
    assert_eq!(scale.name, "clock");
}

#[test]
fn length_to_composite_and_lookup() {
    let scale = length();
    assert_eq!(scale.to_composite(3600), composite(vec![0, 0, 6, 0, 0, 0]));
    assert_eq!(scale.get_unit("ken").unwrap().size, 600);
    assert_eq!(scale.get_unit("cho").unwrap().size, 36000);
    assert_eq!(scale.get_unit("ri").unwrap().size, 1296000);
    assert_eq!(scale.get_unit("jo").unwrap().size, 100);
}

#[test]
fn round_trip_on_canonical_values() {
    let scale = clock();
    for v in [0u64, 1, 999, 1000, 59_999, 3_605_000, 86_399_999, 1_000_000_000_000] {
        let c = scale.to_composite(v);
        assert!(scale.is_unit_counts_canonical(&c));
        assert_eq!(scale.from_composite(&c).unwrap(), v);
        assert_eq!(scale.to_composite(scale.from_composite(&c).unwrap()), c);
    }
}

#[test]
fn decomposition_bounds_on_clock() {
    let scale = clock();
    let c = scale.to_composite(987_654_321);
    assert_eq!(c.values, vec![11, 10, 20, 54, 321]);
    let ratios = [24u64, 60, 60, 1000];
    for j in 1..c.values.len() {
        assert!(c.values[j] < ratios[j - 1]);
    }
}

#[test]
fn non_canonical_values() {
    let scale = clock();
    assert!(!scale.is_unit_counts_canonical(&composite(vec![0, 0, 0, 60, 0])));
    assert!(!scale.is_unit_counts_canonical(&composite(vec![0, 0, 0, 1])));
    assert!(scale.is_unit_counts_canonical(&composite(vec![0, 0, 1, 0, 0])));
}

#[test]
fn from_composite_sums_sizes() {
    let scale = clock();
    assert_eq!(scale.from_composite(&composite(vec![1, 2, 3, 4, 5])), Ok(93_784_005));
    assert_eq!(scale.from_composite(&composite(vec![0, 0, 0, 60, 0])), Ok(60_000));
}

#[test]
fn from_composite_overflow() {
    let scale = clock();
    let result = scale.from_composite(&composite(vec![u64::MAX, 0, 0, 0, 0]));
    assert_eq!(result, Err(ScaleError::Overflow));
    assert!(!scale.is_unit_counts_canonical(&composite(vec![u64::MAX, 0, 0, 0, 0])));
}

#[test]
fn increment_carries_into_larger_unit() {
    let scale = clock();
    let c = scale.to_composite(59_000);
    let next = scale.increment_unit(&c, 3, 1).unwrap();
    assert_eq!(next, composite(vec![0, 0, 1, 0, 0]));
    assert_eq!(scale.from_composite(&next), Ok(60_000));
}

#[test]
fn increment_resets_smaller_units() {
    let scale = clock();
    let c = scale.to_composite(3_605_123);
    let next = scale.increment_unit(&c, 1, 2).unwrap();
    assert_eq!(next, composite(vec![0, 3, 0, 0, 0]));
}

#[test]
fn increment_cascades_several_levels() {
    let scale = clock();
    let c = scale.to_composite(86_399_999);
    let next = scale.increment_unit(&c, 4, 1).unwrap();
    assert_eq!(next, composite(vec![1, 0, 0, 0, 0]));
}

#[test]
fn increment_strictly_increases() {
    let scale = length();
    for v in [0u64, 7, 599, 3000, 35_999, 1_295_999] {
        let c = scale.to_composite(v);
        for i in 0..6 {
            let next = scale.increment_unit(&c, i, 1).unwrap();
            assert!(scale.from_composite(&next).unwrap() > v);
            assert!(scale.is_unit_counts_canonical(&next));
        }
    }
}

#[test]
fn increment_overflow_at_top() {
    let scale = clock();
    let c = composite(vec![u64::MAX, 0, 0, 0, 0]);
    assert_eq!(scale.increment_unit(&c, 0, 1), Err(ScaleError::Overflow));
}

#[test]
fn increment_resets_to_floor() {
    let scale = ScaleBuilder::new("floored")
        .unit(|u| u.name("a").starts_at(1))
        .unit(|u| u.name("b").relative_to_last(10))
        .build();
    let next = scale.increment_unit(&composite(vec![2, 7]), 0, 1).unwrap();
    assert_eq!(next, composite(vec![3, 1]));
}

#[test]
fn ticks_on_wide_length_range() {
    let scale = length();
    let ticks = scale.ticks(3000, 6000, 10);
    let values: Vec<u64> = ticks.labels.iter().map(|p| p.1).collect();
    assert_eq!(
        values,
        vec![3000, 3500, 3600, 4100, 4200, 4700, 4800, 5300, 5400, 5900, 6000]
    );
    assert_eq!(ticks.labels[0].0, "5 ken");
    assert_eq!(ticks.labels[1].0, "5 ken 5 jo");
    assert_eq!(ticks.labels[10].0, "10 ken");
    assert!(ticks.aux_labels.is_empty());
}

#[test]
fn ticks_bounds_and_order() {
    let scale = clock();
    for (start, end, max_cnt) in [(0u64, 10u64, 10usize), (1, 1000, 3), (12_345, 9_876_543, 7), (5, 6, 1)] {
        let ticks = scale.ticks(start, end, max_cnt);
        let values: Vec<u64> = ticks.labels.iter().map(|p| p.1).collect();
        assert!(!values.is_empty());
        for w in values.windows(2) {
            assert!(w[0] < w[1]);
        }
        for v in &values {
            assert!(start <= *v && *v <= end);
        }
        assert!(values.len() <= max_cnt + 1);
    }
}

#[test]
fn ticks_small_range_in_base_units() {
    let scale = clock();
    let ticks = scale.ticks(0, 10, 10);
    let values: Vec<u64> = ticks.labels.iter().map(|p| p.1).collect();
    assert_eq!(values, vec![0, 2, 4, 6, 8, 10]);
    assert_eq!(ticks.labels[1].0, "2 ms");
}

#[test]
fn ticks_unaligned_start_moves_forward() {
    let scale = clock();
    let ticks = scale.ticks(1_500, 10_500, 5);
    let values: Vec<u64> = ticks.labels.iter().map(|p| p.1).collect();
    assert_eq!(values, vec![2000, 4000, 6000, 8000, 10000]);
    assert_eq!(ticks.labels[0].0, "2 s");
}

#[test]
fn unit_builder_fields() {
    let scale = ScaleBuilder::new("custom")
        .unit(|u| u.name("tick").tick_base(vec![3, 9]))
        .unit(|u| u.name("tock"))
        .build();
    let tick = scale.get_unit("tick").unwrap();
    assert_eq!(tick.tick_base, vec![3, 9]);
    assert_eq!(tick.size, 1);
    assert_eq!(tick.starts_at, 0);
    let tock = scale.get_unit("tock").unwrap();
    assert_eq!(tock.size, 1000);
    assert_eq!(tock.tick_base, vec![2, 5, 10]);
}

#[test]
fn error_messages() {
    assert_eq!(ScaleError::OutOfBounds.message(), "ScaleError: OutOfBounds");
    assert_eq!(ScaleError::Overflow.message(), "ScaleError: Overflow");
}

#[test]
fn default_functions_match_scale() {
    let scale = clock();
    let units: Vec<Unit> = (0..scale.unit_count()).map(|_| Unit {
        name: "x",
        tick_base: vec![2, 5, 10],
        size: 1,
        starts_at: 0,
    }).collect();
    let c = default_to_composite(&units, 7);
    assert_eq!(c.values, vec![7, 0, 0, 0, 0]);
    assert_eq!(default_from_composite(&units, &c), Ok(7));
    assert_eq!(default_format_composite(&units, &c), "7 x");
}

fn calendar() -> Scale<Gregorian> {
    ScaleBuilder::new("datetime")
        .unit(|u| u.name("ms"))
        .unit(|u| u.name("s").relative_to_last(1000))
        .unit(|u| u.name("m").relative_to_last(60))
        .unit(|u| u.name("h").relative_to_last(60))
        .unit(|u| u.name("d").relative_to_last(24).starts_at(1))
        .unit(|u| u.name("mon").relative_to_last(30).starts_at(1))
        .unit(|u| u.name("year").relative_to("d", 365))
        .conversion(Gregorian)
        .build()
}

#[test]
fn calendar_rejects_february_30() {
    let scale = calendar();
    let c = composite(vec![2023, 2, 30, 0, 0, 0, 0]);
    assert_eq!(scale.from_composite(&c), Err(ScaleError::OutOfBounds));
    assert!(!scale.is_unit_counts_canonical(&c));
    let c = composite(vec![2023, 2, 29, 0, 0, 0, 0]);
    assert_eq!(scale.from_composite(&c), Err(ScaleError::OutOfBounds));
}

#[test]
fn calendar_accepts_leap_day() {
    let scale = calendar();
    let c = composite(vec![2024, 2, 29, 0, 0, 0, 0]);
    let v = scale.from_composite(&c).unwrap();
    assert_eq!(v, 1_709_164_800_000);
    assert_eq!(scale.to_composite(v), c);
    assert!(scale.is_unit_counts_canonical(&c));
}

#[test]
fn calendar_epoch_and_increment() {
    let scale = calendar();
    let epoch = composite(vec![1970, 1, 1, 0, 0, 0, 0]);
    assert_eq!(scale.from_composite(&epoch), Ok(0));
    let c = composite(vec![2023, 1, 31, 10, 0, 0, 0]);
    let next = scale.increment_unit(&c, 2, 1).unwrap();
    assert_eq!(next, composite(vec![2023, 2, 1, 0, 0, 0, 0]));
    let c = composite(vec![2024, 2, 29, 0, 0, 0, 0]);
    let next = scale.increment_unit(&c, 1, 1).unwrap();
    assert_eq!(next, composite(vec![2024, 3, 1, 0, 0, 0, 0]));
}

#[test]
fn calendar_round_trip_and_format() {
    let scale = calendar();
    let c = composite(vec![2026, 2, 3, 13, 0, 47, 927]);
    let v = scale.from_composite(&c).unwrap();
    assert_eq!(v, 1_770_123_647_927);
    assert_eq!(scale.to_composite(v), c);
    assert_eq!(scale.fmt_composite(&c), "2026 year 2 mon 3 d 13 h 0 m 47 s 927 ms");
    assert_eq!(scale.to_composite(0), composite(vec![1970, 1, 1, 0, 0, 0, 0]));
}

#[test]
fn calendar_rejects_bad_fields() {
    let scale = calendar();
    assert_eq!(scale.from_composite(&composite(vec![2023, 13, 1, 0, 0, 0, 0])), Err(ScaleError::OutOfBounds));
    assert_eq!(scale.from_composite(&composite(vec![1969, 12, 31, 0, 0, 0, 0])), Err(ScaleError::OutOfBounds));
    assert_eq!(scale.from_composite(&composite(vec![2023, 4, 31, 0, 0, 0, 0])), Err(ScaleError::OutOfBounds));
    assert_eq!(scale.from_composite(&composite(vec![2023, 4, 30, 24, 0, 0, 0])), Err(ScaleError::OutOfBounds));
    assert_eq!(scale.from_composite(&composite(vec![2023, 4, 30])), Err(ScaleError::OutOfBounds));
    assert_eq!(scale.from_composite(&composite(vec![u64::MAX, 1, 1, 0, 0, 0, 0])), Err(ScaleError::Overflow));
}

#[test]
fn calendar_ticks_over_a_year() {
    let scale = calendar();
    let ticks = scale.ticks(1_770_123_647_927, 1_801_659_647_927, 10);
    let values: Vec<u64> = ticks.labels.iter().map(|p| p.1).collect();
    assert!(!values.is_empty());
    for w in values.windows(2) {
        assert!(w[0] < w[1]);
    }
    for v in &values {
        assert!(1_770_123_647_927 <= *v && *v <= 1_801_659_647_927);
    }
    let first = scale.to_composite(values[0]);
    assert_eq!(first, composite(vec![2026, 4, 1, 0, 0, 0, 0]));
    assert_eq!(values.len(), 6);
}

#[test]
fn ticks_ignore_multipliers_of_other_units() {
    let scale = ScaleBuilder::new("mixed")
        .unit(|u| u.name("ms").tick_base(vec![1]))
        .unit(|u| u.name("s").relative_to_last(1000))
        .build();
    let ticks = scale.ticks(0, 10000, 2);
    let values: Vec<u64> = ticks.labels.iter().map(|p| p.1).collect();
    assert_eq!(values, vec![0, 10000]);
    assert_eq!(ticks.labels[1].0, "10 s");
}

#[test]
fn ticks_with_multipliers_that_cannot_grow() {
    for tick_base in [vec![1u64], vec![], vec![0]] {
        let scale = ScaleBuilder::new("flat")
            .unit(|u| u.name("a").tick_base(tick_base))
            .unit(|u| u.name("b").relative_to_last(10))
            .build();
        let values: Vec<u64> = scale.ticks(0, 20, 10).labels.iter().map(|p| p.1).collect();
        assert_eq!(values, (0..=20).collect::<Vec<u64>>());
    }
    let scale = ScaleBuilder::new("flat")
        .unit(|u| u.name("a").tick_base(vec![1, 3]))
        .unit(|u| u.name("b").relative_to_last(10))
        .build();
    let values: Vec<u64> = scale.ticks(0, 20, 10).labels.iter().map(|p| p.1).collect();
    assert_eq!(values, vec![0, 3, 6, 9, 10, 13, 16, 19, 20]);
}
