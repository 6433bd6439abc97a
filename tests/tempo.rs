use mixxx_mix::tempo::{SteppedTempoFilter, TempoSpan};

#[test]
fn test_pts_filter() {
    let filter = SteppedTempoFilter::new((0, 1_000_000_000), (20_000_000, 1_800_000_000), 4);
    let filters = filter.to_filters("input", "output");
    assert_eq!(filters.len(), 10);
    assert_eq!(filters[0], "[input]asplit=4 [stf_1][stf_4][stf_7][stf_10]");
    assert_eq!(
        filters[1],
        "[stf_1] atrim=0.000000:5.000000,asetpts=N/SR/TB [stf_2]"
    );
    assert_eq!(filters[2], "[stf_2] atempo=1.000000000 [stf_3]");
    assert_eq!(
        filters[3],
        "[stf_4] atrim=5.000000:10.000000,asetpts=N/SR/TB [stf_5]"
    );
    assert_eq!(filters[4], "[stf_5] atempo=1.200000000 [stf_6]");
    assert_eq!(filters[8], "[stf_11] atempo=1.600000000 [stf_12]");
    assert_eq!(
        filters[9],
        "[stf_3][stf_6][stf_9][stf_12] concat=n=4:v=0:a=1 [output]"
    );
}

#[test]
fn four_step_ramp_partitions_range() {
    let filter = SteppedTempoFilter::new((0, 1_000_000_000), (20_000_000, 1_800_000_000), 4);
    let want = [
        (0, 5_000_000, 1_000_000_000),
        (5_000_000, 10_000_000, 1_200_000_000),
        (10_000_000, 15_000_000, 1_400_000_000),
        (15_000_000, 20_000_000, 1_600_000_000),
    ];
    assert_eq!(filter.spans.len(), 4);
    for (span, (b, e, s)) in filter.spans.iter().zip(want.iter()) {
        assert_eq!(*span, TempoSpan { begin: *b, end: *e, scale: *s });
    }
}

#[test]
fn single_step_ramp_is_one_span_at_start_rate() {
    let filter = SteppedTempoFilter::new((1_500_000, 950_000_000), (9_000_000, 1_300_000_000), 1);
    assert_eq!(
        filter.spans,
        vec![TempoSpan { begin: 1_500_000, end: 9_000_000, scale: 950_000_000 }]
    );
}

#[test]
fn falling_ramp_rounds_rates_towards_start() {
    let filter = SteppedTempoFilter::new((0, 1_000_000_000), (3, 999_999_999), 3);
    assert_eq!(filter.spans[0], TempoSpan { begin: 0, end: 1, scale: 1_000_000_000 });
    assert_eq!(filter.spans[1], TempoSpan { begin: 1, end: 2, scale: 1_000_000_000 });
    assert_eq!(filter.spans[2], TempoSpan { begin: 2, end: 3, scale: 1_000_000_000 });
    // No span reaches the end rate.
    let filter = SteppedTempoFilter::new((0, 1_800_000_000), (20_000_000, 1_000_000_000), 4);
    let scales: Vec<u64> = filter.spans.iter().map(|s| s.scale).collect();
    assert_eq!(scales, vec![1_800_000_000, 1_600_000_000, 1_400_000_000, 1_200_000_000]);
    let filter = SteppedTempoFilter::new((0, 1_000_000_000), (7, 999_999_990), 3);
    let scales: Vec<u64> = filter.spans.iter().map(|s| s.scale).collect();
    assert_eq!(scales, vec![1_000_000_000, 999_999_997, 999_999_994]);
}
