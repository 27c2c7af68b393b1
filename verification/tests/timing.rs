use rheo::timing::{human_bytes, human_duration, phase, BuildTiming, Duration};

#[test]
fn record_sums_a_repeated_phase_and_keeps_first_seen_order() {
    let mut t = BuildTiming::default();
    t.record(phase::SPINE_SCAN, Duration::from_millis(10));
    t.record(phase::TYPST_COMPILE, Duration::from_millis(100));
    // The same phase again, as a second format plugin would produce.
    t.record(phase::SPINE_SCAN, Duration::from_millis(5));

    assert_eq!(
        t.phases(),
        vec![
            (phase::SPINE_SCAN.to_string(), Duration::from_millis(15)),
            (phase::TYPST_COMPILE.to_string(), Duration::from_millis(100)),
        ]
    );
    assert_eq!(t.total(), Duration::from_millis(115));
}

#[test]
fn slowest_ranks_by_duration_not_insertion() {
    let mut t = BuildTiming::default();
    t.record(phase::PACKAGES, Duration::from_millis(1));
    t.record(phase::TYPST_COMPILE, Duration::from_millis(900));
    t.record(phase::PLUGIN_WRITE, Duration::from_millis(50));
    t.record(phase::EXPORT, Duration::from_millis(10));

    let names: Vec<String> = t.slowest(3).into_iter().map(|(n, _)| n).collect();
    assert_eq!(
        names,
        vec![phase::TYPST_COMPILE, phase::PLUGIN_WRITE, phase::EXPORT]
    );
}

/// The figures that identify a pathological project have to be IN the line.
#[test]
fn summary_names_pages_bytes_total_and_the_worst_phases() {
    let mut t = BuildTiming::default();
    t.record(phase::TYPST_COMPILE, Duration::from_millis(26_900));
    t.record(phase::PLUGIN_WRITE, Duration::from_millis(1_900));
    t.record(phase::EXPORT, Duration::from_millis(400));
    t.record_outputs(360, 0, 43_100_000);

    let s = t.summary();
    assert!(s.contains("360 page(s)"), "{s}");
    assert!(s.contains("43.1 MB"), "{s}");
    assert!(s.contains("29.2s"), "{s}");
    assert!(s.contains("typst-compile 26.9s"), "{s}");
    assert!(!s.contains("asset"), "no assets, so no asset clause: {s}");
}

#[test]
fn summary_mentions_assets_only_when_there_are_some() {
    let mut t = BuildTiming::default();
    t.record(phase::EXPORT, Duration::from_millis(5));
    t.record_outputs(2, 3, 1_500);
    assert!(t.summary().contains("+3 asset(s)"), "{}", t.summary());
}

#[test]
fn units_switch_at_a_second_and_at_a_kilobyte() {
    assert_eq!(human_duration(Duration::from_millis(999)), "999ms");
    assert_eq!(human_duration(Duration::from_millis(1_000)), "1.0s");
    assert_eq!(human_bytes(999), "999 B");
    assert_eq!(human_bytes(1_000), "1.0 kB");
    assert_eq!(human_bytes(43_100_000), "43.1 MB");
}

// ─── Further cases ──────────────────────────────────────────────────────────

#[test]
fn whole_summary_line_is_exact() {
    let mut t = BuildTiming::new();
    t.record(phase::TYPST_COMPILE, Duration::from_millis(2_400));
    t.record(phase::PLUGIN_WRITE, Duration::from_millis(322));
    t.record(phase::FONTS, Duration::from_millis(28));
    t.record(phase::EXPORT, Duration::from_millis(3));
    t.record_outputs(364, 1, 3_300_000);
    assert_eq!(
        t.summary(),
        "364 page(s), 3.3 MB in 2.8s (+1 asset(s)) — typst-compile 2.4s, plugin-write 322ms, fonts 28ms"
    );
    assert_eq!(t.outputs(), 364);
    assert_eq!(t.bytes(), 3_300_000);
}

#[test]
fn an_empty_build_has_no_phase_list() {
    let t = BuildTiming::new();
    assert_eq!(t.summary(), "0 page(s), 0 B in 0ms");
    assert!(t.slowest(3).is_empty());
}

#[test]
fn record_outputs_accumulates_across_plugins() {
    let mut t = BuildTiming::new();
    t.record_outputs(2, 1, 100);
    t.record_outputs(3, 0, 50);
    assert_eq!(t.outputs(), 5);
    assert_eq!(t.bytes(), 150);
}

#[test]
fn rounding_of_tenths_and_units() {
    assert_eq!(human_duration(Duration::from_millis(1_250)), "1.2s");
    assert_eq!(human_duration(Duration::from_millis(1_350)), "1.4s");
    assert_eq!(human_duration(Duration::from_micros(999_999)), "999ms");
    assert_eq!(human_bytes(999_999), "1000.0 kB");
    assert_eq!(human_bytes(1_000_000), "1.0 MB");
    assert_eq!(human_bytes(112_345), "112.3 kB");
}

#[test]
fn duration_arithmetic() {
    let d = Duration::from_millis(1_500).add(Duration::from_micros(500));
    assert_eq!(d.as_millis(), 1_500);
    assert_eq!(d.as_secs(), 1);
    assert_eq!(d.as_nanos(), 1_500_500_000);
    assert!(d.ge(&Duration::from_nanos(1_500_500_000)));
    assert!(!Duration::zero().ge(&Duration::from_nanos(1)));
}

#[test]
fn a_tie_between_tenths_goes_the_way_the_binary_value_lies() {
    assert_eq!(human_duration(Duration::from_millis(1_050)), "1.1s");
    assert_eq!(human_duration(Duration::from_millis(1_150)), "1.1s");
    assert_eq!(human_duration(Duration::from_millis(1_450)), "1.4s");
    assert_eq!(human_duration(Duration::from_millis(2_050)), "2.0s");
    assert_eq!(human_duration(Duration::from_millis(10_050)), "10.1s");
    assert_eq!(human_bytes(1_050), "1.1 kB");
    assert_eq!(human_bytes(1_150), "1.1 kB");
    assert_eq!(human_bytes(1_250), "1.2 kB");
    assert_eq!(human_bytes(1_350), "1.4 kB");
    assert_eq!(human_bytes(1_050_000), "1.1 MB");
    assert_eq!(human_bytes(2_250_000), "2.2 MB");
    assert_eq!(human_bytes(usize::MAX), "18446744073709.6 MB");
}
