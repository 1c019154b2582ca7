//! The per-sample and per-block paths, the peak tracker, and the handoff.

use mathshaper::engine::{normalize_and_publish, rebuild_and_publish, start_engine};
use mathshaper::handoff::table_handoff;
use mathshaper::peak::{next_max, next_min, PeakTracker};
use mathshaper::shaper::Shaper;
use mathshaper::{EvalError, ShaperError, PEAK_LIMIT, SCALE};

#[test]
fn identity_round_trip_is_exact() {
    // 33 entries: the spacing 1/16 divides the width exactly.
    let mut s = Shaper::identity(33);
    s.prompt("x").unwrap();
    for x in [
        -SCALE,
        -999_999,
        -123_457,
        -1,
        0,
        1,
        62_500,
        123_456,
        500_000,
        999_999,
        SCALE,
    ] {
        assert_eq!(s.process(x), x);
    }
}

#[test]
fn identity_round_trip_floors_at_the_default_size() {
    // 512 entries: the spacing does not divide the width, so the round
    // trip floors, by less than three millionths.
    let mut s = Shaper::default();
    s.prompt("x").unwrap();
    for x in [-SCALE, -765_432, -1, 0, 1, 2, 123_456, 999_999, SCALE] {
        let y = s.process(x);
        assert!(x - 3 <= y && y <= x);
    }
}

#[test]
fn boundary_lookup_is_exact() {
    let mut s = Shaper::identity(17);
    s.prompt("Cheb(x, 3)").unwrap();
    assert_eq!(s.process(-SCALE), s.entry(0));
    assert_eq!(s.process(SCALE), s.entry(16));
}

#[test]
fn out_of_range_inputs_snap_to_the_edges() {
    let mut s = Shaper::identity(17);
    s.prompt("x * x").unwrap();
    assert_eq!(s.process(2 * SCALE), s.process(SCALE));
    assert_eq!(s.process(-5 * SCALE), s.process(-SCALE));
    assert_eq!(s.process(i64::MAX), s.process(SCALE));
}

#[test]
fn interpolation_is_linear_between_grid_points() {
    // Identity table: halfway between grid points comes back exactly.
    let s = Shaper::identity(5);
    assert_eq!(s.process(250_000), 250_000);
    assert_eq!(s.process(-750_000), -750_000);
}

#[test]
fn cubic_curve_end_to_end() {
    let mut s = Shaper::identity(33);
    s.prompt("4 * x^3 - 3*x").unwrap();
    assert_eq!(s.process(0), 0);
    assert_eq!(s.process(SCALE), SCALE);
    assert_eq!(s.process(-SCALE), -SCALE);
}

#[test]
fn cubic_curve_at_a_coarse_size() {
    // 32 entries: the spacing does not divide the width, so interior
    // lookups carry the grid's rounding; the boundaries stay exact.
    let mut s = Shaper::identity(32);
    s.prompt("4 * x^3 - 3*x").unwrap();
    assert_eq!(s.process(SCALE), SCALE);
    assert_eq!(s.process(-SCALE), -SCALE);
    assert!(s.process(0).abs() <= 2);
}

#[test]
fn block_processing_applies_gains_and_reports_extrema() {
    let s = Shaper::identity(33);
    let mut samples: Vec<i64> = vec![0, 500_000, -SCALE];
    // Pre-gain 2.0, post-gain 1.0.
    let (bmax, bmin) = s.process_block(&mut samples, 2 * SCALE, SCALE);
    // Pre-gained values are 0, 1.0, -2.0; the lookup clamps to [-1, 1].
    assert_eq!(samples, vec![0, SCALE, -SCALE]);
    assert_eq!(bmax, SCALE);
    assert_eq!(bmin, -2 * SCALE);
}

#[test]
fn post_gain_scales_the_shaped_output() {
    let s = Shaper::identity(33);
    let mut samples: Vec<i64> = vec![500_000];
    let (_, _) = s.process_block(&mut samples, SCALE, SCALE / 2);
    assert_eq!(samples, vec![250_000]);
}

#[test]
fn empty_block_reports_idle_extrema() {
    let s = Shaper::identity(33);
    let mut samples: Vec<i64> = vec![];
    let (bmax, bmin) = s.process_block(&mut samples, SCALE, SCALE);
    assert_eq!(bmax, -PEAK_LIMIT);
    assert_eq!(bmin, PEAK_LIMIT);
}

#[test]
fn peak_decays_by_the_rate() {
    // 0.8 decayed at rate 0.1 is exactly 0.72.
    assert_eq!(next_max(800_000, 200_000, 100_000), 720_000);
    // A louder block replaces the peak outright.
    assert_eq!(next_max(800_000, 950_000, 100_000), 950_000);
    // The minimum side mirrors it.
    assert_eq!(next_min(-800_000, -200_000, 100_000), -720_000);
    assert_eq!(next_min(-800_000, -950_000, 100_000), -950_000);
}

#[test]
fn peak_rate_is_clamped() {
    // Rates above 1.0 silence the peak at once; below 0.0 they hold it.
    assert_eq!(next_max(800_000, 0, 2 * SCALE), 0);
    assert_eq!(next_max(800_000, 0, -SCALE), 800_000);
}

#[test]
fn peak_tracker_follows_blocks() {
    let mut t = PeakTracker::new();
    assert_eq!(t.read(), (0, 0));
    t.update(800_000, -600_000, 100_000);
    assert_eq!(t.read(), (800_000, -600_000));
    t.update(200_000, -100_000, 100_000);
    assert_eq!(t.read(), (720_000, -540_000));
    t.update(950_000, -990_000, 100_000);
    assert_eq!(t.read(), (950_000, -990_000));
}

#[test]
fn handoff_reader_sees_the_latest_published_table() {
    let initial = Shaper::identity(5);
    let (mut publisher, mut reader) = table_handoff(&initial);
    // Before any publish the reader sees the initial table.
    let seen = reader.latest();
    assert_eq!(seen.entry(0), -SCALE);
    assert_eq!(seen.entry(4), SCALE);

    let mut half = Shaper::identity(5);
    half.prompt("0.5").unwrap();
    publisher.publish(half);
    let seen = reader.latest();
    assert_eq!(seen.entry(0), 500_000);
    assert_eq!(seen.entry(4), 500_000);
}

#[test]
fn handoff_keeps_only_the_newest_publish() {
    let initial = Shaper::identity(5);
    let (mut publisher, mut reader) = table_handoff(&initial);

    let mut a = Shaper::identity(5);
    a.prompt("0.25").unwrap();
    let mut b = Shaper::identity(5);
    b.prompt("0.75").unwrap();
    publisher.publish(a);
    publisher.publish(b);
    // Two publishes before one read: only the newest is seen.
    let seen = reader.latest();
    assert_eq!(seen.entry(2), 750_000);
    // A read without a new publish keeps the same table.
    let seen = reader.latest();
    assert_eq!(seen.entry(2), 750_000);
}

#[test]
fn engine_shapes_blocks_and_tracks_peaks() {
    let initial = Shaper::identity(33);
    let (mut publisher, mut engine) = start_engine(&initial);
    assert_eq!(engine.peaks(), (0, 0));

    let mut block: Vec<i64> = vec![800_000, -600_000];
    // Unit gains, decay rate 0.1.
    let (bmax, bmin) = engine.process_block(&mut block, SCALE, SCALE, 100_000);
    assert_eq!(block, vec![800_000, -600_000]);
    assert_eq!((bmax, bmin), (800_000, -600_000));
    assert_eq!(engine.peaks(), (800_000, -600_000));

    // A quieter block: the peaks decay by the rate.
    let mut block: Vec<i64> = vec![200_000, -100_000];
    let _ = engine.process_block(&mut block, SCALE, SCALE, 100_000);
    assert_eq!(engine.peaks(), (720_000, -540_000));

    // A rebuild on the control side reaches the audio side.
    let mut current = Shaper::identity(33);
    rebuild_and_publish(&mut current, &mut publisher, "0.5").unwrap();
    let mut block: Vec<i64> = vec![-SCALE];
    let _ = engine.process_block(&mut block, SCALE, SCALE, 100_000);
    assert_eq!(block, vec![500_000]);
}

#[test]
fn failed_rebuild_publishes_nothing() {
    let initial = Shaper::identity(9);
    let (mut publisher, mut engine) = start_engine(&initial);
    let mut current = Shaper::identity(9);
    rebuild_and_publish(&mut current, &mut publisher, "0.25").unwrap();
    let err = rebuild_and_publish(&mut current, &mut publisher, "Cheb(x, -3)").unwrap_err();
    assert_eq!(err, ShaperError::Eval(EvalError::Domain));
    // The audio side still sees the last good table.
    let mut block: Vec<i64> = vec![0];
    let _ = engine.process_block(&mut block, SCALE, SCALE, 0);
    assert_eq!(block, vec![250_000]);
}

#[test]
fn normalize_request_publishes_the_scaled_table() {
    let initial = Shaper::identity(5);
    let (mut publisher, mut engine) = start_engine(&initial);
    let mut current = Shaper::identity(5);
    rebuild_and_publish(&mut current, &mut publisher, "x / 2").unwrap();
    normalize_and_publish(&mut current, &mut publisher);
    let mut block: Vec<i64> = vec![SCALE];
    let _ = engine.process_block(&mut block, SCALE, SCALE, 0);
    assert_eq!(block, vec![SCALE]);
}

#[test]
fn handoff_tables_are_never_mixtures() {
    // Each published table is constant, so any mixture of two tables
    // would show two different entries after a read.
    let initial = Shaper::identity(9);
    let (mut publisher, mut reader) = table_handoff(&initial);
    let prompts = ["0.1", "0.2", "0.3", "0.4", "0.5"];
    for p in prompts {
        let mut s = Shaper::identity(9);
        s.prompt(p).unwrap();
        publisher.publish(s);
        let seen = reader.latest();
        let first = seen.entry(0);
        for i in 1..seen.len() {
            assert_eq!(seen.entry(i), first);
        }
    }
}
