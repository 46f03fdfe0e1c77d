use learn_midi::event::{Event, Moment};
use learn_midi::timers::{FixedTempo, Ticker, Timing};

#[test]
fn sleep_duration_formula() {
    // floor(tempo * n / ticks_per_beat): 500000 * 3 / 480 = 3125.
    let t = Ticker::with_initial_tempo(480, 500_000);
    assert_eq!(t.sleep_duration_without_readjustment(3), 3125);
    assert_eq!(t.sleep_duration_without_readjustment(1), 1041);
    assert_eq!(t.sleep_duration_without_readjustment(0), 0);
    // 1_000_000 / 96 = 10416.66..., floored.
    let u = Ticker::with_initial_tempo(96, 1_000_000);
    assert_eq!(u.sleep_duration_without_readjustment(1), 10416);
    assert_eq!(u.sleep_duration_without_readjustment(96), 1_000_000);
}

#[test]
fn sleep_duration_zero_before_tempo() {
    // No tempo event seen yet: the system must not stall.
    let t = Ticker::new(480);
    assert_eq!(t.sleep_duration_without_readjustment(1000), 0);
}

#[test]
fn speed_modifier_scales_sleep() {
    let mut t = Ticker::with_initial_tempo(480, 500_000);
    t.speed_percent = 50;
    assert_eq!(t.sleep_duration_without_readjustment(3), 6250);
    t.speed_percent = 200;
    assert_eq!(t.sleep_duration_without_readjustment(3), 1562);
}

#[test]
fn change_tempo_changes_micros_per_tick() {
    let mut t = Ticker::new(480);
    t.change_tempo(480_000);
    assert_eq!(t.sleep_duration_without_readjustment(1), 1000);
    t.change_tempo(960_000);
    assert_eq!(t.sleep_duration_without_readjustment(1), 2000);
}

#[test]
fn drift_compensation() {
    let mut t = Ticker::with_initial_tempo(480, 500_000);
    // First call records the baseline and sleeps the full duration.
    let first = t.sleep_duration(2, 1_000_000);
    assert_eq!(first, 2083);
    // Second call: target was 1_000_000 + 2083; 1000 us already elapsed,
    // so only the remainder is slept.
    let second = t.sleep_duration(2, 1_001_000);
    assert_eq!(second, 1083);
    // Oversleeping clamps to zero instead of going negative.
    let third = t.sleep_duration(1, 9_000_000);
    assert_eq!(third, 0);
}

#[test]
fn adjustment_subtracts_processing_time() {
    let mut t = Ticker::with_initial_tempo(480, 500_000);
    // Fresh baseline: full 3125 less 1000 of measured processing time.
    let d = t.sleep_duration_with_adjustment(3, 1000, 500);
    assert_eq!(d, 2125);
    // Processing time longer than the sleep clamps to zero.
    let mut u = Ticker::with_initial_tempo(480, 500_000);
    let e = u.sleep_duration_with_adjustment(1, 10_000, 500);
    assert_eq!(e, 0);
}

#[test]
fn reset_baseline_forgets_last_wake() {
    let mut t = Ticker::with_initial_tempo(480, 500_000);
    let _ = t.sleep_duration(2, 1_000_000);
    t.reset_baseline();
    // Treated as a first call again: the full duration.
    let after = t.sleep_duration(2, 5_000_000);
    assert_eq!(after, 2083);
}

fn moment_of(events: Vec<Event>) -> Moment {
    Moment { events }
}

#[test]
fn duration_applies_tempo_events() {
    // Three moments; the first carries a tempo change that takes effect
    // from the second moment on. The first tick is still free (no tempo
    // yet), the remaining two cost 500000/480 = 1041 each.
    let mut t = Ticker::new(480);
    let moments = vec![
        moment_of(vec![Event::Tempo(500_000)]),
        moment_of(vec![]),
        moment_of(vec![]),
    ];
    assert_eq!(t.duration(&moments), 2082);
    // The tempo mutation stays in the timer, by design.
    assert_eq!(t.sleep_duration_without_readjustment(1), 1041);
}

#[test]
fn duration_of_empty_slice_is_zero() {
    let mut t = Ticker::with_initial_tempo(480, 500_000);
    let moments: Vec<Moment> = vec![];
    assert_eq!(t.duration(&moments), 0);
}

#[test]
fn ticker_try_from_timing() {
    let ok = Ticker::try_from(Timing::Metrical(384));
    assert!(ok.is_ok());
    assert_eq!(ok.unwrap().ticks_per_beat, 384);
    let err = Ticker::try_from(Timing::Timecode { fps_hundredths: 2500, subframe: 4 });
    assert!(err.is_err());
}

#[test]
fn fixed_tempo_try_from_timing() {
    // 25 fps, 40 subframes: 100_000_000 / (2500 * 40) = 1000 us per tick.
    let ok = FixedTempo::try_from(Timing::Timecode { fps_hundredths: 2500, subframe: 40 });
    assert_eq!(ok.unwrap().0, 1000);
    // 29.97 fps, 4 subframes: floor(100_000_000 / 11988) = 8341.
    let drop = FixedTempo::try_from(Timing::Timecode { fps_hundredths: 2997, subframe: 4 });
    assert_eq!(drop.unwrap().0, 8341);
    let err = FixedTempo::try_from(Timing::Metrical(480));
    assert!(err.is_err());
}

#[test]
fn fixed_tempo_duration_is_ticks_times_length() {
    let f = FixedTempo(1000);
    let moments = vec![Moment { events: Vec::new() }; 5];
    assert_eq!(f.duration(&moments), 5000);
    let none: Vec<Moment> = Vec::new();
    assert_eq!(f.duration(&none), 0);
    // The product saturates instead of overflowing.
    let g = FixedTempo(u64::MAX);
    assert_eq!(g.duration(&moments), u64::MAX);
}

#[test]
fn fixed_tempo_sleep_and_tempo_changes() {
    let mut f = FixedTempo(1000);
    assert_eq!(f.sleep_duration(3), 3000);
    f.change_tempo(123_456);
    assert_eq!(f.sleep_duration(3), 3000);
    // The product saturates instead of overflowing.
    let g = FixedTempo(u64::MAX);
    assert_eq!(g.sleep_duration(2), u64::MAX);
}
