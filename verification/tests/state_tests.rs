use fractal_clock::geom::{Fp2, RectPx};
use fractal_clock::render::{HandUnits, RenderOptions};
use fractal_clock::state::{
    hand_angle, H24Clock, HOUR_HAND_PERIOD_MS, MINUTE_HAND_PERIOD_MS, SECOND_HAND_PERIOD_MS,
};

#[test]
fn paint_records_the_primitive_count() {
    let mut c = H24Clock::default();
    c.depth = 2;
    c.luminance_factor = 1_000_000;
    let u = Fp2 { x: 1_000_000, y: 0 };
    let hands = HandUnits {
        second: u,
        minute: u,
        hour: u,
    };
    let vp = RectPx {
        min_x: 0,
        min_y: 0,
        max_x: 100_000_000,
        max_y: 100_000_000,
    };
    let prims = c.paint(
        &hands,
        &vp,
        &Vec::new(),
        &Vec::new(),
        RenderOptions {
            ring_decoration: false,
            colored_pointer_overlay: false,
        },
    );
    assert_eq!(prims.len(), 15);
    assert_eq!(c.line_count, 15);
}

#[test]
fn default_values() {
    let c = H24Clock::default();
    assert_eq!(c.zoom, 250_000);
    assert_eq!(c.start_line_width, 2_500_000);
    assert_eq!(c.depth, 9);
    assert_eq!(c.length_factor, 800_000);
    assert_eq!(c.luminance_factor, 800_000);
    assert_eq!(c.width_factor, 900_000);
    assert!(!c.paused);
    assert_eq!(c.time_ms, 0);
    assert_eq!(c.line_count, 0);
    assert_eq!(c.radius, 2_000_000);
    assert_eq!(c.border_width, 40_000);
    assert_eq!(c.ruling_distance, 1_880_000);
    assert_eq!(c.txt_distance, 1_780_000);
}

#[test]
fn reset_restores_defaults_and_keeps_time_and_pause() {
    let mut c = H24Clock::default();
    c.paused = true;
    c.time_ms = 123_456;
    c.zoom = 999_999;
    c.start_line_width = 1;
    c.depth = 14;
    c.length_factor = 1;
    c.luminance_factor = 2;
    c.width_factor = 3;
    c.reset();
    assert_eq!(c.zoom, 250_000);
    assert_eq!(c.start_line_width, 2_500_000);
    assert_eq!(c.depth, 9);
    assert_eq!(c.length_factor, 800_000);
    assert_eq!(c.luminance_factor, 800_000);
    assert_eq!(c.width_factor, 900_000);
    assert!(c.paused, "reset must not clear the pause flag");
    assert_eq!(c.time_ms, 123_456, "reset must not touch the time");
}

#[test]
fn pause_freezes_time_across_repeated_updates() {
    let mut c = H24Clock::default();
    c.time_ms = 1_000;
    c.paused = true;
    c.update(Some(5_000), 9_000);
    assert_eq!(c.time_ms, 1_000);
    c.update(Some(6_000), 9_000);
    assert_eq!(c.time_ms, 1_000);
    c.update(None, 9_000);
    assert_eq!(c.time_ms, 1_000);
    c.paused = false;
    c.update(Some(5_000), 9_000);
    assert_eq!(c.time_ms, 5_000);
}

#[test]
fn update_falls_back_when_no_time_source() {
    let mut c = H24Clock::default();
    c.update(None, 77);
    assert_eq!(c.time_ms, 77);
}

#[test]
fn hand_angle_at_time_zero_is_the_phase_offset() {
    assert_eq!(hand_angle(0, SECOND_HAND_PERIOD_MS), 250_000);
    assert_eq!(hand_angle(0, MINUTE_HAND_PERIOD_MS), 250_000);
    assert_eq!(hand_angle(0, HOUR_HAND_PERIOD_MS), 250_000);
}

#[test]
fn hand_angle_is_periodic() {
    let t: u64 = 12_345;
    for p in [
        SECOND_HAND_PERIOD_MS,
        MINUTE_HAND_PERIOD_MS,
        HOUR_HAND_PERIOD_MS,
    ] {
        assert_eq!(hand_angle(t, p), hand_angle(t + p, p));
        assert_eq!(hand_angle(t, p), hand_angle(t + 3 * p, p));
    }
}

#[test]
fn hand_angle_quarter_period() {
    // a quarter of the revolution plus the quarter-turn phase offset
    assert_eq!(hand_angle(30_000, SECOND_HAND_PERIOD_MS), 500_000);
    assert_eq!(hand_angle(60_000, SECOND_HAND_PERIOD_MS), 750_000);
}

#[test]
fn time_components() {
    let mut c = H24Clock::default();
    c.time_ms = 3_723_456;
    let (h, m, s, ms) = c.time_hms();
    assert_eq!(h, 1);
    assert_eq!(m, 2);
    assert_eq!(s, 3);
    assert_eq!(ms, 456);
}

#[test]
fn time_components_wrap_past_one_day() {
    let mut c = H24Clock::default();
    // twenty-five hours: the display wraps to one o'clock
    c.time_ms = 90_000_000;
    let (h, _, _, _) = c.time_hms();
    assert_eq!(h, 1);
}

#[test]
fn hand_angles_at_noon() {
    let mut c = H24Clock::default();
    c.time_ms = 43_200_000;
    let (a_s, a_m, a_h) = c.hand_angles();
    assert_eq!(a_s, 250_000);
    assert_eq!(a_m, 250_000);
    // half a day: half a turn past the phase offset
    assert_eq!(a_h, 750_000);
}
