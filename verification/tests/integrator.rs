use relativistic_iphone::integrator::Integrator;
use relativistic_iphone::integrator::Reading;
use relativistic_iphone::integrator::UNBOUNDED_FACTOR;
use relativistic_iphone::integrator::UNIT_FACTOR;

// The factor of a speed under the limit `c`, as the render loop computes it.
fn factor(speed: f32, c: f32) -> f32 {
    1.0 / (1.0 - (speed / c).powf(2.0)).sqrt()
}

// The display level of a speed.
fn level(speed: f32) -> u8 {
    (speed * 10.0) as u8
}

fn reading(speed: f32, c: f32) -> Reading {
    Reading { level: level(speed), factor: factor(speed, c).to_bits() }
}

#[test]
fn keys_of_the_two_marked_factors() {
    assert_eq!(UNIT_FACTOR, 1.0f32.to_bits());
    assert_eq!(UNBOUNDED_FACTOR, f32::INFINITY.to_bits());
}

#[test]
fn keys_order_as_the_factors_do() {
    let factors = [1.0f32, 1.0000001, 1.25, 1.6666666, 2.0, 7.0888, 1.0e10, f32::MAX];
    for pair in factors.windows(2) {
        assert!(pair[0] < pair[1]);
        assert!(pair[0].to_bits() < pair[1].to_bits());
        assert!(pair[1].to_bits() < UNBOUNDED_FACTOR);
    }
    assert!(f32::NAN.to_bits() > UNBOUNDED_FACTOR);
    assert!((-f32::NAN).to_bits() > UNBOUNDED_FACTOR);
    assert!(factor(150.0, 100.0).is_nan());
    assert!(factor(150.0, 100.0).to_bits() > UNBOUNDED_FACTOR);
    assert_eq!(factor(100.0, 100.0).to_bits(), UNBOUNDED_FACTOR);
}

#[test]
fn integrator_starts_at_rest() {
    let state = Integrator::new();
    assert_eq!(state.peak(), UNIT_FACTOR);
    assert_eq!(state.factor(), UNIT_FACTOR);
    assert_eq!(state.history().len(), 0);
    assert_eq!(f32::from_bits(state.peak()), 1.0);
}

#[test]
fn tick_with_a_sample_takes_its_level_and_factor() {
    let mut state = Integrator::new();
    state.tick(Some(Reading { level: 50, factor: 1.5f32.to_bits() }));
    assert_eq!(state.history().levels(), &[50]);
    assert_eq!(state.factor(), 1.5f32.to_bits());
    assert_eq!(state.peak(), 1.5f32.to_bits());
}

#[test]
fn tick_without_a_sample_appends_zero_and_keeps_the_factor() {
    let mut state = Integrator::new();
    state.tick(Some(Reading { level: 50, factor: 1.5f32.to_bits() }));
    state.tick(None);
    state.tick(None);
    assert_eq!(state.history().levels(), &[50, 0, 0]);
    assert_eq!(state.factor(), 1.5f32.to_bits());
    assert_eq!(state.peak(), 1.5f32.to_bits());
}

#[test]
fn two_samples_under_the_limit() {
    let c = 100.0f32;
    let mut state = Integrator::new();

    state.tick(Some(reading(60.0, c)));
    let first = f32::from_bits(state.factor());
    assert!((first - 1.25).abs() < 1.0e-5);
    assert!((f32::from_bits(state.peak()) - 1.25).abs() < 1.0e-5);

    state.tick(Some(reading(80.0, c)));
    let second = f32::from_bits(state.factor());
    assert!((second - 1.0 / 0.6).abs() < 1.0e-5);
    assert_eq!(format!("{:.3}", second), "1.667");
    assert_eq!(format!("{:.3}", f32::from_bits(state.peak())), "1.667");
    assert_eq!(state.peak(), factor(80.0, c).to_bits());
    assert_eq!(state.history().levels(), &[255, 255]);
}

#[test]
fn peak_stays_when_the_factor_falls() {
    let c = 100.0f32;
    let mut state = Integrator::new();
    state.tick(Some(reading(80.0, c)));
    state.tick(Some(reading(60.0, c)));
    state.tick(Some(reading(0.0, c)));
    assert_eq!(state.factor(), UNIT_FACTOR);
    assert_eq!(state.peak(), factor(80.0, c).to_bits());
    assert_eq!(state.history().levels(), &[255, 255, 0]);
}

#[test]
fn peak_never_falls_over_a_mixed_run() {
    let c = 100.0f32;
    let speeds = [3.0f32, 99.0, 0.0, 150.0, 42.5, 99.9, 100.0, 1.0e30, 5.0, 99.99];
    let mut state = Integrator::new();
    let mut before = state.peak();
    for (tick, speed) in speeds.iter().enumerate() {
        state.tick(Some(reading(*speed, c)));
        assert!(state.peak() >= before);
        assert!(f32::from_bits(state.peak()) >= f32::from_bits(before));
        before = state.peak();
        state.tick(None);
        assert_eq!(state.peak(), before);
        assert_eq!(state.history().len(), 2 * tick + 2);
    }
    assert_eq!(state.peak(), UNBOUNDED_FACTOR);
}

#[test]
fn peak_ignores_an_undefined_factor() {
    let c = 100.0f32;
    let mut state = Integrator::new();
    state.tick(Some(reading(60.0, c)));
    let peak = state.peak();
    state.tick(Some(reading(150.0, c)));
    assert!(f32::from_bits(state.factor()).is_nan());
    assert_eq!(state.peak(), peak);
    state.tick(None);
    assert_eq!(state.peak(), peak);
    state.tick(Some(Reading { level: 1, factor: u32::MAX }));
    assert_eq!(state.peak(), peak);
    state.tick(Some(Reading { level: 1, factor: UNBOUNDED_FACTOR + 1 }));
    assert_eq!(state.peak(), peak);
    assert_eq!(state.history().levels(), &[255, 255, 0, 1, 1]);
}

#[test]
fn peak_reaches_the_unbounded_factor_at_the_limit() {
    let c = 100.0f32;
    let mut state = Integrator::new();
    state.tick(Some(reading(100.0, c)));
    assert_eq!(state.peak(), UNBOUNDED_FACTOR);
    assert!(f32::from_bits(state.peak()).is_infinite());
    state.tick(Some(reading(99.0, c)));
    assert_eq!(state.peak(), UNBOUNDED_FACTOR);
}

#[test]
fn peak_does_not_follow_a_key_under_one() {
    let mut state = Integrator::new();
    state.tick(Some(Reading { level: 0, factor: 0.5f32.to_bits() }));
    assert_eq!(state.peak(), UNIT_FACTOR);
    assert_eq!(state.factor(), 0.5f32.to_bits());
    state.tick(Some(Reading { level: 0, factor: 0 }));
    assert_eq!(state.peak(), UNIT_FACTOR);
}

#[test]
fn no_samples_leave_zeros_and_the_unit_peak() {
    let mut state = Integrator::new();
    for tick in 0..300usize {
        state.tick(None);
        assert_eq!(state.history().len(), tick + 1);
        assert_eq!(state.peak(), UNIT_FACTOR);
    }
    assert_eq!(state.history().levels(), &[0u8; 300][..]);
    assert_eq!(state.history().recent(), &[0u8; 200][..]);
    assert_eq!(f32::from_bits(state.peak()), 1.0);
    assert_eq!(state.factor(), UNIT_FACTOR);
}

#[test]
fn history_grows_by_one_per_tick_with_or_without_a_sample() {
    let mut state = Integrator::new();
    for tick in 0..64usize {
        let arrived = if tick % 2 == 0 {
            Some(Reading { level: tick as u8, factor: UNIT_FACTOR + tick as u32 })
        } else {
            None
        };
        state.tick(arrived);
        assert_eq!(state.history().len(), tick + 1);
    }
}

#[test]
fn factors_under_the_limit_have_keys_from_one_up() {
    let c = 100.0f32;
    let mut state = Integrator::new();
    let mut speed = 0.0f32;
    while speed < c {
        let value = factor(speed, c);
        assert!(value >= 1.0);
        assert!(value.recip() <= 1.0);
        let key = value.to_bits();
        assert!(UNIT_FACTOR <= key && key < UNBOUNDED_FACTOR);
        let before = state.peak();
        state.tick(Some(reading(speed, c)));
        assert_eq!(state.peak(), before.max(key));
        speed += 0.37;
    }
    assert_eq!(state.peak(), factor(speed - 0.37, c).to_bits());
}

#[test]
fn a_sample_of_speed_five() {
    let c = 100.0f32;
    let speed = (3.0f32 * 3.0 + 4.0 * 4.0 + 0.0 * 0.0).sqrt();
    assert_eq!(speed, 5.0);
    let mut state = Integrator::new();
    state.tick(Some(reading(speed, c)));
    assert_eq!(state.history().levels(), &[50]);
    assert_eq!(format!("{:.4}", f32::from_bits(state.peak())), "1.0013");
}

#[test]
fn reading_is_a_plain_value() {
    let one = Reading { level: 3, factor: UNIT_FACTOR };
    let other = one;
    assert_eq!(one, other);
    assert_ne!(one, Reading { level: 4, factor: UNIT_FACTOR });
}
