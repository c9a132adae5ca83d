use synth::{Envelope, Randomize, ONE};

fn assert_approx_eq(a: i64, b: i64) {
    let (x, y) = (a as f64 / ONE as f64, b as f64 / ONE as f64);
    assert!((x - y).abs() < 1e-6, "Expected {} to be approximately equal to {}", x, y);
}

fn secs(s: f64) -> i64 {
    (s * ONE as f64).round() as i64
}

#[test]
fn waves_test_envelope() {
    let e = Envelope(ONE, ONE, secs(0.5), ONE);

    assert_approx_eq(e.sample(secs(-100.0), 0, None), 0);
    assert_approx_eq(e.sample(secs(-0.1), 0, None), 0);
    assert_approx_eq(e.sample(0, 0, None), 0);
    assert_approx_eq(e.sample(secs(0.1), 0, None), secs(0.1));
    assert_approx_eq(e.sample(secs(1.0), 0, None), secs(1.0));
    assert_approx_eq(e.sample(secs(2.0), 0, None), secs(0.5));
    assert_approx_eq(e.sample(secs(100.0), 0, None), secs(0.5));
    assert_approx_eq(e.sample(secs(3.0), 0, Some(secs(2.0))), 0);
}

#[test]
fn attack_starts_at_zero() {
    let e = Envelope(300_000, 700_000, 400_000, 900_000);
    for t0 in [-5 * ONE, 0, 17, 3 * ONE] {
        assert_eq!(e.sample(t0, t0, None), 0);
    }
}

#[test]
fn held_note_reaches_sustain() {
    let e = Envelope(300_000, 700_000, 400_000, 900_000);
    let t0 = 2 * ONE;
    assert_eq!(e.sample(t0 + 300_000, t0, None), ONE);
    assert_eq!(e.sample(t0 + ONE, t0, None), 400_000);
    assert_eq!(e.sample(t0 + 50 * ONE, t0, None), 400_000);
}

#[test]
fn released_note_decays_to_zero() {
    let e = Envelope(300_000, 700_000, 400_000, 900_000);
    let t1 = 5 * ONE;
    assert_eq!(e.sample(t1, ONE, Some(t1)), 400_000);
    assert_eq!(e.sample(t1 + 450_000, ONE, Some(t1)), 200_000);
    assert_eq!(e.sample(t1 + 900_000, ONE, Some(t1)), 0);
    assert_eq!(e.sample(t1 + 9 * ONE, ONE, Some(t1)), 0);
}

#[test]
fn zero_length_ramps_jump_to_their_end() {
    let e = Envelope(0, 0, 500_000, 0);
    assert_eq!(e.sample(ONE - 1, ONE, None), 0);
    assert_eq!(e.sample(ONE, ONE, None), 500_000);
    assert_eq!(e.sample(ONE + 1, ONE, None), 500_000);
    assert_eq!(e.sample(ONE - 1, 0, Some(ONE)), 500_000);
    assert_eq!(e.sample(ONE, 0, Some(ONE)), 0);
    assert_eq!(e.sample(ONE + 1, 0, Some(ONE)), 0);
    let attack_only = Envelope(0, ONE, 500_000, ONE);
    assert_eq!(attack_only.sample(ONE, ONE, None), ONE);
}

#[test]
fn default_envelope_parameters() {
    let e = Envelope::new();
    assert_eq!((e.0, e.1, e.2, e.3), (ONE, ONE, 200_000, ONE));
}

#[test]
fn randomized_envelope_parameters_lie_in_unit_range() {
    let mut e = Envelope::new();
    for _ in 0..20 {
        e.randomize();
        for p in [e.0, e.1, e.2, e.3] {
            assert!((0..ONE).contains(&p));
        }
    }
}
