use rand::Rng;
use synth::fixed::{fx_add, fx_mul};
use synth::waves::{random_wave_generator, wave_for_choice};
use synth::{ConstantWave, IdentityWave, LinearTransform, NullWave, Oscillator, Randomize, RandomWave};
use synth::{SinWave, SquareWave, TriWave, WaveGenerator, ONE};

fn as_unit(v: i64) -> f64 {
    v as f64 / ONE as f64
}

fn assert_approx_eq(a: i64, b: i64) {
    assert!((as_unit(a) - as_unit(b)).abs() < 1e-6, "Expected {} to be approximately equal to {}", a, b);
}

fn identity_transform() -> LinearTransform {
    LinearTransform { alpha: WaveGenerator::Identity, beta: WaveGenerator::Null }
}

#[test]
fn test_constant_wave() {
    let g = ConstantWave;
    let mut rng = rand::thread_rng();
    for _ in 0..100 {
        let y: i64 = rng.gen_range(0..ONE);
        assert_approx_eq(g.gen(y), y);
    }
}

#[test]
fn test_constant_linear_transform() {
    let lt = LinearTransform { alpha: WaveGenerator::Identity, beta: WaveGenerator::Null };
    let mut rng = rand::thread_rng();
    for _ in 0..100 {
        let y: i64 = rng.gen_range(0..ONE);
        assert_approx_eq(lt.gen(y), y);
    }
}

#[test]
fn test_simple_sin_wave() {
    let test_generator = Oscillator {
        ttf: LinearTransform { alpha: WaveGenerator::Identity, beta: WaveGenerator::Null },
        wtf: LinearTransform { alpha: WaveGenerator::Identity, beta: WaveGenerator::Null },
        otf: WaveGenerator::Sine,
    };
    let control_generator = SinWave;
    for i in 0..100i64 {
        let f = i * ONE / 10;
        assert_approx_eq(test_generator.gen(f, ONE), control_generator.gen(f));
    }
}

#[test]
fn plain_sine_oscillator_matches_sine_of_product() {
    let osc = Oscillator::sine();
    for (t, freq) in [(250_000i64, 2 * ONE), (-1_300_000, 3 * ONE / 2), (7 * ONE, ONE / 4), (0, 440 * ONE)] {
        assert_eq!(osc.gen(t, freq), SinWave.gen(fx_mul(t, freq)));
    }
}

#[test]
fn leaf_waves_give_their_formulas() {
    assert_eq!(NullWave.gen(123_456), 0);
    assert_eq!(IdentityWave.gen(-5), ONE);
    assert_eq!(ConstantWave.gen(-7_654_321), -7_654_321);
}

#[test]
fn sine_hits_quarter_turns_exactly() {
    assert_eq!(SinWave.gen(0), 0);
    assert_eq!(SinWave.gen(ONE), ONE);
    assert_eq!(SinWave.gen(2 * ONE), 0);
    assert_eq!(SinWave.gen(3 * ONE), -ONE);
    assert_eq!(SinWave.gen(4 * ONE), 0);
    assert_eq!(SinWave.gen(-ONE), -ONE);
    assert_eq!(SinWave.gen(ONE / 2), 707_107);
}

#[test]
fn sine_follows_the_real_sine() {
    let mut x = -9 * ONE;
    while x <= 9 * ONE {
        let expected = (as_unit(x) * std::f64::consts::FRAC_PI_2).sin();
        assert!((as_unit(SinWave.gen(x)) - expected).abs() < 2e-6, "sine at {}", x);
        x += 12_345;
    }
}

#[test]
fn square_follows_parity_of_integer_part() {
    assert_eq!(SquareWave.gen(ONE / 2), ONE);
    assert_eq!(SquareWave.gen(3 * ONE / 2), -ONE);
    assert_eq!(SquareWave.gen(2 * ONE), ONE);
    assert_eq!(SquareWave.gen(-ONE / 2), ONE);
    assert_eq!(SquareWave.gen(-3 * ONE / 2), -ONE);
}

#[test]
fn triangle_is_remainder_minus_one() {
    assert_eq!(TriWave.gen(ONE / 2), -ONE / 2);
    assert_eq!(TriWave.gen(5 * ONE / 2), -ONE / 2);
    assert_eq!(TriWave.gen(3 * ONE / 2), ONE / 2);
    assert_eq!(TriWave.gen(-ONE / 2), -3 * ONE / 2);
    assert_eq!(TriWave.gen(0), -ONE);
}

#[test]
fn fixed_point_products_and_sums() {
    assert_eq!(fx_mul(3 * ONE / 2, 2 * ONE), 3 * ONE);
    assert_eq!(fx_mul(-3 * ONE / 2, 3 * ONE / 2), -9 * ONE / 4);
    assert_eq!(fx_mul(i64::MAX, 2 * ONE), i64::MAX);
    assert_eq!(fx_mul(i64::MIN, 2 * ONE), i64::MIN);
    assert_eq!(fx_add(i64::MAX, 1), i64::MAX);
    assert_eq!(fx_add(-ONE, ONE / 4), -3 * ONE / 4);
}

#[test]
fn linear_transform_with_constant_alpha_squares() {
    let lt = LinearTransform { alpha: WaveGenerator::Constant, beta: WaveGenerator::Identity };
    assert_eq!(lt.gen(3 * ONE), 10 * ONE);
    assert_eq!(lt.gen(-ONE / 2), ONE + ONE / 4);
}

#[test]
fn nested_linear_transform_composes() {
    let inner = WaveGenerator::Linear(Box::new(WaveGenerator::Constant), Box::new(WaveGenerator::Null));
    let g = WaveGenerator::Linear(Box::new(inner), Box::new(WaveGenerator::Identity));
    assert_eq!(g.gen(2 * ONE), 9 * ONE);
}

#[test]
fn random_wave_stays_in_unit_range_and_varies() {
    let w = RandomWave::new();
    let first = w.gen(0);
    let mut varied = false;
    for _ in 0..64 {
        let v = w.gen(0);
        assert!((0..ONE).contains(&v));
        if v != first {
            varied = true;
        }
    }
    assert!(varied);
}

#[test]
fn palette_choices_name_the_leaves() {
    assert!(matches!(wave_for_choice(1), WaveGenerator::Identity));
    assert!(matches!(wave_for_choice(2), WaveGenerator::Constant));
    assert!(matches!(wave_for_choice(3), WaveGenerator::Sine));
    assert!(matches!(wave_for_choice(4), WaveGenerator::Square));
    assert!(matches!(wave_for_choice(5), WaveGenerator::Triangle));
    assert!(matches!(wave_for_choice(6), WaveGenerator::Random));
}

#[test]
fn random_generator_at_depth_zero_is_a_leaf() {
    for _ in 0..50 {
        assert!(!matches!(random_wave_generator(0), WaveGenerator::Linear(_, _)));
    }
}

fn drawn_from_palette(g: &WaveGenerator, depth: u32) -> bool {
    match g {
        WaveGenerator::Null => false,
        WaveGenerator::Linear(a, b) => depth > 0 && drawn_from_palette(a, depth - 1) && drawn_from_palette(b, depth - 1),
        _ => true,
    }
}

#[test]
fn randomized_oscillator_is_a_palette_draw() {
    let mut osc = Oscillator { ttf: identity_transform(), wtf: identity_transform(), otf: WaveGenerator::Null };
    for _ in 0..50 {
        osc.randomize();
        for part in [&osc.ttf.alpha, &osc.ttf.beta, &osc.wtf.alpha, &osc.wtf.beta, &osc.otf] {
            assert!(drawn_from_palette(part, 2));
        }
        let _ = osc.gen(ONE / 3, 220 * ONE);
    }
}

#[test]
fn random_generator_never_draws_null() {
    for _ in 0..200 {
        assert!(drawn_from_palette(&random_wave_generator(2), 2));
    }
}
