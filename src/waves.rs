//! Wave generators: leaf waveforms, linear transforms, and the oscillator
//! that composes them.

use vstd::prelude::*;
use rand::Rng;
use crate::fixed::{ONE, div_trunc, rem_trunc, mul_spec, add_spec};
use crate::fixed::{div_trunc_i128, fx_mul, fx_add, mod_floor, lemma_scale_down, lemma_mul_one};
use vstd::arithmetic::div_mod::lemma_fundamental_div_mod;

verus! {

/// Internal scale of the sine polynomial: 10^12 stands for 1.0.
pub const POLY_SCALE: i128 = 1_000_000_000_000;

/// Coefficients of the odd polynomial `y * (C1 - y^2 (C3 - y^2 (C5 - y^2 (C7 - y^2 C9))))`
/// that approximates `sin(y * pi / 2)` on `0 <= y <= 1`, at `POLY_SCALE`.
/// They sum, with their signs, to exactly `POLY_SCALE`, so a quarter turn
/// lands on 1.0.
pub const SINE_C1: i128 = 1_570_796_294_873;
pub const SINE_C3: i128 = 645_963_425_955;
pub const SINE_C5: i128 = 79_688_714_192;
pub const SINE_C7: i128 = 4_672_522_542;
pub const SINE_C9: i128 = 150_939_432;

/// The polynomial on `0 <= v <= ONE` (a fixed-point `y`), rounded to
/// fixed point and capped at `ONE`.
pub open spec fn sine_poly(v: int) -> int {
    let s = POLY_SCALE as int;
    let y = v * ONE;
    let w = y * y / s;
    let t4 = SINE_C7 - w * SINE_C9 / s;
    let t3 = SINE_C5 - w * t4 / s;
    let t2 = SINE_C3 - w * t3 / s;
    let t1 = SINE_C1 - w * t2 / s;
    let p = (t1 * y / s + ONE / 2) / ONE as int;
    if p > ONE {
        ONE as int
    } else {
        p
    }
}

/// Folds `x` (in quarter turns of `ONE`) onto `-ONE ..= ONE`, where sine
/// is odd and increasing.
pub open spec fn quarter_fold(x: int) -> int {
    let r = x % (4 * ONE);
    if r <= ONE {
        r
    } else if r <= 3 * ONE {
        2 * ONE - r
    } else {
        r - 4 * ONE
    }
}

/// Fixed-point `sin(x * pi / 2)`: period `4 * ONE`, odd, `ONE` at `ONE`.
pub open spec fn sine_spec(x: int) -> int {
    let u = quarter_fold(x);
    if u >= 0 {
        sine_poly(u)
    } else {
        -sine_poly(-u)
    }
}

/// `ONE` where the integer part of `x` is even, `-ONE` where it is odd.
pub open spec fn square_spec(x: int) -> int {
    if div_trunc(x, ONE as int) % 2 == 0 {
        ONE as int
    } else {
        -ONE
    }
}

/// `(x mod 2) - 1`, with the remainder taking the sign of `x`.
pub open spec fn triangle_spec(x: int) -> int {
    rem_trunc(x, 2 * ONE) - ONE
}

/// `alpha * x + beta`, in saturating fixed point.
pub open spec fn linear_spec(alpha: int, beta: int, x: int) -> int {
    add_spec(mul_spec(alpha, x), beta)
}

fn sine_quarter(v: i64) -> (r: i64)
    requires
        0 <= v <= ONE,
    ensures
        r == sine_poly(v as int),
        0 <= r <= ONE,
{
    let s = POLY_SCALE;
    let y: i128 = v as i128 * ONE as i128;
    proof {
        assert(0 <= y <= s) by (nonlinear_arith)
            requires
                0 <= v <= ONE,
                y == v * ONE,
                s == ONE * ONE,
        ;
        assert(0 <= y * y <= s * s) by (nonlinear_arith)
            requires
                0 <= y <= s,
        ;
        lemma_scale_down(y as int, y as int, s as int);
    }
    let w: i128 = y * y / s;
    proof {
        lemma_scale_down(w as int, SINE_C9 as int, s as int);
    }
    let t4: i128 = SINE_C7 - w * SINE_C9 / s;
    proof {
        lemma_scale_down(w as int, t4 as int, s as int);
    }
    let t3: i128 = SINE_C5 - w * t4 / s;
    proof {
        lemma_scale_down(w as int, t3 as int, s as int);
    }
    let t2: i128 = SINE_C3 - w * t3 / s;
    proof {
        lemma_scale_down(w as int, t2 as int, s as int);
    }
    let t1: i128 = SINE_C1 - w * t2 / s;
    proof {
        lemma_scale_down(y as int, t1 as int, s as int);
    }
    let p: i128 = (t1 * y / s + (ONE / 2) as i128) / ONE as i128;
    if p > ONE as i128 {
        ONE
    } else {
        p as i64
    }
}

/// The wave that is always 0.
pub struct NullWave;

impl NullWave {
    pub fn gen(&self, _x: i64) -> (r: i64)
        ensures
            r == 0,
    {
        0
    }
}

/// The wave that is always 1.0, the neutral factor of a linear transform.
pub struct IdentityWave;

impl IdentityWave {
    pub fn gen(&self, _x: i64) -> (r: i64)
        ensures
            r == ONE,
    {
        ONE
    }
}

/// The wave that hands its input back.
pub struct ConstantWave;

impl ConstantWave {
    pub fn gen(&self, x: i64) -> (r: i64)
        ensures
            r == x,
    {
        x
    }
}

/// `sin(x * pi / 2)`, computed in fixed point by the quarter-wave
/// polynomial of `sine_spec`, which stays within about a millionth of it.
pub struct SinWave;

impl SinWave {
    pub fn gen(&self, x: i64) -> (r: i64)
        ensures
            r == sine_spec(x as int),
            -ONE <= r <= ONE,
    {
        let r: i64 = mod_floor(x, 4 * ONE);
        if r <= ONE {
            sine_quarter(r)
        } else if r <= 2 * ONE {
            sine_quarter(2 * ONE - r)
        } else if r <= 3 * ONE {
            -sine_quarter(r - 2 * ONE)
        } else {
            -sine_quarter(4 * ONE - r)
        }
    }
}

/// 1.0 where the integer part of the input is even, -1.0 where it is odd.
pub struct SquareWave;

impl SquareWave {
    pub fn gen(&self, x: i64) -> (r: i64)
        ensures
            r == square_spec(x as int),
    {
        let q: i128 = div_trunc_i128(x as i128, ONE as i128);
        let m: i128 = if q >= 0 {
            q % 2
        } else {
            (-q) % 2
        };
        if m == 0 {
            ONE
        } else {
            -ONE
        }
    }
}

/// `(x mod 2) - 1`.
pub struct TriWave;

impl TriWave {
    pub fn gen(&self, x: i64) -> (r: i64)
        ensures
            r == triangle_spec(x as int),
            -3 * ONE < r < ONE,
    {
        let period: i128 = 2 * ONE as i128;
        let q: i128 = div_trunc_i128(x as i128, period);
        proof {
            let xi = x as int;
            let p = period as int;
            if xi >= 0 {
                lemma_fundamental_div_mod(xi, p);
                assert(q == xi / p);
            } else {
                let k = (-xi) / p;
                lemma_fundamental_div_mod(-xi, p);
                assert(q == -k);
                assert(p * q == -(p * k)) by (nonlinear_arith)
                    requires
                        q == -k,
                ;
            }
            assert(-p < xi - p * q < p);
        }
        let rem: i128 = x as i128 - period * q;
        (rem - ONE as i128) as i64
    }
}

/// Relies on `rand::thread_rng` and `rand::Rng::gen_range`: a value drawn
/// from `0..bound`, which panics only where that range is empty.
#[verifier::external_body]
pub(crate) fn draw_below(bound: u64) -> (r: u64)
    requires
        bound > 0,
    ensures
        r < bound,
{
    rand::thread_rng().gen_range(0..bound)
}

/// Uniform noise in `0 <= r < 1.0`, drawn afresh at every call.
pub struct RandomWave;

impl RandomWave {
    pub fn new() -> (r: RandomWave) {
        RandomWave
    }

    pub fn gen(&self, _x: i64) -> (r: i64)
        ensures
            0 <= r < ONE,
    {
        draw_below(ONE as u64) as i64
    }
}

/// A list of noise draws fit for `n` noise nodes: `n` values, each in
/// `0 <= d < ONE`.
pub open spec fn draws_ok(d: Seq<int>, n: nat) -> bool {
    &&& d.len() == n
    &&& forall|i: int| 0 <= i < d.len() ==> 0 <= #[trigger] d[i] < ONE
}

/// A node of the generator graph: one of the leaf waves, or a nested
/// linear transform `alpha(x) * x + beta(x)`.
pub enum WaveGenerator {
    Null,
    Identity,
    Constant,
    Sine,
    Square,
    Triangle,
    Random,
    Linear(Box<WaveGenerator>, Box<WaveGenerator>),
}

impl WaveGenerator {
    /// How many noise draws one evaluation makes.
    pub open spec fn noise_count(self) -> nat
        decreases self,
    {
        match self {
            WaveGenerator::Random => 1,
            WaveGenerator::Linear(a, b) => a.noise_count() + b.noise_count(),
            _ => 0,
        }
    }

    /// The output at `x` when the noise nodes, visited left to right, draw
    /// the values `d`.
    pub open spec fn value(self, x: int, d: Seq<int>) -> int
        decreases self,
    {
        match self {
            WaveGenerator::Null => 0,
            WaveGenerator::Identity => ONE as int,
            WaveGenerator::Constant => x,
            WaveGenerator::Sine => sine_spec(x),
            WaveGenerator::Square => square_spec(x),
            WaveGenerator::Triangle => triangle_spec(x),
            WaveGenerator::Random => d[0],
            WaveGenerator::Linear(a, b) => {
                let n = a.noise_count() as int;
                linear_spec(a.value(x, d.take(n)), b.value(x, d.skip(n)), x)
            },
        }
    }

    /// `r` is an output that some fit draws give at `x`; where the node has
    /// no noise, that is its one value.
    pub open spec fn produces(self, x: int, r: int) -> bool {
        exists|d: Seq<int>| draws_ok(d, self.noise_count()) && r == self.value(x, d)
    }

    /// A tree that the palette can draw: its leaves are palette leaves (never
    /// `Null`), and linear transforms nest at most `depth` levels below it.
    pub open spec fn from_palette(self, depth: nat) -> bool
        decreases self,
    {
        match self {
            WaveGenerator::Linear(a, b) => depth > 0 && a.from_palette((depth - 1) as nat)
                && b.from_palette((depth - 1) as nat),
            WaveGenerator::Null => false,
            _ => true,
        }
    }

    /// Evaluates the node at `x`, drawing fresh noise where it has any.
    pub fn gen(&self, x: i64) -> (r: i64)
        ensures
            self.produces(x as int, r as int),
            self.noise_count() == 0 ==> r == self.value(x as int, Seq::empty()),
        decreases self,
    {
        let r = match self {
            WaveGenerator::Null => NullWave.gen(x),
            WaveGenerator::Identity => IdentityWave.gen(x),
            WaveGenerator::Constant => ConstantWave.gen(x),
            WaveGenerator::Sine => SinWave.gen(x),
            WaveGenerator::Square => SquareWave.gen(x),
            WaveGenerator::Triangle => TriWave.gen(x),
            WaveGenerator::Random => RandomWave.gen(x),
            WaveGenerator::Linear(a, b) => {
                let av = a.gen(x);
                let bv = b.gen(x);
                let r = fx_add(fx_mul(av, x), bv);
                proof {
                    let da = choose|d: Seq<int>| draws_ok(d, a.noise_count()) && av == a.value(x as int, d);
                    let db = choose|d: Seq<int>| draws_ok(d, b.noise_count()) && bv == b.value(x as int, d);
                    let d = da + db;
                    assert(d.take(da.len() as int) =~= da);
                    assert(d.skip(da.len() as int) =~= db);
                    assert(draws_ok(d, self.noise_count()));
                    assert(r == self.value(x as int, d));
                }
                r
            },
        };
        proof {
            if self is Random {
                assert(draws_ok(seq![r as int], 1) && r == self.value(x as int, seq![r as int]));
            } else if !(self is Linear) {
                assert(draws_ok(Seq::empty(), 0) && r == self.value(x as int, Seq::empty()));
            }
            if self.noise_count() == 0 {
                let d = choose|d: Seq<int>| draws_ok(d, 0) && r == self.value(x as int, d);
                assert(d =~= Seq::<int>::empty());
            }
        }
        r
    }
}

/// `alpha(x) * x + beta(x)`: warps the time or frequency fed to an
/// oscillator.
pub struct LinearTransform {
    pub alpha: WaveGenerator,
    pub beta: WaveGenerator,
}

impl LinearTransform {
    pub open spec fn noise_count(self) -> nat {
        self.alpha.noise_count() + self.beta.noise_count()
    }

    /// The output at `x` when the noise nodes of `alpha`, then of `beta`,
    /// draw the values `d`.
    pub open spec fn value(self, x: int, d: Seq<int>) -> int {
        let n = self.alpha.noise_count() as int;
        linear_spec(self.alpha.value(x, d.take(n)), self.beta.value(x, d.skip(n)), x)
    }

    pub open spec fn produces(self, x: int, r: int) -> bool {
        exists|d: Seq<int>| draws_ok(d, self.noise_count()) && r == self.value(x, d)
    }

    /// The transform that hands its input back: `1.0 * x + 0`.
    pub fn identity() -> (r: LinearTransform)
        ensures
            r.alpha == WaveGenerator::Identity,
            r.beta == WaveGenerator::Null,
    {
        LinearTransform { alpha: WaveGenerator::Identity, beta: WaveGenerator::Null }
    }

    pub fn gen(&self, x: i64) -> (r: i64)
        ensures
            self.produces(x as int, r as int),
            self.noise_count() == 0 ==> r == self.value(x as int, Seq::empty()),
    {
        let av = self.alpha.gen(x);
        let bv = self.beta.gen(x);
        let r = fx_add(fx_mul(av, x), bv);
        proof {
            let (a, b) = (self.alpha, self.beta);
            let da = choose|d: Seq<int>| draws_ok(d, a.noise_count()) && av == a.value(x as int, d);
            let db = choose|d: Seq<int>| draws_ok(d, b.noise_count()) && bv == b.value(x as int, d);
            let d = da + db;
            assert(d.take(da.len() as int) =~= da);
            assert(d.skip(da.len() as int) =~= db);
            assert(draws_ok(d, self.noise_count()));
            assert(r == self.value(x as int, d));
            if self.noise_count() == 0 {
                assert(d =~= Seq::<int>::empty());
            }
        }
        r
    }
}

/// The unit of pitched sound: `otf(ttf(t) * wtf(freq))`.
pub struct Oscillator {
    pub ttf: LinearTransform,
    pub wtf: LinearTransform,
    pub otf: WaveGenerator,
}

impl Oscillator {
    pub open spec fn noise_count(self) -> nat {
        self.ttf.noise_count() + self.wtf.noise_count() + self.otf.noise_count()
    }

    /// The output at time `t` and frequency `freq` when the noise nodes of
    /// `ttf`, `wtf` and `otf`, in that order, draw the values `d`.
    pub open spec fn value(self, t: int, freq: int, d: Seq<int>) -> int {
        let n1 = self.ttf.noise_count() as int;
        let n2 = self.wtf.noise_count() as int;
        let phase = mul_spec(self.ttf.value(t, d.take(n1)), self.wtf.value(freq, d.subrange(n1, n1 + n2)));
        self.otf.value(phase, d.skip(n1 + n2))
    }

    pub open spec fn produces(self, t: int, freq: int, r: int) -> bool {
        exists|d: Seq<int>| draws_ok(d, self.noise_count()) && r == self.value(t, freq, d)
    }

    /// Identity transforms and a sine terminal.
    pub open spec fn is_plain_sine(self) -> bool {
        &&& self.ttf.alpha == WaveGenerator::Identity
        &&& self.ttf.beta == WaveGenerator::Null
        &&& self.wtf.alpha == WaveGenerator::Identity
        &&& self.wtf.beta == WaveGenerator::Null
        &&& self.otf == WaveGenerator::Sine
    }

    /// Plain sine synthesis.
    pub fn sine() -> (r: Oscillator)
        ensures
            r.is_plain_sine(),
    {
        Oscillator {
            ttf: LinearTransform::identity(),
            wtf: LinearTransform::identity(),
            otf: WaveGenerator::Sine,
        }
    }

    pub fn gen(&self, t: i64, freq: i64) -> (r: i64)
        ensures
            self.produces(t as int, freq as int, r as int),
            self.noise_count() == 0 ==> r == self.value(t as int, freq as int, Seq::empty()),
    {
        let tv = self.ttf.gen(t);
        let fv = self.wtf.gen(freq);
        let phase = fx_mul(tv, fv);
        let r = self.otf.gen(phase);
        proof {
            let (a, b, c) = (self.ttf, self.wtf, self.otf);
            let da = choose|d: Seq<int>| draws_ok(d, a.noise_count()) && tv == a.value(t as int, d);
            let db = choose|d: Seq<int>| draws_ok(d, b.noise_count()) && fv == b.value(freq as int, d);
            let dc = choose|d: Seq<int>| draws_ok(d, c.noise_count()) && r == c.value(phase as int, d);
            let d = da + db + dc;
            let (n1, n2) = (da.len() as int, db.len() as int);
            assert(d.take(n1) =~= da);
            assert(d.subrange(n1, n1 + n2) =~= db);
            assert(d.skip(n1 + n2) =~= dc);
            assert(draws_ok(d, self.noise_count()));
            assert(r == self.value(t as int, freq as int, d));
            if self.noise_count() == 0 {
                assert(d =~= Seq::<int>::empty());
            }
        }
        r
    }
}

/// How deep randomly drawn linear transforms may nest inside one another.
pub const NEST_DEPTH: u64 = 2;

/// Number of choices in the generator palette: choice 0 is a nested linear
/// transform, choices 1 to 6 the leaf waves of `leaf_for_choice`.
pub const PALETTE_SIZE: u64 = 7;

/// The leaf wave that a palette choice from 1 to 6 names.
pub open spec fn leaf_for_choice(choice: int) -> WaveGenerator {
    if choice == 1 {
        WaveGenerator::Identity
    } else if choice == 2 {
        WaveGenerator::Constant
    } else if choice == 3 {
        WaveGenerator::Sine
    } else if choice == 4 {
        WaveGenerator::Square
    } else if choice == 5 {
        WaveGenerator::Triangle
    } else {
        WaveGenerator::Random
    }
}

/// The leaf wave of palette choice `choice`.
pub fn wave_for_choice(choice: u64) -> (r: WaveGenerator)
    requires
        1 <= choice < PALETTE_SIZE,
    ensures
        r == leaf_for_choice(choice as int),
{
    if choice == 1 {
        WaveGenerator::Identity
    } else if choice == 2 {
        WaveGenerator::Constant
    } else if choice == 3 {
        WaveGenerator::Sine
    } else if choice == 4 {
        WaveGenerator::Square
    } else if choice == 5 {
        WaveGenerator::Triangle
    } else {
        WaveGenerator::Random
    }
}

/// Draws a generator uniformly from the palette. A nested linear transform
/// is among the choices only while `depth` allows one more level; its two
/// parts are drawn the same way, one level down.
pub fn random_wave_generator(depth: u64) -> (r: WaveGenerator)
    ensures
        r.from_palette(depth as nat),
    decreases depth,
{
    let lowest: u64 = if depth > 0 {
        0
    } else {
        1
    };
    let choice: u64 = lowest + draw_below(PALETTE_SIZE - lowest);
    if choice == 0 {
        let alpha = random_wave_generator(depth - 1);
        let beta = random_wave_generator(depth - 1);
        WaveGenerator::Linear(Box::new(alpha), Box::new(beta))
    } else {
        wave_for_choice(choice)
    }
}

/// Structural randomization: the value is replaced as a whole by one drawn
/// at random, of a shape that `in_palette` describes.
pub trait Randomize {
    /// Every value that `randomize` can leave satisfies this.
    spec fn in_palette(&self) -> bool;

    fn randomize(&mut self)
        ensures
            final(self).in_palette(),
    ;
}

impl Randomize for LinearTransform {
    open spec fn in_palette(&self) -> bool {
        self.alpha.from_palette(NEST_DEPTH as nat) && self.beta.from_palette(NEST_DEPTH as nat)
    }

    fn randomize(&mut self) {
        let alpha = random_wave_generator(NEST_DEPTH);
        let beta = random_wave_generator(NEST_DEPTH);
        *self = LinearTransform { alpha, beta };
    }
}

impl Randomize for Oscillator {
    open spec fn in_palette(&self) -> bool {
        self.ttf.in_palette() && self.wtf.in_palette() && self.otf.from_palette(NEST_DEPTH as nat)
    }

    fn randomize(&mut self) {
        let mut ttf = LinearTransform::identity();
        ttf.randomize();
        let mut wtf = LinearTransform::identity();
        wtf.randomize();
        let otf = random_wave_generator(NEST_DEPTH);
        *self = Oscillator { ttf, wtf, otf };
    }
}

/// An oscillator with identity transforms and a sine terminal is a bare
/// sine of `t * freq`; at a frequency of 1.0 it is the sine wave of `t`.
pub proof fn plain_sine_oscillator_is_sine(o: Oscillator, t: int, freq: int)
    requires
        o.is_plain_sine(),
        i64::MIN <= t <= i64::MAX,
        i64::MIN <= freq <= i64::MAX,
    ensures
        o.noise_count() == 0,
        o.value(t, freq, Seq::empty()) == sine_spec(mul_spec(t, freq)),
        freq == ONE ==> o.value(t, freq, Seq::empty()) == sine_spec(t),
{
    lemma_mul_one(t);
    lemma_mul_one(freq);
    let e = Seq::<int>::empty();
    assert(e.take(0) =~= e && e.skip(0) =~= e && e.subrange(0, 0) =~= e);
    assert(o.ttf.value(t, e) == t);
    assert(o.wtf.value(freq, e) == freq);
}

} // verus!
