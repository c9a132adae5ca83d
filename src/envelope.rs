//! The per-note amplitude envelope.

use vstd::prelude::*;
use crate::fixed::{ONE, div_trunc, div_trunc_i128, lemma_scale_down};
use crate::fixed::{lemma_div_trunc_between, lemma_div_trunc_scaled};
use crate::waves::{Randomize, draw_below};

verus! {

/// How far, from 0 to `ONE`, a ramp of length `duration` has come after
/// `elapsed`. Progress is clamped to the ramp; a ramp of no length is at
/// its end from the moment it starts.
pub open spec fn progress(elapsed: int, duration: int) -> int {
    if elapsed < 0 {
        0
    } else if elapsed >= duration {
        ONE as int
    } else {
        elapsed * ONE / duration
    }
}

/// Linear interpolation from `a` (at progress 0) to `b` (at `ONE`),
/// rounded toward zero.
pub open spec fn lerp(p: int, a: int, b: int) -> int {
    div_trunc(a * (ONE - p) + b * p, ONE as int)
}

/// `Envelope(attack_time, release_time, sustain_level, release_decay_time)`,
/// times in microseconds and the level in millionths.
///
/// While a note is held, an attack ramp rises from 0 to 1.0 over
/// `attack_time` from the press, and its output is in turn blended toward
/// `sustain_level` by a second ramp of length `release_time` that starts
/// where the attack ends. Once the note is released, the level falls from
/// `sustain_level` to 0 over `release_decay_time`.
pub struct Envelope(pub i64, pub i64, pub i64, pub i64);

fn ramp_progress(elapsed: i128, duration: i64) -> (r: i64)
    ensures
        r == progress(elapsed as int, duration as int),
        0 <= r <= ONE,
{
    if elapsed < 0 {
        0
    } else if elapsed >= duration as i128 {
        ONE
    } else {
        proof {
            lemma_scale_down(elapsed as int, ONE as int, duration as int);
            assert(elapsed * ONE < duration * ONE) by (nonlinear_arith)
                requires
                    0 <= elapsed < duration,
                    ONE > 0,
            ;
        }
        (elapsed * ONE as i128 / duration as i128) as i64
    }
}

fn lerp_exec(p: i64, a: i64, b: i64) -> (r: i64)
    requires
        0 <= p <= ONE,
    ensures
        r == lerp(p as int, a as int, b as int),
        a <= b ==> a <= r <= b,
        b <= a ==> b <= r <= a,
{
    let q: i128 = ONE as i128 - p as i128;
    proof {
        let (lo, hi) = if a <= b {
            (a as int, b as int)
        } else {
            (b as int, a as int)
        };
        assert(lo * ONE <= a * q + b * p <= hi * ONE) by (nonlinear_arith)
            requires
                lo <= a <= hi,
                lo <= b <= hi,
                0 <= p,
                0 <= q,
                p + q == ONE,
        ;
        assert(-0x8000_0000_0000_0000 * ONE <= a * q <= 0x8000_0000_0000_0000 * ONE) by (nonlinear_arith)
            requires
                -0x8000_0000_0000_0000 <= a <= 0x8000_0000_0000_0000,
                0 <= q <= ONE,
        ;
        assert(-0x8000_0000_0000_0000 * ONE <= b * p <= 0x8000_0000_0000_0000 * ONE) by (nonlinear_arith)
            requires
                -0x8000_0000_0000_0000 <= b <= 0x8000_0000_0000_0000,
                0 <= p <= ONE,
        ;
        lemma_div_trunc_between(a * q + b * p, lo, hi);
    }
    let v: i128 = a as i128 * q + b as i128 * p as i128;
    div_trunc_i128(v, ONE as i128) as i64
}

impl Envelope {
    /// The level at time `now` of a note pressed at `press` and, if it has
    /// been, released at `release`.
    pub open spec fn level(self, now: int, press: int, release: Option<i64>) -> int {
        match release {
            Some(t1) => lerp(progress(now - t1, self.3 as int), self.2 as int, 0),
            None => lerp(
                progress(now - press - self.0, self.1 as int),
                lerp(progress(now - press, self.0 as int), 0, ONE as int),
                self.2 as int,
            ),
        }
    }

    /// One-second attack, release and decay; a sustain level of 0.2.
    pub fn new() -> (r: Envelope)
        ensures
            r == Envelope(ONE, ONE, 200_000, ONE),
    {
        Envelope(ONE, ONE, 200_000, ONE)
    }

    /// The amplitude at `now` of a note pressed at `press` and released at
    /// `release`, if it has been. Where the sustain level lies in
    /// `0 ..= 1.0`, so does the amplitude.
    pub fn sample(&self, now: i64, press: i64, release: Option<i64>) -> (r: i64)
        ensures
            r == self.level(now as int, press as int, release),
            0 <= self.2 <= ONE ==> 0 <= r <= ONE,
    {
        match release {
            Some(t1) => {
                let p = ramp_progress(now as i128 - t1 as i128, self.3);
                lerp_exec(p, self.2, 0)
            },
            None => {
                let since_press: i128 = now as i128 - press as i128;
                let attack = lerp_exec(ramp_progress(since_press, self.0), 0, ONE);
                let w = ramp_progress(since_press - self.0 as i128, self.1);
                lerp_exec(w, attack, self.2)
            },
        }
    }
}

impl Randomize for Envelope {
    /// All four parameters lie in `0 <= v < 1.0`.
    open spec fn in_palette(&self) -> bool {
        &&& 0 <= self.0 < ONE
        &&& 0 <= self.1 < ONE
        &&& 0 <= self.2 < ONE
        &&& 0 <= self.3 < ONE
    }

    /// Redraws all four parameters, each uniformly in `0 <= v < 1.0`.
    fn randomize(&mut self) {
        let attack = draw_below(ONE as u64) as i64;
        let release = draw_below(ONE as u64) as i64;
        let sustain = draw_below(ONE as u64) as i64;
        let decay = draw_below(ONE as u64) as i64;
        *self = Envelope(attack, release, sustain, decay);
    }
}

/// A ramp at its start gives its first end point, at its end the second.
proof fn lemma_lerp_ends(a: int, b: int)
    ensures
        lerp(0, a, b) == a,
        lerp(ONE as int, a, b) == b,
{
    assert(a * (ONE - 0) + b * 0 == a * ONE) by (nonlinear_arith);
    assert(a * (ONE - ONE) + b * ONE == b * ONE) by (nonlinear_arith);
    lemma_div_trunc_scaled(a);
    lemma_div_trunc_scaled(b);
}

/// A held note with an attack of some length starts silent: at the moment
/// of the press the level is 0.
pub proof fn attack_starts_silent(e: Envelope, t0: int)
    requires
        e.0 > 0,
    ensures
        e.level(t0, t0, None) == 0,
{
    lemma_lerp_ends(0, ONE as int);
    lemma_lerp_ends(0, e.2 as int);
}

/// Once both the attack and the ramp toward the sustain level have run
/// their course, a held note sits at the sustain level.
pub proof fn held_note_settles_at_sustain(e: Envelope, t0: int, now: int)
    requires
        e.0 > 0,
        e.1 > 0,
        now >= t0 + e.0 + e.1,
    ensures
        e.level(now, t0, None) == e.2,
{
    lemma_lerp_ends(0, ONE as int);
    lemma_lerp_ends(ONE as int, e.2 as int);
}

/// A released note has decayed to silence once `release_decay_time` has
/// passed since the release.
pub proof fn release_decays_to_silence(e: Envelope, t0: int, t1: i64)
    requires
        e.3 > 0,
    ensures
        e.level(t1 + e.3, t0, Some(t1)) == 0,
{
    lemma_lerp_ends(e.2 as int, 0);
}

/// A released note is silent once `release_decay_time` has passed since the
/// release, so dropping it from then on cuts no sound; with no decay time
/// that is the very moment of the release.
pub proof fn decayed_note_is_silent(e: Envelope, now: int, press: int, t1: i64)
    requires
        e.3 >= 0,
        now - t1 >= e.3,
    ensures
        e.level(now, press, Some(t1)) == 0,
{
    lemma_lerp_ends(e.2 as int, 0);
}

} // verus!
