//! The instrument: one oscillator and one envelope, played through the
//! keyboard buffer and mixed into one sample stream.

use vstd::prelude::*;
use vstd::arithmetic::div_mod::{lemma_fundamental_div_mod, lemma_fundamental_div_mod_converse};
use vstd::arithmetic::div_mod::{lemma_add_mod_noop_right, lemma_div_is_ordered, lemma_div_by_multiple};
use vstd::arithmetic::div_mod::{lemma_div_pos_is_pos, lemma_small_mod};
use crate::fixed::{ONE, mul_spec, add_spec, fx_mul, fx_add};
use crate::waves::{Oscillator, Randomize, draws_ok};
use crate::envelope::Envelope;
use crate::input::{KeyCode, KeyEvent, KeyEventKind, KeyboardBuffer, KeyboardBufferEvent};
use crate::input::{after_event, after_sweep};

verus! {

/// The pitch table: a row of keys, from C3 up to B3, and their
/// frequencies in millionths of a hertz.
pub open spec fn default_pitch_table() -> Seq<(KeyCode, i64)> {
    seq![
        (KeyCode::Char('z'), 130_810_000i64),
        (KeyCode::Char('s'), 138_590_000i64),
        (KeyCode::Char('x'), 146_830_000i64),
        (KeyCode::Char('d'), 155_560_000i64),
        (KeyCode::Char('c'), 164_810_000i64),
        (KeyCode::Char('v'), 174_610_000i64),
        (KeyCode::Char('g'), 185_000_000i64),
        (KeyCode::Char('b'), 196_000_000i64),
        (KeyCode::Char('h'), 207_650_000i64),
        (KeyCode::Char('n'), 220_000_000i64),
        (KeyCode::Char('j'), 233_080_000i64),
        (KeyCode::Char('m'), 246_940_000i64),
    ]
}

/// The frequency that `table` gives `key`, or 0 for a key it lacks.
pub open spec fn pitch_of(table: Seq<(KeyCode, i64)>, key: KeyCode) -> int
    decreases table.len(),
{
    if table.len() == 0 {
        0
    } else if table[0].0 == key {
        table[0].1 as int
    } else {
        pitch_of(table.drop_first(), key)
    }
}

/// The time, in microseconds, of sample `cursor + i` at `rate` samples per
/// second, rounded down and saturated.
pub open spec fn time_of(cursor: int, i: int, rate: int) -> int {
    let t = (cursor + i) * ONE / rate;
    if t > i64::MAX {
        i64::MAX as int
    } else {
        t
    }
}

/// The part that one note adds to a sample, its noise drawing `d`.
pub open spec fn contribution(
    osc: Oscillator,
    env: Envelope,
    table: Seq<(KeyCode, i64)>,
    e: KeyboardBufferEvent,
    t: int,
    now: int,
    d: Seq<int>,
) -> int {
    mul_spec(osc.value(t, pitch_of(table, e.key), d), env.level(now, e.time_press as int, e.time_release))
}

/// The saturating sum, in buffer order, of the contributions of `events`,
/// note `k` drawing `ds[k]`.
pub open spec fn mix(
    osc: Oscillator,
    env: Envelope,
    table: Seq<(KeyCode, i64)>,
    events: Seq<KeyboardBufferEvent>,
    t: int,
    now: int,
    ds: Seq<Seq<int>>,
) -> int
    decreases events.len(),
{
    if events.len() == 0 {
        0
    } else {
        add_spec(
            mix(osc, env, table, events.drop_last(), t, now, ds.drop_last()),
            contribution(osc, env, table, events.last(), t, now, ds.last()),
        )
    }
}

/// Noise draws for `count` notes, each fit for `n` noise nodes.
pub open spec fn all_draws_ok(ds: Seq<Seq<int>>, n: nat, count: int) -> bool {
    &&& ds.len() == count
    &&& forall|k: int| 0 <= k < ds.len() ==> draws_ok(#[trigger] ds[k], n)
}

/// Where the cursor stands after starting at `start` and advancing by each
/// of `steps` in turn, wrapping at `u128::MAX`.
pub open spec fn advanced(start: int, steps: Seq<u128>) -> int
    decreases steps.len(),
{
    if steps.len() == 0 {
        start
    } else {
        (advanced(start, steps.drop_last()) + steps.last()) % (u128::MAX as int)
    }
}

pub open spec fn total(steps: Seq<u128>) -> int
    decreases steps.len(),
{
    if steps.len() == 0 {
        0
    } else {
        total(steps.drop_last()) + steps.last()
    }
}

/// A press of `r` redraws the oscillator and the envelope.
pub open spec fn is_randomize_event(event: KeyEvent) -> bool {
    event.kind == KeyEventKind::Press && event.code == KeyCode::Char('r')
}

/// Owns the oscillator, the envelope, the keyboard buffer, the pitch table,
/// the sample rate and the sample cursor.
pub struct Instrument {
    sr: u32,
    freq: i64,
    cursor: u128,
    oscillator: Oscillator,
    keyboard_buffer: KeyboardBuffer,
    envelope: Envelope,
    key_to_freq: Vec<(KeyCode, i64)>,
}

impl Instrument {
    pub closed spec fn spec_sample_rate(&self) -> int {
        self.sr as int
    }

    pub closed spec fn spec_frequency(&self) -> int {
        self.freq as int
    }

    pub closed spec fn spec_cursor(&self) -> int {
        self.cursor as int
    }

    pub closed spec fn spec_oscillator(&self) -> Oscillator {
        self.oscillator
    }

    pub closed spec fn spec_envelope(&self) -> Envelope {
        self.envelope
    }

    pub closed spec fn spec_buffer(&self) -> KeyboardBuffer {
        self.keyboard_buffer
    }

    pub closed spec fn spec_pitch_table(&self) -> Seq<(KeyCode, i64)> {
        self.key_to_freq@
    }

    /// The cursor stays below its wrapping point, the buffer keeps its keys
    /// unique, and the pitch table is the fixed one.
    pub closed spec fn wf(&self) -> bool {
        &&& self.cursor < u128::MAX
        &&& self.keyboard_buffer.wf()
        &&& self.key_to_freq@ == default_pitch_table()
    }

    /// Everything but the notes, the oscillator and the envelope is as in
    /// `other`.
    pub open spec fn same_setup(&self, other: &Instrument) -> bool {
        &&& self.spec_sample_rate() == other.spec_sample_rate()
        &&& self.spec_frequency() == other.spec_frequency()
        &&& self.spec_cursor() == other.spec_cursor()
        &&& self.spec_pitch_table() == other.spec_pitch_table()
    }

    /// Sample `i` of the current buffer at time `now`, when note `k` of the
    /// buffer draws the noise `ds[k]`: silence until the sample rate is set.
    pub open spec fn output(&self, i: int, now: int, ds: Seq<Seq<int>>) -> int {
        if self.spec_sample_rate() == 0 {
            0
        } else {
            mix(
                self.spec_oscillator(),
                self.spec_envelope(),
                self.spec_pitch_table(),
                self.spec_buffer()@,
                time_of(self.spec_cursor(), i, self.spec_sample_rate()),
                now,
                ds,
            )
        }
    }

    /// Plain sine synthesis with the default envelope, no notes, no sample
    /// rate yet, and the cursor at 0.
    pub fn new() -> (r: Instrument)
        ensures
            r.wf(),
            r.spec_sample_rate() == 0,
            r.spec_cursor() == 0,
            r.spec_frequency() == 220 * ONE,
            r.spec_buffer()@ == Seq::<KeyboardBufferEvent>::empty(),
            r.spec_envelope() == Envelope(ONE, ONE, 200_000, ONE),
            r.spec_oscillator().is_plain_sine(),
            r.spec_pitch_table() == default_pitch_table(),
    {
        let mut k2f: Vec<(KeyCode, i64)> = Vec::new();
        k2f.push((KeyCode::Char('z'), 130_810_000));
        k2f.push((KeyCode::Char('s'), 138_590_000));
        k2f.push((KeyCode::Char('x'), 146_830_000));
        k2f.push((KeyCode::Char('d'), 155_560_000));
        k2f.push((KeyCode::Char('c'), 164_810_000));
        k2f.push((KeyCode::Char('v'), 174_610_000));
        k2f.push((KeyCode::Char('g'), 185_000_000));
        k2f.push((KeyCode::Char('b'), 196_000_000));
        k2f.push((KeyCode::Char('h'), 207_650_000));
        k2f.push((KeyCode::Char('n'), 220_000_000));
        k2f.push((KeyCode::Char('j'), 233_080_000));
        k2f.push((KeyCode::Char('m'), 246_940_000));
        assert(k2f@ =~= default_pitch_table());
        Instrument {
            sr: 0,
            freq: 220 * ONE,
            cursor: 0,
            oscillator: Oscillator::sine(),
            keyboard_buffer: KeyboardBuffer::new(),
            envelope: Envelope::new(),
            key_to_freq: k2f,
        }
    }

    pub fn keyboard_buffer(&self) -> (r: &KeyboardBuffer)
        ensures
            *r == self.spec_buffer(),
    {
        &self.keyboard_buffer
    }

    /// Moves the cursor on by `n` samples, wrapping at `u128::MAX`.
    pub fn advance_cursor(&mut self, n: u128)
        requires
            old(self).wf(),
        ensures
            final(self).wf(),
            final(self).spec_cursor() == (old(self).spec_cursor() + n) % (u128::MAX as int),
            final(self).spec_sample_rate() == old(self).spec_sample_rate(),
            final(self).spec_frequency() == old(self).spec_frequency(),
            final(self).spec_buffer() == old(self).spec_buffer(),
            final(self).spec_pitch_table() == old(self).spec_pitch_table(),
            final(self).spec_oscillator() == old(self).spec_oscillator(),
            final(self).spec_envelope() == old(self).spec_envelope(),
    {
        let wrap: u128 = u128::MAX;
        let m: u128 = n % wrap;
        let room: u128 = wrap - self.cursor;
        let c = self.cursor;
        proof {
            let (ci, mi, w) = (c as int, m as int, wrap as int);
            lemma_add_mod_noop_right(ci, n as int, w);
            if mi >= w - ci {
                lemma_fundamental_div_mod_converse(ci + mi, w, 1, ci + mi - w);
            } else {
                lemma_fundamental_div_mod_converse(ci + mi, w, 0, ci + mi);
            }
        }
        if m >= room {
            self.cursor = m - room;
        } else {
            self.cursor = c + m;
        }
    }

    pub fn cursor(&self) -> (r: u128)
        ensures
            r == self.spec_cursor(),
    {
        self.cursor
    }

    pub fn set_sample_rate(&mut self, sr: u32)
        requires
            old(self).wf(),
        ensures
            final(self).wf(),
            final(self).spec_sample_rate() == sr,
            final(self).spec_frequency() == old(self).spec_frequency(),
            final(self).spec_cursor() == old(self).spec_cursor(),
            final(self).spec_buffer() == old(self).spec_buffer(),
            final(self).spec_pitch_table() == old(self).spec_pitch_table(),
            final(self).spec_oscillator() == old(self).spec_oscillator(),
            final(self).spec_envelope() == old(self).spec_envelope(),
    {
        self.sr = sr;
    }

    pub fn set_frequency(&mut self, f: i64)
        requires
            old(self).wf(),
        ensures
            final(self).wf(),
            final(self).spec_frequency() == f,
            final(self).spec_sample_rate() == old(self).spec_sample_rate(),
            final(self).spec_cursor() == old(self).spec_cursor(),
            final(self).spec_buffer() == old(self).spec_buffer(),
            final(self).spec_pitch_table() == old(self).spec_pitch_table(),
            final(self).spec_oscillator() == old(self).spec_oscillator(),
            final(self).spec_envelope() == old(self).spec_envelope(),
    {
        self.freq = f;
    }

    pub fn sample_rate(&self) -> (r: u128)
        ensures
            r == self.spec_sample_rate(),
    {
        self.sr as u128
    }

    /// The time of sample `i` of the current buffer.
    fn t(&self, i: u128) -> (r: i64)
        requires
            self.spec_sample_rate() > 0,
        ensures
            r == time_of(self.spec_cursor() as int, i as int, self.spec_sample_rate() as int),
    {
        let rate: u128 = self.sr as u128;
        let one: u128 = ONE as u128;
        let ghost limit: int = i64::MAX as int + 1;
        match self.cursor.checked_add(i) {
            None => {
                proof {
                    let x = (self.cursor + i) * ONE;
                    assert(limit * rate <= x) by (nonlinear_arith)
                        requires
                            limit == 0x8000_0000_0000_0000,
                            0 < rate < 0x1_0000_0000,
                            self.cursor + i > u128::MAX,
                            x == (self.cursor + i) * ONE,
                    ;
                    lemma_div_is_ordered(limit * rate, x, rate as int);
                    lemma_div_by_multiple(limit, rate as int);
                }
                i64::MAX
            },
            Some(pos) => {
                let secs: u128 = pos / rate;
                let rem: u128 = pos % rate;
                proof {
                    let (p, r) = (pos as int, rate as int);
                    let o = ONE as int;
                    lemma_fundamental_div_mod(p, r);
                    lemma_fundamental_div_mod(rem * o, r);
                    let q2 = rem * o / r;
                    let r2 = rem * o % r;
                    assert(p * o == (secs * o + q2) * r + r2) by (nonlinear_arith)
                        requires
                            p == r * secs + rem,
                            rem * o == r * q2 + r2,
                    ;
                    lemma_fundamental_div_mod_converse(p * o, r, secs * o + q2, r2);
                    lemma_div_pos_is_pos(rem * o, r);
                    assert(rem * o < r * o) by (nonlinear_arith)
                        requires
                            rem < r,
                            o > 0,
                    ;
                    lemma_div_is_ordered(rem * o, r * o, r);
                    lemma_div_by_multiple(o, r);
                    assert(r * o == o * r) by (nonlinear_arith);
                }
                if secs >= 10_000_000_000_000 {
                    i64::MAX
                } else {
                    let v: u128 = secs * one + rem * one / rate;
                    if v > i64::MAX as u128 {
                        i64::MAX
                    } else {
                        v as i64
                    }
                }
            },
        }
    }

    /// Sample `i` of the current buffer at time `now` (microseconds since
    /// start): over every note in the buffer, the oscillator at that note's
    /// pitch times the note's envelope, summed without normalization.
    pub fn gen(&self, i: u128, now: i64) -> (r: i64)
        ensures
            exists|ds: Seq<Seq<int>>|
                all_draws_ok(ds, self.spec_oscillator().noise_count(), self.spec_buffer()@.len() as int)
                    && r == self.output(i as int, now as int, ds),
            self.spec_oscillator().noise_count() == 0 ==> r == self.output(
                i as int,
                now as int,
                Seq::new(self.spec_buffer()@.len(), |k: int| Seq::<int>::empty()),
            ),
    {
        let ghost osc = self.oscillator;
        let ghost nc = osc.noise_count();
        let events = self.keyboard_buffer.event_buffer();
        let ghost evs = events@;
        if self.sr == 0 {
            let ghost ds = Seq::new(evs.len(), |k: int| Seq::new(nc, |j: int| 0));
            assert forall|k: int| 0 <= k < ds.len() implies draws_ok(#[trigger] ds[k], nc) by {
                assert(ds[k].len() == nc);
            }
            assert(all_draws_ok(ds, nc, evs.len() as int) && 0 == self.output(i as int, now as int, ds));
            return 0;
        }
        let t = self.t(i);
        let mut acc: i64 = 0;
        let ghost mut ds: Seq<Seq<int>> = Seq::empty();
        let mut k: usize = 0;
        while k < events.len()
            invariant
                evs == events@,
                evs == self.keyboard_buffer@,
                osc == self.oscillator,
                nc == osc.noise_count(),
                k <= evs.len(),
                all_draws_ok(ds, nc, k as int),
                acc == mix(osc, self.envelope, self.key_to_freq@, evs.take(k as int), t as int, now as int, ds),
            decreases evs.len() - k,
        {
            let e = events[k];
            let f = self.pitch(e.key);
            let amp = self.envelope.sample(now, e.time_press, e.time_release);
            let v = self.oscillator.gen(t, f);
            let c = fx_mul(v, amp);
            proof {
                let d = choose|d: Seq<int>| draws_ok(d, nc) && v == osc.value(t as int, f as int, d);
                let ds2 = ds.push(d);
                assert(evs.take(k + 1).drop_last() =~= evs.take(k as int));
                assert(ds2.drop_last() =~= ds);
                assert(evs.take(k + 1).last() == e);
                ds = ds2;
            }
            acc = fx_add(acc, c);
            k = k + 1;
        }
        assert(evs.take(evs.len() as int) =~= evs);
        assert(all_draws_ok(ds, nc, evs.len() as int) && acc == self.output(i as int, now as int, ds));
        proof {
            if nc == 0 {
                assert forall|k: int| 0 <= k < ds.len() implies #[trigger] ds[k] == Seq::<int>::empty() by {
                    assert(draws_ok(ds[k], 0));
                    assert(ds[k] =~= Seq::<int>::empty());
                }
                assert(ds =~= Seq::new(evs.len(), |k: int| Seq::<int>::empty()));
            }
        }
        acc
    }

    /// A press of `r` redraws the oscillator and the envelope as a whole;
    /// every other event goes to the keyboard buffer, stamped `timestamp`.
    pub fn handle_key_event(&mut self, event: KeyEvent, timestamp: i64)
        requires
            old(self).wf(),
        ensures
            final(self).wf(),
            final(self).same_setup(old(self)),
            is_randomize_event(event) ==> {
                &&& final(self).spec_buffer()@ == old(self).spec_buffer()@
                &&& final(self).spec_oscillator().in_palette()
                &&& final(self).spec_envelope().in_palette()
            },
            !is_randomize_event(event) ==> {
                &&& final(self).spec_buffer()@ == after_event(old(self).spec_buffer()@, event, timestamp)
                &&& final(self).spec_oscillator() == old(self).spec_oscillator()
                &&& final(self).spec_envelope() == old(self).spec_envelope()
            },
    {
        if event.kind == KeyEventKind::Press && event.code == KeyCode::Char('r') {
            self.oscillator.randomize();
            self.envelope.randomize();
        } else {
            self.keyboard_buffer.handle_key_event(event, timestamp);
        }
    }

    /// Drops the notes whose sound has decayed: those released at least
    /// the envelope's `release_decay_time` ago.
    pub fn cleanup_events(&mut self, now: i64)
        requires
            old(self).wf(),
        ensures
            final(self).wf(),
            final(self).same_setup(old(self)),
            final(self).spec_buffer()@ == after_sweep(old(self).spec_buffer()@, now as int, old(self).spec_envelope().3 as int),
            final(self).spec_oscillator() == old(self).spec_oscillator(),
            final(self).spec_envelope() == old(self).spec_envelope(),
    {
        let limit = self.envelope.3;
        self.keyboard_buffer.clean_stale_events(now, Some(limit));
    }

    /// The frequency of `key` in the pitch table, 0 if it has none.
    fn pitch(&self, key: KeyCode) -> (r: i64)
        ensures
            r == pitch_of(self.key_to_freq@, key),
    {
        let ghost tab = self.key_to_freq@;
        assert(tab.subrange(0, tab.len() as int) =~= tab);
        let mut i: usize = 0;
        while i < self.key_to_freq.len()
            invariant
                tab == self.key_to_freq@,
                i <= tab.len(),
                pitch_of(tab, key) == pitch_of(tab.subrange(i as int, tab.len() as int), key),
            decreases tab.len() - i,
        {
            let entry = self.key_to_freq[i];
            proof {
                let rest = tab.subrange(i as int, tab.len() as int);
                assert(rest[0] == entry);
                assert(rest.drop_first() =~= tab.subrange(i + 1, tab.len() as int));
            }
            if entry.0 == key {
                return entry.1;
            }
            i = i + 1;
        }
        0
    }
}

/// Advancing the cursor from 0 by `n_1`, ..., `n_k` in turn leaves it at
/// `(n_1 + ... + n_k) mod u128::MAX`.
pub proof fn cursor_after_advances(steps: Seq<u128>)
    ensures
        advanced(0, steps) == total(steps) % (u128::MAX as int),
    decreases steps.len(),
{
    let m = u128::MAX as int;
    if steps.len() == 0 {
        lemma_small_mod(0, m as nat);
    } else {
        let rest = steps.drop_last();
        cursor_after_advances(rest);
        lemma_add_mod_noop_right(steps.last() as int, total(rest), m);
    }
}

/// Advancing the cursor by `n` keeps the phase: sample `i` after the
/// advance falls at the time of sample `n + i` before it.
pub proof fn advance_keeps_phase(cursor: int, n: int, i: int, rate: int)
    requires
        0 <= cursor,
        0 <= n,
        cursor + n < u128::MAX,
    ensures
        time_of((cursor + n) % (u128::MAX as int), i, rate) == time_of(cursor, n + i, rate),
{
    lemma_small_mod((cursor + n) as nat, u128::MAX as nat);
}

} // verus!
