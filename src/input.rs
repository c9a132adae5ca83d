//! Key events and the buffer of notes that are held or still fading out.

use vstd::prelude::*;
use crate::fixed::ONE;

verus! {

/// A key of the keyboard: a character key, or another key by its number.
#[derive(Clone, Copy, Debug, PartialEq, Eq, Structural)]
pub enum KeyCode {
    Char(char),
    Other(u32),
}

/// What happened to a key.
#[derive(Clone, Copy, Debug, PartialEq, Eq, Structural)]
pub enum KeyEventKind {
    Press,
    Repeat,
    Release,
}

/// A key and what happened to it.
#[derive(Clone, Copy, Debug, PartialEq, Eq, Structural)]
pub struct KeyEvent {
    pub code: KeyCode,
    pub kind: KeyEventKind,
}

/// The latest keystroke of one key: when it was pressed and, once it has
/// been, when it was released (microseconds).
#[derive(Clone, Copy, Debug)]
pub struct KeyboardBufferEvent {
    pub key: KeyCode,
    pub time_press: i64,
    pub time_release: Option<i64>,
}

/// How long a released note stays in the buffer when no limit is given:
/// two seconds.
pub const DEFAULT_STALE_LIMIT: i64 = 2_000_000;

/// No key appears twice.
pub open spec fn keys_unique(s: Seq<KeyboardBufferEvent>) -> bool {
    forall|i: int, j: int| 0 <= i < j < s.len() ==> s[i].key != s[j].key
}

pub open spec fn has_key(s: Seq<KeyboardBufferEvent>, key: KeyCode) -> bool {
    exists|i: int| 0 <= i < s.len() && s[i].key == key
}

/// Where `key` stands in `s`, if it does.
pub open spec fn index_of(s: Seq<KeyboardBufferEvent>, key: KeyCode) -> int {
    choose|i: int| 0 <= i < s.len() && s[i].key == key
}

/// A press adds a held event for a key that is absent, and changes nothing
/// for a key that is held or released.
pub open spec fn after_press(s: Seq<KeyboardBufferEvent>, key: KeyCode, t: i64) -> Seq<KeyboardBufferEvent> {
    if has_key(s, key) {
        s
    } else {
        s.push(KeyboardBufferEvent { key, time_press: t, time_release: None })
    }
}

/// A release records its time on a held key, and changes nothing for a key
/// that is absent or already released.
pub open spec fn after_release(s: Seq<KeyboardBufferEvent>, key: KeyCode, t: i64) -> Seq<KeyboardBufferEvent> {
    let i = index_of(s, key);
    if has_key(s, key) && s[i].time_release is None {
        s.update(i, KeyboardBufferEvent { time_release: Some(t), ..s[i] })
    } else {
        s
    }
}

/// The buffer after `event` at time `t`.
pub open spec fn after_event(s: Seq<KeyboardBufferEvent>, event: KeyEvent, t: i64) -> Seq<KeyboardBufferEvent> {
    match event.kind {
        KeyEventKind::Press => after_press(s, event.code, t),
        KeyEventKind::Release => after_release(s, event.code, t),
        KeyEventKind::Repeat => s,
    }
}

/// `e` was released at least `limit` before `now`.
pub open spec fn is_stale(e: KeyboardBufferEvent, now: int, limit: int) -> bool {
    match e.time_release {
        Some(t1) => now - t1 >= limit,
        None => false,
    }
}

/// `e` is one of the first `n` events of `s`.
spec fn in_prefix(e: KeyboardBufferEvent, s: Seq<KeyboardBufferEvent>, n: int) -> bool {
    exists|k: int| 0 <= k < n && e == s[k]
}

pub open spec fn is_fresh(now: int, limit: int) -> spec_fn(KeyboardBufferEvent) -> bool {
    |e: KeyboardBufferEvent| !is_stale(e, now, limit)
}

/// A sweep keeps, in order, the events that are not stale.
pub open spec fn after_sweep(s: Seq<KeyboardBufferEvent>, now: int, limit: int) -> Seq<KeyboardBufferEvent> {
    s.filter(is_fresh(now, limit))
}

/// The notes that are held or were released recently, at most one per key,
/// in the order in which their keys were first pressed.
pub struct KeyboardBuffer {
    event_buffer: Vec<KeyboardBufferEvent>,
}

impl View for KeyboardBuffer {
    type V = Seq<KeyboardBufferEvent>;

    closed spec fn view(&self) -> Seq<KeyboardBufferEvent> {
        self.event_buffer@
    }
}

impl KeyboardBuffer {
    pub open spec fn wf(&self) -> bool {
        keys_unique(self@)
    }

    pub fn new() -> (r: KeyboardBuffer)
        ensures
            r@ == Seq::<KeyboardBufferEvent>::empty(),
            r.wf(),
    {
        KeyboardBuffer { event_buffer: Vec::new() }
    }

    /// The events, in buffer order.
    pub fn event_buffer(&self) -> (r: &Vec<KeyboardBufferEvent>)
        ensures
            r@ == self@,
    {
        &self.event_buffer
    }

    fn find(&self, key: KeyCode) -> (r: Option<usize>)
        ensures
            match r {
                Some(i) => i < self@.len() && self@[i as int].key == key,
                None => !has_key(self@, key),
            },
    {
        let mut i: usize = 0;
        while i < self.event_buffer.len()
            invariant
                i <= self@.len(),
                self@ == self.event_buffer@,
                forall|j: int| 0 <= j < i ==> self@[j].key != key,
            decreases self@.len() - i,
        {
            if self.event_buffer[i].key == key {
                return Some(i);
            }
            i = i + 1;
        }
        None
    }

    /// Records a press at `timestamp` unless the key is already in the
    /// buffer, and a release at `timestamp` if the key is held; a repeat
    /// changes nothing.
    pub fn handle_key_event(&mut self, event: KeyEvent, timestamp: i64)
        requires
            old(self).wf(),
        ensures
            final(self).wf(),
            final(self)@ == after_event(old(self)@, event, timestamp),
    {
        let found = self.find(event.code);
        match event.kind {
            KeyEventKind::Press => {
                if found.is_none() {
                    self.event_buffer.push(
                        KeyboardBufferEvent { key: event.code, time_press: timestamp, time_release: None },
                    );
                }
            },
            KeyEventKind::Release => {
                if let Some(i) = found {
                    proof {
                        assert(index_of(old(self)@, event.code) == i);
                    }
                    let e = self.event_buffer[i];
                    if e.time_release.is_none() {
                        self.event_buffer.set(
                            i,
                            KeyboardBufferEvent { key: e.key, time_press: e.time_press, time_release: Some(timestamp) },
                        );
                    }
                }
            },
            KeyEventKind::Repeat => {},
        }
    }

    /// Drops every event released at least `stale_time_limit` (by default
    /// `DEFAULT_STALE_LIMIT`) before `now`; held notes always stay.
    pub fn clean_stale_events(&mut self, now: i64, stale_time_limit: Option<i64>)
        requires
            old(self).wf(),
        ensures
            final(self).wf(),
            final(self)@ == after_sweep(
                old(self)@,
                now as int,
                match stale_time_limit {
                    Some(l) => l as int,
                    None => DEFAULT_STALE_LIMIT as int,
                },
            ),
    {
        let limit: i64 = match stale_time_limit {
            Some(l) => l,
            None => DEFAULT_STALE_LIMIT,
        };
        let ghost s = self@;
        let ghost keep = is_fresh(now as int, limit as int);
        let mut kept: Vec<KeyboardBufferEvent> = Vec::new();
        let mut i: usize = 0;
        while i < self.event_buffer.len()
            invariant
                i <= s.len(),
                s == self.event_buffer@,
                keys_unique(s),
                keep == is_fresh(now as int, limit as int),
                kept@ == s.take(i as int).filter(keep),
                forall|j: int| 0 <= j < kept@.len() ==> in_prefix(#[trigger] kept@[j], s, i as int),
                keys_unique(kept@),
            decreases s.len() - i,
        {
            let e = self.event_buffer[i];
            let stale: bool = match e.time_release {
                Some(t1) => now as i128 - t1 as i128 >= limit as i128,
                None => false,
            };
            proof {
                assert(s.take(i as int + 1) =~= s.take(i as int).push(e));
                s.take(i as int).lemma_filter_push(e, keep);
                assert(stale == is_stale(e, now as int, limit as int));
                assert(keep(e) == !stale);
            }
            if !stale {
                proof {
                    assert forall|j: int| 0 <= j < kept@.len() implies kept@[j].key != e.key by {
                        assert(in_prefix(kept@[j], s, i as int));
                        let k = choose|k: int| 0 <= k < i && kept@[j] == s[k];
                    }
                }
                kept.push(e);
                proof {
                    assert forall|j: int| 0 <= j < kept@.len() implies in_prefix(#[trigger] kept@[j], s, i + 1) by {
                        if j == kept@.len() - 1 {
                            assert(kept@[j] == s[i as int]);
                        } else {
                            assert(in_prefix(kept@[j], s, i as int));
                            let k = choose|k: int| 0 <= k < i && kept@[j] == s[k];
                            assert(0 <= k < i + 1 && kept@[j] == s[k]);
                        }
                    }
                }
            }
            i = i + 1;
        }
        proof {
            assert(s.take(s.len() as int) =~= s);
        }
        self.event_buffer = kept;
    }
}

/// Pressing a key that is already in the buffer, held or released, leaves
/// the buffer as it was: its recorded press time stays.
pub proof fn repeated_press_keeps_press_time(s: Seq<KeyboardBufferEvent>, key: KeyCode, t: i64)
    requires
        has_key(s, key),
    ensures
        after_press(s, key, t) == s,
{
}

/// Releasing a key that is not in the buffer changes nothing.
pub proof fn release_of_absent_key_is_noop(s: Seq<KeyboardBufferEvent>, key: KeyCode, t: i64)
    requires
        !has_key(s, key),
    ensures
        after_release(s, key, t) == s,
{
}

/// After a sweep a key is still in the buffer exactly when its event is not
/// stale: held notes always stay, and a released one goes only once
/// `now - time_release >= limit`.
pub proof fn sweep_removes_only_stale(s: Seq<KeyboardBufferEvent>, now: int, limit: int, i: int)
    requires
        keys_unique(s),
        0 <= i < s.len(),
    ensures
        has_key(after_sweep(s, now, limit), s[i].key) <==> !is_stale(s[i], now, limit),
{
    let keep = is_fresh(now, limit);
    let f = s.filter(keep);
    if !is_stale(s[i], now, limit) {
        s.lemma_filter_contains(keep, i);
        let j = choose|j: int| 0 <= j < f.len() && f[j] == s[i];
        assert(f[j].key == s[i].key);
    } else if has_key(f, s[i].key) {
        let j = choose|j: int| 0 <= j < f.len() && f[j].key == s[i].key;
        assert(f.contains(f[j]));
        s.lemma_filter_contains_rev(keep, f[j]);
        s.lemma_filter_pred(keep, j);
        let m = choose|m: int| 0 <= m < s.len() && s[m] == f[j];
        assert(m == i);
    }
}

} // verus!
