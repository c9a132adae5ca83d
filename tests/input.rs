use synth::input::DEFAULT_STALE_LIMIT;
use synth::{KeyCode, KeyEvent, KeyEventKind, KeyboardBuffer, ONE};

fn press(c: char) -> KeyEvent {
    KeyEvent { code: KeyCode::Char(c), kind: KeyEventKind::Press }
}

fn release(c: char) -> KeyEvent {
    KeyEvent { code: KeyCode::Char(c), kind: KeyEventKind::Release }
}

#[test]
fn repeated_press_keeps_first_press_time() {
    let mut b = KeyboardBuffer::new();
    b.handle_key_event(press('z'), 100);
    b.handle_key_event(press('z'), 900);
    b.handle_key_event(KeyEvent { code: KeyCode::Char('z'), kind: KeyEventKind::Repeat }, 950);
    let events = b.event_buffer();
    assert_eq!(events.len(), 1);
    assert_eq!(events[0].time_press, 100);
    assert_eq!(events[0].time_release, None);
}

#[test]
fn release_is_recorded_once() {
    let mut b = KeyboardBuffer::new();
    b.handle_key_event(press('x'), 10);
    b.handle_key_event(release('x'), 20);
    b.handle_key_event(release('x'), 30);
    b.handle_key_event(press('x'), 40);
    let events = b.event_buffer();
    assert_eq!(events.len(), 1);
    assert_eq!(events[0].time_press, 10);
    assert_eq!(events[0].time_release, Some(20));
}

#[test]
fn release_of_absent_key_changes_nothing() {
    let mut b = KeyboardBuffer::new();
    b.handle_key_event(press('c'), 5);
    b.handle_key_event(release('v'), 6);
    b.handle_key_event(KeyEvent { code: KeyCode::Other(7), kind: KeyEventKind::Release }, 7);
    let events = b.event_buffer();
    assert_eq!(events.len(), 1);
    assert_eq!(events[0].key, KeyCode::Char('c'));
    assert_eq!(events[0].time_release, None);
}

#[test]
fn sweep_drops_events_at_the_limit() {
    let mut b = KeyboardBuffer::new();
    b.handle_key_event(press('a'), 0);
    b.handle_key_event(press('b'), 0);
    b.handle_key_event(press('c'), 0);
    b.handle_key_event(release('a'), ONE);
    b.handle_key_event(release('b'), ONE + 1);
    b.clean_stale_events(2 * ONE, Some(ONE));
    let events = b.event_buffer();
    assert_eq!(events.len(), 2);
    assert_eq!(events[0].key, KeyCode::Char('b'));
    assert_eq!(events[1].key, KeyCode::Char('c'));
}

#[test]
fn held_notes_are_never_swept() {
    let mut b = KeyboardBuffer::new();
    b.handle_key_event(press('q'), 0);
    b.clean_stale_events(1_000 * ONE, Some(0));
    assert_eq!(b.event_buffer().len(), 1);
}

#[test]
fn sweep_limit_defaults_to_two_seconds() {
    assert_eq!(DEFAULT_STALE_LIMIT, 2 * ONE);
    let mut b = KeyboardBuffer::new();
    b.handle_key_event(press('m'), 0);
    b.handle_key_event(release('m'), ONE);
    b.clean_stale_events(3 * ONE - 1, None);
    assert_eq!(b.event_buffer().len(), 1);
    b.clean_stale_events(3 * ONE, None);
    assert_eq!(b.event_buffer().len(), 0);
}

#[test]
fn pressing_again_after_sweep_starts_a_new_note() {
    let mut b = KeyboardBuffer::new();
    b.handle_key_event(press('n'), 0);
    b.handle_key_event(release('n'), 10);
    b.clean_stale_events(ONE, Some(5));
    b.handle_key_event(press('n'), ONE);
    let events = b.event_buffer();
    assert_eq!(events.len(), 1);
    assert_eq!(events[0].time_press, ONE);
}
