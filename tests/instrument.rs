use synth::{Instrument, KeyCode, KeyEvent, KeyEventKind, ONE};

fn press(c: char) -> KeyEvent {
    KeyEvent { code: KeyCode::Char(c), kind: KeyEventKind::Press }
}

#[test]
fn silent_until_sample_rate_is_set() {
    let mut inst = Instrument::new();
    inst.handle_key_event(press('n'), 0);
    assert_eq!(inst.sample_rate(), 0);
    assert_eq!(inst.gen(10, 2 * ONE), 0);
}

#[test]
fn mixes_a_held_note_with_its_envelope() {
    let mut inst = Instrument::new();
    inst.set_sample_rate(1_000_000);
    inst.handle_key_event(press('n'), 0);
    let got = inst.gen(1_000, 2 * ONE) as f64 / ONE as f64;
    let expected = (0.22f64 * std::f64::consts::FRAC_PI_2).sin() * 0.2;
    assert!((got - expected).abs() < 3e-6, "{} vs {}", got, expected);
}

#[test]
fn notes_add_up_without_normalization() {
    let mut inst = Instrument::new();
    inst.set_sample_rate(48_000);
    inst.handle_key_event(press('z'), 0);
    let single = inst.gen(100, 2 * ONE);
    inst.handle_key_event(KeyEvent { code: KeyCode::Other(3), kind: KeyEventKind::Press }, 0);
    assert_eq!(inst.gen(100, 2 * ONE), single);
    inst.handle_key_event(press('m'), 0);
    let both = inst.gen(100, 2 * ONE);
    let mut only_m = Instrument::new();
    only_m.set_sample_rate(48_000);
    only_m.handle_key_event(press('m'), 0);
    assert_eq!(both, single + only_m.gen(100, 2 * ONE));
}

#[test]
fn cursor_advances_by_sum_and_wraps() {
    let mut inst = Instrument::new();
    assert_eq!(inst.cursor(), 0);
    for n in [512u128, 1024, 7] {
        inst.advance_cursor(n);
    }
    assert_eq!(inst.cursor(), 1543);
    inst.advance_cursor(u128::MAX - 1543 - 1);
    assert_eq!(inst.cursor(), u128::MAX - 1);
    inst.advance_cursor(5);
    assert_eq!(inst.cursor(), 4);
    inst.advance_cursor(u128::MAX);
    assert_eq!(inst.cursor(), 4);
}

#[test]
fn cursor_moves_the_sample_time() {
    let mut a = Instrument::new();
    a.set_sample_rate(8_000);
    a.handle_key_event(press('b'), 0);
    let mut b = Instrument::new();
    b.set_sample_rate(8_000);
    b.handle_key_event(press('b'), 0);
    b.advance_cursor(100);
    assert_eq!(a.gen(130, 3 * ONE), b.gen(30, 3 * ONE));
}

#[test]
fn randomize_key_keeps_notes_and_setup() {
    let mut inst = Instrument::new();
    inst.set_sample_rate(44_100);
    inst.handle_key_event(press('v'), 0);
    inst.advance_cursor(99);
    inst.handle_key_event(press('r'), ONE);
    assert_eq!(inst.keyboard_buffer().event_buffer().len(), 1);
    assert_eq!(inst.cursor(), 99);
    assert_eq!(inst.sample_rate(), 44_100);
    let _ = inst.gen(0, 2 * ONE);
    inst.handle_key_event(KeyEvent { code: KeyCode::Char('r'), kind: KeyEventKind::Release }, ONE);
    assert_eq!(inst.keyboard_buffer().event_buffer().len(), 1);
}

#[test]
fn cleanup_uses_release_decay_time() {
    let mut inst = Instrument::new();
    inst.handle_key_event(press('g'), 0);
    inst.handle_key_event(KeyEvent { code: KeyCode::Char('g'), kind: KeyEventKind::Release }, ONE);
    inst.cleanup_events(2 * ONE - 1);
    assert_eq!(inst.keyboard_buffer().event_buffer().len(), 1);
    inst.cleanup_events(2 * ONE);
    assert_eq!(inst.keyboard_buffer().event_buffer().len(), 0);
}

#[test]
fn pitch_table_gives_each_key_its_frequency() {
    let sr: u32 = 1_000_000;
    for (key, hz) in [('z', 130.81f64), ('b', 196.00), ('m', 246.94)] {
        let mut inst = Instrument::new();
        inst.set_sample_rate(sr);
        inst.handle_key_event(press(key), 0);
        let got = inst.gen(1_000, 2 * ONE) as f64 / ONE as f64;
        let expected = (0.001 * hz * std::f64::consts::FRAC_PI_2).sin() * 0.2;
        assert!((got - expected).abs() < 3e-6, "{}: {} vs {}", key, got, expected);
    }
    let mut other = Instrument::new();
    other.set_sample_rate(sr);
    other.handle_key_event(press('a'), 0);
    assert_eq!(other.gen(1_000, 2 * ONE), 0);
}
