use soundboard::accumulator::{SequenceAccumulator, TapAction, IDLE_WINDOW_MS};
use soundboard::keyboard::KeyboardWatcher;
use soundboard::keys::{classify, KeyEvent, KeyInput, RawKey};
use soundboard::listener::{ListenerAction, ListenerEvent, ListenerState};

#[derive(Debug, PartialEq, Eq, Clone, Copy)]
enum Action {
    ActionA,
    ActionB,
    ActionC,
}

#[test]
fn translation_table() {
    assert_eq!(classify(RawKey::UpArrow), KeyEvent::Symbol(KeyInput::Up));
    assert_eq!(classify(RawKey::Kp8), KeyEvent::Symbol(KeyInput::Up));
    assert_eq!(classify(RawKey::DownArrow), KeyEvent::Symbol(KeyInput::Down));
    assert_eq!(classify(RawKey::Kp2), KeyEvent::Symbol(KeyInput::Down));
    assert_eq!(classify(RawKey::LeftArrow), KeyEvent::Symbol(KeyInput::Left));
    assert_eq!(classify(RawKey::Kp4), KeyEvent::Symbol(KeyInput::Left));
    assert_eq!(classify(RawKey::RightArrow), KeyEvent::Symbol(KeyInput::Right));
    assert_eq!(classify(RawKey::Kp6), KeyEvent::Symbol(KeyInput::Right));
    assert_eq!(classify(RawKey::Slash), KeyEvent::Symbol(KeyInput::Mark));
    assert_eq!(classify(RawKey::KpDivide), KeyEvent::Symbol(KeyInput::Mark));
    assert_eq!(classify(RawKey::Return), KeyEvent::Terminator);
    assert_eq!(classify(RawKey::KpReturn), KeyEvent::Terminator);
    assert_eq!(classify(RawKey::Other), KeyEvent::Ignored);
}

#[test]
fn ordinals_are_stable() {
    assert_eq!(KeyInput::Mark.index(), 0);
    assert_eq!(KeyInput::Up.index(), 1);
    assert_eq!(KeyInput::Down.index(), 2);
    assert_eq!(KeyInput::Left.index(), 3);
    assert_eq!(KeyInput::Right.index(), 4);
}

#[test]
fn inputs_within_window_share_a_sequence() {
    let mut acc = SequenceAccumulator::new(0);
    acc.record(KeyInput::Left, 100);
    acc.record(KeyInput::Up, 100 + IDLE_WINDOW_MS - 1);
    assert_eq!(acc.drain(), vec![KeyInput::Left, KeyInput::Up]);
}

#[test]
fn gap_of_exactly_the_window_starts_afresh() {
    let mut acc = SequenceAccumulator::new(0);
    acc.record(KeyInput::Left, 100);
    acc.record(KeyInput::Up, 100 + IDLE_WINDOW_MS);
    assert_eq!(acc.drain(), vec![KeyInput::Up]);
}

#[test]
fn idle_window_is_three_seconds() {
    assert_eq!(IDLE_WINDOW_MS, 3000);
}

#[test]
fn drain_empties_and_keeps_clock() {
    let mut acc = SequenceAccumulator::new(0);
    acc.record(KeyInput::Mark, 10);
    assert_eq!(acc.drain(), vec![KeyInput::Mark]);
    assert_eq!(acc.drain(), Vec::<KeyInput>::new());
    acc.record(KeyInput::Down, 20);
    assert_eq!(acc.drain(), vec![KeyInput::Down]);
}

#[test]
fn drain_with_no_input_is_empty() {
    let mut acc = SequenceAccumulator::new(5);
    assert!(acc.drain().is_empty());
}

#[test]
fn end_stamp_restarts_the_window() {
    let mut acc = SequenceAccumulator::new(0);
    acc.record(KeyInput::Left, 0);
    acc.mark_end(2500);
    acc.record(KeyInput::Right, 5000);
    assert_eq!(acc.drain(), vec![KeyInput::Left, KeyInput::Right]);
}

#[test]
fn handle_key_records_and_signals() {
    let mut acc = SequenceAccumulator::new(0);
    assert_eq!(acc.handle_key(RawKey::Kp4, 10), TapAction::Recorded);
    assert_eq!(acc.handle_key(RawKey::Other, 20), TapAction::Ignore);
    assert_eq!(acc.handle_key(RawKey::UpArrow, 30), TapAction::Recorded);
    assert_eq!(acc.handle_key(RawKey::Return, 40), TapAction::Suspend);
    assert_eq!(acc.drain(), vec![KeyInput::Left, KeyInput::Up]);
}

#[test]
fn handshake_transitions() {
    assert_eq!(ListenerState::Idle.step(ListenerEvent::Listen), (ListenerState::Armed, ListenerAction::ResumeTap));
    assert_eq!(ListenerState::Armed.step(ListenerEvent::Listen), (ListenerState::Armed, ListenerAction::Stay));
    assert_eq!(ListenerState::Armed.step(ListenerEvent::Poll), (ListenerState::Armed, ListenerAction::Sleep));
    assert_eq!(ListenerState::Armed.step(ListenerEvent::Terminator), (ListenerState::Idle, ListenerAction::SuspendTap));
    assert_eq!(ListenerState::Idle.step(ListenerEvent::Terminator), (ListenerState::Idle, ListenerAction::Stay));
    assert_eq!(ListenerState::Idle.step(ListenerEvent::Poll), (ListenerState::Idle, ListenerAction::Drain));
    assert_eq!(ListenerState::from_flag(true), ListenerState::Armed);
    assert_eq!(ListenerState::from_flag(false), ListenerState::Idle);
    assert!(ListenerState::Armed.is_armed());
    assert!(!ListenerState::Idle.is_armed());
}

fn type_combo(acc: &mut SequenceAccumulator, keys: &[(RawKey, u64)]) -> Vec<KeyInput> {
    for &(k, t) in keys {
        if acc.handle_key(k, t) == TapAction::Suspend {
            acc.mark_end(t);
            break;
        }
    }
    acc.drain()
}

#[test]
fn scenario_mark_and_double_mark() {
    let mut w = KeyboardWatcher::new();
    w.insert(Action::ActionA, &[KeyInput::Mark]);
    w.insert(Action::ActionB, &[KeyInput::Mark, KeyInput::Mark]);
    let mut acc = SequenceAccumulator::new(0);
    let first = type_combo(&mut acc, &[(RawKey::Slash, 100), (RawKey::Return, 200)]);
    assert_eq!(first, vec![KeyInput::Mark]);
    assert_eq!(w.get(&first), Some(&Action::ActionA));
    let second = type_combo(
        &mut acc,
        &[(RawKey::Slash, 300), (RawKey::KpDivide, 400), (RawKey::KpReturn, 500)],
    );
    assert_eq!(second, vec![KeyInput::Mark, KeyInput::Mark]);
    assert_eq!(w.get(&second), Some(&Action::ActionB));
}

#[test]
fn scenario_idle_gap_drops_partial_combo() {
    let mut w = KeyboardWatcher::new();
    w.insert(Action::ActionC, &[KeyInput::Left, KeyInput::Up]);
    let mut acc = SequenceAccumulator::new(0);
    let typed = type_combo(
        &mut acc,
        &[(RawKey::LeftArrow, 1000), (RawKey::UpArrow, 5000), (RawKey::Return, 5100)],
    );
    assert_eq!(typed, vec![KeyInput::Up]);
    assert_eq!(w.get(&typed), None);
}

#[test]
fn terminator_alone_gives_empty_sequence() {
    let w: KeyboardWatcher<Action> = KeyboardWatcher::new();
    let mut acc = SequenceAccumulator::new(0);
    let typed = type_combo(&mut acc, &[(RawKey::Return, 10)]);
    assert!(typed.is_empty());
    assert_eq!(w.get(&typed), None);
}
