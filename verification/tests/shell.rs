//! Tray, visibility, command-surface, event and shortcut behaviour.

use pomo_shell::events::{AppEvent, EventChannel};
use pomo_shell::shortcuts::{parse_shortcut, standard_registry, SetupError, Shortcut, ShortcutRegistry};
use pomo_shell::surface::update_tray_title;
use pomo_shell::tray::{
    handle_tray_input, handle_tray_inputs, TrayButtonState, TrayController, TrayInput,
};
use pomo_shell::visibility::{VisibilityCoordinator, WindowAction};

fn release() -> TrayInput {
    TrayInput::Click { button_state: TrayButtonState::Up }
}

fn press() -> TrayInput {
    TrayInput::Click { button_state: TrayButtonState::Down }
}

#[test]
fn window_starts_shown() {
    let c = VisibilityCoordinator::new();
    assert!(c.shown());
}

#[test]
fn toggle_alternates_hide_show() {
    let mut c = VisibilityCoordinator::new();
    assert_eq!(c.toggle(), WindowAction::Hide);
    assert!(!c.shown());
    assert_eq!(c.toggle(), WindowAction::Show);
    assert!(c.shown());
}

#[test]
fn release_clicks_toggle_with_even_odd_parity() {
    let mut c = VisibilityCoordinator::new();
    let initial = c.shown();
    // Presses and other tray interactions never toggle.
    assert_eq!(handle_tray_input(&mut c, press()), None);
    assert_eq!(handle_tray_input(&mut c, TrayInput::Other), None);
    assert_eq!(c.shown(), initial);
    // One release: opposite state. Two: back to the initial state.
    assert_eq!(handle_tray_input(&mut c, release()), Some(WindowAction::Hide));
    assert_eq!(c.shown(), !initial);
    assert_eq!(handle_tray_input(&mut c, release()), Some(WindowAction::Show));
    assert_eq!(c.shown(), initial);
    // An odd number of releases, presses interleaved, flips the state.
    for _ in 0..3 {
        handle_tray_input(&mut c, press());
        handle_tray_input(&mut c, release());
    }
    assert_eq!(c.shown(), !initial);
}

#[test]
fn input_sequences_toggle_by_release_count_parity() {
    // Five releases among presses and hovers: odd, so the state flips.
    let mut c = VisibilityCoordinator::new();
    let inputs = vec![
        release(),
        press(),
        release(),
        TrayInput::Other,
        release(),
        release(),
        press(),
        release(),
    ];
    handle_tray_inputs(&mut c, &inputs);
    assert!(!c.shown());
    // Processing the same sequence twice: ten releases, even, back to start.
    let mut c = VisibilityCoordinator::new();
    handle_tray_inputs(&mut c, &inputs);
    handle_tray_inputs(&mut c, &inputs);
    assert!(c.shown());
}

#[test]
fn failed_visibility_query_defaults_to_showing() {
    let mut c = VisibilityCoordinator::new();
    assert_eq!(c.toggle_reported(None), WindowAction::Show);
    assert!(c.shown());
    assert_eq!(c.toggle_reported(Some(true)), WindowAction::Hide);
    assert!(!c.shown());
    assert_eq!(c.toggle_reported(Some(false)), WindowAction::Show);
    assert!(c.shown());
}

#[test]
fn update_tray_title_before_initialization_is_noop() {
    let mut tray = TrayController::new();
    update_tray_title(&mut tray, "05:00");
    assert_eq!(tray.current_title(), None);
}

#[test]
fn update_tray_title_after_initialization_sets_exact_text() {
    let mut tray = TrayController::new();
    tray.initialize("25:00");
    assert_eq!(tray.current_title(), Some("25:00"));
    update_tray_title(&mut tray, "24:59");
    assert_eq!(tray.current_title(), Some("24:59"));
    // Idempotent overwrite: last writer wins.
    update_tray_title(&mut tray, "24:59");
    assert_eq!(tray.current_title(), Some("24:59"));
}

#[test]
fn event_names_are_fixed() {
    assert_eq!(AppEvent::StartWork.name(), "shortcut-startWork");
    assert_eq!(AppEvent::Pause.name(), "shortcut-pause");
    assert_eq!(AppEvent::StartBreak.name(), "shortcut-startBreak");
}

#[test]
fn emission_without_listener_is_dropped() {
    let mut ch = EventChannel::new();
    ch.emit(AppEvent::StartWork);
    assert_eq!(ch.delivered_count(), 0);
    // Attaching later does not replay: there is no buffering.
    ch.attach_listener();
    assert_eq!(ch.delivered_count(), 0);
}

#[test]
fn emission_with_listener_delivers_exactly_once() {
    let mut ch = EventChannel::new();
    ch.attach_listener();
    ch.emit(AppEvent::Pause);
    assert_eq!(ch.delivered_count(), 1);
    assert_eq!(ch.delivered_at(0), AppEvent::Pause);
}

#[test]
fn parse_accepts_the_startup_bindings() {
    let sc = parse_shortcut("Ctrl+Alt+Shift+W").unwrap();
    assert_eq!(sc, Shortcut { ctrl: true, alt: true, shift: true, meta: false, key: 'W' });
    let sc = parse_shortcut("Ctrl+Alt+Shift+P").unwrap();
    assert_eq!(sc.key, 'P');
    let sc = parse_shortcut("Ctrl+Alt+Shift+B").unwrap();
    assert_eq!(sc.key, 'B');
}

#[test]
fn parse_accepts_modifier_spellings_and_bare_keys() {
    let sc = parse_shortcut("Control+Shift+5").unwrap();
    assert_eq!(sc, Shortcut { ctrl: true, alt: false, shift: true, meta: false, key: '5' });
    let sc = parse_shortcut("Cmd+A").unwrap();
    assert_eq!(sc, Shortcut { ctrl: false, alt: false, shift: false, meta: true, key: 'A' });
    let sc = parse_shortcut("W").unwrap();
    assert_eq!(sc, Shortcut { ctrl: false, alt: false, shift: false, meta: false, key: 'W' });
}

#[test]
fn parse_rejects_malformed_bindings() {
    assert_eq!(parse_shortcut(""), Err(SetupError::MalformedShortcut));
    assert_eq!(parse_shortcut("Ctrl+"), Err(SetupError::MalformedShortcut));
    assert_eq!(parse_shortcut("ctrl+W"), Err(SetupError::MalformedShortcut));
    assert_eq!(parse_shortcut("W+W"), Err(SetupError::MalformedShortcut));
    assert_eq!(parse_shortcut("Ctrl"), Err(SetupError::MalformedShortcut));
    assert_eq!(parse_shortcut("Ctrl+Alt+w"), Err(SetupError::MalformedShortcut));
}

#[test]
fn register_rejects_malformed_and_claimed_bindings() {
    let mut reg = ShortcutRegistry::new();
    assert_eq!(reg.register("Ctrl+Alt+Shift+W", AppEvent::StartWork), Ok(()));
    assert_eq!(
        reg.register("Ctrl+Alt+Shift+W", AppEvent::Pause),
        Err(SetupError::ShortcutTaken)
    );
    assert_eq!(reg.register("nonsense", AppEvent::Pause), Err(SetupError::MalformedShortcut));
    assert_eq!(reg.binding_count(), 1);
}

#[test]
fn startup_registers_exactly_three_bindings() {
    let reg = standard_registry();
    assert_eq!(reg.binding_count(), 3);
    let w = parse_shortcut("Ctrl+Alt+Shift+W").unwrap();
    let p = parse_shortcut("Ctrl+Alt+Shift+P").unwrap();
    let b = parse_shortcut("Ctrl+Alt+Shift+B").unwrap();
    assert_eq!(reg.lookup(w), Some(AppEvent::StartWork));
    assert_eq!(reg.lookup(p), Some(AppEvent::Pause));
    assert_eq!(reg.lookup(b), Some(AppEvent::StartBreak));
}

#[test]
fn firing_with_listener_delivers_exactly_one_event() {
    let reg = standard_registry();
    let mut ch = EventChannel::new();
    ch.attach_listener();
    let w = parse_shortcut("Ctrl+Alt+Shift+W").unwrap();
    assert_eq!(reg.fire(w, &mut ch), Some(AppEvent::StartWork));
    assert_eq!(ch.delivered_count(), 1);
    assert_eq!(ch.delivered_at(0), AppEvent::StartWork);
}

#[test]
fn firing_without_listener_delivers_nothing() {
    let reg = standard_registry();
    let mut ch = EventChannel::new();
    let p = parse_shortcut("Ctrl+Alt+Shift+P").unwrap();
    assert_eq!(reg.fire(p, &mut ch), Some(AppEvent::Pause));
    assert_eq!(ch.delivered_count(), 0);
}

#[test]
fn firing_an_unbound_combination_delivers_nothing() {
    let reg = standard_registry();
    let mut ch = EventChannel::new();
    ch.attach_listener();
    let other = parse_shortcut("Ctrl+Alt+Shift+X").unwrap();
    assert_eq!(reg.fire(other, &mut ch), None);
    assert_eq!(ch.delivered_count(), 0);
}
