use catguard::detector::{Micros, Rule, Thresholds};
use catguard::guard::{Action, Guard};
use catguard::layout::{key_for, EXTENDED};
use catguard::shell::{
    device_entry, key_code, lists_window, lock_reason, lock_text, message_of, on_key, on_timer,
    progress_text, restore_plan, rule_code, swaps_sides, tray_tip, KeyOutcome, RestoreStep, GUARD_DETER,
    GUARD_LOCK, GUARD_PROGRESS, GUARD_UNLOCK, VK_CAPITAL, VK_NUMLOCK, VK_SCROLL,
};
use catguard::snapshot::Change;

const MS: Micros = 1_000;
const NOTHING: KeyOutcome = KeyOutcome { swallow: false, post: None, start_timer: false };

fn press(g: &mut Guard, c: char, ms: u64, timer_running: bool) -> KeyOutcome {
    on_key(g, false, false, false, timer_running, key_for(c), c.to_ascii_uppercase() as u8, true, ms * MS)
}

fn release(g: &mut Guard, c: char, ms: u64) -> KeyOutcome {
    on_key(g, false, false, false, true, key_for(c), c.to_ascii_uppercase() as u8, false, ms * MS)
}

#[test]
fn the_key_code_marks_extended_keys() {
    assert_eq!(key_code(0x1C, false), 0x1C);
    assert_eq!(key_code(0x1C, true), 0x1C | EXTENDED);
    assert_eq!(key_code(0x1D, true), 0xE01D);
}

#[test]
fn injected_input_passes_and_leaves_the_guard_alone() {
    let mut g = Guard::new(Thresholds::default());
    let out = on_key(&mut g, true, false, false, false, key_for('w'), b'W', true, 0);
    assert_eq!(out, NOTHING);
    assert!(g.is_idle());
}

#[test]
fn a_first_key_starts_the_timer_once() {
    let mut g = Guard::new(Thresholds::default());
    let out = press(&mut g, 'a', 0, false);
    assert_eq!(out, KeyOutcome { swallow: false, post: None, start_timer: true });
    let out = press(&mut g, 's', 100, true);
    assert_eq!(out, NOTHING);
    release(&mut g, 'a', 120);
    release(&mut g, 's', 140);
    assert!(g.is_idle());
}

#[test]
fn a_slam_locks_through_the_hook() {
    let mut g = Guard::new(Thresholds::default());
    press(&mut g, 'w', 0, false);
    press(&mut g, 'e', 3, true);
    let out = press(&mut g, 'd', 6, true);
    assert!(out.swallow);
    assert_eq!(out.post, Some(Action::Lock(Rule::Slam)));
    assert!(!out.start_timer);
    assert!(g.is_locked());
}

#[test]
fn pausing_forgets_the_lock_and_passes_every_key() {
    let mut g = Guard::new(Thresholds::default());
    press(&mut g, 'w', 0, false);
    press(&mut g, 'e', 3, true);
    press(&mut g, 'd', 6, true);
    assert!(g.is_locked());
    let out = on_key(&mut g, false, true, false, true, key_for('x'), b'X', true, 10 * MS);
    assert_eq!(out, NOTHING);
    assert!(!g.is_locked());
    assert!(g.is_idle());
}

#[test]
fn a_click_on_the_button_unlocks_before_the_key_counts() {
    let mut g = Guard::new(Thresholds::default());
    press(&mut g, 'w', 0, false);
    press(&mut g, 'e', 3, true);
    press(&mut g, 'd', 6, true);
    release(&mut g, 'w', 20);
    release(&mut g, 'e', 20);
    release(&mut g, 'd', 20);
    assert!(g.is_locked());
    let out = on_key(&mut g, false, false, true, false, key_for('a'), b'A', true, 5000 * MS);
    assert!(!g.is_locked());
    assert!(!out.swallow);
}

#[test]
fn the_timer_stops_when_no_key_is_down() {
    let mut g = Guard::new(Thresholds::default());
    assert_eq!(on_timer(&mut g, false, 0), (None, true));
    press(&mut g, 'a', 0, false);
    assert_eq!(on_timer(&mut g, false, 25 * MS), (None, false));
    release(&mut g, 'a', 50);
    assert_eq!(on_timer(&mut g, false, 75 * MS), (None, true));
}

#[test]
fn a_held_key_locks_on_the_timer() {
    let mut g = Guard::new(Thresholds::default());
    press(&mut g, 's', 0, false);
    press(&mut g, 'd', 6, true);
    assert_eq!(on_timer(&mut g, false, 200 * MS), (None, false));
    let (action, idle) = on_timer(&mut g, false, 260 * MS);
    assert_eq!(action, Some(Action::Lock(Rule::Pair)));
    assert!(!idle);
    assert!(g.is_locked());
}

#[test]
fn messages_carry_code_and_detail() {
    assert_eq!(message_of(Action::Lock(Rule::Slam)), (GUARD_LOCK, 0));
    assert_eq!(message_of(Action::Lock(Rule::Sit)), (GUARD_LOCK, 3));
    assert_eq!(message_of(Action::Deter), (GUARD_DETER, 0));
    assert_eq!(message_of(Action::Progress(4)), (GUARD_PROGRESS, 4));
    assert_eq!(message_of(Action::Unlock), (GUARD_UNLOCK, 0));
    assert_eq!(rule_code(Rule::Chord), 1);
    assert_eq!(rule_code(Rule::Pair), 2);
}

#[test]
fn the_lock_window_names_the_rule() {
    assert_eq!(
        lock_text(1),
        "The keyboard is locked (four keys in one spot).\nType  human  to unlock it, or click the button."
    );
    assert_eq!(lock_reason(0), "three keys at once");
    assert_eq!(lock_reason(2), "two neighbouring keys held");
    assert_eq!(lock_reason(3), "keys held for seconds");
    assert_eq!(lock_reason(7), "");
    assert_eq!(
        lock_text(-1),
        "The keyboard is locked ().\nType  human  to unlock it, or click the button."
    );
}

#[test]
fn the_progress_shows_typed_letters_and_blanks() {
    assert_eq!(progress_text(0), "_ _ _ _ _");
    assert_eq!(progress_text(2), "h u _ _ _");
    assert_eq!(progress_text(5), "h u m a n");
    assert_eq!(progress_text(9), "h u m a n");
}

#[test]
fn the_tray_says_whether_it_watches() {
    assert_eq!(tray_tip(true), "catguard (paused)");
    assert_eq!(tray_tip(false), "catguard is watching the keyboard");
}

#[test]
fn only_real_windows_are_listed() {
    assert!(lists_window(true, false, "Untitled - Notepad"));
    assert!(!lists_window(false, false, "Untitled - Notepad"));
    assert!(!lists_window(true, true, "Untitled - Notepad"));
    assert!(!lists_window(true, false, ""));
    assert!(!lists_window(true, false, "Program Manager"));
    assert!(!lists_window(true, false, "catguard"));
    assert!(lists_window(true, false, "catguard 2"));
}

#[test]
fn software_devices_are_skipped_and_others_named() {
    assert!(device_entry("SWD\\PRINTENUM\\x".to_string(), "Printer".to_string(), false, 0).is_none());
    let d = device_entry("USB\\VID_1".to_string(), "Mouse".to_string(), true, 22).unwrap();
    assert_eq!((d.id.as_str(), d.name.as_str(), d.problem), ("USB\\VID_1", "Mouse", 22));
    let d = device_entry("USB\\VID_2".to_string(), String::new(), false, 22).unwrap();
    assert_eq!((d.id.as_str(), d.name.as_str(), d.problem), ("USB\\VID_2", "USB\\VID_2", 0));
    let d = device_entry("SWD".to_string(), "Short".to_string(), false, 0).unwrap();
    assert_eq!(d.name, "Short");
}

#[test]
fn undo_steps_follow_the_changes() {
    let changes = vec![
        Change::DeviceGone { name: "Touchpad".to_string() },
        Change::Touchpad { on: false },
        Change::FlightMode { on: true },
        Change::Language { from: "English".to_string(), to: "Deutsch".to_string() },
        Change::Rotation { from: 0, to: 2 },
        Change::StickyKeys { on: true },
        Change::FilterKeys { on: false },
        Change::ToggleKeys { on: true },
        Change::CapsLock { on: true },
        Change::NumLock { on: false },
        Change::ScrollLock { on: true },
        Change::WindowClosed { title: "Mail".to_string() },
        Change::Touchpad { on: true },
    ];
    assert_eq!(
        restore_plan(0x0409_0409, &changes),
        vec![
            RestoreStep::TouchpadKey,
            RestoreStep::Language(0x0409_0409),
            RestoreStep::Rotate { from: 0, to: 2 },
            RestoreStep::StickyKeys(false),
            RestoreStep::FilterKeys(true),
            RestoreStep::ToggleKeys(false),
            RestoreStep::Tap(VK_CAPITAL),
            RestoreStep::Tap(VK_NUMLOCK),
            RestoreStep::Tap(VK_SCROLL),
        ]
    );
    assert!(restore_plan(0, &[]).is_empty());
}

#[test]
fn every_promised_undo_gets_a_step() {
    let changes = vec![
        Change::CapsLock { on: false },
        Change::FlightMode { on: false },
        Change::DeviceNew { name: "Pen".to_string() },
        Change::DeviceBroken { name: "Camera".to_string(), problem: 10 },
        Change::Touchpad { on: true },
    ];
    let steps = restore_plan(7, &changes);
    let promised = changes.iter().filter(|c| c.undo().is_some()).count();
    assert_eq!(steps.len(), promised);
    assert_eq!(steps, vec![RestoreStep::Tap(VK_CAPITAL)]);
}

#[test]
fn a_quarter_turn_swaps_the_sides() {
    assert!(swaps_sides(0, 1));
    assert!(swaps_sides(3, 0));
    assert!(!swaps_sides(0, 2));
    assert!(!swaps_sides(1, 3));
}
