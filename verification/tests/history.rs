use catguard::detector::{Micros, Rule};
use catguard::history::{History, Incident, Mods, UndoStep, VK_CAPITAL, VK_F24, VK_LWIN};
use catguard::layout::{key_for, KeyCode};

const MS: Micros = 1_000;
const CTRL: KeyCode = 0x1D;
const WIN: KeyCode = 0xE05B;
const CAPS: (KeyCode, u8) = (0x3A, VK_CAPITAL);

fn letter(c: char) -> (KeyCode, u8) {
    (key_for(c), c.to_ascii_uppercase() as u8)
}

/// Key down at `ms`, up 50 ms later.
fn tap(h: &mut History, (key, vk): (KeyCode, u8), ms: u64, passed: bool) {
    h.key_down(key, vk, ms * MS, passed, false);
    h.key_up(key, (ms + 50) * MS);
}

/// W and E get through, D is swallowed, the lock falls at `ms + 6`.
fn slam(h: &mut History, ms: u64) -> Incident {
    let ((w, w_vk), (e, e_vk), (d, d_vk)) = (letter('w'), letter('e'), letter('d'));
    h.key_down(w, w_vk, ms * MS, true, false);
    h.key_down(e, e_vk, (ms + 3) * MS, true, false);
    h.key_down(d, d_vk, (ms + 6) * MS, false, false);
    h.mark_lock(Rule::Slam, (ms + 6) * MS, ms * MS);
    h.incident((ms + 100) * MS).unwrap()
}

#[test]
fn a_slam_leaks_two_characters_and_two_backspaces_take_them_back() {
    let incident = slam(&mut History::default(), 1_000);
    let leaked: Vec<u8> = incident.leaks().iter().map(|l| l.vk).collect();
    assert_eq!(leaked, [b'W', b'E']);
    assert_eq!(incident.undo_plan(), [UndoStep::Backspace(2)]);
}

#[test]
fn what_the_human_typed_before_the_paw_is_shown_but_not_blamed_on_the_cat() {
    let mut h = History::default();
    tap(&mut h, letter('h'), 0, true);
    tap(&mut h, letter('i'), 200, true);
    let incident = slam(&mut h, 1_000);
    assert_eq!(incident.presses.len(), 5);
    assert_eq!(incident.undo_plan(), [UndoStep::Backspace(2)]);
}

#[test]
fn auto_repeat_counts_as_typed_characters() {
    let mut h = History::default();
    let (g, vk) = letter('g');
    h.key_down(g, vk, 0, true, false);
    for i in 1..=10 {
        h.key_down(g, vk, (500 + i * 33) * MS, true, true);
    }
    h.mark_lock(Rule::Sit, 2_000 * MS, 0);
    let incident = h.incident(2_000 * MS).unwrap();
    assert_eq!(incident.leaks()[0].count, 11);
    assert_eq!(incident.undo_plan(), [UndoStep::Backspace(11)]);
}

#[test]
fn a_command_among_the_characters_rules_out_backspace() {
    let mut h = History::default();
    h.key_down(CTRL, 0x11, 990 * MS, true, false);
    let (w, vk) = letter('w');
    h.key_down(w, vk, 1_000 * MS, true, false);
    h.key_down(key_for('e'), b'E', 1_003 * MS, true, false);
    h.mark_lock(Rule::Slam, 1_006 * MS, 1_000 * MS);
    let incident = h.incident(1_100 * MS).unwrap();

    let leaks = incident.leaks();
    assert_eq!(leaks[0].mods, Mods::ctrl());
    assert!(leaks[0].note.unwrap().contains("closed a tab"));
    assert_eq!(incident.undo_plan(), []);
}

#[test]
fn caps_lock_from_an_earlier_pawstep_is_pressed_again() {
    let mut h = History::default();
    tap(&mut h, CAPS, 100, true);
    let incident = slam(&mut h, 1_000);
    assert_eq!(incident.undo_plan(), [UndoStep::Press(Mods::none(), VK_CAPITAL), UndoStep::Backspace(2)]);
}

#[test]
fn a_switch_flipped_twice_needs_no_undo() {
    let mut h = History::default();
    tap(&mut h, CAPS, 100, true);
    tap(&mut h, CAPS, 400, true);
    assert_eq!(slam(&mut h, 1_000).undo_plan(), [UndoStep::Backspace(2)]);
}

#[test]
fn the_touchpad_key_is_recognized_and_reversible() {
    let mut h = History::default();
    h.key_down(CTRL, 0x11, 500 * MS, true, false);
    h.key_down(WIN, VK_LWIN, 500 * MS, true, false);
    h.key_down(0x76, VK_F24, 501 * MS, true, false);
    h.key_up(0x76, 560 * MS);
    h.key_up(WIN, 560 * MS);
    h.key_up(CTRL, 560 * MS);
    let incident = slam(&mut h, 1_000);
    assert_eq!(incident.leaks()[0].note, Some("switched the touchpad on or off"));
    assert_eq!(incident.undo_plan()[0], UndoStep::Press(Mods::ctrl_win(), VK_F24));
}

#[test]
fn minimize_all_is_undone_with_its_counterpart() {
    let mut h = History::default();
    h.key_down(WIN, VK_LWIN, 500 * MS, true, false);
    tap(&mut h, letter('m'), 510, true);
    h.key_up(WIN, 600 * MS);
    assert_eq!(slam(&mut h, 1_000).undo_plan()[0], UndoStep::Press(Mods::shift_win(), b'M'));
}

#[test]
fn keys_swallowed_during_the_lock_are_recorded_but_never_leak() {
    let mut h = History::default();
    slam(&mut h, 1_000);
    tap(&mut h, letter('x'), 1_500, false);
    let incident = h.incident(2_000 * MS).unwrap();
    assert_eq!(incident.presses.len(), 4);
    assert_eq!(incident.leaks().len(), 2);
}

#[test]
fn the_history_forgets_after_three_seconds() {
    let mut h = History::default();
    tap(&mut h, letter('p'), 0, true);
    h.prune(2_000 * MS);
    assert_eq!(h.len(), 1);
    h.prune(4_000 * MS);
    assert_eq!(h.len(), 0);
}

#[test]
fn a_switch_flipped_three_times_is_pressed_once() {
    let mut h = History::default();
    tap(&mut h, CAPS, 100, true);
    tap(&mut h, CAPS, 300, true);
    tap(&mut h, CAPS, 500, true);
    assert_eq!(
        slam(&mut h, 1_000).undo_plan(),
        [UndoStep::Press(Mods::none(), VK_CAPITAL), UndoStep::Backspace(2)]
    );
}

#[test]
fn a_held_key_is_never_pruned() {
    let mut h = History::default();
    let (q, vk) = letter('q');
    h.key_down(q, vk, 0, true, false);
    h.prune(60_000 * MS);
    assert_eq!(h.len(), 1);
}

#[test]
fn the_history_keeps_the_last_256_presses() {
    let mut h = History::default();
    for i in 0..300u64 {
        tap(&mut h, letter('a'), i * 10, true);
    }
    assert_eq!(h.len(), 256);
}

#[test]
fn modifiers_are_recorded_with_the_keys_they_modify() {
    let mut h = History::default();
    h.key_down(CTRL, 0x11, 0, true, false);
    h.key_down(WIN, VK_LWIN, 1 * MS, true, false);
    h.key_down(key_for('c'), b'C', 2 * MS, true, false);
    h.mark_lock(Rule::Slam, 3 * MS, 0);
    let incident = h.incident(3 * MS).unwrap();
    assert_eq!(incident.presses[2].mods, Mods::ctrl_win());
    assert_eq!(incident.presses[1].mods, Mods::ctrl());
    assert_eq!(incident.undo_plan(), [UndoStep::Press(Mods::ctrl_win(), b'C')]);
}

#[test]
fn a_swallowed_modifier_modifies_nothing() {
    let mut h = History::default();
    h.key_down(CTRL, 0x11, 0, false, false);
    h.key_down(key_for('w'), b'W', 1 * MS, true, false);
    h.mark_lock(Rule::Slam, 2 * MS, 0);
    let incident = h.incident(2 * MS).unwrap();
    assert_eq!(incident.presses[1].mods, Mods::none());
}

#[test]
fn clear_forgets_the_lock() {
    let mut h = History::default();
    slam(&mut h, 1_000);
    h.clear();
    assert!(h.incident(0).is_none());
    assert_eq!(h.len(), 0);
}

#[test]
fn a_press_during_the_paw_is_blamed_but_one_released_before_is_not() {
    let mut h = History::default();
    tap(&mut h, letter('a'), 0, true);
    let incident = slam(&mut h, 1_000);
    assert!(!incident.during_paw(&incident.presses[0]));
    assert!(incident.during_paw(&incident.presses[1]));
    assert!(!incident.during_paw(&incident.presses[3]));
}

#[test]
fn a_modifier_counts_until_it_is_released_or_the_history_cleared() {
    let mut h = History::default();
    assert!(h.incident(0).is_none());
    h.key_down(CTRL, 0x11, 0, true, false);
    tap(&mut h, letter('c'), 10, true);
    h.key_up(CTRL, 100 * MS);
    tap(&mut h, letter('v'), 200, true);
    // A swallowed Ctrl is not held as far as the applications know.
    h.key_down(CTRL, 0x11, 300 * MS, false, false);
    tap(&mut h, letter('x'), 310, true);
    h.key_up(CTRL, 400 * MS);
    h.key_down(CTRL, 0x11, 500 * MS, true, false);
    h.mark_lock(Rule::Pair, 600 * MS, 500 * MS);
    let inc = h.incident(700 * MS).unwrap();
    let mods: Vec<Mods> = inc.presses.iter().map(|p| p.mods).collect();
    assert_eq!(mods, [Mods::none(), Mods::ctrl(), Mods::none(), Mods::none(), Mods::none(), Mods::none()]);
    assert_eq!((inc.rule, inc.locked_at, inc.paw_since), (Rule::Pair, 600 * MS, 500 * MS));
    h.clear();
    assert!(h.incident(800 * MS).is_none());
    tap(&mut h, letter('z'), 900, true);
    h.mark_lock(Rule::Sit, 1_000 * MS, 900 * MS);
    let inc = h.incident(1_100 * MS).unwrap();
    assert_eq!(inc.presses.len(), 1);
    assert_eq!(inc.presses[0].mods, Mods::none());
}
