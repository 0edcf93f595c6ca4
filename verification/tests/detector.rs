use catguard::detector::{Detector, Micros, Rule, Thresholds, MS};
use catguard::layout::key_for;

fn detector() -> Detector {
    Detector::new(Thresholds::default())
}

/// Presses each letter `gap_ms` after the previous one and holds them all.
fn press_all(d: &mut Detector, keys: &str, gap_ms: u64) -> Option<Rule> {
    let mut fired = None;
    for (i, c) in keys.chars().enumerate() {
        fired = fired.or(d.key_down(key_for(c), i as u64 * gap_ms * MS));
    }
    fired
}

#[test]
fn paw_on_three_keys_fires_on_the_third() {
    let mut d = detector();
    assert_eq!(d.key_down(key_for('w'), 0), None);
    assert_eq!(d.key_down(key_for('e'), 4 * MS), None);
    assert_eq!(d.key_down(key_for('d'), 9 * MS), Some(Rule::Slam));
}

#[test]
fn paw_on_the_front_edge_counts_the_space_bar() {
    assert_eq!(press_all(&mut detector(), "v b", 5), Some(Rule::Slam));
}

#[test]
fn fast_rolls_are_human() {
    // 20 ms between keys is a burst no typist sustains. It must pass.
    for word in ["wer", "asd", "oiu", "awe", "ion"] {
        assert_eq!(press_all(&mut detector(), word, 20), None, "{word}");
    }
}

#[test]
fn same_finger_words_are_too_slow_to_look_like_a_paw() {
    // "was" sits under one paw, but W and S share the ring finger, and a
    // finger needs about 100 ms to reach its next key.
    let mut d = detector();
    assert_eq!(d.key_down(key_for('w'), 0), None);
    assert_eq!(d.key_down(key_for('a'), 30 * MS), None);
    assert_eq!(d.key_down(key_for('s'), 120 * MS), None);
}

#[test]
fn same_row_slam_needs_a_tighter_window() {
    assert_eq!(press_all(&mut detector(), "sdf", 10), Some(Rule::Slam));
    assert_eq!(press_all(&mut detector(), "sdf", 15), None);
}

#[test]
fn four_keys_in_one_spot_is_a_chord_however_slowly_they_arrive() {
    assert_eq!(press_all(&mut detector(), "erdf", 200), Some(Rule::Chord));
}

#[test]
fn four_keys_spread_over_the_board_is_not_a_chord() {
    assert_eq!(press_all(&mut detector(), "qpzm", 200), None);
    // The usual game hand: move, jump, reload.
    assert_eq!(press_all(&mut detector(), "wd r", 200), None);
}

#[test]
fn two_neighbours_pressed_together_and_held_is_a_paw() {
    let mut d = detector();
    d.key_down(key_for('s'), 0);
    d.key_down(key_for('d'), 6 * MS);
    assert_eq!(d.poll(200 * MS), None);
    assert_eq!(d.poll(260 * MS), Some(Rule::Pair));
}

#[test]
fn rollover_typing_releases_before_the_pair_rule_looks() {
    let mut d = detector();
    d.key_down(key_for('a'), 0);
    d.key_down(key_for('s'), 25 * MS);
    d.key_up(key_for('a'));
    assert_eq!(d.poll(400 * MS), None);
}

#[test]
fn holding_w_then_tapping_d_is_a_game_not_a_paw() {
    let mut d = detector();
    d.key_down(key_for('w'), 0);
    d.key_down(key_for('d'), 500 * MS);
    assert_eq!(d.poll(900 * MS), None);
}

#[test]
fn three_keys_held_for_seconds_is_a_sitting_cat() {
    let mut d = detector();
    press_all(&mut d, "q7m", 300);
    assert_eq!(d.poll(1_900 * MS), None);
    assert_eq!(d.poll(2_700 * MS), Some(Rule::Sit));
}

#[test]
fn modifiers_and_auto_repeat_do_not_count() {
    let mut d = detector();
    for key in [0x1D, 0x2A, 0x38, 0xE05B] {
        assert_eq!(d.key_down(key, 0), None);
    }
    for i in 0..50 {
        assert_eq!(d.key_down(key_for('a'), i * 30 * MS), None);
    }
    assert_eq!(d.poll(1_600 * MS), None);
}

#[test]
fn a_lost_key_up_is_forgotten() {
    let mut d = detector();
    d.key_down(key_for('l'), 0);
    assert_eq!(d.poll(11_000 * MS), None);
    assert!(d.is_idle());
}

#[test]
fn the_slam_remembers_when_the_paw_came_down() {
    let mut d = detector();
    d.key_down(key_for('w'), 100 * MS);
    d.key_down(key_for('e'), 104 * MS);
    assert_eq!(d.key_down(key_for('d'), 109 * MS), Some(Rule::Slam));
    assert_eq!(d.hit_since(), 100 * MS);
}

#[test]
fn a_chord_remembers_its_first_key() {
    let mut d = detector();
    assert_eq!(press_all(&mut d, "erdf", 200), Some(Rule::Chord));
    assert_eq!(d.hit_since(), 0);
}

#[test]
fn a_sitting_cat_is_dated_from_its_first_long_held_key() {
    let mut d = detector();
    let start: Micros = 50 * MS;
    d.key_down(key_for('q'), start);
    d.key_down(key_for('7'), start + 300 * MS);
    d.key_down(key_for('m'), start + 600 * MS);
    assert_eq!(d.poll(start + 2_700 * MS), Some(Rule::Sit));
    assert_eq!(d.hit_since(), start);
}

#[test]
fn modifiers_are_never_tracked() {
    let mut d = detector();
    assert_eq!(d.key_down(0xE05C, 0), None);
    assert!(d.is_idle());
    d.key_down(key_for('k'), 0);
    d.key_up(key_for('k'));
    assert!(d.is_idle());
}

#[test]
fn raised_limits_take_effect() {
    let mut d = detector();
    let mut strict = Thresholds::default();
    strict.slam_window = 0;
    strict.slam_row_window = 0;
    d.set_thresholds(strict);
    d.key_down(key_for('w'), 0);
    d.key_down(key_for('e'), 4 * MS);
    assert_eq!(d.key_down(key_for('d'), 9 * MS), None);
}

#[test]
fn key_units_are_hundredths() {
    let t = Thresholds::default();
    assert_eq!((t.slam_width, t.slam_row_width, t.chord_width, t.pair_width), (150, 200, 350, 125));
    assert_eq!(t.stale_after, 10_000 * MS);
}
