use catguard::detector::{Micros, Rule, Thresholds};
use catguard::guard::{Action, Guard, Verdict, UNLOCK_WORD};
use catguard::history::UndoStep;
use catguard::layout::key_for;

const MS: Micros = 1_000;
const PASS: Verdict = Verdict { swallow: false, action: None };
const SWALLOW: Verdict = Verdict { swallow: true, action: None };

fn guard() -> Guard {
    Guard::new(Thresholds::default())
}

fn down(g: &mut Guard, c: char, ms: u64) -> Verdict {
    g.key_down(key_for(c), c.to_ascii_uppercase() as u8, ms * MS)
}

fn up(g: &mut Guard, c: char) -> Verdict {
    g.key_up(key_for(c), 0)
}

fn slam(g: &mut Guard, ms: u64) -> Verdict {
    down(g, 'w', ms);
    down(g, 'e', ms + 3);
    down(g, 'd', ms + 6)
}

/// Types a word the way a person does: one key at a time, 90 ms down.
fn type_word(g: &mut Guard, word: &str, start_ms: u64) -> Vec<Verdict> {
    let mut verdicts = Vec::new();
    for (i, c) in word.chars().enumerate() {
        verdicts.push(down(g, c, start_ms + i as u64 * 150));
        up(g, c);
    }
    verdicts
}

#[test]
fn a_sentence_passes_untouched() {
    let mut g = guard();
    let text = "the quick brown fox jumps over the lazy dog";
    // 60 ms between keys, each released only after the next one is down.
    let chars: Vec<char> = text.chars().collect();
    for (i, &c) in chars.iter().enumerate() {
        if i > 0 && chars[i - 1] != c {
            assert_eq!(down(&mut g, c, i as u64 * 60), PASS, "{c:?} at {i}");
            assert_eq!(up(&mut g, chars[i - 1]), PASS);
        } else if i > 0 {
            assert_eq!(up(&mut g, c), PASS);
            assert_eq!(down(&mut g, c, i as u64 * 60), PASS);
        } else {
            assert_eq!(down(&mut g, c, 0), PASS);
        }
        assert_eq!(g.poll(i as u64 * 60 * MS + 30 * MS), None);
    }
    assert!(!g.is_locked());
}

#[test]
fn a_paw_locks_and_no_key_is_left_stuck() {
    let mut g = guard();
    let third = slam(&mut g, 0);
    assert_eq!(third, Verdict { swallow: true, action: Some(Action::Lock(Rule::Slam)) });

    // W and E reached the applications, so their key-ups must too.
    assert_eq!(up(&mut g, 'w'), PASS);
    assert_eq!(up(&mut g, 'e'), PASS);
    // D never arrived, so neither does its key-up.
    assert_eq!(up(&mut g, 'd'), SWALLOW);
}

#[test]
fn auto_repeat_of_a_key_under_the_paw_stops_at_the_lock() {
    let mut g = guard();
    assert_eq!(down(&mut g, 'w', 0), PASS);
    assert_eq!(down(&mut g, 'w', 30), PASS);
    assert_eq!(down(&mut g, 'e', 40), PASS);
    assert_eq!(down(&mut g, 'd', 45).action, Some(Action::Lock(Rule::Slam)));
    assert_eq!(down(&mut g, 'w', 60), SWALLOW);
    assert_eq!(up(&mut g, 'w'), PASS);
}

#[test]
fn everything_is_swallowed_while_locked() {
    let mut g = guard();
    slam(&mut g, 0);
    for v in type_word(&mut g, "rm", 1_000) {
        assert!(v.swallow);
    }
    assert!(g.is_locked());
}

#[test]
fn typing_human_unlocks() {
    let mut g = guard();
    slam(&mut g, 0);
    for c in ['w', 'e', 'd'] {
        up(&mut g, c);
    }
    let verdicts = type_word(&mut g, "human", 1_000);
    let actions: Vec<Action> = verdicts.iter().map(|v| v.action.unwrap()).collect();
    assert_eq!(
        actions,
        [
            Action::Progress(1),
            Action::Progress(2),
            Action::Progress(3),
            Action::Progress(4),
            Action::Unlock
        ]
    );
    assert!(verdicts.iter().all(|v| v.swallow));
    assert!(!g.is_locked());
    assert_eq!(down(&mut g, 'x', 3_000), PASS);
}

#[test]
fn a_typo_restarts_the_word_without_a_reset_key() {
    let mut g = guard();
    slam(&mut g, 0);
    type_word(&mut g, "huhuman", 1_000);
    assert!(!g.is_locked());
}

#[test]
fn a_cat_lying_on_keys_does_not_stop_the_human_from_unlocking() {
    let mut g = guard();
    slam(&mut g, 0);
    for i in 0..20 {
        down(&mut g, 'd', 500 + i * 33);
    }
    type_word(&mut g, "human", 2_000);
    assert!(!g.is_locked());
}

#[test]
fn a_key_still_under_the_cat_stays_dead_after_the_unlock() {
    let mut g = guard();
    slam(&mut g, 0);
    up(&mut g, 'w');
    up(&mut g, 'e');
    g.unlock();
    assert_eq!(down(&mut g, 'd', 5_000), SWALLOW);
    assert_eq!(up(&mut g, 'd'), SWALLOW);
    assert_eq!(down(&mut g, 'd', 6_000), PASS);
}

#[test]
fn a_second_pawstep_sounds_again_but_not_in_a_burst() {
    let mut g = guard();
    slam(&mut g, 0);
    for c in ['w', 'e', 'd'] {
        up(&mut g, c);
    }
    assert_eq!(slam(&mut g, 500).action, Some(Action::Progress(0)));
    for c in ['w', 'e', 'd'] {
        up(&mut g, c);
    }
    assert_eq!(slam(&mut g, 2_000).action, Some(Action::Deter));
}

#[test]
fn a_held_pair_locks_from_the_poll() {
    let mut g = guard();
    assert_eq!(down(&mut g, 's', 0), PASS);
    assert_eq!(down(&mut g, 'd', 5), PASS);
    assert_eq!(g.poll(300 * MS), Some(Action::Lock(Rule::Pair)));
    assert_eq!(g.poll(330 * MS), None);
    assert_eq!(down(&mut g, 's', 340), SWALLOW);
    assert_eq!(up(&mut g, 's'), PASS);
}

#[test]
fn the_unlock_word_can_be_changed() {
    let mut g = guard();
    g.set_unlock_word("mensch");
    slam(&mut g, 0);
    for c in ['w', 'e', 'd'] {
        up(&mut g, c);
    }
    type_word(&mut g, "human", 1_000);
    assert!(g.is_locked());
    type_word(&mut g, "mensch", 3_000);
    assert!(!g.is_locked());
}

#[test]
fn the_incident_knows_what_got_through() {
    let mut g = guard();
    assert!(g.incident(0).is_none());
    slam(&mut g, 1_000);
    let incident = g.incident(1_100 * MS).unwrap();
    assert_eq!(incident.rule, Rule::Slam);
    assert_eq!(incident.paw_since, 1_000 * MS);
    assert_eq!(incident.undo_plan(), [UndoStep::Backspace(2)]);
}

#[test]
fn reset_forgets_the_lock() {
    let mut g = guard();
    slam(&mut g, 0);
    g.reset();
    assert!(!g.is_locked() && g.is_idle());
}

#[test]
fn the_default_word_is_human() {
    assert_eq!(UNLOCK_WORD, "human");
}

#[test]
fn a_swallowed_key_up_mirrors_its_key_down_across_other_events() {
    let mut g = guard();
    slam(&mut g, 0);
    // Other keys come and go, time passes, the guard unlocks: D stays dead.
    down(&mut g, 'k', 100);
    up(&mut g, 'k');
    assert_eq!(g.poll(200 * MS), None);
    g.unlock();
    down(&mut g, 'd', 300);
    assert_eq!(up(&mut g, 'd'), SWALLOW);
}

#[test]
fn an_unknown_key_up_passes() {
    let mut g = guard();
    assert_eq!(up(&mut g, 'q'), PASS);
}

#[test]
fn polling_while_locked_does_nothing() {
    let mut g = guard();
    slam(&mut g, 0);
    down(&mut g, 'j', 10);
    down(&mut g, 'k', 12);
    assert_eq!(g.poll(1_000 * MS), None);
    assert!(g.is_locked());
}

#[test]
fn the_unlock_button_unlocks() {
    let mut g = guard();
    slam(&mut g, 0);
    g.unlock();
    assert!(!g.is_locked());
}

#[test]
fn a_rule_can_be_disarmed() {
    let mut g = guard();
    let mut never = Thresholds::default();
    never.slam_window = 0;
    never.slam_row_window = 0;
    g.set_thresholds(never);
    assert_eq!(down(&mut g, 'w', 0), PASS);
    assert_eq!(down(&mut g, 'e', 3), PASS);
    assert_eq!(down(&mut g, 'd', 6), PASS);
    assert!(!g.is_locked());
}

#[test]
fn a_word_with_a_double_letter_unlocks_with_polls_between() {
    let mut g = guard();
    g.set_unlock_word("hello");
    slam(&mut g, 0);
    for c in ['w', 'e', 'd'] {
        up(&mut g, c);
    }
    let mut last = Verdict { swallow: false, action: None };
    for (i, c) in "hello".chars().enumerate() {
        let ms = 1_000 + i as u64 * 150;
        assert_eq!(g.poll(ms * MS), None);
        last = down(&mut g, c, ms);
        // The auto-repeat of a held letter types nothing.
        assert_eq!(down(&mut g, c, ms + 40), SWALLOW);
        up(&mut g, c);
    }
    assert_eq!(last.action, Some(Action::Unlock));
    assert!(!g.is_locked());
}
