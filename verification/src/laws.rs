//! What holds of the library across many calls, proved over the spec
//! functions that its operations follow.
use vstd::prelude::*;

use crate::detector::{
    DetectorView, Held, Micros, Rule, chord_hit, fresh_pred, holds_key, keep_where,
    lemma_keep_where_subset, near_pred, pair_ok, positions, sat_sub,
};
use crate::guard::{
    Action, GuardView, Verdict, distinct, ends_with, lemma_push_distinct, lemma_swap_removed,
    progress, progress_upto, typed_after, DETER_GAP,
};
use crate::history::{
    HistoryView, Incident, Mods, Press, Undo, UndoStep, drop_key, expired, expired_count,
    last_open, lemma_combo_index, lemma_step_index, modifier_of_key, step_index, step_of,
    undo_of,
};
use crate::layout::{KeyCode, Pos, UNIT, extent_of, key_position, modifier_key, printable_key};
use crate::shell::{restore_of, restore_plan_of};
use crate::snapshot::{
    Change, Device, Snapshot, changes_between, device_gains, device_index, device_losses,
    has_handle, input_changes, known_flip, lemma_device_index, push_if, switch_changes, undo_of_change,
    windows_closed,
};

verus! {

/// One thing that can happen to a guard while a key is down.
pub enum GuardEvent {
    Down(KeyCode, u8, Micros),
    Up(KeyCode, Micros),
    Poll(Micros),
    Unlock,
}

pub open spec fn step(g: GuardView, e: GuardEvent) -> GuardView {
    match e {
        GuardEvent::Down(key, vk, now) => g.key_down_next(key, vk, now).0,
        GuardEvent::Up(key, now) => g.key_up_next(key, now).0,
        GuardEvent::Poll(now) => g.poll_next(now).0,
        GuardEvent::Unlock => g.unlock_next(),
    }
}

/// The guard after the events, in order.
pub open spec fn run(g: GuardView, events: Seq<GuardEvent>) -> GuardView
    decreases events.len(),
{
    if events.len() == 0 {
        g
    } else {
        step(run(g, events.drop_last()), events.last())
    }
}

pub open spec fn lists_ok(g: GuardView) -> bool {
    &&& distinct(g.passed)
    &&& distinct(g.swallowed)
    &&& forall|k: KeyCode| !(g.passed.contains(k) && g.swallowed.contains(k))
}

pub open spec fn releases(e: GuardEvent, key: KeyCode) -> bool {
    match e {
        GuardEvent::Up(k, _) => k == key,
        _ => false,
    }
}

proof fn lemma_lists_after_down(g: GuardView, key: KeyCode, vk: u8, now: Micros)
    requires
        lists_ok(g),
    ensures
        lists_ok(g.key_down_next(key, vk, now).0),
        g.tracks(key) ==> g.key_down_next(key, vk, now).0.passed == g.passed
            && g.key_down_next(key, vk, now).0.swallowed == g.swallowed,
        !g.tracks(key) ==> {
            let (g1, v) = g.key_down_next(key, vk, now);
            &&& forall|k: KeyCode| k != key ==> (#[trigger] g1.passed.contains(k) == g.passed.contains(k))
            &&& forall|k: KeyCode| k != key ==> (#[trigger] g1.swallowed.contains(k) == g.swallowed.contains(k))
            &&& g1.passed.contains(key) == !v.swallow
            &&& g1.swallowed.contains(key) == v.swallow
        },
{
    if !g.tracks(key) {
        lemma_push_distinct(g.passed, key);
        lemma_push_distinct(g.swallowed, key);
        let (g1, v) = g.key_down_next(key, vk, now);
        if v.swallow {
            assert(g1.passed == g.passed);
            assert(g1.swallowed == g.swallowed.push(key));
        } else {
            assert(g1.passed == g.passed.push(key));
            assert(g1.swallowed == g.swallowed);
        }
    }
}

proof fn lemma_lists_after_up(g: GuardView, key: KeyCode, now: Micros)
    requires
        lists_ok(g),
    ensures
        lists_ok(g.key_up_next(key, now).0),
        forall|k: KeyCode| k != key ==> (#[trigger] g.key_up_next(key, now).0.passed.contains(k) == g.passed.contains(k)),
        forall|k: KeyCode| k != key ==> (#[trigger] g.key_up_next(key, now).0.swallowed.contains(k) == g.swallowed.contains(k)),
{
    let g1 = g.key_up_next(key, now).0;
    if g.passed.contains(key) {
        lemma_swap_removed(g.passed, key);
        assert(g1.swallowed == g.swallowed);
    } else if g.swallowed.contains(key) {
        lemma_swap_removed(g.swallowed, key);
        assert(g1.passed == g.passed);
    }
}

proof fn lemma_step_keeps(g: GuardView, e: GuardEvent, key: KeyCode)
    requires
        lists_ok(g),
        g.tracks(key),
        !releases(e, key),
    ensures
        lists_ok(step(g, e)),
        step(g, e).passed.contains(key) == g.passed.contains(key),
        step(g, e).swallowed.contains(key) == g.swallowed.contains(key),
{
    match e {
        GuardEvent::Down(k, vk, now) => {
            lemma_lists_after_down(g, k, vk, now);
        },
        GuardEvent::Up(k, now) => {
            lemma_lists_after_up(g, k, now);
        },
        GuardEvent::Poll(now) => {},
        GuardEvent::Unlock => {},
    }
}

proof fn lemma_run_keeps(g: GuardView, events: Seq<GuardEvent>, key: KeyCode)
    requires
        lists_ok(g),
        g.tracks(key),
        forall|i: int| 0 <= i < events.len() ==> !releases(#[trigger] events[i], key),
    ensures
        lists_ok(run(g, events)),
        run(g, events).passed.contains(key) == g.passed.contains(key),
        run(g, events).swallowed.contains(key) == g.swallowed.contains(key),
    decreases events.len(),
{
    if events.len() > 0 {
        let rest = events.drop_last();
        assert forall|i: int| 0 <= i < rest.len() implies !releases(#[trigger] rest[i], key) by {
            assert(rest[i] == events[i]);
        }
        lemma_run_keeps(g, rest, key);
        assert(!releases(events[events.len() - 1], key));
        lemma_step_keeps(run(g, rest), events.last(), key);
    }
}

/// No key is left stuck: a key-up reaches the applications exactly when its
/// key-down did, whatever else happens in between (other keys going down or
/// up, auto-repeat, time passing, locking, unlocking), as long as the key is
/// not released in between.
pub proof fn law_key_up_follows_key_down(
    g: GuardView,
    key: KeyCode,
    vk: u8,
    now: Micros,
    between: Seq<GuardEvent>,
    up_at: Micros,
)
    requires
        g.wf(),
        !g.tracks(key),
        forall|i: int| 0 <= i < between.len() ==> !releases(#[trigger] between[i], key),
    ensures
        ({
            let (g1, down) = g.key_down_next(key, vk, now);
            let up = run(g1, between).key_up_next(key, up_at).1;
            up.swallow == down.swallow
        }),
{
    let (g1, down) = g.key_down_next(key, vk, now);
    lemma_lists_after_down(g, key, vk, now);
    lemma_run_keeps(g1, between, key);
}

/// A key-up of a key whose key-down the guard never decided reaches the
/// applications.
pub proof fn law_unknown_key_up_passes(g: GuardView, key: KeyCode, now: Micros)
    requires
        !g.tracks(key),
    ensures
        g.key_up_next(key, now).1 == Verdict::pass(),
{
}

/// While the keyboard is locked every key-down is swallowed, and a key-down
/// while unlocked is swallowed only by the lock it causes or when its key
/// went down swallowed before.
pub proof fn law_locked_swallows(g: GuardView, key: KeyCode, vk: u8, now: Micros)
    ensures
        g.locked ==> g.key_down_next(key, vk, now).1.swallow,
        !g.locked && g.key_down_next(key, vk, now).1.swallow ==> g.swallowed.contains(key)
            || g.key_down_next(key, vk, now).1.action matches Some(Action::Lock(_)),
{
}

/// Keys the cat is still standing on stay dead until it lets go: once a
/// key-down was swallowed, every auto-repeat of the key is swallowed too,
/// locked or not, and it stays swallowed through unlocks.
pub proof fn law_dead_until_released(g: GuardView, key: KeyCode, vk: u8, now: Micros)
    requires
        g.wf(),
        g.swallowed.contains(key),
    ensures
        g.key_down_next(key, vk, now).1 == Verdict::swallowed(),
        g.key_down_next(key, vk, now).0.swallowed == g.swallowed,
        g.unlock_next().swallowed == g.swallowed,
{
}

/// Only an unlocked guard locks, and time passing neither locks again nor
/// unlocks a locked guard.
pub proof fn law_poll_while_locked(g: GuardView, now: Micros)
    requires
        g.locked,
    ensures
        g.poll_next(now).1 is None,
        g.poll_next(now).0.locked,
{
}

/// A deterrent sound comes at least `DETER_GAP` after the last sound, and
/// every sound, the one of a lock included, restarts that gap.
pub proof fn law_deter_gap(g: GuardView, key: KeyCode, vk: u8, now: Micros)
    ensures
        ({
            let (g1, v) = g.key_down_next(key, vk, now);
            &&& v.action == Some(Action::Deter) ==> now - g.last_sound >= DETER_GAP
                && g1.last_sound == now
            &&& v.action matches Some(Action::Lock(_)) ==> g1.last_sound == now
            &&& (v.action is None || v.action matches Some(Action::Progress(_))
                || v.action == Some(Action::Unlock)) ==> g1.last_sound == g.last_sound
        }),
{
}

/// Once the typed letters end with the whole word, the guard unlocks: the
/// progress is the word's length exactly when the typed letters are the
/// word.
pub proof fn law_progress_complete(typed: Seq<u8>, word: Seq<u8>)
    requires
        typed.len() <= word.len(),
        word.len() > 0,
    ensures
        progress(typed, word) == word.len() <==> typed == word,
        0 <= progress(typed, word) <= typed.len(),
{
    lemma_progress_bounds(typed, word, typed.len() as int);
    if typed == word {
        assert(word.take(word.len() as int) =~= word);
        assert(typed.subrange(0, typed.len() as int) =~= typed);
    }
    if progress(typed, word) == word.len() {
        lemma_progress_hit(typed, word, typed.len() as int);
        assert(word.take(word.len() as int) =~= word);
        assert(typed.subrange(0, typed.len() as int) =~= typed);
    }
}

proof fn lemma_progress_bounds(typed: Seq<u8>, word: Seq<u8>, n: int)
    ensures
        0 <= progress_upto(typed, word, n),
        n >= 0 ==> progress_upto(typed, word, n) <= n,
    decreases n,
{
    if n > 0 {
        lemma_progress_bounds(typed, word, n - 1);
    }
}

proof fn lemma_progress_hit(typed: Seq<u8>, word: Seq<u8>, n: int)
    requires
        progress_upto(typed, word, n) > 0,
    ensures
        ends_with(typed, word.take(progress_upto(typed, word, n))),
    decreases n,
{
    if n > 0 && !ends_with(typed, word.take(n)) {
        lemma_progress_hit(typed, word, n - 1);
    }
}

/// The last `n` elements of `s`, or all of `s` when it is shorter.
pub open spec fn last_n(s: Seq<u8>, n: nat) -> Seq<u8> {
    if s.len() <= n {
        s
    } else {
        s.subrange(s.len() - n, s.len() as int)
    }
}

/// The letters that the events type: those of the key-downs of keys that
/// were not down already, in order. Auto-repeats type nothing.
pub open spec fn fresh_letters(g: GuardView, events: Seq<GuardEvent>) -> Seq<u8>
    decreases events.len(),
{
    if events.len() == 0 {
        Seq::empty()
    } else {
        let rest = fresh_letters(g, events.drop_last());
        match events.last() {
            GuardEvent::Down(key, vk, _) => if run(g, events.drop_last()).tracks(key) {
                rest
            } else {
                rest.push(vk)
            },
            _ => rest,
        }
    }
}

/// None of the events is a click on the unlock button.
pub open spec fn no_unlock_event(events: Seq<GuardEvent>) -> bool {
    forall|i: int| 0 <= i < events.len() ==> !(#[trigger] events[i] is Unlock)
}

/// The guard is locked before the events and after each of them.
pub open spec fn locked_throughout(g: GuardView, events: Seq<GuardEvent>) -> bool {
    forall|i: int| 0 <= i <= events.len() ==> #[trigger] run(g, events.take(i)).locked
}

/// One more letter keeps the last `n` letters.
proof fn lemma_last_n_push(s: Seq<u8>, n: nat, vk: u8)
    requires
        n > 0,
    ensures
        typed_after(last_n(s, n), n, vk) == last_n(s.push(vk), n),
        last_n(s, n).len() <= n,
{
    if s.len() >= n {
        assert(last_n(s, n).drop_first().push(vk) =~= last_n(s.push(vk), n));
    }
}

/// While the guard stays locked, the letters it has typed are the last
/// word-length letters of the key-downs of keys that were not down already.
proof fn lemma_letters_while_locked(g: GuardView, events: Seq<GuardEvent>)
    requires
        g.locked,
        g.word.len() > 0,
        g.typed.len() <= g.word.len(),
        no_unlock_event(events),
        locked_throughout(g, events),
    ensures
        run(g, events).word == g.word,
        run(g, events).locked,
        run(g, events).typed == last_n(g.typed + fresh_letters(g, events), g.word.len()),
    decreases events.len(),
{
    let n = g.word.len();
    if events.len() == 0 {
        assert(g.typed + Seq::<u8>::empty() =~= g.typed);
        assert(events.take(0) =~= events);
        assert(run(g, events.take(0)).locked);
    } else {
        let m = events.len() - 1;
        let rest = events.drop_last();
        assert forall|i: int| 0 <= i < rest.len() implies !(#[trigger] rest[i] is Unlock) by {
            assert(rest[i] == events[i]);
        }
        assert forall|i: int| 0 <= i <= rest.len() implies #[trigger] run(g, rest.take(i)).locked by {
            assert(rest.take(i) =~= events.take(i));
            assert(run(g, events.take(i)).locked);
        }
        lemma_letters_while_locked(g, rest);
        let r = run(g, rest);
        let before = g.typed + fresh_letters(g, rest);
        assert(events.take(events.len() as int) =~= events);
        assert(run(g, events.take(events.len() as int)).locked);
        assert(!(events[m] is Unlock));
        match events.last() {
            GuardEvent::Down(key, vk, now) => {
                if !r.tracks(key) {
                    lemma_last_n_push(before, n, vk);
                    assert(before.push(vk) =~= g.typed + fresh_letters(g, rest).push(vk));
                }
            },
            _ => {},
        }
    }
}

/// Typing the unlock word unlocks, whatever was typed before, whatever
/// keys went up, whatever time passed and whichever keys repeat: while the
/// keyboard stays locked, the letters the guard has typed are the last
/// word-length letters of the key-downs of keys that were not down already
/// (an auto-repeat types nothing). The next key-down answers `Unlock`, and
/// the guard unlocks, exactly when it is such a key-down and those letters
/// then are the word. Every key-down is swallowed; one of a key already down
/// answers nothing, and any other key-down that does not unlock answers the
/// deterrent or the progress made.
#[verifier::spinoff_prover]
pub proof fn law_typing_the_word_unlocks(
    g: GuardView,
    events: Seq<GuardEvent>,
    key: KeyCode,
    vk: u8,
    now: Micros,
)
    requires
        g.wf(),
        g.locked,
        no_unlock_event(events),
        locked_throughout(g, events),
    ensures
        ({
            let r = run(g, events);
            let letters = g.typed + fresh_letters(g, events);
            let (r1, v) = r.key_down_next(key, vk, now);
            let w = g.word;
            &&& r.typed == last_n(letters, w.len())
            &&& v.swallow
            &&& (v.action == Some(Action::Unlock)) <==> (!r.tracks(key) && last_n(
                letters.push(vk),
                w.len(),
            ) == w)
            &&& r1.locked <==> v.action != Some(Action::Unlock)
            &&& r.tracks(key) ==> v == Verdict::swallowed()
            &&& !r.tracks(key) && v.action != Some(Action::Unlock) ==> (v.action == Some(
                Action::Deter,
            ) || v.action == Some(
                Action::Progress(progress(last_n(letters.push(vk), w.len()), w) as usize),
            ))
        }),
{
    let w = g.word;
    lemma_letters_while_locked(g, events);
    let r = run(g, events);
    let letters = g.typed + fresh_letters(g, events);
    lemma_last_n_push(letters, w.len(), vk);
    let typed = typed_after(r.typed, w.len(), vk);
    assert(typed == last_n(letters.push(vk), w.len()));
    law_progress_complete(typed, w);
}

// ------------------------------------------------------------- the history

/// One thing that can happen to a history.
pub enum HistoryEvent {
    /// A key-down: key, letter, time, whether it reached the applications,
    /// whether its key was down already.
    Down(KeyCode, u8, Micros, bool, bool),
    Up(KeyCode, Micros),
    Prune(Micros),
    MarkLock(Rule, Micros, Micros),
    Clear,
}

pub open spec fn history_step(h: HistoryView, e: HistoryEvent) -> HistoryView {
    match e {
        HistoryEvent::Down(key, vk, now, passed, repeat) => h.key_down_next(key, vk, now, passed, repeat),
        HistoryEvent::Up(key, now) => h.key_up_next(key, now),
        HistoryEvent::Prune(now) => h.prune_next(now),
        HistoryEvent::MarkLock(rule, now, since) => h.mark_lock_next(rule, now, since),
        HistoryEvent::Clear => HistoryView::empty(),
    }
}

/// The history after the events, in order.
pub open spec fn history_run(h: HistoryView, events: Seq<HistoryEvent>) -> HistoryView
    decreases events.len(),
{
    if events.len() == 0 {
        h
    } else {
        history_step(history_run(h, events.drop_last()), events.last())
    }
}

/// The lock that the events leave: that of the last lock they mark, none
/// when they clear the history after it, and `lock` when they do neither.
pub open spec fn last_lock(lock: Option<(Rule, Micros, Micros)>, events: Seq<HistoryEvent>) -> Option<
    (Rule, Micros, Micros),
>
    decreases events.len(),
{
    if events.len() == 0 {
        lock
    } else {
        match events.last() {
            HistoryEvent::MarkLock(rule, now, since) => Some((rule, now, since)),
            HistoryEvent::Clear => None,
            _ => last_lock(lock, events.drop_last()),
        }
    }
}

/// There is an incident exactly after a lock: a new history knows no lock,
/// only marking one sets it, clearing forgets it, and nothing else touches
/// it. `History::incident` answers `None` exactly when this lock is none,
/// and otherwise the rule and times of the last lock marked.
pub proof fn law_incident_needs_a_lock(h: HistoryView, events: Seq<HistoryEvent>)
    ensures
        history_run(h, events).lock == last_lock(h.lock, events),
        history_run(HistoryView::empty(), events).lock == last_lock(None, events),
    decreases events.len(),
{
    if events.len() > 0 {
        law_incident_needs_a_lock(h, events.drop_last());
    }
}

/// The event puts this modifier key among the held ones: a key-down of it
/// that reached the applications and was recorded as a new press.
pub open spec fn holds_mod(h: HistoryView, e: HistoryEvent, k: KeyCode) -> bool {
    match e {
        HistoryEvent::Down(key, _, _, passed, repeat) => key == k && modifier_of_key(k) is Some
            && passed && !(repeat && last_open(h.presses, k) >= 0),
        _ => false,
    }
}

/// The event ends the holding of this key: its key-up, or clearing.
pub open spec fn lets_go(e: HistoryEvent, k: KeyCode) -> bool {
    match e {
        HistoryEvent::Up(key, _) => key == k,
        HistoryEvent::Clear => true,
        _ => false,
    }
}

/// Whether the events leave the key held: held after the last event that
/// holds it or lets it go, and as before when there is none.
pub open spec fn still_held(h: HistoryView, events: Seq<HistoryEvent>, k: KeyCode) -> bool
    decreases events.len(),
{
    if events.len() == 0 {
        h.held_mods.contains(k)
    } else {
        let before = history_run(h, events.drop_last());
        if holds_mod(before, events.last(), k) {
            true
        } else if lets_go(events.last(), k) {
            false
        } else {
            still_held(h, events.drop_last(), k)
        }
    }
}

proof fn lemma_push_contains(s: Seq<KeyCode>, x: KeyCode)
    ensures
        forall|k: KeyCode| #[trigger] s.push(x).contains(k) <==> (s.contains(k) || k == x),
{
    assert forall|k: KeyCode| #[trigger] s.push(x).contains(k) <==> (s.contains(k) || k == x) by {
        if s.push(x).contains(k) && k != x {
            let m = choose|m: int| 0 <= m < s.push(x).len() && s.push(x)[m] == k;
            assert(s[m] == k);
        }
        if s.contains(k) {
            let m = choose|m: int| 0 <= m < s.len() && s[m] == k;
            assert(s.push(x)[m] == k);
        }
        if k == x {
            assert(s.push(x)[s.len() as int] == k);
        }
    }
}

proof fn lemma_drop_key(held: Seq<KeyCode>, key: KeyCode)
    ensures
        forall|k: KeyCode| #[trigger] drop_key(held, key).contains(k) <==> (held.contains(k) && k != key),
    decreases held.len(),
{
    if held.len() > 0 {
        let rest = held.drop_last();
        let x = held.last();
        lemma_drop_key(rest, key);
        assert(held =~= rest.push(x));
        lemma_push_contains(rest, x);
        lemma_push_contains(drop_key(rest, key), x);
    }
}

/// Which modifiers a key-down records as held: a modifier key counts as held
/// from a key-down of it that reached the applications and was recorded as
/// a new press, until its key-up or until the history is cleared.
pub proof fn law_held_modifiers(h: HistoryView, events: Seq<HistoryEvent>, k: KeyCode)
    ensures
        history_run(h, events).held_mods.contains(k) == still_held(h, events, k),
    decreases events.len(),
{
    if events.len() > 0 {
        let rest = events.drop_last();
        law_held_modifiers(h, rest, k);
        let before = history_run(h, rest);
        match events.last() {
            HistoryEvent::Up(key, now) => {
                lemma_drop_key(before.held_mods, key);
            },
            HistoryEvent::Down(key, vk, now, passed, repeat) => {
                if !(repeat && last_open(before.presses, key) >= 0) && modifier_of_key(key) is Some
                    && passed && !before.held_mods.contains(key) {
                    lemma_push_contains(before.held_mods, key);
                }
            },
            _ => {},
        }
    }
}

/// A key-down that is no repeat of an open press records a new press at the
/// end, with the modifiers held before it (not counting itself), and when
/// the history is full the oldest press makes room: a history never holds
/// more than [`crate::history::CAPACITY`] presses.
pub proof fn law_press_records_held_modifiers(
    h: HistoryView,
    key: KeyCode,
    vk: u8,
    now: Micros,
    passed: bool,
    repeat: bool,
)
    requires
        h.wf(),
        !(repeat && last_open(h.presses, key) >= 0),
    ensures
        ({
            let h1 = h.key_down_next(key, vk, now, passed, repeat);
            &&& h1.wf()
            &&& h1.presses == (if h.presses.len() == crate::history::CAPACITY {
                h.presses.drop_first()
            } else {
                h.presses
            }).push(
                Press {
                    key,
                    vk,
                    mods: crate::history::mods_held(h.held_mods),
                    down: now,
                    up: None,
                    passed,
                    repeats: 0,
                },
            )
        }),
{
}

// ------------------------------------------------------------- the undo plan

/// The presses of `ps` that count towards a switch: no modifier, reached
/// the applications before the lock, and this combination.
pub open spec fn switch_presses(inc: Incident, ps: Seq<Press>, mods: Mods, vk: u8) -> nat
    decreases ps.len(),
{
    if ps.len() == 0 {
        0
    } else {
        let p = ps.last();
        switch_presses(inc, ps.drop_last(), mods, vk) + if modifier_of_key(p.key) is None
            && inc.before(p) && p.mods == mods && p.vk == vk {
            1nat
        } else {
            0nat
        }
    }
}

pub open spec fn distinct_steps(s: Seq<UndoStep>) -> bool {
    forall|i: int, j: int| 0 <= i < j < s.len() ==> s[i] != s[j]
}

proof fn lemma_remove_step(s: Seq<UndoStep>, at: int)
    requires
        distinct_steps(s),
        0 <= at < s.len(),
    ensures
        distinct_steps(s.remove(at)),
        forall|x: UndoStep| #[trigger] s.remove(at).contains(x) <==> (s.contains(x) && x != s[at]),
{
    let r = s.remove(at);
    assert forall|i: int, j: int| 0 <= i < j < r.len() implies r[i] != r[j] by {
        let si = if i < at { i } else { i + 1 };
        let sj = if j < at { j } else { j + 1 };
        assert(r[i] == s[si] && r[j] == s[sj]);
    }
    assert forall|x: UndoStep| #[trigger] r.contains(x) <==> (s.contains(x) && x != s[at]) by {
        if r.contains(x) {
            let m = choose|m: int| 0 <= m < r.len() && r[m] == x;
            let sm = if m < at { m } else { m + 1 };
            assert(s[sm] == x);
        }
        if s.contains(x) && x != s[at] {
            let m = choose|m: int| 0 <= m < s.len() && s[m] == x;
            if m < at {
                assert(r[m] == x);
            } else {
                assert(r[m - 1] == x);
            }
        }
    }
}

proof fn lemma_push_step(s: Seq<UndoStep>, step: UndoStep)
    requires
        distinct_steps(s),
        !s.contains(step),
    ensures
        distinct_steps(s.push(step)),
        forall|x: UndoStep| #[trigger] s.push(step).contains(x) <==> (s.contains(x) || x == step),
{
    let r = s.push(step);
    assert forall|i: int, j: int| 0 <= i < j < r.len() implies r[i] != r[j] by {
        if j == s.len() {
            assert(r[i] == s[i]);
            assert(s.contains(s[i]));
        }
    }
    assert forall|x: UndoStep| #[trigger] r.contains(x) <==> (s.contains(x) || x == step) by {
        if r.contains(x) {
            let m = choose|m: int| 0 <= m < r.len() && r[m] == x;
            if m < s.len() {
                assert(s[m] == x);
            }
        }
        if s.contains(x) {
            let m = choose|m: int| 0 <= m < s.len() && s[m] == x;
            assert(r[m] == x);
        }
        if x == step {
            assert(r[s.len() as int] == x);
        }
    }
}

/// The one combination pressed instead of another is no switch itself.
proof fn lemma_instead_is_no_switch(mods: Mods, vk: u8)
    requires
        undo_of(mods, vk) matches Some(Undo::PressInstead(m2, v2)),
    ensures
        undo_of(mods, vk) matches Some(Undo::PressInstead(m2, v2)) && undo_of(m2, v2) is None,
{
}

proof fn lemma_plan_parity(inc: Incident, ps: Seq<Press>, mods: Mods, vk: u8)
    requires
        undo_of(mods, vk) == Some(Undo::PressAgain),
    ensures
        distinct_steps(inc.plan_of(ps).0),
        inc.plan_of(ps).0.contains(UndoStep::Press(mods, vk)) <==> switch_presses(
            inc,
            ps,
            mods,
            vk,
        ) % 2 == 1,
    decreases ps.len(),
{
    if ps.len() > 0 {
        let rest = ps.drop_last();
        lemma_plan_parity(inc, rest, mods, vk);
        let (steps, typed, only_text) = inc.plan_of(rest);
        let p = ps.last();
        let target = UndoStep::Press(mods, vk);
        if modifier_of_key(p.key) is None && undo_of(p.mods, p.vk) is Some && inc.before(p) {
            let undo = undo_of(p.mods, p.vk)->0;
            let step = step_of(undo, p);
            lemma_step_index(steps, step);
            let at = step_index(steps, step);
            if p.mods == mods && p.vk == vk {
                assert(step == target);
                if at >= 0 {
                    lemma_remove_step(steps, at);
                } else {
                    lemma_push_step(steps, step);
                }
            } else {
                if let Undo::PressInstead(m2, v2) = undo {
                    lemma_instead_is_no_switch(p.mods, p.vk);
                    assert(step != target);
                } else {
                    assert(step != target);
                }
                if at >= 0 {
                    if undo == Undo::PressAgain {
                        lemma_remove_step(steps, at);
                    }
                } else {
                    lemma_push_step(steps, step);
                }
            }
        }
    }
}

/// A switch flipped twice needs no undo: for a combination that is its own
/// opposite (Caps Lock, mute, Win+D, ...), the undo plan presses it once
/// exactly when it reached the applications an odd number of times before
/// the lock, and never more than once.
pub proof fn law_switch_parity(inc: Incident, mods: Mods, vk: u8)
    requires
        undo_of(mods, vk) == Some(Undo::PressAgain),
    ensures
        inc.plan().contains(UndoStep::Press(mods, vk)) <==> switch_presses(
            inc,
            inc.presses@,
            mods,
            vk,
        ) % 2 == 1,
        distinct_steps(inc.plan_of(inc.presses@).0),
{
    lemma_plan_parity(inc, inc.presses@, mods, vk);
    let (steps, typed, only_text) = inc.plan_of(inc.presses@);
    if typed > 0 && only_text {
        let target = UndoStep::Press(mods, vk);
        let b = UndoStep::Backspace(typed as u32);
        if steps.push(b).contains(target) {
            let m = choose|m: int| 0 <= m < steps.push(b).len() && steps.push(b)[m] == target;
            assert(m < steps.len());
            assert(steps[m] == target);
        }
        if steps.contains(target) {
            let m = choose|m: int| 0 <= m < steps.len() && steps[m] == target;
            assert(steps.push(b)[m] == target);
        }
    }
}

/// Backspace is offered only when characters are all that arrived under the
/// paw, once, as the last step, for every character typed.
pub proof fn law_backspace_last(inc: Incident)
    ensures
        ({
            let (steps, typed, only_text) = inc.plan_of(inc.presses@);
            &&& typed > 0 && only_text ==> inc.plan() == steps.push(UndoStep::Backspace(typed as u32))
            &&& !(typed > 0 && only_text) ==> inc.plan() == steps
            &&& forall|i: int| 0 <= i < steps.len() ==> (#[trigger] steps[i]) is Press
        }),
{
    lemma_steps_press(inc, inc.presses@);
}

proof fn lemma_steps_press(inc: Incident, ps: Seq<Press>)
    ensures
        forall|i: int| 0 <= i < inc.plan_of(ps).0.len() ==> (#[trigger] inc.plan_of(ps).0[i]) is Press,
    decreases ps.len(),
{
    if ps.len() > 0 {
        lemma_steps_press(inc, ps.drop_last());
        let (steps, typed, only_text) = inc.plan_of(ps.drop_last());
        let p = ps.last();
        if modifier_of_key(p.key) is None && undo_of(p.mods, p.vk) is Some && inc.before(p) {
            let step = step_of(undo_of(p.mods, p.vk)->0, p);
            let at = step_index(steps, step);
            lemma_step_index(steps, step);
            if at >= 0 && undo_of(p.mods, p.vk)->0 == Undo::PressAgain {
                assert forall|i: int| 0 <= i < steps.remove(at).len() implies (#[trigger] steps.remove(at)[i]) is Press by {
                    if i < at {
                        assert(steps.remove(at)[i] == steps[i]);
                    } else {
                        assert(steps.remove(at)[i] == steps[i + 1]);
                    }
                }
            }
        }
    }
}

// ------------------------------------------------------------- the detector

/// Shift, Ctrl, Alt and Win never count, and auto-repeat of a key that is
/// already down changes nothing.
pub proof fn law_modifiers_and_repeats_do_not_count(d: DetectorView, key: KeyCode, now: Micros)
    requires
        modifier_key(key) || holds_key(d.down, key),
    ensures
        d.key_down_next(key, now) == (d, None::<crate::detector::Rule>),
{
}

/// Any other key that goes down is tracked from then on.
pub proof fn law_new_key_is_tracked(d: DetectorView, key: KeyCode, now: Micros)
    requires
        !modifier_key(key),
    ensures
        holds_key(d.key_down_next(key, now).0.down, key),
{
    if !holds_key(d.down, key) {
        let down = d.key_down_next(key, now).0.down;
        assert(down[down.len() - 1].key == key);
    }
}

/// A key-up ends the tracking of its key.
pub proof fn law_key_up_forgets(d: DetectorView, key: KeyCode)
    ensures
        !holds_key(d.key_up_next(key).down, key),
{
    let keep = crate::detector::other_key_pred(key);
    lemma_keep_where_subset(d.down, keep);
    let down = d.key_up_next(key).down;
    assert forall|i: int| 0 <= i < down.len() implies down[i].key != key by {
        assert(keep(keep_where(d.down, keep)[i]));
    }
}

/// A lost key-up is forgotten: once time has passed, no key counts that
/// went down `stale_after` or longer ago.
pub proof fn law_lost_key_up_is_forgotten(d: DetectorView, now: Micros)
    ensures
        forall|i: int|
            0 <= i < d.poll_next(now).0.down.len() ==> sat_sub(
                now,
                (#[trigger] d.poll_next(now).0.down[i]).since,
            ) < d.thresholds.stale_after,
{
    let keep = crate::detector::fresh_pred(now, d.thresholds.stale_after);
    lemma_keep_where_subset(d.down, keep);
    assert forall|i: int| 0 <= i < d.poll_next(now).0.down.len() implies sat_sub(
        now,
        (#[trigger] d.poll_next(now).0.down[i]).since,
    ) < d.thresholds.stale_after by {
        assert(keep(keep_where(d.down, keep)[i]));
    }
}

// ------------------------------------------------------------- the history

proof fn lemma_expired_count(ps: Seq<Press>, now: Micros)
    ensures
        expired_count(ps, now) <= ps.len(),
        forall|i: int| 0 <= i < expired_count(ps, now) ==> expired(#[trigger] ps[i], now),
        expired_count(ps, now) < ps.len() ==> !expired(ps[expired_count(ps, now) as int], now),
    decreases ps.len(),
{
    if ps.len() > 0 && expired(ps[0], now) {
        lemma_expired_count(ps.drop_first(), now);
        assert forall|i: int| 0 <= i < expired_count(ps, now) implies expired(#[trigger] ps[i], now) by {
            if i > 0 {
                assert(ps[i] == ps.drop_first()[i - 1]);
            }
        }
        if expired_count(ps, now) < ps.len() {
            assert(ps[expired_count(ps, now) as int] == ps.drop_first()[expired_count(
                ps.drop_first(),
                now,
            ) as int]);
        }
    }
}

/// The history forgets only what is older than the timeline shows: pruning
/// drops the oldest presses that were released more than [`LOOKBACK`] ago,
/// up to the first that was not, and keeps everything from there on, held
/// keys included.
pub proof fn law_prune_forgets_only_the_old(h: HistoryView, now: Micros)
    ensures
        ({
            let k = expired_count(h.presses, now) as int;
            &&& 0 <= k <= h.presses.len()
            &&& forall|i: int| 0 <= i < k ==> expired(#[trigger] h.presses[i], now)
            &&& k < h.presses.len() ==> !expired(h.presses[k], now)
            &&& h.prune_next(now).presses == h.presses.skip(k)
        }),
{
    lemma_expired_count(h.presses, now);
}

/// What the incident shows as leaked reached the applications: every
/// combination it names comes from a press that was not swallowed, each
/// appears once, and each counts at least one key-down.
pub proof fn law_leaks_reached_the_applications(inc: Incident, ps: Seq<Press>)
    ensures
        ({
            let t = inc.tally_of(ps);
            &&& forall|k: int|
                0 <= k < t.len() ==> (#[trigger] t[k]).3 >= 1 && exists|i: int|
                    0 <= i < ps.len() && ps[i].passed && ps[i].mods == t[k].0 && ps[i].vk
                        == t[k].1 && ps[i].key == t[k].2 && modifier_of_key(ps[i].key) is None
            &&& forall|a: int, b: int|
                0 <= a < b < t.len() ==> !(t[a].0 == t[b].0 && t[a].1 == t[b].1)
        }),
    decreases ps.len(),
{
    if ps.len() > 0 {
        let rest = ps.drop_last();
        law_leaks_reached_the_applications(inc, rest);
        let acc = inc.tally_of(rest);
        let p = ps.last();
        let t = inc.tally_of(ps);
        if inc.relevant(p) {
            lemma_combo_index(acc, p.mods, p.vk);
        }
        assert forall|k: int| 0 <= k < t.len() implies (#[trigger] t[k]).3 >= 1 && exists|i: int|
            0 <= i < ps.len() && ps[i].passed && ps[i].mods == t[k].0 && ps[i].vk == t[k].1
                && ps[i].key == t[k].2 && modifier_of_key(ps[i].key) is None by {
            if k < acc.len() {
                let i = choose|i: int|
                    0 <= i < rest.len() && rest[i].passed && rest[i].mods == acc[k].0
                        && rest[i].vk == acc[k].1 && rest[i].key == acc[k].2 && modifier_of_key(
                        rest[i].key,
                    ) is None;
                assert(ps[i] == rest[i]);
            } else {
                assert(ps[ps.len() - 1] == p);
            }
        }
    }
}

// ------------------------------------------------------------- snapshots

/// Device ids name each device once.
pub open spec fn ids_unique(ds: Seq<Device>) -> bool {
    forall|i: int, j: int| 0 <= i < j < ds.len() ==> ds[i].id@ != ds[j].id@
}

proof fn lemma_own_index(ds: Seq<Device>, k: int)
    requires
        ids_unique(ds),
        0 <= k < ds.len(),
    ensures
        device_index(ds, ds[k].id@) == k,
{
    lemma_device_index(ds, ds[k].id@);
    let ci = device_index(ds, ds[k].id@);
    if ci == -1 || k < ci {
        assert(ds[k].id@ != ds[k].id@);
    }
}

proof fn lemma_no_losses(olds: Seq<Device>, after: Seq<Device>)
    requires
        ids_unique(after),
        olds.len() <= after.len(),
        forall|k: int| 0 <= k < olds.len() ==> olds[k] == after[k],
    ensures
        device_losses(olds, after) == Seq::<crate::snapshot::Change>::empty(),
    decreases olds.len(),
{
    if olds.len() > 0 {
        let n = olds.len() - 1;
        assert forall|k: int| 0 <= k < olds.drop_last().len() implies olds.drop_last()[k] == after[k] by {
            assert(olds.drop_last()[k] == olds[k]);
        }
        lemma_no_losses(olds.drop_last(), after);
        lemma_own_index(after, n);
        assert(olds.last() == after[n]);
    }
}

proof fn lemma_no_gains(nows: Seq<Device>, before: Seq<Device>)
    requires
        forall|k: int| 0 <= k < nows.len() ==> before.contains(#[trigger] nows[k]),
    ensures
        device_gains(nows, before) == Seq::<crate::snapshot::Change>::empty(),
    decreases nows.len(),
{
    if nows.len() > 0 {
        assert forall|k: int| 0 <= k < nows.drop_last().len() implies before.contains(
            #[trigger] nows.drop_last()[k],
        ) by {
            assert(nows.drop_last()[k] == nows[k]);
        }
        lemma_no_gains(nows.drop_last(), before);
        let d = nows.last();
        assert(before.contains(nows[nows.len() - 1]));
        let m = choose|m: int| 0 <= m < before.len() && before[m] == d;
        lemma_device_index(before, d.id@);
        if device_index(before, d.id@) == -1 {
            assert(before[m].id@ != d.id@);
        }
    }
}

proof fn lemma_no_windows_closed(olds: Seq<(usize, String)>, after: Seq<(usize, String)>)
    requires
        forall|k: int| 0 <= k < olds.len() ==> after.contains(#[trigger] olds[k]),
    ensures
        windows_closed(olds, after) == Seq::<crate::snapshot::Change>::empty(),
    decreases olds.len(),
{
    if olds.len() > 0 {
        assert forall|k: int| 0 <= k < olds.drop_last().len() implies after.contains(
            #[trigger] olds.drop_last()[k],
        ) by {
            assert(olds.drop_last()[k] == olds[k]);
        }
        lemma_no_windows_closed(olds.drop_last(), after);
        let w = olds.last();
        assert(after.contains(olds[olds.len() - 1]));
        let m = choose|m: int| 0 <= m < after.len() && after[m] == w;
        assert(after[m].0 == w.0);
        assert(has_handle(after, w.0));
    }
}

/// Nothing changed means nothing to report: a snapshot compared with
/// itself gives no change, as long as no two devices share an id (which
/// Windows instance ids never do).
pub proof fn law_nothing_changed(s: Snapshot)
    requires
        ids_unique(s.devices@),
    ensures
        changes_between(s, s) == Seq::<crate::snapshot::Change>::empty(),
{
    lemma_no_losses(s.devices@, s.devices@);
    assert forall|k: int| 0 <= k < s.devices@.len() implies s.devices@.contains(#[trigger] s.devices@[k]) by {}
    lemma_no_gains(s.devices@, s.devices@);
    assert forall|k: int| 0 <= k < s.windows@.len() implies s.windows@.contains(#[trigger] s.windows@[k]) by {}
    lemma_no_windows_closed(s.windows@, s.windows@);
    let devices = device_losses(s.devices@, s.devices@) + device_gains(s.devices@, s.devices@);
    assert(devices =~= Seq::<crate::snapshot::Change>::empty());
    assert(input_changes(devices, s, s) == devices);
    assert(switch_changes(devices, s, s) == devices);
    assert(changes_between(s, s) =~= Seq::<crate::snapshot::Change>::empty());
}

/// Where a change stands in the report: devices first, then the touchpad,
/// flight mode, the input language and the screen, then the switches, and
/// closed windows last.
pub open spec fn report_rank(c: Change) -> int {
    match c {
        Change::DeviceGone { .. } => 0,
        Change::DeviceBroken { .. } => 0,
        Change::DeviceNew { .. } => 0,
        Change::Touchpad { .. } => 1,
        Change::FlightMode { .. } => 2,
        Change::Language { .. } => 3,
        Change::Rotation { .. } => 4,
        Change::FilterKeys { .. } => 5,
        Change::StickyKeys { .. } => 6,
        Change::ToggleKeys { .. } => 7,
        Change::CapsLock { .. } => 8,
        Change::NumLock { .. } => 9,
        Change::ScrollLock { .. } => 10,
        Change::WindowClosed { .. } => 11,
    }
}

/// The changes of one kind, in their order.
pub open spec fn of_rank(cs: Seq<Change>, r: int) -> Seq<Change> {
    cs.filter(|c: Change| report_rank(c) == r)
}

/// The change alone when the condition holds, else nothing.
pub open spec fn only_if(cond: bool, c: Change) -> Seq<Change> {
    if cond {
        seq![c]
    } else {
        Seq::empty()
    }
}

pub open spec fn all_rank(s: Seq<Change>, r: int) -> bool {
    forall|i: int| 0 <= i < s.len() ==> report_rank(#[trigger] s[i]) == r
}

pub open spec fn ranks_between(s: Seq<Change>, lo: int, hi: int) -> bool {
    forall|i: int| 0 <= i < s.len() ==> lo <= report_rank(#[trigger] s[i]) <= hi
}

pub open spec fn in_report_order(s: Seq<Change>) -> bool {
    forall|i: int, j: int| 0 <= i < j < s.len() ==> report_rank(s[i]) <= report_rank(s[j])
}

proof fn lemma_push_if(acc: Seq<Change>, cond: bool, c: Change)
    ensures
        push_if(acc, cond, c) == acc + only_if(cond, c),
{
    assert(push_if(acc, cond, c) =~= acc + only_if(cond, c));
}

proof fn lemma_losses_rank(olds: Seq<Device>, after: Seq<Device>)
    ensures
        all_rank(device_losses(olds, after), 0),
    decreases olds.len(),
{
    if olds.len() > 0 {
        lemma_losses_rank(olds.drop_last(), after);
    }
}

proof fn lemma_gains_rank(nows: Seq<Device>, before: Seq<Device>)
    ensures
        all_rank(device_gains(nows, before), 0),
    decreases nows.len(),
{
    if nows.len() > 0 {
        lemma_gains_rank(nows.drop_last(), before);
    }
}

proof fn lemma_closed_rank(olds: Seq<(usize, String)>, after: Seq<(usize, String)>)
    ensures
        all_rank(windows_closed(olds, after), 11),
    decreases olds.len(),
{
    if olds.len() > 0 {
        lemma_closed_rank(olds.drop_last(), after);
    }
}

/// Keeping one kind of a sequence of one kind keeps all or nothing.
proof fn lemma_of_rank_all(s: Seq<Change>, r: int, q: int)
    requires
        all_rank(s, r),
    ensures
        of_rank(s, q) == (if r == q {
            s
        } else {
            Seq::<Change>::empty()
        }),
    decreases s.len(),
{
    reveal(Seq::filter);
    if s.len() > 0 {
        let rest = s.drop_last();
        assert forall|i: int| 0 <= i < rest.len() implies report_rank(#[trigger] rest[i]) == r by {
            assert(rest[i] == s[i]);
        }
        lemma_of_rank_all(rest, r, q);
        assert(report_rank(s.last()) == r);
        if r == q {
            assert(rest.push(s.last()) =~= s);
        }
    }
}

/// Part k of the report, holding its changes of kind k: devices, the ten
/// single changes, closed windows.
#[verifier::opaque]
pub open spec fn report_part(b: Snapshot, a: Snapshot, k: int) -> Seq<Change> {
    if k == 0 {
        device_losses(b.devices@, a.devices@) + device_gains(a.devices@, b.devices@)
    } else if k == 1 {
        only_if(known_flip(b.touchpad, a.touchpad), Change::Touchpad { on: a.touchpad->0 })
    } else if k == 2 {
        only_if(known_flip(b.flight_mode, a.flight_mode), Change::FlightMode { on: a.flight_mode->0 })
    } else if k == 3 {
        only_if(b.language.0 != a.language.0, Change::Language { from: b.language.1, to: a.language.1 })
    } else if k == 4 {
        only_if(b.rotation != a.rotation, Change::Rotation { from: b.rotation, to: a.rotation })
    } else if k == 5 {
        only_if(b.filter_keys != a.filter_keys, Change::FilterKeys { on: a.filter_keys })
    } else if k == 6 {
        only_if(b.sticky_keys != a.sticky_keys, Change::StickyKeys { on: a.sticky_keys })
    } else if k == 7 {
        only_if(b.toggle_keys != a.toggle_keys, Change::ToggleKeys { on: a.toggle_keys })
    } else if k == 8 {
        only_if(b.caps_lock != a.caps_lock, Change::CapsLock { on: a.caps_lock })
    } else if k == 9 {
        only_if(b.num_lock != a.num_lock, Change::NumLock { on: a.num_lock })
    } else if k == 10 {
        only_if(b.scroll_lock != a.scroll_lock, Change::ScrollLock { on: a.scroll_lock })
    } else if k == 11 {
        windows_closed(b.windows@, a.windows@)
    } else {
        Seq::empty()
    }
}

proof fn lemma_report_parts(b: Snapshot, a: Snapshot)
    ensures
        report_part(b, a, 0) == device_losses(b.devices@, a.devices@) + device_gains(a.devices@, b.devices@),
        report_part(b, a, 1) == only_if(known_flip(b.touchpad, a.touchpad), Change::Touchpad { on: a.touchpad->0 }),
        report_part(b, a, 2) == only_if(known_flip(b.flight_mode, a.flight_mode), Change::FlightMode { on: a.flight_mode->0 }),
        report_part(b, a, 3) == only_if(b.language.0 != a.language.0, Change::Language { from: b.language.1, to: a.language.1 }),
        report_part(b, a, 4) == only_if(b.rotation != a.rotation, Change::Rotation { from: b.rotation, to: a.rotation }),
        report_part(b, a, 5) == only_if(b.filter_keys != a.filter_keys, Change::FilterKeys { on: a.filter_keys }),
        report_part(b, a, 6) == only_if(b.sticky_keys != a.sticky_keys, Change::StickyKeys { on: a.sticky_keys }),
        report_part(b, a, 7) == only_if(b.toggle_keys != a.toggle_keys, Change::ToggleKeys { on: a.toggle_keys }),
        report_part(b, a, 8) == only_if(b.caps_lock != a.caps_lock, Change::CapsLock { on: a.caps_lock }),
        report_part(b, a, 9) == only_if(b.num_lock != a.num_lock, Change::NumLock { on: a.num_lock }),
        report_part(b, a, 10) == only_if(b.scroll_lock != a.scroll_lock, Change::ScrollLock { on: a.scroll_lock }),
        report_part(b, a, 11) == windows_closed(b.windows@, a.windows@),
        forall|k: int| !(0 <= k < 12) ==> report_part(b, a, k) == Seq::<Change>::empty(),
{
    reveal(report_part);
}

/// The first `n` parts of the report, one after another.
pub open spec fn report_upto(b: Snapshot, a: Snapshot, n: int) -> Seq<Change>
    decreases n,
{
    if n <= 0 {
        Seq::empty()
    } else {
        report_upto(b, a, n - 1) + report_part(b, a, n - 1)
    }
}

proof fn lemma_part_ranks(b: Snapshot, a: Snapshot, k: int)
    requires
        0 <= k < 12,
    ensures
        all_rank(report_part(b, a, k), k),
{
    lemma_report_parts(b, a);
    if k == 0 {
        lemma_losses_rank(b.devices@, a.devices@);
        lemma_gains_rank(a.devices@, b.devices@);
        let l = device_losses(b.devices@, a.devices@);
        let d = report_part(b, a, 0);
        assert forall|i: int| 0 <= i < d.len() implies report_rank(#[trigger] d[i]) == 0 by {
            if i < l.len() {
                assert(d[i] == l[i]);
            } else {
                assert(d[i] == device_gains(a.devices@, b.devices@)[i - l.len()]);
            }
        }
    } else if k == 11 {
        lemma_closed_rank(b.windows@, a.windows@);
    }
}

proof fn lemma_input_parts(b: Snapshot, a: Snapshot)
    ensures
        input_changes(report_part(b, a, 0), b, a) == report_upto(b, a, 5),
{
    lemma_report_parts(b, a);
    let d = report_part(b, a, 0);
    assert(report_upto(b, a, 1) == d) by {
        assert(report_upto(b, a, 0) + d =~= d);
    }
    lemma_push_if(d, known_flip(b.touchpad, a.touchpad), Change::Touchpad { on: a.touchpad->0 });
    let a1 = report_upto(b, a, 2);
    lemma_push_if(a1, known_flip(b.flight_mode, a.flight_mode), Change::FlightMode { on: a.flight_mode->0 });
    let a2 = report_upto(b, a, 3);
    lemma_push_if(a2, b.language.0 != a.language.0, Change::Language { from: b.language.1, to: a.language.1 });
    let a3 = report_upto(b, a, 4);
    lemma_push_if(a3, b.rotation != a.rotation, Change::Rotation { from: b.rotation, to: a.rotation });
}

proof fn lemma_switch_parts(b: Snapshot, a: Snapshot)
    ensures
        switch_changes(report_upto(b, a, 5), b, a) == report_upto(b, a, 11),
{
    lemma_report_parts(b, a);
    let a4 = report_upto(b, a, 5);
    lemma_push_if(a4, b.filter_keys != a.filter_keys, Change::FilterKeys { on: a.filter_keys });
    let a5 = report_upto(b, a, 6);
    lemma_push_if(a5, b.sticky_keys != a.sticky_keys, Change::StickyKeys { on: a.sticky_keys });
    let a6 = report_upto(b, a, 7);
    lemma_push_if(a6, b.toggle_keys != a.toggle_keys, Change::ToggleKeys { on: a.toggle_keys });
    let a7 = report_upto(b, a, 8);
    lemma_push_if(a7, b.caps_lock != a.caps_lock, Change::CapsLock { on: a.caps_lock });
    let a8 = report_upto(b, a, 9);
    lemma_push_if(a8, b.num_lock != a.num_lock, Change::NumLock { on: a.num_lock });
    let a9 = report_upto(b, a, 10);
    lemma_push_if(a9, b.scroll_lock != a.scroll_lock, Change::ScrollLock { on: a.scroll_lock });
}

/// The report is its twelve parts, one after another.
proof fn lemma_diff_parts(b: Snapshot, a: Snapshot)
    ensures
        changes_between(b, a) == report_upto(b, a, 12),
{
    lemma_report_parts(b, a);
    lemma_input_parts(b, a);
    lemma_switch_parts(b, a);
}

/// Keeping one kind of the report keeps its part of that kind.
proof fn lemma_of_rank_report(b: Snapshot, a: Snapshot, q: int)
    requires
        0 <= q < 12,
    ensures
        of_rank(changes_between(b, a), q) == report_part(b, a, q),
{
    lemma_diff_parts(b, a);
    lemma_of_rank_upto(b, a, 12, q);
}

proof fn lemma_of_rank_upto(b: Snapshot, a: Snapshot, n: int, q: int)
    requires
        0 <= n <= 12,
    ensures
        of_rank(report_upto(b, a, n), q) == (if 0 <= q < n {
            report_part(b, a, q)
        } else {
            Seq::<Change>::empty()
        }),
        ranks_between(report_upto(b, a, n), 0, n - 1),
        in_report_order(report_upto(b, a, n)),
    decreases n,
{
    reveal(Seq::filter);
    if n > 0 {
        lemma_of_rank_upto(b, a, n - 1, q);
        let pre = report_upto(b, a, n - 1);
        let last = report_part(b, a, n - 1);
        lemma_part_ranks(b, a, n - 1);
        Seq::filter_distributes_over_add(pre, last, |c: Change| report_rank(c) == q);
        lemma_of_rank_all(last, n - 1, q);
        if q == n - 1 {
            assert(Seq::<Change>::empty() + last =~= last);
        } else if 0 <= q < n - 1 {
            assert(report_part(b, a, q) + Seq::<Change>::empty() =~= report_part(b, a, q));
        } else {
            assert(Seq::<Change>::empty() + Seq::<Change>::empty() =~= Seq::<Change>::empty());
        }
        let all = pre + last;
        assert forall|i: int| 0 <= i < all.len() implies 0 <= report_rank(#[trigger] all[i]) <= n - 1 by {
            if i < pre.len() {
                assert(all[i] == pre[i]);
            } else {
                assert(all[i] == last[i - pre.len()]);
            }
        }
        assert forall|i: int, j: int| 0 <= i < j < all.len() implies report_rank(all[i]) <= report_rank(all[j]) by {
            if j < pre.len() {
                assert(all[i] == pre[i] && all[j] == pre[j]);
            } else if i < pre.len() {
                assert(all[i] == pre[i] && all[j] == last[j - pre.len()]);
            } else {
                assert(all[i] == last[i - pre.len()] && all[j] == last[j - pre.len()]);
            }
        }
    }
}

/// Each kind of change is reported as it should be: devices as the devices
/// compare; the touchpad and flight mode once, and only when both snapshots
/// know them and they differ; the input language and the screen rotation
/// once when they differ, with both values; each switch (Filter, Sticky and
/// Toggle Keys, Caps, Num and Scroll Lock) once exactly when it differs,
/// with its new state; and each window of before that is gone.
pub proof fn law_diff_reports_each_kind(b: Snapshot, a: Snapshot)
    ensures
        of_rank(changes_between(b, a), 0) == device_losses(b.devices@, a.devices@) + device_gains(a.devices@, b.devices@),
        of_rank(changes_between(b, a), 1) == only_if(known_flip(b.touchpad, a.touchpad), Change::Touchpad { on: a.touchpad->0 }),
        of_rank(changes_between(b, a), 2) == only_if(known_flip(b.flight_mode, a.flight_mode), Change::FlightMode { on: a.flight_mode->0 }),
        of_rank(changes_between(b, a), 3) == only_if(b.language.0 != a.language.0, Change::Language { from: b.language.1, to: a.language.1 }),
        of_rank(changes_between(b, a), 4) == only_if(b.rotation != a.rotation, Change::Rotation { from: b.rotation, to: a.rotation }),
        of_rank(changes_between(b, a), 5) == only_if(b.filter_keys != a.filter_keys, Change::FilterKeys { on: a.filter_keys }),
        of_rank(changes_between(b, a), 6) == only_if(b.sticky_keys != a.sticky_keys, Change::StickyKeys { on: a.sticky_keys }),
        of_rank(changes_between(b, a), 7) == only_if(b.toggle_keys != a.toggle_keys, Change::ToggleKeys { on: a.toggle_keys }),
        of_rank(changes_between(b, a), 8) == only_if(b.caps_lock != a.caps_lock, Change::CapsLock { on: a.caps_lock }),
        of_rank(changes_between(b, a), 9) == only_if(b.num_lock != a.num_lock, Change::NumLock { on: a.num_lock }),
        of_rank(changes_between(b, a), 10) == only_if(b.scroll_lock != a.scroll_lock, Change::ScrollLock { on: a.scroll_lock }),
        of_rank(changes_between(b, a), 11) == windows_closed(b.windows@, a.windows@),
{
    lemma_report_parts(b, a);
    lemma_of_rank_report(b, a, 0);
    lemma_of_rank_report(b, a, 1);
    lemma_of_rank_report(b, a, 2);
    lemma_of_rank_report(b, a, 3);
    lemma_of_rank_report(b, a, 4);
    lemma_of_rank_report(b, a, 5);
    lemma_of_rank_report(b, a, 6);
    lemma_of_rank_report(b, a, 7);
    lemma_of_rank_report(b, a, 8);
    lemma_of_rank_report(b, a, 9);
    lemma_of_rank_report(b, a, 10);
    lemma_of_rank_report(b, a, 11);
}

/// The report keeps its order: devices first, then the touchpad, flight
/// mode, the input language and the screen, then the switches, and closed
/// windows last.
pub proof fn law_diff_reports_in_order(b: Snapshot, a: Snapshot)
    ensures
        in_report_order(changes_between(b, a)),
{
    lemma_diff_parts(b, a);
    lemma_of_rank_upto(b, a, 12, 0);
}

/// Undo puts back exactly the changes whose advice says what it does about
/// them: a change gets a step if and only if its advice names one.
pub proof fn law_restore_keeps_undo_promises(language: usize, c: Change)
    ensures
        (restore_of(language, c) is Some) <==> (undo_of_change(c) is Some),
{
}

/// The steps of Undo follow the changes in their order, one for each change
/// that Undo promises to put back.
pub proof fn law_restore_plan_follows_changes(language: usize, cs: Seq<Change>)
    ensures
        restore_plan_of(language, cs) == cs.filter(|c: Change| undo_of_change(c) is Some).map_values(
            |c: Change| restore_of(language, c).unwrap(),
        ),
    decreases cs.len(),
{
    reveal(Seq::filter);
    if cs.len() > 0 {
        law_restore_plan_follows_changes(language, cs.drop_last());
        let pred = |c: Change| undo_of_change(c) is Some;
        let f = |c: Change| restore_of(language, c).unwrap();
        let sub = cs.drop_last().filter(pred);
        if pred(cs.last()) {
            assert(sub.push(cs.last()).map_values(f) =~= sub.map_values(f).push(f(cs.last())));
        }
    }
}

// ------------------------------------------------------------- the rules

/// Keeping the held keys by one predicate is filtering them by any other
/// that agrees with it on every key.
proof fn lemma_keep_where_filter(s: Seq<Held>, p: spec_fn(Held) -> bool, q: spec_fn(Held) -> bool)
    requires
        forall|h: Held| #[trigger] p(h) == q(h),
    ensures
        keep_where(s, p) == s.filter(q),
    decreases s.len(),
{
    reveal(Seq::filter);
    if s.len() > 0 {
        lemma_keep_where_filter(s.drop_last(), p, q);
        assert(p(s.last()) == q(s.last()));
    }
}

proof fn lemma_positions(s: Seq<Held>)
    ensures
        positions(s) == s.map_values(|h: Held| h.pos->0),
    decreases s.len(),
{
    if s.len() > 0 {
        lemma_positions(s.drop_last());
        assert(s.map_values(|h: Held| h.pos->0) =~= s.drop_last().map_values(|h: Held| h.pos->0).push(
            s.last().pos->0,
        ));
    }
}

/// The keys held at `now`: those that went down less than `stale_after` ago.
pub open spec fn counted(down: Seq<Held>, now: Micros, stale_after: Micros) -> Seq<Held> {
    down.filter(|h: Held| sat_sub(now, h.since) < stale_after)
}

/// A placed key whose box with `newest` is at most `height` high and
/// `width` wide.
pub open spec fn in_box(h: Held, newest: Pos, height: int, width: int) -> bool {
    &&& h.pos is Some
    &&& extent_of(seq![h.pos->0, newest]).0 <= height
    &&& extent_of(seq![h.pos->0, newest]).1 <= width
}

/// Chord looks only around the newest key: on a key-down of a placed key,
/// take the held keys (the new one included) that lie in the chord box with
/// it; when there are at least `chord_keys` of them and together they fit
/// the chord box, the key-down answers Chord, unless Slam decided first.
/// Keys held anywhere else on the board play no part. Chord is answered
/// only then.
pub proof fn law_chord_counts_the_keys_around_the_newest(d: DetectorView, key: KeyCode, now: Micros)
    requires
        !modifier_key(key),
        !holds_key(d.down, key),
        key_position(key) is Some,
        d.thresholds.chord_keys > 0,
    ensures
        ({
            let t = d.thresholds;
            let newest = key_position(key)->0;
            let down = counted(d.down, now, t.stale_after).push(
                Held { key, since: now, pos: key_position(key) },
            );
            let near = down.filter(|h: Held| in_box(h, newest, t.chord_height as int, t.chord_width as int));
            let e = extent_of(near.map_values(|h: Held| h.pos->0));
            let fits = near.len() >= t.chord_keys && e.0 <= t.chord_height && e.1 <= t.chord_width;
            let r = d.key_down_next(key, now).1;
            &&& fits ==> (r == Some(Rule::Chord) || r == Some(Rule::Slam))
            &&& r == Some(Rule::Chord) ==> fits
        }),
{
    let t = d.thresholds;
    let newest = key_position(key)->0;
    let fq = |h: Held| sat_sub(now, h.since) < t.stale_after;
    lemma_keep_where_filter(d.down, fresh_pred(now, t.stale_after), fq);
    let down = counted(d.down, now, t.stale_after).push(Held { key, since: now, pos: key_position(key) });
    let nq = |h: Held| in_box(h, newest, t.chord_height as int, t.chord_width as int);
    lemma_keep_where_filter(down, near_pred(newest, t), nq);
    let near = down.filter(nq);
    lemma_positions(near);
    assert(chord_hit(down, t) is Some <==> (near.len() >= t.chord_keys && extent_of(
        near.map_values(|h: Held| h.pos->0),
    ).0 <= t.chord_height && extent_of(near.map_values(|h: Held| h.pos->0)).1 <= t.chord_width));
}

/// Two keys that a paw holds together: both placed, at most one row apart
/// and `pair_width` apart sideways, down within `pair_gap` of each other and
/// both held for `pair_hold` at `now`.
pub open spec fn paw_pair(a: Held, b: Held, t: crate::detector::Thresholds, now: Micros) -> bool {
    &&& a.pos is Some
    &&& b.pos is Some
    &&& extent_of(seq![a.pos->0, b.pos->0]).0 <= UNIT
    &&& extent_of(seq![a.pos->0, b.pos->0]).1 <= t.pair_width
    &&& a.since <= b.since + t.pair_gap
    &&& b.since <= a.since + t.pair_gap
    &&& now >= a.since + t.pair_hold
    &&& now >= b.since + t.pair_hold
}

/// Pair: as time passes, the detector answers Pair exactly when two of the
/// keys it still holds are a pair under one paw, neighbours in one row or in
/// two adjacent rows alike.
pub proof fn law_pair_is_two_neighbours_held(d: DetectorView, now: Micros)
    ensures
        ({
            let t = d.thresholds;
            let down = counted(d.down, now, t.stale_after);
            let found = exists|i: int, j: int|
                0 <= i < j < down.len() && #[trigger] paw_pair(down[i], down[j], t, now);
            &&& d.poll_next(now).1 == Some(Rule::Pair) <==> found
        }),
{
    let t = d.thresholds;
    let fq = |h: Held| sat_sub(now, h.since) < t.stale_after;
    lemma_keep_where_filter(d.down, fresh_pred(now, t.stale_after), fq);
    let down = counted(d.down, now, t.stale_after);
    assert forall|i: int, j: int| 0 <= i < j < down.len() implies #[trigger] pair_ok(down, t, now, i, j)
        == paw_pair(down[i], down[j], t, now) by {}
    if exists|i: int, j: int| 0 <= i < j < down.len() && #[trigger] paw_pair(down[i], down[j], t, now) {
        let (i, j) = choose|i: int, j: int| 0 <= i < j < down.len() && #[trigger] paw_pair(down[i], down[j], t, now);
        assert(pair_ok(down, t, now, i, j));
    }
    if exists|i: int, j: int| pair_ok(down, t, now, i, j) {
        let (i, j) = choose|i: int, j: int| pair_ok(down, t, now, i, j);
        assert(paw_pair(down[i], down[j], t, now));
    }
}

/// A rule that fires locks: on an unlocked guard, when the detector's
/// key-down fires a rule, the key-down is swallowed, answers Lock with that
/// rule and leaves the guard locked; when none fires, the key-down of a key
/// not yet down passes and the guard stays unlocked.
pub proof fn law_a_rule_that_fires_locks(g: GuardView, key: KeyCode, vk: u8, now: Micros)
    requires
        !g.locked,
        !g.tracks(key),
    ensures
        ({
            let fired = g.detector.key_down_next(key, now).1;
            let (g1, v) = g.key_down_next(key, vk, now);
            &&& fired matches Some(r) ==> v == (Verdict { swallow: true, action: Some(Action::Lock(r)) })
                && g1.locked && g1.swallowed.contains(key)
            &&& fired is None ==> v == Verdict::pass() && !g1.locked && g1.passed.contains(key)
        }),
{
    let fired = g.detector.key_down_next(key, now).1;
    let (g1, v) = g.key_down_next(key, vk, now);
    if fired is Some {
        assert(g.swallowed.push(key)[g.swallowed.len() as int] == key);
    } else {
        assert(g.passed.push(key)[g.passed.len() as int] == key);
    }
}

/// A press that arrived under the paw and is no switch that Undo presses
/// again: no modifier itself, no undoable shortcut before the lock.
pub open spec fn arrived_under_paw(inc: Incident, p: Press) -> bool {
    &&& modifier_of_key(p.key) is None
    &&& !(undo_of(p.mods, p.vk) is Some && inc.before(p))
    &&& inc.in_paw(p)
}

/// A press that types a character: a printable key without Ctrl, Alt or Win.
pub open spec fn types_a_character(p: Press) -> bool {
    !p.mods.ctrl && !p.mods.alt && !p.mods.win && printable_key(p.key)
}

/// The characters typed under the paw: each such press and its repeats.
pub open spec fn characters_typed(inc: Incident, ps: Seq<Press>) -> int
    decreases ps.len(),
{
    if ps.len() == 0 {
        0
    } else {
        characters_typed(inc, ps.drop_last()) + if arrived_under_paw(inc, ps.last())
            && types_a_character(ps.last()) {
            1 + ps.last().repeats
        } else {
            0
        }
    }
}

proof fn lemma_plan_counts(inc: Incident, ps: Seq<Press>)
    ensures
        inc.plan_of(ps).1 == characters_typed(inc, ps),
        inc.plan_of(ps).2 == (forall|k: int|
            0 <= k < ps.len() && #[trigger] arrived_under_paw(inc, ps[k]) ==> types_a_character(ps[k])),
    decreases ps.len(),
{
    if ps.len() > 0 {
        let rest = ps.drop_last();
        lemma_plan_counts(inc, rest);
        assert forall|k: int| 0 <= k < rest.len() implies rest[k] == ps[k] by {}
        if !inc.plan_of(rest).2 {
            let k = choose|k: int|
                0 <= k < rest.len() && #[trigger] arrived_under_paw(inc, rest[k]) && !types_a_character(rest[k]);
            assert(arrived_under_paw(inc, ps[k]) && !types_a_character(ps[k]));
        }
        if arrived_under_paw(inc, ps.last()) && !types_a_character(ps.last()) {
            let k = ps.len() - 1;
            assert(arrived_under_paw(inc, ps[k]));
        }
    }
}

/// Backspace is offered only when characters are all that arrived: the plan
/// has a Backspace step exactly when characters were typed under the paw and
/// every other press that arrived there (Enter, Tab, arrows, a key with Ctrl,
/// Alt or Win, ...) was a character too; then it is the last step and counts
/// every character typed, repeats included.
pub proof fn law_backspace_only_for_characters(inc: Incident)
    ensures
        ({
            let ps = inc.presses@;
            let plan = inc.plan();
            let only_chars = forall|k: int|
                0 <= k < ps.len() && #[trigger] arrived_under_paw(inc, ps[k]) ==> types_a_character(ps[k]);
            &&& (exists|i: int| 0 <= i < plan.len() && #[trigger] plan[i] is Backspace) <==> (
            characters_typed(inc, ps) > 0 && only_chars)
            &&& forall|i: int|
                0 <= i < plan.len() && #[trigger] plan[i] is Backspace ==> i == plan.len() - 1
                    && plan[i] == UndoStep::Backspace(characters_typed(inc, ps) as u32)
        }),
{
    let ps = inc.presses@;
    lemma_plan_counts(inc, ps);
    lemma_steps_press(inc, ps);
    let (steps, typed, only_text) = inc.plan_of(ps);
    let plan = inc.plan();
    if typed > 0 && only_text {
        assert(plan[plan.len() - 1] is Backspace);
    }
}

/// Only auto-repeats that reached the applications count: a key-down that
/// repeats an open press adds one to that press's repeats when it passed
/// and leaves the history as it was when it was swallowed; nothing else of
/// any press changes.
pub proof fn law_only_passed_repeats_count(
    h: HistoryView,
    key: KeyCode,
    vk: u8,
    now: Micros,
    passed: bool,
)
    requires
        last_open(h.presses, key) >= 0,
        h.repeat_room(key, passed, true),
    ensures
        ({
            let i = last_open(h.presses, key);
            let h1 = h.key_down_next(key, vk, now, passed, true);
            &&& !passed ==> h1 == h
            &&& h1.presses.len() == h.presses.len()
            &&& h1.held_mods == h.held_mods
            &&& h1.lock == h.lock
            &&& forall|k: int| 0 <= k < h.presses.len() && k != i ==> h1.presses[k] == h.presses[k]
            &&& h1.presses[i].repeats == h.presses[i].repeats + if passed {
                1int
            } else {
                0int
            }
            &&& h1.presses[i] == (Press { repeats: h1.presses[i].repeats, ..h.presses[i] })
        }),
{
    let i = last_open(h.presses, key);
    crate::history::lemma_last_open(h.presses, key);
    if !passed {
        assert(h.presses.update(i, h.presses[i]) =~= h.presses);
    }
}

} // verus!
