//! Decides for every key event whether it reaches the applications.
//!
//! The rule that keeps applications sane: a key-up is delivered exactly when
//! its key-down was. Swallowing only one half leaves a key stuck.
use vstd::prelude::*;

use vstd::string::StrSliceExecFns;

use crate::detector::{Detector, DetectorView, Micros, Rule, Thresholds};
use crate::history::{History, HistoryView, Incident};
use crate::layout::{modifier_key, KeyCode};
use crate::text::{lemma_encode_nonempty, upper_of};

verus! {

/// The default unlock word. See [`Guard::set_unlock_word`].
pub const UNLOCK_WORD: &'static str = "human";

/// Minimum pause between two deterrent sounds.
pub const DETER_GAP: Micros = 1_500_000;

#[derive(Clone, Copy, Debug, PartialEq, Eq, Structural)]
pub enum Action {
    /// Show the lock window and play the sound.
    Lock(Rule),
    /// Another pawstep while locked: play the sound again.
    Deter,
    /// So many letters of the unlock word have been typed.
    Progress(usize),
    Unlock,
}

#[derive(Clone, Copy, Debug, PartialEq, Eq, Structural)]
pub struct Verdict {
    pub swallow: bool,
    pub action: Option<Action>,
}

impl Verdict {
    /// The event reaches the applications.
    #[verifier::allow_in_spec]
    pub fn pass() -> Verdict
        returns
            (Verdict { swallow: false, action: None }),
    {
        Verdict { swallow: false, action: None }
    }

    /// The event is swallowed and needs nothing else.
    #[verifier::allow_in_spec]
    pub fn swallowed() -> Verdict
        returns
            (Verdict { swallow: true, action: None }),
    {
        Verdict { swallow: true, action: None }
    }
}

pub struct Guard {
    detector: Detector,
    locked: bool,
    /// Keys whose key-down reached the applications and that are still down.
    passed: Vec<KeyCode>,
    /// Keys whose key-down was swallowed and that are still down. They stay
    /// swallowed after an unlock, until the cat lets go.
    swallowed: Vec<KeyCode>,
    /// Upper-case ASCII, which is what virtual-key codes are for letters on
    /// every layout.
    word: Vec<u8>,
    typed: Vec<u8>,
    last_sound: Micros,
    history: History,
}

/// Everything a guard holds, as values.
pub struct GuardView {
    pub detector: DetectorView,
    pub locked: bool,
    pub passed: Seq<KeyCode>,
    pub swallowed: Seq<KeyCode>,
    pub word: Seq<u8>,
    pub typed: Seq<u8>,
    pub last_sound: Micros,
    pub history: HistoryView,
}

impl View for Guard {
    type V = GuardView;

    closed spec fn view(&self) -> GuardView {
        GuardView {
            detector: self.detector@,
            locked: self.locked,
            passed: self.passed@,
            swallowed: self.swallowed@,
            word: self.word@,
            typed: self.typed@,
            last_sound: self.last_sound,
            history: self.history@,
        }
    }
}

// ------------------------------------------------------------- the model

pub open spec fn distinct(s: Seq<KeyCode>) -> bool {
    forall|i: int, j: int| 0 <= i < j < s.len() ==> s[i] != s[j]
}

/// The index of the first `key` in `s`, or -1.
pub open spec fn key_index(s: Seq<KeyCode>, key: KeyCode) -> int
    decreases s.len(),
{
    if s.len() == 0 {
        -1
    } else if key_index(s.drop_last(), key) >= 0 {
        key_index(s.drop_last(), key)
    } else if s.last() == key {
        s.len() - 1
    } else {
        -1
    }
}

/// `s` without the element at `i`, the last element taking its place.
pub open spec fn swap_removed(s: Seq<KeyCode>, i: int) -> Seq<KeyCode> {
    s.update(i, s.last()).drop_last()
}

/// `s` ends with `t`.
pub open spec fn ends_with(s: Seq<u8>, t: Seq<u8>) -> bool {
    t.len() <= s.len() && s.subrange(s.len() - t.len(), s.len() as int) == t
}

/// The longest prefix of `word`, no longer than `n`, that `typed` ends with.
pub open spec fn progress_upto(typed: Seq<u8>, word: Seq<u8>, n: int) -> int
    decreases n,
{
    if n <= 0 {
        0
    } else if ends_with(typed, word.take(n)) {
        n
    } else {
        progress_upto(typed, word, n - 1)
    }
}

/// How many letters of the word the typed letters end with.
pub open spec fn progress(typed: Seq<u8>, word: Seq<u8>) -> int {
    progress_upto(typed, word, typed.len() as int)
}

/// The typed letters after one more: only the last `len` are kept.
pub open spec fn typed_after(typed: Seq<u8>, len: nat, vk: u8) -> Seq<u8> {
    if typed.len() == len {
        typed.drop_first().push(vk)
    } else {
        typed.push(vk)
    }
}

/// The bytes of a word as the guard compares them: the word in ASCII upper
/// case, encoded as UTF-8.
pub open spec fn word_bytes(word: Seq<char>) -> Seq<u8> {
    vstd::utf8::encode_utf8(upper_of(word))
}

impl GuardView {
    pub open spec fn wf(self) -> bool {
        &&& self.history.wf()
        &&& self.word.len() > 0
        &&& self.typed.len() <= self.word.len()
        &&& distinct(self.passed)
        &&& distinct(self.swallowed)
        &&& forall|k: KeyCode| !(self.passed.contains(k) && self.swallowed.contains(k))
    }

    /// `now` is not before anything the guard remembers.
    pub open spec fn time_ok(self, now: Micros) -> bool {
        self.detector.time_ok(now) && self.last_sound <= now
    }

    /// The key's key-down has been decided and the key is still down.
    pub open spec fn tracks(self, key: KeyCode) -> bool {
        self.passed.contains(key) || self.swallowed.contains(key)
    }

    /// A key-down of `key` at `now` is within what the guard accepts: an
    /// auto-repeat, a modifier, or a time no earlier than what it remembers;
    /// and an auto-repeat that reaches the applications can be counted.
    pub open spec fn accepts_down(self, key: KeyCode, now: Micros) -> bool {
        &&& self.tracks(key) || modifier_key(key) || self.time_ok(now)
        &&& self.history.repeat_room(
            key,
            !self.locked && self.passed.contains(key),
            self.tracks(key),
        )
    }

    /// Locking: the lock window shows, the sound plays, the history notes
    /// the lock and when the paw came down.
    pub open spec fn lock_next(self, rule: Rule, now: Micros) -> GuardView {
        GuardView {
            locked: true,
            typed: Seq::empty(),
            last_sound: now,
            history: self.history.mark_lock_next(rule, now, self.detector.hit_since),
            ..self
        }
    }

    /// The verdict on a key-down, and the guard after it, before the history
    /// records it.
    pub open spec fn decide_next(self, key: KeyCode, vk: u8, now: Micros) -> (GuardView, Verdict) {
        if self.passed.contains(key) {
            // Auto-repeat of a key the applications already know is down.
            (
                self,
                if self.locked {
                    Verdict::swallowed()
                } else {
                    Verdict::pass()
                },
            )
        } else if self.swallowed.contains(key) {
            (self, Verdict::swallowed())
        } else {
            let (d, fired) = self.detector.key_down_next(key, now);
            let g = GuardView { detector: d, ..self };
            if !self.locked {
                match fired {
                    Some(rule) => (
                        GuardView { swallowed: g.swallowed.push(key), ..g }.lock_next(rule, now),
                        Verdict { swallow: true, action: Some(Action::Lock(rule)) },
                    ),
                    None => (GuardView { passed: g.passed.push(key), ..g }, Verdict::pass()),
                }
            } else {
                let typed = typed_after(self.typed, self.word.len(), vk);
                let p = progress(typed, self.word);
                let g2 = GuardView { swallowed: g.swallowed.push(key), typed, ..g };
                if p == self.word.len() {
                    (
                        GuardView { locked: false, typed: Seq::empty(), ..g2 },
                        Verdict { swallow: true, action: Some(Action::Unlock) },
                    )
                } else if fired is Some && now - self.last_sound >= DETER_GAP {
                    (
                        GuardView { last_sound: now, ..g2 },
                        Verdict { swallow: true, action: Some(Action::Deter) },
                    )
                } else {
                    (g2, Verdict { swallow: true, action: Some(Action::Progress(p as usize)) })
                }
            }
        }
    }

    /// A key-down: the verdict, then the history records it and, unless
    /// locked, forgets what is older than the timeline.
    pub open spec fn key_down_next(self, key: KeyCode, vk: u8, now: Micros) -> (GuardView, Verdict) {
        let (g, v) = self.decide_next(key, vk, now);
        let h = g.history.key_down_next(key, vk, now, !v.swallow, self.tracks(key));
        (
            GuardView {
                history: if g.locked {
                    h
                } else {
                    h.prune_next(now)
                },
                ..g
            },
            v,
        )
    }

    /// A key-up: delivered when its key-down was, swallowed when its
    /// key-down was.
    pub open spec fn key_up_next(self, key: KeyCode, now: Micros) -> (GuardView, Verdict) {
        let g = GuardView {
            detector: self.detector.key_up_next(key),
            history: self.history.key_up_next(key, now),
            ..self
        };
        if self.passed.contains(key) {
            (
                GuardView { passed: swap_removed(self.passed, key_index(self.passed, key)), ..g },
                Verdict::pass(),
            )
        } else if self.swallowed.contains(key) {
            (
                GuardView {
                    swallowed: swap_removed(self.swallowed, key_index(self.swallowed, key)),
                    ..g
                },
                Verdict::swallowed(),
            )
        } else {
            (g, Verdict::pass())
        }
    }

    /// Time passing: the rules that need time run; they lock only an
    /// unlocked guard.
    pub open spec fn poll_next(self, now: Micros) -> (GuardView, Option<Action>) {
        let (d, fired) = self.detector.poll_next(now);
        let g = GuardView { detector: d, ..self };
        if self.locked {
            (g, None)
        } else {
            match fired {
                Some(rule) => (g.lock_next(rule, now), Some(Action::Lock(rule))),
                None => (g, None),
            }
        }
    }

    pub open spec fn unlock_next(self) -> GuardView {
        GuardView { locked: false, typed: Seq::empty(), ..self }
    }

    pub open spec fn reset_next(self) -> GuardView {
        GuardView {
            detector: DetectorView { down: Seq::empty(), ..self.detector },
            locked: false,
            passed: Seq::empty(),
            swallowed: Seq::empty(),
            typed: Seq::empty(),
            history: HistoryView::empty(),
            ..self
        }
    }
}

// ------------------------------------------------------------- lemmas

pub proof fn lemma_key_index(s: Seq<KeyCode>, key: KeyCode)
    ensures
        -1 <= key_index(s, key) < s.len(),
        key_index(s, key) >= 0 <==> s.contains(key),
        key_index(s, key) >= 0 ==> s[key_index(s, key)] == key,
        forall|k: int| 0 <= k < key_index(s, key) ==> #[trigger] s[k] != key,
    decreases s.len(),
{
    if s.len() > 0 {
        lemma_key_index(s.drop_last(), key);
        if s.drop_last().contains(key) {
            let k = choose|k: int| 0 <= k < s.drop_last().len() && s.drop_last()[k] == key;
            assert(s[k] == key);
        }
        if s.contains(key) && key_index(s.drop_last(), key) < 0 && s.last() != key {
            let k = choose|k: int| 0 <= k < s.len() && s[k] == key;
            assert(s.drop_last()[k] == key);
        }
        assert forall|k: int| 0 <= k < key_index(s, key) implies #[trigger] s[k] != key by {
            assert(s.drop_last()[k] == s[k]);
        }
    }
}

/// Taking one key out of a list without repeats removes that key and keeps
/// every other.
pub proof fn lemma_swap_removed(s: Seq<KeyCode>, key: KeyCode)
    requires
        distinct(s),
        s.contains(key),
    ensures
        distinct(swap_removed(s, key_index(s, key))),
        forall|k: KeyCode| #[trigger] swap_removed(s, key_index(s, key)).contains(k) <==> (s.contains(k) && k != key),
        swap_removed(s, key_index(s, key)).len() == s.len() - 1,
{
    lemma_key_index(s, key);
    let i = key_index(s, key);
    let r = swap_removed(s, i);
    let n = s.len();
    assert forall|a: int, b: int| 0 <= a < b < r.len() implies r[a] != r[b] by {
        if a == i {
            assert(r[a] == s[n - 1]);
            assert(r[b] == s[b]);
        } else if b == i {
            assert(r[b] == s[n - 1]);
            assert(r[a] == s[a]);
        } else {
            assert(r[a] == s[a] && r[b] == s[b]);
        }
    }
    assert forall|k: KeyCode| #[trigger] r.contains(k) <==> (s.contains(k) && k != key) by {
        if r.contains(k) {
            let m = choose|m: int| 0 <= m < r.len() && r[m] == k;
            if m == i {
                assert(s[n - 1] == k);
                assert(n - 1 != i);
            } else {
                assert(s[m] == k);
            }
        }
        if s.contains(k) && k != key {
            let m = choose|m: int| 0 <= m < s.len() && s[m] == k;
            if m == n - 1 {
                if i == n - 1 {
                    assert(false);
                } else {
                    assert(r[i] == k);
                }
            } else {
                assert(m != i);
                assert(r[m] == k);
            }
        }
    }
}

pub proof fn lemma_push_distinct(s: Seq<KeyCode>, key: KeyCode)
    requires
        distinct(s),
        !s.contains(key),
    ensures
        distinct(s.push(key)),
        forall|k: KeyCode| #[trigger] s.push(key).contains(k) <==> (s.contains(k) || k == key),
{
    assert forall|k: KeyCode| #[trigger] s.push(key).contains(k) <==> (s.contains(k) || k == key) by {
        if s.push(key).contains(k) {
            let m = choose|m: int| 0 <= m < s.push(key).len() && s.push(key)[m] == k;
            if m < s.len() {
                assert(s[m] == k);
            }
        }
        if s.contains(k) {
            let m = choose|m: int| 0 <= m < s.len() && s[m] == k;
            assert(s.push(key)[m] == k);
        }
        if k == key {
            assert(s.push(key)[s.len() as int] == k);
        }
    }
    assert forall|a: int, b: int| 0 <= a < b < s.push(key).len() implies s.push(key)[a] != s.push(
        key,
    )[b] by {
        if b == s.len() {
            assert(s.push(key)[a] == s[a]);
        }
    }
}

// ------------------------------------------------------------- helpers

fn has_key(v: &Vec<KeyCode>, key: KeyCode) -> (r: bool)
    ensures
        r == v@.contains(key),
{
    let mut i: usize = 0;
    while i < v.len()
        invariant
            i <= v@.len(),
            forall|k: int| 0 <= k < i ==> v@[k] != key,
        decreases v@.len() - i,
    {
        if v[i] == key {
            return true;
        }
        i = i + 1;
    }
    false
}

fn position_of(v: &Vec<KeyCode>, key: KeyCode) -> (r: Option<usize>)
    ensures
        match r {
            Some(i) => i == key_index(v@, key) && v@.contains(key) && i < v@.len(),
            None => !v@.contains(key),
        },
{
    proof {
        lemma_key_index(v@, key);
    }
    let mut i: usize = 0;
    while i < v.len()
        invariant
            i <= v@.len(),
            forall|k: int| 0 <= k < i ==> v@[k] != key,
        decreases v@.len() - i,
    {
        if v[i] == key {
            assert(v@.contains(key));
            proof {
                lemma_key_index(v@, key);
                let ki = key_index(v@, key);
                if ki < i {
                    assert(v@[ki] == key);
                }
                if ki > i {
                    assert(v@[i as int] != key);
                }
            }
            return Some(i);
        }
        i = i + 1;
    }
    None
}

fn upper_bytes(word: &str) -> (r: Vec<u8>)
    ensures
        r@ == word_bytes(word@),
{
    let upper = word.to_ascii_uppercase();
    upper.as_str().as_bytes_vec()
}

// ------------------------------------------------------------- the guard

impl Guard {
    pub fn new(thresholds: Thresholds) -> (g: Self)
        ensures
            g@.wf(),
            g@.detector == (DetectorView { thresholds, down: Seq::empty(), hit_since: 0 }),
            !g@.locked,
            g@.passed == Seq::<KeyCode>::empty(),
            g@.swallowed == Seq::<KeyCode>::empty(),
            g@.word == word_bytes(UNLOCK_WORD@),
            g@.typed == Seq::<u8>::empty(),
            g@.last_sound == 0,
            g@.history == HistoryView::empty(),
    {
        let word = upper_bytes(UNLOCK_WORD);
        proof {
            reveal_strlit("human");
            lemma_encode_nonempty(upper_of(UNLOCK_WORD@));
        }
        Guard {
            detector: Detector::new(thresholds),
            locked: false,
            passed: Vec::with_capacity(16),
            swallowed: Vec::with_capacity(16),
            word,
            typed: Vec::new(),
            last_sound: 0,
            history: History::default(),
        }
    }

    pub fn set_thresholds(&mut self, thresholds: Thresholds)
        requires
            old(self)@.wf(),
        ensures
            final(self)@ == (GuardView {
                detector: DetectorView { thresholds, ..old(self)@.detector },
                ..old(self)@
            }),
            final(self)@.wf(),
    {
        self.detector.set_thresholds(thresholds);
    }

    /// The word that unlocks, typed blind. Expects ASCII letters; see
    /// `Settings::sanitized`.
    pub fn set_unlock_word(&mut self, word: &str)
        requires
            old(self)@.wf(),
            word@.len() > 0,
        ensures
            final(self)@ == (GuardView { word: word_bytes(word@), typed: Seq::empty(), ..old(self)@ }),
            final(self)@.wf(),
    {
        self.word = upper_bytes(word);
        self.typed.clear();
        proof {
            lemma_encode_nonempty(upper_of(word@));
        }
    }

    pub fn is_locked(&self) -> (r: bool)
        ensures
            r == self@.locked,
    {
        self.locked
    }

    /// True when [`Self::poll`] has nothing to look at.
    pub fn is_idle(&self) -> (r: bool)
        ensures
            r == (self@.detector.down.len() == 0),
    {
        self.detector.is_idle()
    }

    /// Forgets everything. Used while the guard is paused.
    pub fn reset(&mut self)
        requires
            old(self)@.wf(),
        ensures
            final(self)@ == old(self)@.reset_next(),
            final(self)@.wf(),
    {
        self.detector.clear();
        self.locked = false;
        self.passed.clear();
        self.swallowed.clear();
        self.typed.clear();
        self.history.clear();
    }

    /// The unlock button was clicked.
    pub fn unlock(&mut self)
        requires
            old(self)@.wf(),
        ensures
            final(self)@ == old(self)@.unlock_next(),
            final(self)@.wf(),
    {
        self.locked = false;
        self.typed.clear();
    }

    /// The keys around the last lock, or `None` before the first one.
    pub fn incident(&self, now: Micros) -> (r: Option<Incident>)
        ensures
            match r {
                Some(inc) => {
                    &&& self@.history.lock == Some((inc.rule, inc.locked_at, inc.paw_since))
                    &&& inc.taken_at == now
                    &&& inc.presses@ == self@.history.presses
                },
                None => self@.history.lock is None,
            },
    {
        self.history.incident(now)
    }

    pub fn key_down(&mut self, key: KeyCode, vk: u8, now: Micros) -> (v: Verdict)
        requires
            old(self)@.wf(),
            old(self)@.accepts_down(key, now),
        ensures
            (final(self)@, v) == old(self)@.key_down_next(key, vk, now),
            final(self)@.wf(),
            old(self)@.time_ok(now) ==> final(self)@.time_ok(now),
    {
        let repeat = has_key(&self.passed, key) || has_key(&self.swallowed, key);
        let verdict = self.decide_down(key, vk, now);
        self.history.key_down(key, vk, now, !verdict.swallow, repeat);
        if !self.locked {
            self.history.prune(now);
        }
        verdict
    }

    fn progress(&self) -> (p: usize)
        requires
            self@.typed.len() <= self@.word.len(),
        ensures
            p == progress(self@.typed, self@.word),
            p <= self@.typed.len(),
    {
        let ghost typed = self@.typed;
        let ghost word = self@.word;
        let mut n = self.typed.len();
        while n > 0
            invariant
                typed == self@.typed,
                word == self@.word,
                typed.len() <= word.len(),
                n <= typed.len(),
                progress(typed, word) == progress_upto(typed, word, n as int),
            decreases n,
        {
            if self.ends_with_prefix(n) {
                return n;
            }
            n = n - 1;
        }
        0
    }

    fn ends_with_prefix(&self, n: usize) -> (r: bool)
        requires
            n <= self@.typed.len(),
            n <= self@.word.len(),
        ensures
            r == ends_with(self@.typed, self@.word.take(n as int)),
    {
        let ghost typed = self@.typed;
        let ghost prefix = self@.word.take(n as int);
        let start = self.typed.len() - n;
        let mut k: usize = 0;
        while k < n
            invariant
                typed == self@.typed,
                prefix == self@.word.take(n as int),
                start == typed.len() - n,
                n <= typed.len(),
                start + n == self.typed.len(),
                k <= n,
                n <= self@.word.len(),
                forall|m: int| 0 <= m < k ==> typed[start + m] == prefix[m],
            decreases n - k,
        {
            if self.typed[start + k] != self.word[k] {
                assert(typed.subrange(start as int, typed.len() as int)[k as int] != prefix[k as int]);
                return false;
            }
            k = k + 1;
        }
        assert(typed.subrange(start as int, typed.len() as int) =~= prefix);
        true
    }

    fn decide_down(&mut self, key: KeyCode, vk: u8, now: Micros) -> (v: Verdict)
        requires
            old(self)@.wf(),
            old(self)@.tracks(key) || modifier_key(key) || old(self)@.time_ok(now),
        ensures
            (final(self)@, v) == old(self)@.decide_next(key, vk, now),
            final(self)@.wf(),
            old(self)@.time_ok(now) ==> final(self)@.time_ok(now),
    {
        if has_key(&self.passed, key) {
            return if self.locked {
                Verdict::swallowed()
            } else {
                Verdict::pass()
            };
        }
        if has_key(&self.swallowed, key) {
            return Verdict::swallowed();
        }
        proof {
            lemma_push_distinct(self@.swallowed, key);
            lemma_push_distinct(self@.passed, key);
        }
        let fired = self.detector.key_down(key, now);
        if !self.locked {
            return match fired {
                Some(rule) => {
                    self.swallowed.push(key);
                    self.lock(rule, now)
                },
                None => {
                    self.passed.push(key);
                    Verdict::pass()
                },
            };
        }
        self.swallowed.push(key);
        if self.typed.len() == self.word.len() {
            let _ = self.typed.remove(0);
            assert(self@.typed =~= old(self)@.typed.drop_first());
        }
        self.typed.push(vk);
        let progress = self.progress();
        let action = if progress == self.word.len() {
            self.unlock();
            Action::Unlock
        } else if fired.is_some() && now - self.last_sound >= DETER_GAP {
            self.last_sound = now;
            Action::Deter
        } else {
            Action::Progress(progress)
        };
        Verdict { swallow: true, action: Some(action) }
    }

    pub fn key_up(&mut self, key: KeyCode, now: Micros) -> (v: Verdict)
        requires
            old(self)@.wf(),
        ensures
            (final(self)@, v) == old(self)@.key_up_next(key, now),
            final(self)@.wf(),
            old(self)@.time_ok(now) ==> final(self)@.time_ok(now),
    {
        self.detector.key_up(key);
        proof {
            if old(self)@.detector.time_ok(now) {
                crate::detector::lemma_keep_where_time(
                    old(self)@.detector.down,
                    crate::detector::other_key_pred(key),
                    now,
                );
            }
        }
        self.history.key_up(key, now);
        if let Some(i) = position_of(&self.passed, key) {
            proof {
                lemma_swap_removed(self@.passed, key);
            }
            let _ = self.passed.swap_remove(i);
            assert(self@.passed =~= swap_removed(old(self)@.passed, i as int));
            return Verdict::pass();
        }
        if let Some(i) = position_of(&self.swallowed, key) {
            proof {
                lemma_swap_removed(self@.swallowed, key);
            }
            let _ = self.swallowed.swap_remove(i);
            assert(self@.swallowed =~= swap_removed(old(self)@.swallowed, i as int));
            return Verdict::swallowed();
        }
        Verdict::pass()
    }

    /// Runs the rules that need time to pass.
    pub fn poll(&mut self, now: Micros) -> (r: Option<Action>)
        requires
            old(self)@.wf(),
            old(self)@.detector.time_ok(now),
        ensures
            (final(self)@, r) == old(self)@.poll_next(now),
            final(self)@.wf(),
            old(self)@.time_ok(now) ==> final(self)@.time_ok(now),
    {
        let fired = self.detector.poll(now);
        if self.locked {
            return None;
        }
        match fired {
            Some(rule) => self.lock(rule, now).action,
            None => None,
        }
    }

    fn lock(&mut self, rule: Rule, now: Micros) -> (v: Verdict)
        requires
            old(self)@.wf(),
        ensures
            final(self)@ == old(self)@.lock_next(rule, now),
            v == (Verdict { swallow: true, action: Some(Action::Lock(rule)) }),
            final(self)@.wf(),
    {
        self.locked = true;
        self.typed.clear();
        self.last_sound = now;
        let since = self.detector.hit_since();
        self.history.mark_lock(rule, now, since);
        Verdict { swallow: true, action: Some(Action::Lock(rule)) }
    }
}

} // verus!
