//! Tells a paw from a hand using only which keys are down and when they went
//! down. No character ever reaches this module.
//!
//! A finger presses one key. A paw is two key units wide and presses whatever
//! is under it in the same instant. The four rules below are four views of
//! that difference, ordered by how fast they decide.
use vstd::prelude::*;

use crate::layout::{
    extent, extent_of, is_modifier, key_position, modifier_key, position, KeyCode, Pos, UNIT,
};

verus! {

/// Microseconds since an arbitrary start.
pub type Micros = u64;

/// One millisecond.
pub const MS: Micros = 1_000;

#[derive(Clone, Copy, Debug, PartialEq, Eq, Structural)]
pub enum Rule {
    /// Three keys under one paw went down together. Decides on the third key.
    Slam,
    /// Four keys are down inside one paw-and-a-half. Decides on the fourth key.
    Chord,
    /// Two neighbours went down together and stayed down. Laptop keyboards
    /// often cannot report a third key in the same block, so this is the rule
    /// that catches a single paw there.
    Pair,
    /// Three keys held for seconds: the cat lies on the keyboard.
    Sit,
}

/// How eagerly the user wants the keyboard guarded: relaxed for gamers,
/// normal, or kitten.
#[derive(Clone, Copy, Debug, PartialEq, Eq, Structural)]
pub enum Sensitivity {
    Relaxed,
    Normal,
    Kitten,
}

/// The limits of the four rules. Distances are in hundredths of a key unit
/// (see [`crate::layout::Pos`]), times in microseconds.
#[derive(Clone, Copy, Debug, PartialEq, Eq, Structural)]
pub struct Thresholds {
    /// Slam across two rows. Any such triple inside `slam_width` contains two
    /// keys of the same finger column, which one finger cannot press this
    /// fast, so the window can be generous.
    pub slam_window: Micros,
    pub slam_width: i32,
    /// Slam within one row. Fast typists roll "wer" or "asd", so the window
    /// must stay below their fastest roll.
    pub slam_row_window: Micros,
    pub slam_row_width: i32,
    pub chord_keys: usize,
    pub chord_height: i32,
    pub chord_width: i32,
    pub pair_gap: Micros,
    pub pair_hold: Micros,
    pub pair_width: i32,
    pub sit_keys: usize,
    pub sit_hold: Micros,
    /// A key-up can get lost (UAC prompt, Win+L). Forget keys after this long
    /// so that one lost event cannot count towards a rule forever.
    pub stale_after: Micros,
}

pub open spec fn default_thresholds() -> Thresholds {
    Thresholds {
        slam_window: 60_000,
        slam_width: 150,
        slam_row_window: 25_000,
        slam_row_width: 200,
        chord_keys: 4,
        chord_height: 200,
        chord_width: 350,
        pair_gap: 30_000,
        pair_hold: 250_000,
        pair_width: 125,
        sit_keys: 3,
        sit_hold: 2_000_000,
        stale_after: 10_000_000,
    }
}

impl Default for Thresholds {
    fn default() -> (t: Self)
        ensures
            t == default_thresholds(),
    {
        Thresholds {
            slam_window: 60 * MS,
            slam_width: 150,
            slam_row_window: 25 * MS,
            slam_row_width: 200,
            chord_keys: 4,
            chord_height: 200,
            chord_width: 350,
            pair_gap: 30 * MS,
            pair_hold: 250 * MS,
            pair_width: 125,
            sit_keys: 3,
            sit_hold: 2_000 * MS,
            stale_after: 10_000 * MS,
        }
    }
}

/// A key that is down: which one, since when, and where it sits.
#[derive(Clone, Copy, Debug, PartialEq, Eq, Structural)]
pub struct Held {
    pub key: KeyCode,
    pub since: Micros,
    pub pos: Option<Pos>,
}

pub struct Detector {
    thresholds: Thresholds,
    down: Vec<Held>,
    hit_since: Micros,
}

/// What a detector knows: its limits, the keys that are down in the order
/// they went down, and when the pattern that fired last began.
pub struct DetectorView {
    pub thresholds: Thresholds,
    pub down: Seq<Held>,
    pub hit_since: Micros,
}

impl View for Detector {
    type V = DetectorView;

    closed spec fn view(&self) -> DetectorView {
        DetectorView { thresholds: self.thresholds, down: self.down@, hit_since: self.hit_since }
    }
}

// ------------------------------------------------------------- the model

pub open spec fn sat_sub(a: Micros, b: Micros) -> int {
    if a >= b {
        a - b
    } else {
        0
    }
}

pub open spec fn min_u64(a: Micros, b: Micros) -> Micros {
    if a <= b {
        a
    } else {
        b
    }
}

pub open spec fn max_u64(a: Micros, b: Micros) -> Micros {
    if a >= b {
        a
    } else {
        b
    }
}

/// The held keys that satisfy `keep`, in their order.
pub open spec fn keep_where(s: Seq<Held>, keep: spec_fn(Held) -> bool) -> Seq<Held>
    decreases s.len(),
{
    if s.len() == 0 {
        s
    } else if keep(s.last()) {
        keep_where(s.drop_last(), keep).push(s.last())
    } else {
        keep_where(s.drop_last(), keep)
    }
}

/// The keys that went down less than `limit` ago. A key that claims to have
/// gone down after `now` counts as just pressed.
pub open spec fn keep_fresh(down: Seq<Held>, now: Micros, limit: Micros) -> Seq<Held> {
    keep_where(down, fresh_pred(now, limit))
}

pub open spec fn fresh_pred(now: Micros, limit: Micros) -> spec_fn(Held) -> bool {
    |h: Held| sat_sub(now, h.since) < limit
}

pub open spec fn without_key(down: Seq<Held>, key: KeyCode) -> Seq<Held> {
    keep_where(down, other_key_pred(key))
}

pub open spec fn other_key_pred(key: KeyCode) -> spec_fn(Held) -> bool {
    |h: Held| h.key != key
}

/// The keys held for at least `hold`.
pub open spec fn long_held(down: Seq<Held>, now: Micros, hold: Micros) -> Seq<Held> {
    keep_where(down, long_pred(now, hold))
}

pub open spec fn long_pred(now: Micros, hold: Micros) -> spec_fn(Held) -> bool {
    |h: Held| now - h.since >= hold
}

pub open spec fn holds_key(down: Seq<Held>, key: KeyCode) -> bool {
    exists|i: int| 0 <= i < down.len() && down[i].key == key
}

/// No key went down after `now`.
pub open spec fn all_since_le(down: Seq<Held>, now: Micros) -> bool {
    forall|i: int| 0 <= i < down.len() ==> down[i].since <= now
}

/// The earliest key-down among the held keys (of a non-empty sequence).
pub open spec fn min_since(s: Seq<Held>) -> Micros
    decreases s.len(),
{
    if s.len() <= 1 {
        s[0].since
    } else {
        min_u64(min_since(s.drop_last()), s.last().since)
    }
}

pub open spec fn positions(s: Seq<Held>) -> Seq<Pos>
    decreases s.len(),
{
    if s.len() == 0 {
        Seq::empty()
    } else {
        positions(s.drop_last()).push(s.last().pos->0)
    }
}

/// A key that can join a slam: placed, pressed inside the slam window, and
/// not the newest key.
pub open spec fn slam_partner(down: Seq<Held>, t: Thresholds, now: Micros, i: int) -> bool {
    &&& 0 <= i < down.len() - 1
    &&& down[i].pos is Some
    &&& now - down[i].since <= t.slam_window
}

/// Keys `i` and `j` lie under one paw with the newest key.
pub open spec fn slam_pair(down: Seq<Held>, t: Thresholds, now: Micros, i: int, j: int) -> bool {
    &&& i < j
    &&& slam_partner(down, t, now, i)
    &&& slam_partner(down, t, now, j)
    &&& {
        let e = extent_of(seq![down[i].pos->0, down[j].pos->0, down.last().pos->0]);
        let age = now - min_u64(down[i].since, down[j].since);
        if e.0 == 0 {
            age <= t.slam_row_window && e.1 <= t.slam_row_width
        } else {
            e.0 <= UNIT && e.1 <= t.slam_width
        }
    }
}

/// The pair that comes first in the order in which keys went down.
pub open spec fn slam_first(down: Seq<Held>, t: Thresholds, now: Micros, i: int, j: int) -> bool {
    &&& slam_pair(down, t, now, i, j)
    &&& forall|i2: int, j2: int|
        #![trigger slam_pair(down, t, now, i2, j2)]
        slam_pair(down, t, now, i2, j2) ==> (i < i2 || (i == i2 && j <= j2))
}

/// Slam: the newest key plus two others, all down within the window, all
/// under one paw. Gives when the first of them went down.
pub open spec fn slam_hit(down: Seq<Held>, t: Thresholds, now: Micros) -> Option<Micros> {
    if down.len() > 0 && down.last().pos is Some && exists|i: int, j: int|
        slam_pair(down, t, now, i, j) {
        let (i, j) = choose|i: int, j: int| slam_first(down, t, now, i, j);
        Some(min_u64(down[i].since, down[j].since))
    } else {
        None
    }
}

/// Placed keys whose box with the newest key fits the chord limits.
pub open spec fn near_newest(down: Seq<Held>, newest: Pos, t: Thresholds) -> Seq<Held> {
    keep_where(down, near_pred(newest, t))
}

pub open spec fn near_pred(newest: Pos, t: Thresholds) -> spec_fn(Held) -> bool {
    |h: Held|
        h.pos is Some && {
            let e = extent_of(seq![h.pos->0, newest]);
            e.0 <= t.chord_height && e.1 <= t.chord_width
        }
}

/// Chord: enough placed keys near the newest one, and all of them together
/// inside the chord box. Gives when the first of them went down.
pub open spec fn chord_hit(down: Seq<Held>, t: Thresholds) -> Option<Micros> {
    if down.len() == 0 || down.last().pos is None {
        None
    } else {
        let near = near_newest(down, down.last().pos->0, t);
        let fits = near.len() >= t.chord_keys && if near.len() == 0 {
            0 <= t.chord_width
        } else {
            let e = extent_of(positions(near));
            e.0 <= t.chord_height && e.1 <= t.chord_width
        };
        if fits {
            Some(
                if near.len() == 0 {
                    0
                } else {
                    min_since(near)
                },
            )
        } else {
            None
        }
    }
}

/// Two placed neighbours that went down together and are both held long.
pub open spec fn pair_ok(down: Seq<Held>, t: Thresholds, now: Micros, i: int, j: int) -> bool {
    &&& 0 <= i < j < down.len()
    &&& down[i].pos is Some
    &&& down[j].pos is Some
    &&& max_u64(down[i].since, down[j].since) - min_u64(down[i].since, down[j].since) <= t.pair_gap
    &&& now - max_u64(down[i].since, down[j].since) >= t.pair_hold
    &&& {
        let e = extent_of(seq![down[i].pos->0, down[j].pos->0]);
        e.0 <= UNIT && e.1 <= t.pair_width
    }
}

pub open spec fn pair_first(down: Seq<Held>, t: Thresholds, now: Micros, i: int, j: int) -> bool {
    &&& pair_ok(down, t, now, i, j)
    &&& forall|i2: int, j2: int|
        #![trigger pair_ok(down, t, now, i2, j2)]
        pair_ok(down, t, now, i2, j2) ==> (i < i2 || (i == i2 && j <= j2))
}

/// Pair: gives when the first key of the first such pair went down.
pub open spec fn pair_hit(down: Seq<Held>, t: Thresholds, now: Micros) -> Option<Micros> {
    if exists|i: int, j: int| pair_ok(down, t, now, i, j) {
        let (i, j) = choose|i: int, j: int| pair_first(down, t, now, i, j);
        Some(min_u64(down[i].since, down[j].since))
    } else {
        None
    }
}

/// Sit: enough keys held for long. Gives when the first of them went down.
pub open spec fn sit_hit(down: Seq<Held>, t: Thresholds, now: Micros) -> Option<Micros> {
    let long = long_held(down, now, t.sit_hold);
    if long.len() >= t.sit_keys {
        Some(
            if long.len() == 0 {
                0
            } else {
                min_since(long)
            },
        )
    } else {
        None
    }
}

/// The rule that decides on a key-down, and the time its pattern began.
pub open spec fn down_hit(down: Seq<Held>, t: Thresholds, now: Micros) -> Option<(Rule, Micros)> {
    if slam_hit(down, t, now) is Some {
        Some((Rule::Slam, slam_hit(down, t, now)->0))
    } else if chord_hit(down, t) is Some {
        Some((Rule::Chord, chord_hit(down, t)->0))
    } else {
        None
    }
}

/// The rule that decides as time passes, and the time its pattern began.
pub open spec fn poll_hit(down: Seq<Held>, t: Thresholds, now: Micros) -> Option<(Rule, Micros)> {
    if pair_hit(down, t, now) is Some {
        Some((Rule::Pair, pair_hit(down, t, now)->0))
    } else if sit_hit(down, t, now) is Some {
        Some((Rule::Sit, sit_hit(down, t, now)->0))
    } else {
        None
    }
}

pub open spec fn rule_of(hit: Option<(Rule, Micros)>) -> Option<Rule> {
    match hit {
        Some((rule, _)) => Some(rule),
        None => None,
    }
}

impl DetectorView {
    /// Keeps the time of a hit; no hit keeps the old one.
    pub open spec fn noted(self, hit: Option<(Rule, Micros)>) -> DetectorView {
        match hit {
            Some((_, since)) => DetectorView { hit_since: since, ..self },
            None => self,
        }
    }

    /// A key going down: modifiers and auto-repeat change nothing; any other
    /// key joins the held keys, after those held too long are forgotten, and
    /// the rules that decide on the spot run.
    pub open spec fn key_down_next(self, key: KeyCode, now: Micros) -> (DetectorView, Option<Rule>) {
        if modifier_key(key) || holds_key(self.down, key) {
            (self, None)
        } else {
            let down = keep_fresh(self.down, now, self.thresholds.stale_after).push(
                Held { key, since: now, pos: key_position(key) },
            );
            let hit = down_hit(down, self.thresholds, now);
            (DetectorView { down, ..self }.noted(hit), rule_of(hit))
        }
    }

    /// Time passing: keys held too long are forgotten, then the rules that
    /// need time run.
    pub open spec fn poll_next(self, now: Micros) -> (DetectorView, Option<Rule>) {
        let down = keep_fresh(self.down, now, self.thresholds.stale_after);
        let hit = poll_hit(down, self.thresholds, now);
        (DetectorView { down, ..self }.noted(hit), rule_of(hit))
    }

    pub open spec fn key_up_next(self, key: KeyCode) -> DetectorView {
        DetectorView { down: without_key(self.down, key), ..self }
    }

    /// `now` is not before any key-down the detector holds.
    pub open spec fn time_ok(self, now: Micros) -> bool {
        all_since_le(self.down, now)
    }
}

// ------------------------------------------------------------- lemmas

pub proof fn lemma_keep_where_step(s: Seq<Held>, keep: spec_fn(Held) -> bool, i: int)
    requires
        0 <= i < s.len(),
    ensures
        keep_where(s.take(i + 1), keep) == if keep(s[i]) {
            keep_where(s.take(i), keep).push(s[i])
        } else {
            keep_where(s.take(i), keep)
        },
{
    assert(s.take(i + 1).drop_last() =~= s.take(i));
}

pub proof fn lemma_keep_where_subset(s: Seq<Held>, keep: spec_fn(Held) -> bool)
    ensures
        keep_where(s, keep).len() <= s.len(),
        forall|k: int|
            0 <= k < keep_where(s, keep).len() ==> keep(#[trigger] keep_where(s, keep)[k])
                && s.contains(keep_where(s, keep)[k]),
    decreases s.len(),
{
    if s.len() > 0 {
        lemma_keep_where_subset(s.drop_last(), keep);
        let r = keep_where(s.drop_last(), keep);
        assert forall|k: int| 0 <= k < keep_where(s, keep).len() implies keep(
            #[trigger] keep_where(s, keep)[k],
        ) && s.contains(keep_where(s, keep)[k]) by {
            if k < r.len() {
                let x = r[k];
                assert(s.drop_last().contains(x));
                let m = choose|m: int| 0 <= m < s.drop_last().len() && s.drop_last()[m] == x;
                assert(s[m] == x);
            } else {
                assert(s[s.len() - 1] == s.last());
            }
        }
    }
}

pub proof fn lemma_keep_where_all(s: Seq<Held>, keep: spec_fn(Held) -> bool)
    requires
        forall|k: int| 0 <= k < s.len() ==> keep(s[k]),
    ensures
        keep_where(s, keep) == s,
    decreases s.len(),
{
    if s.len() > 0 {
        lemma_keep_where_all(s.drop_last(), keep);
        assert(s.drop_last().push(s.last()) =~= s);
    }
}

/// Forgetting and releasing keys keeps every held key-down no later than
/// `now`.
pub proof fn lemma_keep_where_time(s: Seq<Held>, keep: spec_fn(Held) -> bool, now: Micros)
    requires
        all_since_le(s, now),
    ensures
        all_since_le(keep_where(s, keep), now),
{
    lemma_keep_where_subset(s, keep);
    assert forall|k: int| 0 <= k < keep_where(s, keep).len() implies #[trigger] keep_where(
        s,
        keep,
    )[k].since <= now by {
        let x = keep_where(s, keep)[k];
        assert(s.contains(x));
    }
}

pub proof fn lemma_min_since_step(s: Seq<Held>, x: Held)
    requires
        s.len() > 0,
    ensures
        min_since(s.push(x)) == min_u64(min_since(s), x.since),
        positions(s.push(x)) == positions(s).push(x.pos->0),
{
    assert(s.push(x).drop_last() =~= s);
}

pub proof fn lemma_min_since_single(x: Held)
    ensures
        min_since(seq![x]) == x.since,
        positions(seq![x]) == seq![x.pos->0],
{
    assert(seq![x].drop_last() =~= Seq::<Held>::empty());
    assert(positions(Seq::<Held>::empty()) =~= Seq::<Pos>::empty());
    assert(Seq::<Pos>::empty().push(x.pos->0) =~= seq![x.pos->0]);
}

// ------------------------------------------------------------- the detector

impl Detector {
    pub fn new(thresholds: Thresholds) -> (d: Self)
        ensures
            d@.thresholds == thresholds,
            d@.down == Seq::<Held>::empty(),
            d@.hit_since == 0,
    {
        Detector { thresholds, down: Vec::with_capacity(16), hit_since: 0 }
    }

    /// Replaces the limits; the held keys stay.
    pub fn set_thresholds(&mut self, thresholds: Thresholds)
        ensures
            final(self)@ == (DetectorView { thresholds, ..old(self)@ }),
    {
        self.thresholds = thresholds;
    }

    /// When the first key of the pattern that fired last went down.
    pub fn hit_since(&self) -> (r: Micros)
        ensures
            r == self@.hit_since,
    {
        self.hit_since
    }

    /// True when no key is tracked, so nobody needs to call [`Self::poll`].
    pub fn is_idle(&self) -> (r: bool)
        ensures
            r == (self@.down.len() == 0),
    {
        self.down.len() == 0
    }

    pub fn clear(&mut self)
        ensures
            final(self)@ == (DetectorView { down: Seq::empty(), ..old(self)@ }),
    {
        self.down.clear();
    }

    pub fn key_up(&mut self, key: KeyCode)
        ensures
            final(self)@ == old(self)@.key_up_next(key),
    {
        let ghost keep = other_key_pred(key);
        let mut kept: Vec<Held> = Vec::with_capacity(self.down.len());
        let mut i: usize = 0;
        while i < self.down.len()
            invariant
                i <= self.down@.len(),
                kept@ == keep_where(self.down@.take(i as int), keep),
                keep == other_key_pred(key),
            decreases self.down@.len() - i,
        {
            proof {
                lemma_keep_where_step(self.down@, keep, i as int);
            }
            let h = self.down[i];
            if h.key != key {
                kept.push(h);
            }
            i = i + 1;
        }
        assert(self.down@.take(self.down@.len() as int) =~= self.down@);
        self.down = kept;
    }

    fn tracks(&self, key: KeyCode) -> (r: bool)
        ensures
            r == holds_key(self@.down, key),
    {
        let mut i: usize = 0;
        while i < self.down.len()
            invariant
                i <= self.down@.len(),
                forall|k: int| 0 <= k < i ==> self.down@[k].key != key,
            decreases self.down@.len() - i,
        {
            if self.down[i].key == key {
                return true;
            }
            i = i + 1;
        }
        false
    }

    /// Records a key going down and runs the rules that decide on the spot.
    /// Auto-repeat of a key that is already down changes nothing.
    pub fn key_down(&mut self, key: KeyCode, now: Micros) -> (r: Option<Rule>)
        requires
            modifier_key(key) || holds_key(old(self)@.down, key) || old(self)@.time_ok(now),
        ensures
            (final(self)@, r) == old(self)@.key_down_next(key, now),
            old(self)@.time_ok(now) ==> final(self)@.time_ok(now),
    {
        if is_modifier(key) || self.tracks(key) {
            return None;
        }
        self.forget_stale(now);
        self.down.push(Held { key, since: now, pos: position(key) });
        let slam = self.slam(now);
        let hit = match slam {
            Some(t) => Some((Rule::Slam, t)),
            None => match self.chord() {
                Some(t) => Some((Rule::Chord, t)),
                None => None,
            },
        };
        self.note(hit)
    }

    /// Runs the rules that need time to pass. Call every few tens of
    /// milliseconds while [`Self::is_idle`] is false.
    pub fn poll(&mut self, now: Micros) -> (r: Option<Rule>)
        requires
            old(self)@.time_ok(now),
        ensures
            (final(self)@, r) == old(self)@.poll_next(now),
            final(self)@.time_ok(now),
    {
        self.forget_stale(now);
        let pair = self.pair(now);
        let hit = match pair {
            Some(t) => Some((Rule::Pair, t)),
            None => match self.sit(now) {
                Some(t) => Some((Rule::Sit, t)),
                None => None,
            },
        };
        self.note(hit)
    }

    fn note(&mut self, hit: Option<(Rule, Micros)>) -> (r: Option<Rule>)
        ensures
            final(self)@ == old(self)@.noted(hit),
            r == rule_of(hit),
    {
        match hit {
            Some((rule, since)) => {
                self.hit_since = since;
                Some(rule)
            },
            None => None,
        }
    }

    fn forget_stale(&mut self, now: Micros)
        ensures
            final(self)@ == (DetectorView {
                down: keep_fresh(old(self)@.down, now, old(self)@.thresholds.stale_after),
                ..old(self)@
            }),
            old(self)@.time_ok(now) ==> final(self)@.time_ok(now),
    {
        let limit = self.thresholds.stale_after;
        let ghost keep = fresh_pred(now, limit);
        let mut kept: Vec<Held> = Vec::with_capacity(self.down.len());
        let mut i: usize = 0;
        while i < self.down.len()
            invariant
                i <= self.down@.len(),
                kept@ == keep_where(self.down@.take(i as int), keep),
                keep == fresh_pred(now, limit),
            decreases self.down@.len() - i,
        {
            proof {
                lemma_keep_where_step(self.down@, keep, i as int);
            }
            let h = self.down[i];
            if now.saturating_sub(h.since) < limit {
                kept.push(h);
            }
            i = i + 1;
        }
        assert(self.down@.take(self.down@.len() as int) =~= self.down@);
        proof {
            if self@.time_ok(now) {
                lemma_keep_where_time(self.down@, keep, now);
            }
        }
        self.down = kept;
    }

    /// The newest key plus two others, all down within the window, all under
    /// one paw.
    fn slam(&self, now: Micros) -> (r: Option<Micros>)
        requires
            self@.down.len() > 0,
            self@.time_ok(now),
        ensures
            r == slam_hit(self@.down, self@.thresholds, now),
    {
        let ghost down = self@.down;
        let ghost t = self@.thresholds;
        let n = self.down.len();
        let newest = match self.down[n - 1].pos {
            Some(p) => p,
            None => return None,
        };
        let mut i: usize = 0;
        while i + 1 < n
            invariant
                n == down.len(),
                down == self@.down,
                t == self@.thresholds,
                self@.time_ok(now),
                down.last().pos == Some(newest),
                i < n,
                forall|i2: int, j2: int| i2 < i ==> !slam_pair(down, t, now, i2, j2),
            decreases n - i,
        {
            let a = self.down[i];
            if a.pos.is_some() && now - a.since <= self.thresholds.slam_window {
                let pa = a.pos.unwrap();
                let mut j: usize = i + 1;
                while j + 1 < n
                    invariant
                        n == down.len(),
                        down == self@.down,
                        t == self@.thresholds,
                        self@.time_ok(now),
                        down.last().pos == Some(newest),
                        i < j < n,
                        i + 1 < n,
                        a == down[i as int],
                        a.pos == Some(pa),
                        slam_partner(down, t, now, i as int),
                        forall|i2: int, j2: int| i2 < i ==> !slam_pair(down, t, now, i2, j2),
                        forall|j2: int| j2 < j ==> !slam_pair(down, t, now, i as int, j2),
                    decreases n - j,
                {
                    let b = self.down[j];
                    if b.pos.is_some() && now - b.since <= self.thresholds.slam_window {
                        let pb = b.pos.unwrap();
                        let first = if a.since <= b.since {
                            a.since
                        } else {
                            b.since
                        };
                        let age = now - first;
                        let places = [pa, pb, newest];
                        assert(places@ =~= seq![pa, pb, newest]);
                        let (height, width) = extent(&places);
                        let under_one_paw = if height == 0 {
                            age <= self.thresholds.slam_row_window && width
                                <= self.thresholds.slam_row_width
                        } else {
                            height <= UNIT && width <= self.thresholds.slam_width
                        };
                        if under_one_paw {
                            proof {
                                assert(slam_pair(down, t, now, i as int, j as int));
                                assert(slam_first(down, t, now, i as int, j as int));
                                let (ci, cj) = choose|ci: int, cj: int|
                                    slam_first(down, t, now, ci, cj);
                                assert(slam_first(down, t, now, ci, cj));
                                assert(ci == i && cj == j);
                            }
                            return Some(first);
                        }
                    }
                    j = j + 1;
                }
            }
            i = i + 1;
        }
        None
    }

    fn chord(&self) -> (r: Option<Micros>)
        requires
            self@.down.len() > 0,
        ensures
            r == chord_hit(self@.down, self@.thresholds),
    {
        let ghost down = self@.down;
        let t = self.thresholds;
        let n = self.down.len();
        let newest = match self.down[n - 1].pos {
            Some(p) => p,
            None => return None,
        };
        let ghost keep = near_pred(newest, t);
        let mut places: Vec<Pos> = Vec::new();
        let mut first: Micros = 0;
        let mut i: usize = 0;
        while i < n
            invariant
                n == down.len(),
                down == self@.down,
                t == self@.thresholds,
                i <= n,
                keep == near_pred(newest, t),
                places@.len() == 0 ==> first == 0,
                places@ == positions(keep_where(down.take(i as int), keep)),
                places@.len() == keep_where(down.take(i as int), keep).len(),
                places@.len() > 0 ==> first == min_since(keep_where(down.take(i as int), keep)),
            decreases n - i,
        {
            proof {
                lemma_keep_where_step(down, keep, i as int);
            }
            let h = self.down[i];
            if let Some(p) = h.pos {
                let pair = [p, newest];
                assert(pair@ =~= seq![p, newest]);
                let (height, width) = extent(&pair);
                if height <= t.chord_height && width <= t.chord_width {
                    proof {
                        let before = keep_where(down.take(i as int), keep);
                        if before.len() > 0 {
                            lemma_min_since_step(before, h);
                        } else {
                            assert(before =~= Seq::<Held>::empty());
                            assert(before.push(h) =~= seq![h]);
                            lemma_min_since_single(h);
                            assert(positions(before) =~= Seq::<Pos>::empty());
                        }
                    }
                    if places.len() == 0 || h.since < first {
                        first = h.since;
                    }
                    places.push(p);
                }
            }
            i = i + 1;
        }
        assert(down.take(n as int) =~= down);
        let count = places.len();
        let fits = if count == 0 {
            count >= t.chord_keys && 0 <= t.chord_width
        } else {
            let (height, width) = extent(places.as_slice());
            count >= t.chord_keys && height <= t.chord_height && width <= t.chord_width
        };
        if fits {
            Some(first)
        } else {
            None
        }
    }

    fn pair(&self, now: Micros) -> (r: Option<Micros>)
        requires
            self@.time_ok(now),
        ensures
            r == pair_hit(self@.down, self@.thresholds, now),
    {
        let ghost down = self@.down;
        let ghost t = self@.thresholds;
        let n = self.down.len();
        let mut i: usize = 0;
        while i < n
            invariant
                n == down.len(),
                down == self@.down,
                t == self@.thresholds,
                self@.time_ok(now),
                i <= n,
                forall|i2: int, j2: int| i2 < i ==> !pair_ok(down, t, now, i2, j2),
            decreases n - i,
        {
            let a = self.down[i];
            if a.pos.is_some() {
                let pa = a.pos.unwrap();
                let mut j: usize = i + 1;
                while j < n
                    invariant
                        n == down.len(),
                        down == self@.down,
                        t == self@.thresholds,
                        self@.time_ok(now),
                        i < n,
                        i < j <= n,
                        a == down[i as int],
                        a.pos == Some(pa),
                        forall|i2: int, j2: int| i2 < i ==> !pair_ok(down, t, now, i2, j2),
                        forall|j2: int| j2 < j ==> !pair_ok(down, t, now, i as int, j2),
                    decreases n - j,
                {
                    let b = self.down[j];
                    if b.pos.is_some() {
                        let pb = b.pos.unwrap();
                        let (lo, hi) = if a.since <= b.since {
                            (a.since, b.since)
                        } else {
                            (b.since, a.since)
                        };
                        let together = hi - lo <= self.thresholds.pair_gap;
                        let held = now - hi >= self.thresholds.pair_hold;
                        let places = [pa, pb];
                        assert(places@ =~= seq![pa, pb]);
                        let (height, width) = extent(&places);
                        if together && held && height <= UNIT && width
                            <= self.thresholds.pair_width {
                            proof {
                                assert(pair_ok(down, t, now, i as int, j as int));
                                assert(pair_first(down, t, now, i as int, j as int));
                                let (ci, cj) = choose|ci: int, cj: int|
                                    pair_first(down, t, now, ci, cj);
                                assert(pair_first(down, t, now, ci, cj));
                                assert(ci == i && cj == j);
                            }
                            return Some(lo);
                        }
                    }
                    j = j + 1;
                }
            }
            i = i + 1;
        }
        None
    }

    fn sit(&self, now: Micros) -> (r: Option<Micros>)
        requires
            self@.time_ok(now),
        ensures
            r == sit_hit(self@.down, self@.thresholds, now),
    {
        let ghost down = self@.down;
        let hold = self.thresholds.sit_hold;
        let ghost keep = long_pred(now, hold);
        let n = self.down.len();
        let mut count: usize = 0;
        let mut first: Micros = 0;
        let mut i: usize = 0;
        while i < n
            invariant
                n == down.len(),
                down == self@.down,
                self@.time_ok(now),
                hold == self@.thresholds.sit_hold,
                keep == long_pred(now, hold),
                count == 0 ==> first == 0,
                i <= n,
                count == keep_where(down.take(i as int), keep).len(),
                count <= i,
                count > 0 ==> first == min_since(keep_where(down.take(i as int), keep)),
            decreases n - i,
        {
            proof {
                lemma_keep_where_step(down, keep, i as int);
            }
            let h = self.down[i];
            if now - h.since >= hold {
                proof {
                    let before = keep_where(down.take(i as int), keep);
                    if before.len() > 0 {
                        lemma_min_since_step(before, h);
                    } else {
                        assert(before.push(h) =~= seq![h]);
                        lemma_min_since_single(h);
                    }
                }
                if count == 0 || h.since < first {
                    first = h.since;
                }
                count = count + 1;
            }
            i = i + 1;
        }
        assert(down.take(n as int) =~= down);
        if count >= self.thresholds.sit_keys {
            Some(first)
        } else {
            None
        }
    }
}

} // verus!
