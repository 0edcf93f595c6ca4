//! What happened around a lock: which keys went down, for how long, which of
//! them reached the applications, and what can be done about those.
//!
//! The history lives in memory only, covers the last three seconds, and is
//! never written anywhere. It exists so that the human can see what the cat
//! did and take back the part that can be taken back.
//!
//! What can be taken back is narrow on purpose. catguard sees keys, not what
//! a program did with them. So it only offers two things: pressing a
//! shortcut again when the shortcut is its own opposite (Caps Lock, mute,
//! Win+D), and Backspace for characters that were typed with no modifier.
use vstd::prelude::*;

use std::collections::VecDeque;

use crate::detector::{sat_sub, Micros, Rule};
use crate::layout::{is_printable, printable_key, KeyCode};

verus! {

/// How far back the timeline reaches.
pub const LOOKBACK: Micros = 3_000_000;

/// The most key presses the history keeps.
pub const CAPACITY: usize = 256;

#[derive(Clone, Copy, Debug, Default, PartialEq, Eq, Structural)]
pub struct Mods {
    pub ctrl: bool,
    pub alt: bool,
    pub shift: bool,
    pub win: bool,
}

impl Mods {
    /// No modifier.
    #[verifier::allow_in_spec]
    pub fn none() -> Mods
        returns
            (Mods { ctrl: false, alt: false, shift: false, win: false }),
    {
        Mods { ctrl: false, alt: false, shift: false, win: false }
    }

    /// Ctrl alone.
    #[verifier::allow_in_spec]
    pub fn ctrl() -> Mods
        returns
            (Mods { ctrl: true, alt: false, shift: false, win: false }),
    {
        Mods { ctrl: true, alt: false, shift: false, win: false }
    }

    /// Alt alone.
    #[verifier::allow_in_spec]
    pub fn alt() -> Mods
        returns
            (Mods { ctrl: false, alt: true, shift: false, win: false }),
    {
        Mods { ctrl: false, alt: true, shift: false, win: false }
    }

    /// Shift alone.
    #[verifier::allow_in_spec]
    pub fn shift() -> Mods
        returns
            (Mods { ctrl: false, alt: false, shift: true, win: false }),
    {
        Mods { ctrl: false, alt: false, shift: true, win: false }
    }

    /// Win alone.
    #[verifier::allow_in_spec]
    pub fn win() -> Mods
        returns
            (Mods { ctrl: false, alt: false, shift: false, win: true }),
    {
        Mods { ctrl: false, alt: false, shift: false, win: true }
    }

    /// Ctrl and Win.
    #[verifier::allow_in_spec]
    pub fn ctrl_win() -> Mods
        returns
            (Mods { ctrl: true, alt: false, shift: false, win: true }),
    {
        Mods { ctrl: true, alt: false, shift: false, win: true }
    }

    /// Shift and Win.
    #[verifier::allow_in_spec]
    pub fn shift_win() -> Mods
        returns
            (Mods { ctrl: false, alt: false, shift: true, win: true }),
    {
        Mods { ctrl: false, alt: false, shift: true, win: true }
    }

    /// The key produces a character rather than a command.
    pub open spec fn text(self) -> bool {
        !self.ctrl && !self.alt && !self.win
    }

    /// True when the key produces a character rather than a command.
    fn types_text(self) -> (r: bool)
        ensures
            r == self.text(),
    {
        !self.ctrl && !self.alt && !self.win
    }
}

pub open spec fn ctrl_key(k: KeyCode) -> bool {
    k == 0x1D || k == 0xE01D
}

pub open spec fn alt_key(k: KeyCode) -> bool {
    k == 0x38 || k == 0xE038
}

pub open spec fn shift_key(k: KeyCode) -> bool {
    k == 0x2A || k == 0x36
}

pub open spec fn win_key(k: KeyCode) -> bool {
    k == 0xE05B || k == 0xE05C
}

/// The modifier a key stands for, as a `Mods` with that one flag set.
pub open spec fn modifier_of_key(key: KeyCode) -> Option<Mods> {
    if ctrl_key(key) {
        Some(Mods::ctrl())
    } else if alt_key(key) {
        Some(Mods::alt())
    } else if shift_key(key) {
        Some(Mods::shift())
    } else if win_key(key) {
        Some(Mods::win())
    } else {
        None
    }
}

/// The modifier a key stands for, as a `Mods` with that one flag set.
pub fn modifier_of(key: KeyCode) -> (r: Option<Mods>)
    ensures
        r == modifier_of_key(key),
{
    if key == 0x1D || key == 0xE01D {
        Some(Mods::ctrl())
    } else if key == 0x38 || key == 0xE038 {
        Some(Mods::alt())
    } else if key == 0x2A || key == 0x36 {
        Some(Mods::shift())
    } else if key == 0xE05B || key == 0xE05C {
        Some(Mods::win())
    } else {
        None
    }
}

/// Every modifier for which one of `held` stands.
pub open spec fn mods_held(held: Seq<KeyCode>) -> Mods {
    Mods {
        ctrl: exists|i: int| 0 <= i < held.len() && ctrl_key(held[i]),
        alt: exists|i: int| 0 <= i < held.len() && alt_key(held[i]),
        shift: exists|i: int| 0 <= i < held.len() && shift_key(held[i]),
        win: exists|i: int| 0 <= i < held.len() && win_key(held[i]),
    }
}

#[derive(Clone, Copy, Debug, PartialEq, Eq, Structural)]
pub struct Press {
    pub key: KeyCode,
    pub vk: u8,
    /// Modifiers that were down when this key went down.
    pub mods: Mods,
    pub down: Micros,
    pub up: Option<Micros>,
    /// False when catguard swallowed the key-down.
    pub passed: bool,
    /// Auto-repeats that reached the applications after the first key-down.
    pub repeats: u32,
}

pub struct History {
    presses: VecDeque<Press>,
    held_mods: Vec<KeyCode>,
    lock: Option<(Rule, Micros, Micros)>,
}

/// The presses in the order they went down, the modifiers that reached the
/// applications and are still down, and the last lock as (rule, when,
/// when the paw came down).
pub struct HistoryView {
    pub presses: Seq<Press>,
    pub held_mods: Seq<KeyCode>,
    pub lock: Option<(Rule, Micros, Micros)>,
}

impl View for History {
    type V = HistoryView;

    closed spec fn view(&self) -> HistoryView {
        HistoryView { presses: self.presses@, held_mods: self.held_mods@, lock: self.lock }
    }
}

// ------------------------------------------------------------- the model

pub open spec fn is_open(p: Press, key: KeyCode) -> bool {
    p.key == key && p.up is None
}

/// The index of the newest press of `key` that is still down, or -1.
pub open spec fn last_open(ps: Seq<Press>, key: KeyCode) -> int
    decreases ps.len(),
{
    if ps.len() == 0 {
        -1
    } else if is_open(ps.last(), key) {
        ps.len() - 1
    } else {
        last_open(ps.drop_last(), key)
    }
}

pub open spec fn drop_key(held: Seq<KeyCode>, key: KeyCode) -> Seq<KeyCode>
    decreases held.len(),
{
    if held.len() == 0 {
        held
    } else if held.last() != key {
        drop_key(held.drop_last(), key).push(held.last())
    } else {
        drop_key(held.drop_last(), key)
    }
}

/// Released more than [`LOOKBACK`] before `now`.
pub open spec fn expired(p: Press, now: Micros) -> bool {
    sat_sub(
        now,
        match p.up {
            Some(up) => up,
            None => now,
        },
    ) > LOOKBACK
}

/// How many of the oldest presses are expired in a row.
pub open spec fn expired_count(ps: Seq<Press>, now: Micros) -> nat
    decreases ps.len(),
{
    if ps.len() > 0 && expired(ps[0], now) {
        1 + expired_count(ps.drop_first(), now)
    } else {
        0
    }
}

impl HistoryView {
    pub open spec fn wf(self) -> bool {
        self.presses.len() <= CAPACITY
    }

    /// An auto-repeat that reaches the applications can still be counted.
    pub open spec fn repeat_room(self, key: KeyCode, passed: bool, repeat: bool) -> bool {
        let i = last_open(self.presses, key);
        repeat && passed && i >= 0 ==> self.presses[i].repeats < u32::MAX
    }

    /// A key-down. An auto-repeat is counted on the press it repeats; any
    /// other key-down becomes a new press, with the modifiers that are down,
    /// and the oldest press makes room when the history is full.
    pub open spec fn key_down_next(
        self,
        key: KeyCode,
        vk: u8,
        now: Micros,
        passed: bool,
        repeat: bool,
    ) -> HistoryView {
        let i = last_open(self.presses, key);
        if repeat && i >= 0 {
            let p = self.presses[i];
            let p2 = Press {
                repeats: (p.repeats + if passed {
                    1int
                } else {
                    0int
                }) as u32,
                ..p
            };
            HistoryView { presses: self.presses.update(i, p2), ..self }
        } else {
            let held = if modifier_of_key(key) is Some && passed && !self.held_mods.contains(key) {
                self.held_mods.push(key)
            } else {
                self.held_mods
            };
            let kept = if self.presses.len() == CAPACITY {
                self.presses.drop_first()
            } else {
                self.presses
            };
            let p = Press {
                key,
                vk,
                mods: mods_held(self.held_mods),
                down: now,
                up: None,
                passed,
                repeats: 0,
            };
            HistoryView { presses: kept.push(p), held_mods: held, ..self }
        }
    }

    /// A key-up ends the newest open press of the key.
    pub open spec fn key_up_next(self, key: KeyCode, now: Micros) -> HistoryView {
        let i = last_open(self.presses, key);
        HistoryView {
            presses: if i >= 0 {
                self.presses.update(i, Press { up: Some(now), ..self.presses[i] })
            } else {
                self.presses
            },
            held_mods: drop_key(self.held_mods, key),
            ..self
        }
    }

    /// Drops the oldest presses that were released more than
    /// [`LOOKBACK`] ago.
    pub open spec fn prune_next(self, now: Micros) -> HistoryView {
        HistoryView { presses: self.presses.skip(expired_count(self.presses, now) as int), ..self }
    }

    pub open spec fn mark_lock_next(self, rule: Rule, now: Micros, paw_since: Micros) -> HistoryView {
        HistoryView { lock: Some((rule, now, paw_since)), ..self.prune_next(now) }
    }

    pub open spec fn empty() -> HistoryView {
        HistoryView { presses: Seq::empty(), held_mods: Seq::empty(), lock: None }
    }
}

pub proof fn lemma_last_open(ps: Seq<Press>, key: KeyCode)
    ensures
        -1 <= last_open(ps, key) < ps.len(),
        last_open(ps, key) >= 0 ==> is_open(ps[last_open(ps, key)], key),
        forall|j: int| last_open(ps, key) < j < ps.len() ==> !is_open(#[trigger] ps[j], key),
    decreases ps.len(),
{
    if ps.len() > 0 {
        lemma_last_open(ps.drop_last(), key);
        if !is_open(ps.last(), key) {
            assert forall|j: int| last_open(ps, key) < j < ps.len() implies !is_open(
                #[trigger] ps[j],
                key,
            ) by {
                if j < ps.len() - 1 {
                    assert(ps.drop_last()[j] == ps[j]);
                }
            }
        }
    }
}

proof fn lemma_last_open_prefix(ps: Seq<Press>, key: KeyCode, i: int)
    requires
        0 <= i <= ps.len(),
        forall|j: int| i <= j < ps.len() ==> !is_open(#[trigger] ps[j], key),
    ensures
        last_open(ps, key) == last_open(ps.take(i), key),
    decreases ps.len(),
{
    if i < ps.len() {
        assert(ps.drop_last().take(i) =~= ps.take(i));
        assert forall|j: int| i <= j < ps.drop_last().len() implies !is_open(
            #[trigger] ps.drop_last()[j],
            key,
        ) by {
            assert(ps.drop_last()[j] == ps[j]);
        }
        lemma_last_open_prefix(ps.drop_last(), key, i);
    } else {
        assert(ps.take(i) =~= ps);
    }
}

impl Default for History {
    fn default() -> (h: Self)
        ensures
            h@ == HistoryView::empty(),
    {
        History { presses: VecDeque::new(), held_mods: Vec::new(), lock: None }
    }
}

impl History {
    /// How many key presses the history holds.
    pub fn len(&self) -> (r: usize)
        ensures
            r == self@.presses.len(),
    {
        self.presses.len()
    }

    fn last_open_index(&self, key: KeyCode) -> (r: Option<usize>)
        ensures
            match r {
                Some(i) => i == last_open(self@.presses, key) && i < self@.presses.len(),
                None => last_open(self@.presses, key) == -1,
            },
    {
        let ghost ps = self@.presses;
        proof {
            lemma_last_open(ps, key);
        }
        let mut i: usize = self.presses.len();
        while i > 0
            invariant
                ps == self@.presses,
                i <= ps.len(),
                forall|j: int| i <= j < ps.len() ==> !is_open(#[trigger] ps[j], key),
            decreases i,
        {
            let p = self.presses[i - 1];
            if p.key == key && p.up.is_none() {
                proof {
                    assert forall|j: int| i <= j < ps.len() implies !is_open(
                        #[trigger] ps[j],
                        key,
                    ) by {}
                    lemma_last_open_prefix(ps, key, i as int);
                    assert(ps.take(i as int).drop_last() =~= ps.take(i - 1));
                    assert(ps.take(i as int).last() == ps[i - 1]);
                }
                return Some(i - 1);
            }
            i = i - 1;
        }
        proof {
            lemma_last_open_prefix(ps, key, 0);
        }
        None
    }

    fn held(&self) -> (m: Mods)
        ensures
            m == mods_held(self@.held_mods),
    {
        let ghost held = self@.held_mods;
        let mut m = Mods::none();
        let mut i: usize = 0;
        while i < self.held_mods.len()
            invariant
                held == self@.held_mods,
                i <= held.len(),
                m.ctrl == exists|k: int| 0 <= k < i && ctrl_key(held[k]),
                m.alt == exists|k: int| 0 <= k < i && alt_key(held[k]),
                m.shift == exists|k: int| 0 <= k < i && shift_key(held[k]),
                m.win == exists|k: int| 0 <= k < i && win_key(held[k]),
            decreases held.len() - i,
        {
            let k = self.held_mods[i];
            match modifier_of(k) {
                Some(b) => {
                    m = Mods {
                        ctrl: m.ctrl || b.ctrl,
                        alt: m.alt || b.alt,
                        shift: m.shift || b.shift,
                        win: m.win || b.win,
                    };
                },
                None => {},
            }
            i = i + 1;
        }
        m
    }

    fn holds_mod(&self, key: KeyCode) -> (r: bool)
        ensures
            r == self@.held_mods.contains(key),
    {
        let mut i: usize = 0;
        while i < self.held_mods.len()
            invariant
                i <= self@.held_mods.len(),
                forall|k: int| 0 <= k < i ==> self@.held_mods[k] != key,
            decreases self@.held_mods.len() - i,
        {
            if self.held_mods[i] == key {
                return true;
            }
            i = i + 1;
        }
        false
    }

    /// Records a key-down. `passed` says whether it reached the
    /// applications, `repeat` whether its key was already down.
    pub fn key_down(&mut self, key: KeyCode, vk: u8, now: Micros, passed: bool, repeat: bool)
        requires
            old(self)@.wf(),
            old(self)@.repeat_room(key, passed, repeat),
        ensures
            final(self)@ == old(self)@.key_down_next(key, vk, now, passed, repeat),
            final(self)@.wf(),
    {
        if repeat {
            if let Some(i) = self.last_open_index(key) {
                let ghost before = self@.presses;
                match self.presses.remove(i) {
                    Some(p) => {
                        let mut open = p;
                        if passed {
                            open.repeats = open.repeats + 1;
                        }
                        self.presses.insert(i, open);
                        assert(self@.presses =~= before.update(i as int, open));
                    },
                    None => {},
                }
                return ;
            }
        }
        let mods = self.held();
        if modifier_of(key).is_some() && passed && !self.holds_mod(key) {
            self.held_mods.push(key);
        }
        if self.presses.len() == CAPACITY {
            let _ = self.presses.pop_front();
        }
        self.presses.push_back(Press { key, vk, mods, down: now, up: None, passed, repeats: 0 });
    }

    /// Records a key-up.
    pub fn key_up(&mut self, key: KeyCode, now: Micros)
        requires
            old(self)@.wf(),
        ensures
            final(self)@ == old(self)@.key_up_next(key, now),
            final(self)@.wf(),
    {
        let ghost held = self@.held_mods;
        let mut kept: Vec<KeyCode> = Vec::new();
        let mut i: usize = 0;
        while i < self.held_mods.len()
            invariant
                held == self@.held_mods,
                i <= held.len(),
                kept@ == drop_key(held.take(i as int), key),
            decreases held.len() - i,
        {
            assert(held.take(i + 1).drop_last() =~= held.take(i as int));
            let k = self.held_mods[i];
            if k != key {
                kept.push(k);
            }
            i = i + 1;
        }
        assert(held.take(held.len() as int) =~= held);
        self.held_mods = kept;
        if let Some(i) = self.last_open_index(key) {
            let ghost before = self@.presses;
            match self.presses.remove(i) {
                Some(p) => {
                    let mut open = p;
                    open.up = Some(now);
                    self.presses.insert(i, open);
                    assert(self@.presses =~= before.update(i as int, open));
                },
                None => {},
            }
        }
    }

    /// Drops what is older than the timeline shows. Not called while locked,
    /// so that an incident stays whole however long the cat stays.
    pub fn prune(&mut self, now: Micros)
        requires
            old(self)@.wf(),
        ensures
            final(self)@ == old(self)@.prune_next(now),
            final(self)@.wf(),
    {
        let ghost start = self@.presses;
        let ghost mut k: int = 0;
        loop
            invariant
                0 <= k <= start.len(),
                self@.presses == start.skip(k),
                self@.held_mods == old(self)@.held_mods,
                self@.lock == old(self)@.lock,
                start == old(self)@.presses,
                k + expired_count(start.skip(k), now) == expired_count(start, now),
            ensures
                self@.presses == start.skip(expired_count(start, now) as int),
                self@.held_mods == old(self)@.held_mods,
                self@.lock == old(self)@.lock,
            decreases self@.presses.len(),
        {
            if self.presses.len() == 0 {
                break;
            }
            let oldest = self.presses[0];
            let up = match oldest.up {
                Some(u) => u,
                None => now,
            };
            if now.saturating_sub(up) > LOOKBACK {
                let _ = self.presses.pop_front();
                proof {
                    assert(start.skip(k).drop_first() =~= start.skip(k + 1));
                    assert(self@.presses =~= start.skip(k + 1));
                    k = k + 1;
                }
            } else {
                break;
            }
        }
    }

    /// `paw_since` is when the first key of the pattern that fired went down.
    pub fn mark_lock(&mut self, rule: Rule, now: Micros, paw_since: Micros)
        requires
            old(self)@.wf(),
        ensures
            final(self)@ == old(self)@.mark_lock_next(rule, now, paw_since),
            final(self)@.wf(),
    {
        self.prune(now);
        self.lock = Some((rule, now, paw_since));
    }

    pub fn clear(&mut self)
        ensures
            final(self)@ == HistoryView::empty(),
    {
        self.presses = VecDeque::new();
        self.held_mods = Vec::new();
        self.lock = None;
    }

    /// The history around the last lock, or `None` before the first one.
    pub fn incident(&self, now: Micros) -> (r: Option<Incident>)
        ensures
            match r {
                Some(inc) => {
                    &&& self@.lock == Some((inc.rule, inc.locked_at, inc.paw_since))
                    &&& inc.taken_at == now
                    &&& inc.presses@ == self@.presses
                },
                None => self@.lock is None,
            },
    {
        match self.lock {
            None => None,
            Some((rule, locked_at, paw_since)) => {
                let mut presses: Vec<Press> = Vec::with_capacity(self.presses.len());
                let mut i: usize = 0;
                while i < self.presses.len()
                    invariant
                        i <= self@.presses.len(),
                        presses@ == self@.presses.take(i as int),
                    decreases self@.presses.len() - i,
                {
                    presses.push(self.presses[i]);
                    assert(presses@ =~= self@.presses.take(i + 1));
                    i = i + 1;
                }
                assert(self@.presses.take(self@.presses.len() as int) =~= self@.presses);
                Some(Incident { rule, paw_since, locked_at, taken_at: now, presses })
            },
        }
    }
}

/// A snapshot of the history around one lock.
#[derive(Clone, Debug)]
pub struct Incident {
    pub rule: Rule,
    pub paw_since: Micros,
    pub locked_at: Micros,
    pub taken_at: Micros,
    pub presses: Vec<Press>,
}

/// One key combination that reached the applications.
#[derive(Clone, Copy, Debug, PartialEq)]
pub struct Leak {
    pub mods: Mods,
    pub vk: u8,
    pub key: KeyCode,
    /// Key-downs including auto-repeat.
    pub count: u32,
    pub note: Option<&'static str>,
}

#[derive(Clone, Copy, Debug, PartialEq, Eq, Structural)]
pub enum UndoStep {
    /// Press this combination once.
    Press(Mods, u8),
    Backspace(u32),
}

/// How keys can take a shortcut back.
#[derive(Clone, Copy, Debug, PartialEq, Eq, Structural)]
pub enum Undo {
    /// The shortcut is its own opposite.
    PressAgain,
    /// This other combination reverses it.
    PressInstead(Mods, u8),
}

/// What a combination does, and how keys can take it back.
#[derive(Clone, Copy, Debug)]
pub struct Shortcut {
    pub note: &'static str,
    pub undo: Option<Undo>,
}

// Virtual-key codes used below.
pub const VK_BACK: u8 = 0x08;
pub const VK_TAB: u8 = 0x09;
pub const VK_RETURN: u8 = 0x0D;
pub const VK_CAPITAL: u8 = 0x14;
pub const VK_ESCAPE: u8 = 0x1B;
pub const VK_INSERT: u8 = 0x2D;
pub const VK_DELETE: u8 = 0x2E;
pub const VK_LWIN: u8 = 0x5B;
pub const VK_F4: u8 = 0x73;
pub const VK_F5: u8 = 0x74;
pub const VK_F11: u8 = 0x7A;
pub const VK_F24: u8 = 0x87;
pub const VK_NUMLOCK: u8 = 0x90;
pub const VK_SCROLL: u8 = 0x91;
pub const VK_VOLUME_MUTE: u8 = 0xAD;
pub const VK_VOLUME_DOWN: u8 = 0xAE;
pub const VK_VOLUME_UP: u8 = 0xAF;
pub const VK_MEDIA_PLAY_PAUSE: u8 = 0xB3;

pub open spec fn known(note: &'static str, undo: Option<Undo>) -> Option<Shortcut> {
    Some(Shortcut { note, undo })
}

/// What a combination does in Windows or in most programs, and whether
/// pressing keys can take it back. Shift is ignored for the lookup, but
/// Win+Shift+M is not Win+M.
pub open spec fn shortcut_of(mods: Mods, vk: u8) -> Option<Shortcut> {
    let again = Some(Undo::PressAgain);
    let base = Mods { shift: false, ..mods };
    if base == Mods::none() && vk == VK_CAPITAL {
        known("switched Caps Lock", again)
    } else if base == Mods::none() && vk == VK_NUMLOCK {
        known("switched Num Lock", again)
    } else if base == Mods::none() && vk == VK_SCROLL {
        known("switched Scroll Lock", again)
    } else if base == Mods::none() && vk == VK_INSERT {
        known("switched between insert and overwrite in editors", again)
    } else if base == Mods::none() && vk == VK_VOLUME_MUTE {
        known("switched the sound on or off", again)
    } else if base == Mods::none() && vk == VK_MEDIA_PLAY_PAUSE {
        known("started or paused playback", again)
    } else if base == Mods::none() && vk == VK_VOLUME_UP {
        known("turned the volume up", None)
    } else if base == Mods::none() && vk == VK_VOLUME_DOWN {
        known("turned the volume down", None)
    } else if base == Mods::ctrl_win() && vk == VK_F24 {
        known("switched the touchpad on or off", again)
    } else if base == Mods::ctrl_win() && vk == 0x43 {
        known("switched the colour filter, if its shortcut is enabled", again)
    } else if base == Mods::ctrl_win() && vk == VK_RETURN {
        known("started or stopped Narrator", again)
    } else if base == Mods::win() && vk == 0x44 {
        known("showed or hid the desktop", again)
    } else if base == Mods::win() && vk == 0x4D && !mods.shift {
        known("minimized all windows", Some(Undo::PressInstead(Mods::shift_win(), 0x4D)))
    } else if base == Mods::win() && vk == 0x4C {
        known("locked the PC", None)
    } else if base == Mods::win() && vk == 0x45 {
        known("opened Explorer", None)
    } else if base == Mods::win() && vk == 0x52 {
        known("opened the Run box", None)
    } else if base == Mods::win() && vk == 0x50 {
        known("opened the projection menu; check the display mode", None)
    } else if base == Mods::none() && vk == VK_LWIN {
        known("opened the Start menu", None)
    } else if base == Mods::alt() && vk == VK_F4 {
        known("closed a window", None)
    } else if base == Mods::alt() && vk == VK_TAB {
        known("switched to another window", None)
    } else if base == Mods::ctrl() && vk == 0x57 {
        known("closed a tab or document; browsers reopen it with Ctrl+Shift+T", None)
    } else if base == Mods::ctrl() && vk == 0x53 {
        known("saved the document as it was", None)
    } else if base == Mods::ctrl() && vk == 0x5A {
        known("undid your last step; most programs redo it with Ctrl+Y", None)
    } else if base == Mods::ctrl() && vk == 0x56 {
        known("pasted the clipboard; Ctrl+Z usually takes it back", None)
    } else if base == Mods::ctrl() && vk == 0x58 {
        known("cut the selection; Ctrl+Z usually takes it back", None)
    } else if base == Mods::ctrl() && vk == 0x41 {
        known("selected everything; the next key typed replaced it", None)
    } else if base == Mods::none() && vk == VK_DELETE {
        known("deleted what was selected; Ctrl+Z usually takes it back", None)
    } else if base == Mods::none() && vk == VK_BACK {
        known("deleted a character or went back a page", None)
    } else if base == Mods::none() && vk == VK_RETURN {
        known("confirmed a dialog or sent a message", None)
    } else if base == Mods::none() && vk == VK_ESCAPE {
        known("cancelled a dialog", None)
    } else if base == Mods::none() && vk == VK_F5 {
        known("reloaded the page", None)
    } else if base == Mods::none() && vk == VK_F11 {
        known("switched full screen in most programs; F11 switches back", None)
    } else {
        None
    }
}

/// How keys take a combination back, if they can.
pub open spec fn undo_of(mods: Mods, vk: u8) -> Option<Undo> {
    match shortcut_of(mods, vk) {
        Some(s) => s.undo,
        None => None,
    }
}

/// What a combination does, if it is a known one.
pub open spec fn note_of(mods: Mods, vk: u8) -> Option<&'static str> {
    match shortcut_of(mods, vk) {
        Some(s) => Some(s.note),
        None => None,
    }
}

fn same_mods(a: Mods, b: Mods) -> (r: bool)
    ensures
        r == (a == b),
{
    a.ctrl == b.ctrl && a.alt == b.alt && a.shift == b.shift && a.win == b.win
}

/// What a combination does in Windows or in most programs, and whether
/// pressing keys can take it back. Shift is ignored for the lookup.
pub fn shortcut(mods: Mods, vk: u8) -> (r: Option<Shortcut>)
    ensures
        r == shortcut_of(mods, vk),
{
    let again = Some(Undo::PressAgain);
    let base = Mods { shift: false, ..mods };
    let none = same_mods(base, Mods::none());
    let ctrl = same_mods(base, Mods::ctrl());
    let alt = same_mods(base, Mods::alt());
    let win = same_mods(base, Mods::win());
    let ctrl_win = same_mods(base, Mods::ctrl_win());
    let (note, undo) = if none && vk == VK_CAPITAL {
        ("switched Caps Lock", again)
    } else if none && vk == VK_NUMLOCK {
        ("switched Num Lock", again)
    } else if none && vk == VK_SCROLL {
        ("switched Scroll Lock", again)
    } else if none && vk == VK_INSERT {
        ("switched between insert and overwrite in editors", again)
    } else if none && vk == VK_VOLUME_MUTE {
        ("switched the sound on or off", again)
    } else if none && vk == VK_MEDIA_PLAY_PAUSE {
        ("started or paused playback", again)
    } else if none && vk == VK_VOLUME_UP {
        ("turned the volume up", None)
    } else if none && vk == VK_VOLUME_DOWN {
        ("turned the volume down", None)
    // What the Fn key for the touchpad sends on laptops with a precision
    // touchpad. Fn itself never reaches Windows.
    } else if ctrl_win && vk == VK_F24 {
        ("switched the touchpad on or off", again)
    } else if ctrl_win && vk == 0x43 {
        ("switched the colour filter, if its shortcut is enabled", again)
    } else if ctrl_win && vk == VK_RETURN {
        ("started or stopped Narrator", again)
    } else if win && vk == 0x44 {
        ("showed or hid the desktop", again)
    } else if win && vk == 0x4D && !mods.shift {
        ("minimized all windows", Some(Undo::PressInstead(Mods::shift_win(), 0x4D)))
    } else if win && vk == 0x4C {
        ("locked the PC", None)
    } else if win && vk == 0x45 {
        ("opened Explorer", None)
    } else if win && vk == 0x52 {
        ("opened the Run box", None)
    } else if win && vk == 0x50 {
        ("opened the projection menu; check the display mode", None)
    } else if none && vk == VK_LWIN {
        ("opened the Start menu", None)
    } else if alt && vk == VK_F4 {
        ("closed a window", None)
    } else if alt && vk == VK_TAB {
        ("switched to another window", None)
    } else if ctrl && vk == 0x57 {
        ("closed a tab or document; browsers reopen it with Ctrl+Shift+T", None)
    } else if ctrl && vk == 0x53 {
        ("saved the document as it was", None)
    } else if ctrl && vk == 0x5A {
        ("undid your last step; most programs redo it with Ctrl+Y", None)
    } else if ctrl && vk == 0x56 {
        ("pasted the clipboard; Ctrl+Z usually takes it back", None)
    } else if ctrl && vk == 0x58 {
        ("cut the selection; Ctrl+Z usually takes it back", None)
    } else if ctrl && vk == 0x41 {
        ("selected everything; the next key typed replaced it", None)
    } else if none && vk == VK_DELETE {
        ("deleted what was selected; Ctrl+Z usually takes it back", None)
    } else if none && vk == VK_BACK {
        ("deleted a character or went back a page", None)
    } else if none && vk == VK_RETURN {
        ("confirmed a dialog or sent a message", None)
    } else if none && vk == VK_ESCAPE {
        ("cancelled a dialog", None)
    } else if none && vk == VK_F5 {
        ("reloaded the page", None)
    } else if none && vk == VK_F11 {
        ("switched full screen in most programs; F11 switches back", None)
    } else {
        return None;
    };
    Some(Shortcut { note, undo })
}

/// A leak in the making: combination, the key that first sent it, and how
/// many key-downs it has so far.
pub type Tally = (Mods, u8, KeyCode, int);

/// The index of the first tally for this combination, or -1.
pub open spec fn combo_index(acc: Seq<Tally>, mods: Mods, vk: u8) -> int
    decreases acc.len(),
{
    if acc.len() == 0 {
        -1
    } else if combo_index(acc.drop_last(), mods, vk) >= 0 {
        combo_index(acc.drop_last(), mods, vk)
    } else if acc.last().0 == mods && acc.last().1 == vk {
        acc.len() - 1
    } else {
        -1
    }
}

/// The index of the first equal step, or -1.
pub open spec fn step_index(steps: Seq<UndoStep>, step: UndoStep) -> int
    decreases steps.len(),
{
    if steps.len() == 0 {
        -1
    } else if step_index(steps.drop_last(), step) >= 0 {
        step_index(steps.drop_last(), step)
    } else if steps.last() == step {
        steps.len() - 1
    } else {
        -1
    }
}

/// The step that takes back a press whose combination keys can undo.
pub open spec fn step_of(undo: Undo, p: Press) -> UndoStep {
    match undo {
        Undo::PressAgain => UndoStep::Press(p.mods, p.vk),
        Undo::PressInstead(mods, vk) => UndoStep::Press(mods, vk),
    }
}

/// `a` has become `b` by counting more key-downs and adding combinations.
pub open spec fn tally_grown(a: Seq<Tally>, b: Seq<Tally>) -> bool {
    &&& a.len() <= b.len()
    &&& forall|k: int|
        0 <= k < a.len() ==> {
            &&& (#[trigger] a[k]).0 == b[k].0
            &&& a[k].1 == b[k].1
            &&& a[k].2 == b[k].2
            &&& a[k].3 <= b[k].3
        }
}

/// A leak as it is handed out, against its tally.
pub open spec fn leak_is(l: Leak, t: Tally) -> bool {
    &&& l.mods == t.0
    &&& l.vk == t.1
    &&& l.key == t.2
    &&& l.count == t.3
    &&& l.note == note_of(t.0, t.1)
}

pub proof fn lemma_combo_index(acc: Seq<Tally>, mods: Mods, vk: u8)
    ensures
        -1 <= combo_index(acc, mods, vk) < acc.len(),
        combo_index(acc, mods, vk) >= 0 ==> acc[combo_index(acc, mods, vk)].0 == mods && acc[combo_index(acc, mods, vk)].1 == vk,
        forall|k: int|
            0 <= k < acc.len() && (combo_index(acc, mods, vk) == -1 || k < combo_index(acc, mods, vk)) ==> !((#[trigger] acc[k]).0 == mods && acc[k].1 == vk),
    decreases acc.len(),
{
    if acc.len() > 0 {
        lemma_combo_index(acc.drop_last(), mods, vk);
        assert forall|k: int|
            0 <= k < acc.len() && (combo_index(acc, mods, vk) == -1 || k < combo_index(acc, mods, vk)) implies !((#[trigger] acc[k]).0 == mods && acc[k].1 == vk) by {
            if k < acc.len() - 1 {
                assert(acc.drop_last()[k] == acc[k]);
            }
        }
    }
}

pub proof fn lemma_step_index(steps: Seq<UndoStep>, step: UndoStep)
    ensures
        -1 <= step_index(steps, step) < steps.len(),
        step_index(steps, step) >= 0 ==> steps[step_index(steps, step)] == step,
        forall|k: int|
            0 <= k < steps.len() && (step_index(steps, step) == -1 || k < step_index(steps, step)) ==> #[trigger] steps[k] != step,
    decreases steps.len(),
{
    if steps.len() > 0 {
        lemma_step_index(steps.drop_last(), step);
        assert forall|k: int|
            0 <= k < steps.len() && (step_index(steps, step) == -1 || k < step_index(steps, step)) implies #[trigger] steps[k] != step by {
            if k < steps.len() - 1 {
                assert(steps.drop_last()[k] == steps[k]);
            }
        }
    }
}

impl Incident {
    /// While the paw was down: between the first key of the pattern and the
    /// lock, and reaching the applications.
    pub open spec fn in_paw(self, p: Press) -> bool {
        &&& p.passed
        &&& p.down <= self.locked_at
        &&& match p.up {
            Some(up) => up,
            None => self.locked_at,
        } >= self.paw_since
    }

    /// Reached the applications before the lock.
    pub open spec fn before(self, p: Press) -> bool {
        p.passed && p.down <= self.locked_at
    }

    /// A press that is shown as a leak: no modifier itself, and either typed
    /// under the paw or a shortcut that keys can take back, before the lock.
    pub open spec fn relevant(self, p: Press) -> bool {
        &&& modifier_of_key(p.key) is None
        &&& (self.in_paw(p) || (self.before(p) && undo_of(p.mods, p.vk) is Some))
    }

    /// The leaks of `ps`, grouped by combination in order of first
    /// appearance, with their key-downs counted.
    pub open spec fn tally_of(self, ps: Seq<Press>) -> Seq<Tally>
        decreases ps.len(),
    {
        if ps.len() == 0 {
            Seq::empty()
        } else {
            let acc = self.tally_of(ps.drop_last());
            let p = ps.last();
            if !self.relevant(p) {
                acc
            } else {
                let k = combo_index(acc, p.mods, p.vk);
                if k >= 0 {
                    acc.update(k, (acc[k].0, acc[k].1, acc[k].2, acc[k].3 + 1 + p.repeats))
                } else {
                    acc.push((p.mods, p.vk, p.key, 1 + p.repeats))
                }
            }
        }
    }

    /// Every count of the leaks fits the `u32` that hands it out.
    pub open spec fn counts_fit(self) -> bool {
        forall|k: int|
            0 <= k < self.tally_of(self.presses@).len() ==> #[trigger] self.tally_of(
                self.presses@,
            )[k].3 <= u32::MAX
    }

    /// Going through `ps` in order: the steps that press a switch again or
    /// its counterpart, the characters typed under the paw, and whether
    /// characters are all that arrived under the paw.
    pub open spec fn plan_of(self, ps: Seq<Press>) -> (Seq<UndoStep>, int, bool)
        decreases ps.len(),
    {
        if ps.len() == 0 {
            (Seq::empty(), 0, true)
        } else {
            let (steps, typed, only_text) = self.plan_of(ps.drop_last());
            let p = ps.last();
            if modifier_of_key(p.key) is Some {
                (steps, typed, only_text)
            } else if undo_of(p.mods, p.vk) is Some && self.before(p) {
                let undo = undo_of(p.mods, p.vk)->0;
                let step = step_of(undo, p);
                let at = step_index(steps, step);
                if at >= 0 {
                    if undo == Undo::PressAgain {
                        (steps.remove(at), typed, only_text)
                    } else {
                        (steps, typed, only_text)
                    }
                } else {
                    (steps.push(step), typed, only_text)
                }
            } else if self.in_paw(p) {
                if p.mods.text() && printable_key(p.key) {
                    (steps, typed + 1 + p.repeats, only_text)
                } else {
                    (steps, typed, false)
                }
            } else {
                (steps, typed, only_text)
            }
        }
    }

    /// The plan: the switch steps, then Backspace for the typed characters
    /// when characters are all that arrived.
    pub open spec fn plan(self) -> Seq<UndoStep> {
        let (steps, typed, only_text) = self.plan_of(self.presses@);
        if typed > 0 && only_text {
            steps.push(UndoStep::Backspace(typed as u32))
        } else {
            steps
        }
    }

    proof fn lemma_tally_step(self, ps: Seq<Press>)
        requires
            ps.len() > 0,
        ensures
            tally_grown(self.tally_of(ps.drop_last()), self.tally_of(ps)),
    {
        let acc = self.tally_of(ps.drop_last());
        let p = ps.last();
        if self.relevant(p) {
            lemma_combo_index(acc, p.mods, p.vk);
        }
    }

    proof fn lemma_tally_grows(self, ps: Seq<Press>, i: int)
        requires
            0 <= i <= ps.len(),
        ensures
            tally_grown(self.tally_of(ps.take(i)), self.tally_of(ps)),
        decreases ps.len(),
    {
        if i == ps.len() {
            assert(ps.take(i) =~= ps);
        } else {
            assert(ps.drop_last().take(i) =~= ps.take(i));
            self.lemma_tally_grows(ps.drop_last(), i);
            self.lemma_tally_step(ps);
        }
    }

    proof fn lemma_typed_grows(self, ps: Seq<Press>, i: int)
        requires
            0 <= i <= ps.len(),
        ensures
            0 <= self.plan_of(ps.take(i)).1 <= self.plan_of(ps).1,
        decreases ps.len(),
    {
        if i == ps.len() {
            assert(ps.take(i) =~= ps);
            self.lemma_typed_nonneg(ps);
        } else {
            assert(ps.drop_last().take(i) =~= ps.take(i));
            self.lemma_typed_grows(ps.drop_last(), i);
        }
    }

    proof fn lemma_typed_nonneg(self, ps: Seq<Press>)
        ensures
            self.plan_of(ps).1 >= 0,
        decreases ps.len(),
    {
        if ps.len() > 0 {
            self.lemma_typed_nonneg(ps.drop_last());
        }
    }

    /// While the paw was down: between the first key of the pattern and the
    /// lock. Characters are only blamed on the cat inside this window.
    pub fn during_paw(&self, p: &Press) -> (r: bool)
        ensures
            r == self.in_paw(*p),
    {
        let up = match p.up {
            Some(u) => u,
            None => self.locked_at,
        };
        p.passed && p.down <= self.locked_at && up >= self.paw_since
    }

    /// The whole timeline before the lock. A cat that walks onto the keyboard
    /// hits single keys before the step that gets it caught, so switches are
    /// looked for here.
    fn before_lock(&self, p: &Press) -> (r: bool)
        ensures
            r == self.before(*p),
    {
        p.passed && p.down <= self.locked_at
    }

    /// Everything that got through, grouped by combination, in order of
    /// first appearance.
    pub fn leaks(&self) -> (r: Vec<Leak>)
        requires
            self.counts_fit(),
        ensures
            r@.len() == self.tally_of(self.presses@).len(),
            forall|k: int| 0 <= k < r@.len() ==> leak_is(#[trigger] r@[k], self.tally_of(self.presses@)[k]),
    {
        let ghost ps = self.presses@;
        let mut leaks: Vec<Leak> = Vec::new();
        let n = self.presses.len();
        let mut i: usize = 0;
        while i < n
            invariant
                n == ps.len(),
                ps == self.presses@,
                self.counts_fit(),
                i <= n,
                leaks@.len() == self.tally_of(ps.take(i as int)).len(),
                forall|k: int| 0 <= k < leaks@.len() ==> leak_is(#[trigger] leaks@[k], self.tally_of(ps.take(i as int))[k]),
            decreases n - i,
        {
            let p = self.presses[i];
            let ghost acc = self.tally_of(ps.take(i as int));
            proof {
                assert(ps.take(i + 1).drop_last() =~= ps.take(i as int));
                assert(ps.take(i + 1).last() == p);
                self.lemma_tally_grows(ps, i + 1);
                lemma_combo_index(acc, p.mods, p.vk);
            }
            if modifier_of(p.key).is_none() {
                let known = shortcut(p.mods, p.vk);
                let reversible = match known {
                    Some(s) => s.undo.is_some(),
                    None => false,
                };
                let relevant = self.during_paw(&p) || (self.before_lock(&p) && reversible);
                if relevant {
                    let mut j: usize = 0;
                    let mut found: Option<usize> = None;
                    while j < leaks.len()
                        invariant_except_break
                            found is None,
                        invariant
                            j <= leaks@.len(),
                            forall|k: int| 0 <= k < j ==> !((#[trigger] leaks@[k]).mods == p.mods && leaks@[k].vk == p.vk),
                        ensures
                            found matches Some(k) ==> k == j && j < leaks@.len() && leaks@[k as int].mods == p.mods && leaks@[k as int].vk == p.vk,
                            found is None ==> j == leaks@.len(),
                        decreases leaks@.len() - j,
                    {
                        if same_mods(leaks[j].mods, p.mods) && leaks[j].vk == p.vk {
                            found = Some(j);
                            break;
                        }
                        j = j + 1;
                    }
                    let ghost next = self.tally_of(ps.take(i + 1));
                    match found {
                        Some(k) => {
                            proof {
                                assert(leak_is(leaks@[k as int], acc[k as int]));
                                let ci = combo_index(acc, p.mods, p.vk);
                                if 0 <= ci < k {
                                    assert(leak_is(leaks@[ci], acc[ci]));
                                    assert(!((leaks@[ci]).mods == p.mods && leaks@[ci].vk == p.vk));
                                }
                            }
                            assert(combo_index(acc, p.mods, p.vk) == k as int);
                            assert(next[k as int].3 <= u32::MAX);
                            let l = leaks[k];
                            leaks.set(k, Leak { count: l.count + 1 + p.repeats, ..l });
                        },
                        None => {
                            proof {
                                let ci = combo_index(acc, p.mods, p.vk);
                                if ci >= 0 {
                                    assert(leak_is(leaks@[ci], acc[ci]));
                                    assert(!((leaks@[ci]).mods == p.mods && leaks@[ci].vk == p.vk));
                                }
                            }
                            assert(combo_index(acc, p.mods, p.vk) == -1);
                            assert(next[acc.len() as int].3 <= u32::MAX);
                            let note = match known {
                                Some(s) => Some(s.note),
                                None => None,
                            };
                            leaks.push(Leak { mods: p.mods, vk: p.vk, key: p.key, count: 1 + p.repeats, note });
                        },
                    }
                }
            }
            i = i + 1;
        }
        assert(ps.take(n as int) =~= ps);
        leaks
    }

    /// The steps that take back what can be taken back. Empty when nothing can.
    pub fn undo_plan(&self) -> (r: Vec<UndoStep>)
        requires
            self.plan_of(self.presses@).1 <= u32::MAX,
        ensures
            r@ == self.plan(),
    {
        let ghost ps = self.presses@;
        let mut steps: Vec<UndoStep> = Vec::new();
        let mut typed: u32 = 0;
        let mut only_text = true;
        let n = self.presses.len();
        let mut i: usize = 0;
        while i < n
            invariant
                n == ps.len(),
                ps == self.presses@,
                self.plan_of(ps).1 <= u32::MAX,
                i <= n,
                self.plan_of(ps.take(i as int)) == (steps@, typed as int, only_text),
            decreases n - i,
        {
            let p = self.presses[i];
            proof {
                assert(ps.take(i + 1).drop_last() =~= ps.take(i as int));
                assert(ps.take(i + 1).last() == p);
                self.lemma_typed_grows(ps, i + 1);
            }
            if modifier_of(p.key).is_none() {
                let undo = match shortcut(p.mods, p.vk) {
                    Some(s) => s.undo,
                    None => None,
                };
                if undo.is_some() && self.before_lock(&p) {
                    let u = undo.unwrap();
                    // Auto-repeat does not flip a switch again, a second press does.
                    let step = match u {
                        Undo::PressAgain => UndoStep::Press(p.mods, p.vk),
                        Undo::PressInstead(mods, vk) => UndoStep::Press(mods, vk),
                    };
                    proof {
                        lemma_step_index(steps@, step);
                    }
                    let mut j: usize = 0;
                    let mut at: Option<usize> = None;
                    while j < steps.len()
                        invariant_except_break
                            at is None,
                        invariant
                            j <= steps@.len(),
                            forall|k: int| 0 <= k < j ==> #[trigger] steps@[k] != step,
                        ensures
                            at matches Some(k) ==> k == j && j < steps@.len() && steps@[k as int] == step,
                            at is None ==> j == steps@.len(),
                        decreases steps@.len() - j,
                    {
                        if steps[j] == step {
                            at = Some(j);
                            break;
                        }
                        j = j + 1;
                    }
                    match at {
                        Some(k) => {
                            assert(step_index(steps@, step) == k as int);
                            match u {
                                Undo::PressAgain => {
                                    let _ = steps.remove(k);
                                },
                                Undo::PressInstead(..) => {},
                            }
                        },
                        None => {
                            assert(step_index(steps@, step) == -1);
                            steps.push(step);
                        },
                    }
                } else if self.during_paw(&p) {
                    if p.mods.types_text() && is_printable(p.key) {
                        typed = typed + 1 + p.repeats;
                    } else {
                        only_text = false;
                    }
                }
            }
            i = i + 1;
        }
        assert(ps.take(n as int) =~= ps);
        // Backspace is only right when characters are all that arrived. After
        // an Enter or a Ctrl+W the caret is somewhere else.
        if typed > 0 && only_text {
            steps.push(UndoStep::Backspace(typed));
        }
        steps
    }
}

} // verus!
