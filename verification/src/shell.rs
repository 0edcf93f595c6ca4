//! The decisions of the Windows shell, apart from the calls into Windows:
//! what the keyboard hook does with an event and with its poll timer, what
//! it tells the window thread, what the lock window and the tray say, which
//! windows and devices a snapshot lists, and what Undo does about each
//! change.
use vstd::prelude::*;

use vstd::string::{StrSliceExecFns, StringExecFns};

use crate::detector::{Micros, Rule};
use crate::guard::{Action, Guard, GuardView, UNLOCK_WORD};
use crate::layout::{KeyCode, EXTENDED};
use crate::snapshot::{Change, Device};

verus! {

/// What the hook does after a key event.
#[derive(Clone, Copy, Debug, PartialEq, Eq, Structural)]
pub struct KeyOutcome {
    /// The event must not reach the applications.
    pub swallow: bool,
    /// What to tell the window thread.
    pub post: Option<Action>,
    /// The poll timer has to start.
    pub start_timer: bool,
}

/// The key as the guard knows it: the scancode, marked when Windows flags
/// it as extended.
pub open spec fn key_code_of(scan_code: u32, extended: bool) -> KeyCode {
    (scan_code as u16) | if extended {
        EXTENDED
    } else {
        0u16
    }
}

pub fn key_code(scan_code: u32, extended: bool) -> (r: KeyCode)
    ensures
        r == key_code_of(scan_code, extended),
{
    let extra: KeyCode = if extended {
        EXTENDED
    } else {
        0
    };
    (scan_code as u16) | extra
}

/// The guard after the unlock button, if it was clicked.
pub open spec fn after_click(g: GuardView, unlock_clicked: bool) -> GuardView {
    if unlock_clicked {
        g.unlock_next()
    } else {
        g
    }
}

/// One key event as the hook sees it. Injected input comes from software
/// (macros, on-screen keyboards, remote control), never from a paw, so it
/// passes untouched. While paused the guard forgets everything and every
/// key passes. Otherwise a click on the unlock button counts first, then the
/// guard decides, and the poll timer starts when keys are down and it is
/// not running yet.
pub fn on_key(
    guard: &mut Guard,
    injected: bool,
    paused: bool,
    unlock_clicked: bool,
    timer_running: bool,
    key: KeyCode,
    vk: u8,
    down: bool,
    now: Micros,
) -> (r: KeyOutcome)
    requires
        old(guard)@.wf(),
        !injected && !paused && down ==> after_click(old(guard)@, unlock_clicked).accepts_down(
            key,
            now,
        ),
    ensures
        final(guard)@.wf(),
        injected ==> final(guard)@ == old(guard)@ && r == (KeyOutcome {
            swallow: false,
            post: None,
            start_timer: false,
        }),
        !injected && paused ==> final(guard)@ == old(guard)@.reset_next() && r == (KeyOutcome {
            swallow: false,
            post: None,
            start_timer: false,
        }),
        !injected && !paused ==> {
            let g1 = after_click(old(guard)@, unlock_clicked);
            let (g2, v) = if down {
                g1.key_down_next(key, vk, now)
            } else {
                g1.key_up_next(key, now)
            };
            &&& final(guard)@ == g2
            &&& r.swallow == v.swallow
            &&& r.post == v.action
            &&& r.start_timer == (!timer_running && g2.detector.down.len() > 0)
        },
{
    if injected {
        return KeyOutcome { swallow: false, post: None, start_timer: false };
    }
    if paused {
        guard.reset();
        return KeyOutcome { swallow: false, post: None, start_timer: false };
    }
    if unlock_clicked {
        guard.unlock();
    }
    let verdict = if down {
        guard.key_down(key, vk, now)
    } else {
        guard.key_up(key, now)
    };
    let start_timer = !timer_running && !guard.is_idle();
    KeyOutcome { swallow: verdict.swallow, post: verdict.action, start_timer }
}

/// The poll timer fired: a click on the unlock button counts first, then
/// the rules that need time run. Gives what to tell the window thread and
/// whether the timer can stop because no key is down.
pub fn on_timer(guard: &mut Guard, unlock_clicked: bool, now: Micros) -> (r: (Option<Action>, bool))
    requires
        old(guard)@.wf(),
        old(guard)@.detector.time_ok(now),
    ensures
        final(guard)@.wf(),
        ({
            let (g2, a) = after_click(old(guard)@, unlock_clicked).poll_next(now);
            &&& final(guard)@ == g2
            &&& r.0 == a
            &&& r.1 == (g2.detector.down.len() == 0)
        }),
{
    if unlock_clicked {
        guard.unlock();
    }
    let action = guard.poll(now);
    (action, guard.is_idle())
}

/// The message codes the hook thread sends the window thread.
pub const GUARD_LOCK: usize = 0;
pub const GUARD_DETER: usize = 1;
pub const GUARD_PROGRESS: usize = 2;
pub const GUARD_UNLOCK: usize = 3;

/// The number that stands for a rule in a message.
pub open spec fn rule_number(rule: Rule) -> isize {
    match rule {
        Rule::Slam => 0,
        Rule::Chord => 1,
        Rule::Pair => 2,
        Rule::Sit => 3,
    }
}

pub fn rule_code(rule: Rule) -> (r: isize)
    ensures
        r == rule_number(rule),
{
    match rule {
        Rule::Slam => 0,
        Rule::Chord => 1,
        Rule::Pair => 2,
        Rule::Sit => 3,
    }
}

/// An action as a message: its code and its detail.
pub fn message_of(action: Action) -> (r: (usize, isize))
    ensures
        r == match action {
            Action::Lock(rule) => (GUARD_LOCK, rule_number(rule)),
            Action::Deter => (GUARD_DETER, 0isize),
            Action::Progress(n) => (GUARD_PROGRESS, n as isize),
            Action::Unlock => (GUARD_UNLOCK, 0isize),
        },
{
    match action {
        Action::Lock(rule) => (GUARD_LOCK, rule_code(rule)),
        Action::Deter => (GUARD_DETER, 0),
        Action::Progress(n) => (GUARD_PROGRESS, n as isize),
        Action::Unlock => (GUARD_UNLOCK, 0),
    }
}

/// Why the keyboard got locked, by the number of the rule; empty for a
/// number that stands for no rule.
pub open spec fn reason_of(code: isize) -> &'static str {
    if code == 0 {
        "three keys at once"
    } else if code == 1 {
        "four keys in one spot"
    } else if code == 2 {
        "two neighbouring keys held"
    } else if code == 3 {
        "keys held for seconds"
    } else {
        ""
    }
}

pub fn lock_reason(code: isize) -> (r: &'static str)
    ensures
        r == reason_of(code),
{
    if code == 0 {
        "three keys at once"
    } else if code == 1 {
        "four keys in one spot"
    } else if code == 2 {
        "two neighbouring keys held"
    } else if code == 3 {
        "keys held for seconds"
    } else {
        ""
    }
}

/// What the lock window says.
pub fn lock_text(code: isize) -> (r: String)
    ensures
        r@ == "The keyboard is locked ("@ + reason_of(code)@
            + ").\nType  human  to unlock it, or click the button."@,
{
    let mut s = String::from_str("The keyboard is locked (");
    s.append(lock_reason(code));
    s.append(").\nType  human  to unlock it, or click the button.");
    s
}

/// The unlock word as the lock window shows it after `typed` letters: the
/// letters typed so far, a blank for each one still to come, with a space
/// between them.
pub open spec fn progress_shown(word: Seq<char>, typed: int) -> Seq<char>
    decreases word.len(),
{
    if word.len() == 0 {
        Seq::empty()
    } else {
        let i = word.len() - 1;
        let shown = if i < typed {
            crate::text::ascii_lower(word[i])
        } else {
            '_'
        };
        let rest = progress_shown(word.drop_last(), typed);
        if i == 0 {
            rest.push(shown)
        } else {
            rest.push(' ').push(shown)
        }
    }
}

pub fn progress_text(typed: usize) -> (r: String)
    ensures
        r@ == progress_shown(UNLOCK_WORD@, typed as int),
{
    let lower = UNLOCK_WORD.to_ascii_lowercase();
    let word = lower.as_str();
    let n = word.unicode_len();
    let mut s = String::new();
    let mut i: usize = 0;
    while i < n
        invariant
            n == word@.len(),
            word@ == crate::text::lower_of(UNLOCK_WORD@),
            i <= n,
            s@ == progress_shown(UNLOCK_WORD@.take(i as int), typed as int),
        decreases n - i,
    {
        let c = word.get_char(i);
        let shown = if i < typed {
            c
        } else {
            '_'
        };
        proof {
            assert(UNLOCK_WORD@.take(i + 1).drop_last() =~= UNLOCK_WORD@.take(i as int));
            assert(UNLOCK_WORD@.take(i + 1)[i as int] == UNLOCK_WORD@[i as int]);
        }
        if i > 0 {
            s.push(' ');
        }
        s.push(shown);
        i = i + 1;
    }
    assert(UNLOCK_WORD@.take(n as int) =~= UNLOCK_WORD@);
    s
}

/// The tray icon's tooltip.
pub fn tray_tip(paused: bool) -> (r: &'static str)
    ensures
        r == if paused {
            "catguard (paused)"
        } else {
            "catguard is watching the keyboard"
        },
{
    if paused {
        "catguard (paused)"
    } else {
        "catguard is watching the keyboard"
    }
}

/// A window the snapshot lists: visible, no tool window, and with a title
/// that is neither empty nor the desktop's nor catguard's own.
pub open spec fn listed_window(visible: bool, tool_window: bool, title: Seq<char>) -> bool {
    &&& visible
    &&& !tool_window
    &&& title.len() > 0
    &&& title != "Program Manager"@
    &&& title != "catguard"@
}

pub fn lists_window(visible: bool, tool_window: bool, title: &str) -> (r: bool)
    ensures
        r == listed_window(visible, tool_window, title@),
{
    if !visible || tool_window || title.unicode_len() == 0 {
        return false;
    }
    let t = String::from_str(title);
    !(t == String::from_str("Program Manager")) && !(t == String::from_str("catguard"))
}

/// Software devices come and go with every app and are nothing a cat breaks.
pub open spec fn software_device(id: Seq<char>) -> bool {
    id.len() >= 4 && id.take(4) == "SWD\\"@
}

/// A device as the snapshot lists it: none for software devices; named by
/// its friendly name or description, else by its id; with its problem code
/// only when Windows says it has a problem.
pub fn device_entry(id: String, name: String, has_problem: bool, problem: u32) -> (r: Option<Device>)
    ensures
        software_device(id@) ==> r is None,
        !software_device(id@) ==> (r matches Some(d) && d.id@ == id@ && d.name@ == (if name@.len()
            == 0 {
            id@
        } else {
            name@
        }) && d.problem == (if has_problem {
            problem
        } else {
            0
        })),
{
    proof {
        reveal_strlit("SWD\\");
    }
    let s = id.as_str();
    let n = s.unicode_len();
    if n >= 4 {
        let prefix = s.substring_char(0, 4);
        if String::from_str(prefix) == String::from_str("SWD\\") {
            return None;
        }
    }
    let shown = if name.as_str().unicode_len() == 0 {
        id.clone()
    } else {
        name
    };
    Some(Device { name: shown, id, problem: if has_problem { problem } else { 0 } })
}

/// What Undo does about one change: tap a key that switches back, set an
/// accessibility feature, ask the window for the old input language, turn
/// the screen back, or press the touchpad key.
#[derive(Clone, Copy, Debug, PartialEq, Eq, Structural)]
pub enum RestoreStep {
    /// Press and release this virtual key.
    Tap(u16),
    StickyKeys(bool),
    FilterKeys(bool),
    ToggleKeys(bool),
    /// Ask the window the cat typed into for this keyboard layout.
    Language(usize),
    /// Turn the screen from `to` back to `from`.
    Rotate { from: u32, to: u32 },
    /// Ctrl+Win+F24, the key of a precision touchpad.
    TouchpadKey,
}

/// Whether turning the screen from `to` back to `from` swaps its width and
/// height: orientations count quarter turns, so an odd difference does.
pub fn swaps_sides(from: u32, to: u32) -> (r: bool)
    ensures
        r == (from % 2 != to % 2),
{
    from % 2 != to % 2
}

pub const VK_CAPITAL: u16 = 0x14;
pub const VK_NUMLOCK: u16 = 0x90;
pub const VK_SCROLL: u16 = 0x91;

/// What Undo does about a change, given the input language from before.
pub open spec fn restore_of(language: usize, c: Change) -> Option<RestoreStep> {
    match c {
        Change::CapsLock { .. } => Some(RestoreStep::Tap(VK_CAPITAL)),
        Change::NumLock { .. } => Some(RestoreStep::Tap(VK_NUMLOCK)),
        Change::ScrollLock { .. } => Some(RestoreStep::Tap(VK_SCROLL)),
        Change::StickyKeys { on } => Some(RestoreStep::StickyKeys(!on)),
        Change::FilterKeys { on } => Some(RestoreStep::FilterKeys(!on)),
        Change::ToggleKeys { on } => Some(RestoreStep::ToggleKeys(!on)),
        Change::Language { .. } => Some(RestoreStep::Language(language)),
        Change::Rotation { from, to } => Some(RestoreStep::Rotate { from, to }),
        Change::Touchpad { on } => if !on {
            Some(RestoreStep::TouchpadKey)
        } else {
            None
        },
        _ => None,
    }
}

/// The steps for the changes, in their order, skipping what only the human
/// can put back.
pub open spec fn restore_plan_of(language: usize, cs: Seq<Change>) -> Seq<RestoreStep>
    decreases cs.len(),
{
    if cs.len() == 0 {
        Seq::empty()
    } else {
        let rest = restore_plan_of(language, cs.drop_last());
        match restore_of(language, cs.last()) {
            Some(step) => rest.push(step),
            None => rest,
        }
    }
}

fn restore_step(language: usize, c: &Change) -> (r: Option<RestoreStep>)
    ensures
        r == restore_of(language, *c),
{
    match c {
        Change::CapsLock { .. } => Some(RestoreStep::Tap(VK_CAPITAL)),
        Change::NumLock { .. } => Some(RestoreStep::Tap(VK_NUMLOCK)),
        Change::ScrollLock { .. } => Some(RestoreStep::Tap(VK_SCROLL)),
        Change::StickyKeys { on } => Some(RestoreStep::StickyKeys(!*on)),
        Change::FilterKeys { on } => Some(RestoreStep::FilterKeys(!*on)),
        Change::ToggleKeys { on } => Some(RestoreStep::ToggleKeys(!*on)),
        Change::Language { .. } => Some(RestoreStep::Language(language)),
        Change::Rotation { from, to } => Some(RestoreStep::Rotate { from: *from, to: *to }),
        Change::Touchpad { on } => if !*on {
            Some(RestoreStep::TouchpadKey)
        } else {
            None
        },
        _ => None,
    }
}

/// What Undo does about the changes. `language` is the keyboard layout
/// from before the cat.
pub fn restore_plan(language: usize, changes: &[Change]) -> (r: Vec<RestoreStep>)
    ensures
        r@ == restore_plan_of(language, changes@),
{
    let mut steps: Vec<RestoreStep> = Vec::new();
    let mut i: usize = 0;
    while i < changes.len()
        invariant
            i <= changes@.len(),
            steps@ == restore_plan_of(language, changes@.take(i as int)),
        decreases changes@.len() - i,
    {
        assert(changes@.take(i + 1).drop_last() =~= changes@.take(i as int));
        if let Some(step) = restore_step(language, &changes[i]) {
            steps.push(step);
        }
        i = i + 1;
    }
    assert(changes@.take(changes@.len() as int) =~= changes@);
    steps
}

} // verus!
