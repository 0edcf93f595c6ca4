//! What is different on the PC after the cat than it was before.
//!
//! Keys tell only half the story. A touchpad can be dead because of Fn+F10,
//! which Windows never sees, or because a driver went missing, which no key
//! explains. So catguard also compares the state of the system from shortly
//! before the lock with the state now. This module is the comparison; the
//! Windows shell fills in the snapshots.
use vstd::prelude::*;

use vstd::string::StringExecFns;

verus! {

#[derive(Clone, Debug, Default, PartialEq, Eq)]
pub struct Device {
    /// The device instance id, which stays the same across snapshots.
    pub id: String,
    pub name: String,
    /// The Device Manager problem code. 0 means the device works.
    pub problem: u32,
}

#[derive(Debug, PartialEq, Eq)]
pub struct Snapshot {
    pub caps_lock: bool,
    pub num_lock: bool,
    pub scroll_lock: bool,
    pub sticky_keys: bool,
    pub filter_keys: bool,
    pub toggle_keys: bool,
    /// The keyboard layout handle and its display name.
    pub language: (usize, String),
    /// 0, 1, 2, 3 for 0, 90, 180, 270 degrees.
    pub rotation: u32,
    /// `None` where the machine has no such thing or Windows does not say.
    pub touchpad: Option<bool>,
    pub flight_mode: Option<bool>,
    /// Open windows as (handle, title).
    pub windows: Vec<(usize, String)>,
    pub devices: Vec<Device>,
}

impl Clone for Snapshot {
    fn clone(&self) -> (r: Self)
        ensures
            r.caps_lock == self.caps_lock && r.num_lock == self.num_lock && r.scroll_lock
                == self.scroll_lock,
            r.sticky_keys == self.sticky_keys && r.filter_keys == self.filter_keys
                && r.toggle_keys == self.toggle_keys,
            r.language == self.language,
            r.rotation == self.rotation,
            r.touchpad == self.touchpad && r.flight_mode == self.flight_mode,
            r.windows@ == self.windows@,
            r.devices@ == self.devices@,
    {
        let mut windows: Vec<(usize, String)> = Vec::with_capacity(self.windows.len());
        let mut i: usize = 0;
        while i < self.windows.len()
            invariant
                i <= self.windows@.len(),
                windows@ == self.windows@.take(i as int),
            decreases self.windows@.len() - i,
        {
            windows.push((self.windows[i].0, self.windows[i].1.clone()));
            assert(windows@ =~= self.windows@.take(i + 1));
            i = i + 1;
        }
        assert(self.windows@.take(self.windows@.len() as int) =~= self.windows@);
        let mut devices: Vec<Device> = Vec::with_capacity(self.devices.len());
        let mut j: usize = 0;
        while j < self.devices.len()
            invariant
                j <= self.devices@.len(),
                devices@ == self.devices@.take(j as int),
            decreases self.devices@.len() - j,
        {
            let d = &self.devices[j];
            devices.push(Device { id: d.id.clone(), name: d.name.clone(), problem: d.problem });
            assert(devices@ =~= self.devices@.take(j + 1));
            j = j + 1;
        }
        assert(self.devices@.take(self.devices@.len() as int) =~= self.devices@);
        let r = Snapshot {
            caps_lock: self.caps_lock,
            num_lock: self.num_lock,
            scroll_lock: self.scroll_lock,
            sticky_keys: self.sticky_keys,
            filter_keys: self.filter_keys,
            toggle_keys: self.toggle_keys,
            language: (self.language.0, self.language.1.clone()),
            rotation: self.rotation,
            touchpad: self.touchpad,
            flight_mode: self.flight_mode,
            windows,
            devices,
        };
        r
    }
}

impl Default for Snapshot {
    fn default() -> (s: Self)
        ensures
            !s.caps_lock && !s.num_lock && !s.scroll_lock,
            !s.sticky_keys && !s.filter_keys && !s.toggle_keys,
            s.language.0 == 0 && s.language.1@ == Seq::<char>::empty(),
            s.rotation == 0,
            s.touchpad is None && s.flight_mode is None,
            s.windows@ == Seq::<(usize, String)>::empty(),
            s.devices@ == Seq::<Device>::empty(),
    {
        Snapshot {
            caps_lock: false,
            num_lock: false,
            scroll_lock: false,
            sticky_keys: false,
            filter_keys: false,
            toggle_keys: false,
            language: (0, String::new()),
            rotation: 0,
            touchpad: None,
            flight_mode: None,
            windows: Vec::new(),
            devices: Vec::new(),
        }
    }
}

#[derive(Clone, Debug, PartialEq, Eq)]
#[allow(inconsistent_fields)]
pub enum Change {
    CapsLock { on: bool },
    NumLock { on: bool },
    ScrollLock { on: bool },
    StickyKeys { on: bool },
    FilterKeys { on: bool },
    ToggleKeys { on: bool },
    Language { from: String, to: String },
    Rotation { from: u32, to: u32 },
    Touchpad { on: bool },
    FlightMode { on: bool },
    WindowClosed { title: String },
    DeviceGone { name: String },
    DeviceBroken { name: String, problem: u32 },
    DeviceNew { name: String },
}

// ------------------------------------------------------------- the model

/// The index of the first device with this id, or -1.
pub open spec fn device_index(ds: Seq<Device>, id: Seq<char>) -> int
    decreases ds.len(),
{
    if ds.len() == 0 {
        -1
    } else if device_index(ds.drop_last(), id) >= 0 {
        device_index(ds.drop_last(), id)
    } else if ds.last().id@ == id {
        ds.len() - 1
    } else {
        -1
    }
}

/// For each device of before: gone when no device of after has its id,
/// broken when the first one that has it reports a problem it did not.
pub open spec fn device_losses(olds: Seq<Device>, after: Seq<Device>) -> Seq<Change>
    decreases olds.len(),
{
    if olds.len() == 0 {
        Seq::empty()
    } else {
        let acc = device_losses(olds.drop_last(), after);
        let old = olds.last();
        let i = device_index(after, old.id@);
        if i < 0 {
            acc.push(Change::DeviceGone { name: old.name })
        } else if after[i].problem != 0 && old.problem == 0 {
            acc.push(Change::DeviceBroken { name: after[i].name, problem: after[i].problem })
        } else {
            acc
        }
    }
}

/// The devices of after whose id no device of before has.
pub open spec fn device_gains(nows: Seq<Device>, before: Seq<Device>) -> Seq<Change>
    decreases nows.len(),
{
    if nows.len() == 0 {
        Seq::empty()
    } else {
        let acc = device_gains(nows.drop_last(), before);
        if device_index(before, nows.last().id@) < 0 {
            acc.push(Change::DeviceNew { name: nows.last().name })
        } else {
            acc
        }
    }
}

pub open spec fn has_handle(ws: Seq<(usize, String)>, handle: usize) -> bool {
    exists|i: int| 0 <= i < ws.len() && ws[i].0 == handle
}

/// The windows of before whose handle no window of after has.
pub open spec fn windows_closed(olds: Seq<(usize, String)>, after: Seq<(usize, String)>) -> Seq<
    Change,
>
    decreases olds.len(),
{
    if olds.len() == 0 {
        Seq::empty()
    } else {
        let acc = windows_closed(olds.drop_last(), after);
        if !has_handle(after, olds.last().0) {
            acc.push(Change::WindowClosed { title: olds.last().1 })
        } else {
            acc
        }
    }
}

/// A flag that both snapshots know and that differs.
pub open spec fn known_flip(was: Option<bool>, is: Option<bool>) -> bool {
    was is Some && is is Some && was->0 != is->0
}

/// `acc` with `c` added when `cond` holds.
pub open spec fn push_if(acc: Seq<Change>, cond: bool, c: Change) -> Seq<Change> {
    if cond {
        acc.push(c)
    } else {
        acc
    }
}

/// `acc` with the changes of the input and the screen added, in the order
/// they are reported.
pub open spec fn input_changes(acc: Seq<Change>, before: Snapshot, after: Snapshot) -> Seq<Change> {
    let a1 = push_if(
        acc,
        known_flip(before.touchpad, after.touchpad),
        Change::Touchpad { on: after.touchpad->0 },
    );
    let a2 = push_if(
        a1,
        known_flip(before.flight_mode, after.flight_mode),
        Change::FlightMode { on: after.flight_mode->0 },
    );
    let a3 = push_if(
        a2,
        before.language.0 != after.language.0,
        Change::Language { from: before.language.1, to: after.language.1 },
    );
    push_if(
        a3,
        before.rotation != after.rotation,
        Change::Rotation { from: before.rotation, to: after.rotation },
    )
}

/// `acc` with the switches added that differ, in the order they are
/// reported.
pub open spec fn switch_changes(acc: Seq<Change>, before: Snapshot, after: Snapshot) -> Seq<Change> {
    let a1 = push_if(
        acc,
        before.filter_keys != after.filter_keys,
        Change::FilterKeys { on: after.filter_keys },
    );
    let a2 = push_if(
        a1,
        before.sticky_keys != after.sticky_keys,
        Change::StickyKeys { on: after.sticky_keys },
    );
    let a3 = push_if(
        a2,
        before.toggle_keys != after.toggle_keys,
        Change::ToggleKeys { on: after.toggle_keys },
    );
    let a4 = push_if(a3, before.caps_lock != after.caps_lock, Change::CapsLock { on: after.caps_lock });
    let a5 = push_if(a4, before.num_lock != after.num_lock, Change::NumLock { on: after.num_lock });
    push_if(a5, before.scroll_lock != after.scroll_lock, Change::ScrollLock { on: after.scroll_lock })
}

/// Everything that differs, most worrying first: hardware, then input, then
/// switches, then windows.
pub open spec fn changes_between(before: Snapshot, after: Snapshot) -> Seq<Change> {
    let devices = device_losses(before.devices@, after.devices@) + device_gains(
        after.devices@,
        before.devices@,
    );
    switch_changes(input_changes(devices, before, after), before, after) + windows_closed(
        before.windows@,
        after.windows@,
    )
}

pub proof fn lemma_device_index(ds: Seq<Device>, id: Seq<char>)
    ensures
        -1 <= device_index(ds, id) < ds.len(),
        device_index(ds, id) >= 0 ==> ds[device_index(ds, id)].id@ == id,
        forall|k: int|
            0 <= k < ds.len() && (device_index(ds, id) == -1 || k < device_index(ds, id))
                ==> (#[trigger] ds[k]).id@ != id,
    decreases ds.len(),
{
    if ds.len() > 0 {
        lemma_device_index(ds.drop_last(), id);
        assert forall|k: int|
            0 <= k < ds.len() && (device_index(ds, id) == -1 || k < device_index(ds, id))
                implies (#[trigger] ds[k]).id@ != id by {
            if k < ds.len() - 1 {
                assert(ds.drop_last()[k] == ds[k]);
            }
        }
    }
}

// ------------------------------------------------------------- the code

fn find_device(ds: &Vec<Device>, id: &String) -> (r: Option<usize>)
    ensures
        match r {
            Some(i) => i as int == device_index(ds@, id@) && i < ds@.len(),
            None => device_index(ds@, id@) == -1,
        },
{
    proof {
        lemma_device_index(ds@, id@);
    }
    let mut i: usize = 0;
    while i < ds.len()
        invariant
            i <= ds@.len(),
            forall|k: int| 0 <= k < i ==> (#[trigger] ds@[k]).id@ != id@,
            -1 <= device_index(ds@, id@) < ds@.len(),
            device_index(ds@, id@) >= 0 ==> ds@[device_index(ds@, id@)].id@ == id@,
            forall|k: int|
                0 <= k < ds@.len() && (device_index(ds@, id@) == -1 || k < device_index(
                    ds@,
                    id@,
                )) ==> (#[trigger] ds@[k]).id@ != id@,
        decreases ds@.len() - i,
    {
        if ds[i].id == *id {
            return Some(i);
        }
        i = i + 1;
    }
    None
}

fn handle_open(ws: &Vec<(usize, String)>, handle: usize) -> (r: bool)
    ensures
        r == has_handle(ws@, handle),
{
    let mut i: usize = 0;
    while i < ws.len()
        invariant
            i <= ws@.len(),
            forall|k: int| 0 <= k < i ==> ws@[k].0 != handle,
        decreases ws@.len() - i,
    {
        if ws[i].0 == handle {
            return true;
        }
        i = i + 1;
    }
    false
}

fn push_when(changes: &mut Vec<Change>, cond: bool, c: Change)
    ensures
        final(changes)@ == push_if(old(changes)@, cond, c),
{
    if cond {
        changes.push(c);
    }
}

fn push_device_losses(changes: &mut Vec<Change>, before: &Snapshot, after: &Snapshot)
    ensures
        final(changes)@ == old(changes)@ + device_losses(before.devices@, after.devices@),
{
    let ghost start = changes@;
    let ghost olds = before.devices@;
    let mut i: usize = 0;
    while i < before.devices.len()
        invariant
            olds == before.devices@,
            i <= olds.len(),
            changes@ == start + device_losses(olds.take(i as int), after.devices@),
        decreases olds.len() - i,
    {
        assert(olds.take(i + 1).drop_last() =~= olds.take(i as int));
        let old = &before.devices[i];
        match find_device(&after.devices, &old.id) {
            None => changes.push(Change::DeviceGone { name: old.name.clone() }),
            Some(k) => {
                let now = &after.devices[k];
                if now.problem != 0 && old.problem == 0 {
                    changes.push(Change::DeviceBroken { name: now.name.clone(), problem: now.problem });
                }
            },
        }
        assert(changes@ =~= start + device_losses(olds.take(i + 1), after.devices@));
        i = i + 1;
    }
    assert(olds.take(olds.len() as int) =~= olds);
}

fn push_device_gains(changes: &mut Vec<Change>, before: &Snapshot, after: &Snapshot)
    ensures
        final(changes)@ == old(changes)@ + device_gains(after.devices@, before.devices@),
{
    let ghost start = changes@;
    let ghost nows = after.devices@;
    let mut j: usize = 0;
    while j < after.devices.len()
        invariant
            nows == after.devices@,
            j <= nows.len(),
            changes@ == start + device_gains(nows.take(j as int), before.devices@),
        decreases nows.len() - j,
    {
        assert(nows.take(j + 1).drop_last() =~= nows.take(j as int));
        let now = &after.devices[j];
        if find_device(&before.devices, &now.id).is_none() {
            changes.push(Change::DeviceNew { name: now.name.clone() });
        }
        assert(changes@ =~= start + device_gains(nows.take(j + 1), before.devices@));
        j = j + 1;
    }
    assert(nows.take(nows.len() as int) =~= nows);
}

fn push_input_changes(changes: &mut Vec<Change>, before: &Snapshot, after: &Snapshot)
    ensures
        final(changes)@ == input_changes(old(changes)@, *before, *after),
{
    let touchpad = match (before.touchpad, after.touchpad) {
        (Some(was), Some(is)) => was != is,
        _ => false,
    };
    let touchpad_on = match after.touchpad {
        Some(is) => is,
        None => false,
    };
    push_when(changes, touchpad, Change::Touchpad { on: touchpad_on });
    let flight = match (before.flight_mode, after.flight_mode) {
        (Some(was), Some(is)) => was != is,
        _ => false,
    };
    let flight_on = match after.flight_mode {
        Some(is) => is,
        None => false,
    };
    push_when(changes, flight, Change::FlightMode { on: flight_on });
    if before.language.0 != after.language.0 {
        changes.push(
            Change::Language { from: before.language.1.clone(), to: after.language.1.clone() },
        );
    }
    push_when(
        changes,
        before.rotation != after.rotation,
        Change::Rotation { from: before.rotation, to: after.rotation },
    );
}

fn push_switch_changes(changes: &mut Vec<Change>, before: &Snapshot, after: &Snapshot)
    ensures
        final(changes)@ == switch_changes(old(changes)@, *before, *after),
{
    push_when(
        changes,
        before.filter_keys != after.filter_keys,
        Change::FilterKeys { on: after.filter_keys },
    );
    push_when(
        changes,
        before.sticky_keys != after.sticky_keys,
        Change::StickyKeys { on: after.sticky_keys },
    );
    push_when(
        changes,
        before.toggle_keys != after.toggle_keys,
        Change::ToggleKeys { on: after.toggle_keys },
    );
    push_when(changes, before.caps_lock != after.caps_lock, Change::CapsLock { on: after.caps_lock });
    push_when(changes, before.num_lock != after.num_lock, Change::NumLock { on: after.num_lock });
    push_when(
        changes,
        before.scroll_lock != after.scroll_lock,
        Change::ScrollLock { on: after.scroll_lock },
    );
}

fn push_windows_closed(changes: &mut Vec<Change>, before: &Snapshot, after: &Snapshot)
    ensures
        final(changes)@ == old(changes)@ + windows_closed(before.windows@, after.windows@),
{
    let ghost start = changes@;
    let ghost wins = before.windows@;
    let mut w: usize = 0;
    while w < before.windows.len()
        invariant
            wins == before.windows@,
            w <= wins.len(),
            changes@ == start + windows_closed(wins.take(w as int), after.windows@),
        decreases wins.len() - w,
    {
        assert(wins.take(w + 1).drop_last() =~= wins.take(w as int));
        let handle = before.windows[w].0;
        if !handle_open(&after.windows, handle) {
            changes.push(Change::WindowClosed { title: before.windows[w].1.clone() });
        }
        assert(changes@ =~= start + windows_closed(wins.take(w + 1), after.windows@));
        w = w + 1;
    }
    assert(wins.take(wins.len() as int) =~= wins);
}

/// Everything that differs, most worrying first: hardware, then input, then
/// switches, then windows.
pub fn diff(before: &Snapshot, after: &Snapshot) -> (r: Vec<Change>)
    ensures
        r@ == changes_between(*before, *after),
{
    let mut changes: Vec<Change> = Vec::new();
    push_device_losses(&mut changes, before, after);
    push_device_gains(&mut changes, before, after);
    push_input_changes(&mut changes, before, after);
    push_switch_changes(&mut changes, before, after);
    push_windows_closed(&mut changes, before, after);
    assert(changes@ =~= changes_between(*before, *after));
    changes
}

// ------------------------------------------------------------- the words

pub open spec fn on_off(on: bool) -> &'static str {
    if on {
        "on"
    } else {
        "off"
    }
}

pub open spec fn digit_char(d: nat) -> char {
    if d == 0 {
        '0'
    } else if d == 1 {
        '1'
    } else if d == 2 {
        '2'
    } else if d == 3 {
        '3'
    } else if d == 4 {
        '4'
    } else if d == 5 {
        '5'
    } else if d == 6 {
        '6'
    } else if d == 7 {
        '7'
    } else if d == 8 {
        '8'
    } else {
        '9'
    }
}

/// `n` in decimal digits, without leading zeros.
pub open spec fn decimal(n: nat) -> Seq<char>
    decreases n,
{
    if n < 10 {
        seq![digit_char(n)]
    } else {
        decimal(n / 10).push(digit_char(n % 10))
    }
}

/// Why Device Manager says a device does not work.
pub open spec fn problem_reason(problem: u32) -> &'static str {
    if problem == 22 {
        "it got disabled"
    } else if problem == 28 {
        "its driver is not installed"
    } else {
        "Device Manager reports a problem"
    }
}

/// What happened, as a sentence without its full stop.
pub open spec fn text_of(c: Change) -> Seq<char> {
    match c {
        Change::CapsLock { on } => "Caps Lock is "@ + on_off(on)@ + " now"@,
        Change::NumLock { on } => "Num Lock is "@ + on_off(on)@ + " now"@,
        Change::ScrollLock { on } => "Scroll Lock is "@ + on_off(on)@ + " now"@,
        Change::StickyKeys { on } => if on {
            "Sticky Keys got switched on, which is what five presses of Shift do"@
        } else {
            "Sticky Keys got switched off"@
        },
        Change::FilterKeys { on } => if on {
            "Filter Keys got switched on, which is what eight seconds on the right Shift do. Keys now react late or not at all"@
        } else {
            "Filter Keys got switched off"@
        },
        Change::ToggleKeys { on } => if on {
            "Toggle Keys got switched on, which is what five seconds on Num Lock do"@
        } else {
            "Toggle Keys got switched off"@
        },
        Change::Language { from, to } => "The input language changed from "@ + from@ + " to "@
            + to@,
        Change::Rotation { .. } => "The screen got rotated"@,
        Change::Touchpad { on } => "The touchpad got switched "@ + on_off(on)@,
        Change::FlightMode { on } => "Flight mode got switched "@ + on_off(on)@,
        Change::WindowClosed { title } => "A window closed: \u{201c}"@ + title@ + "\u{201d}"@,
        Change::DeviceGone { name } => "A device is gone: "@ + name@,
        Change::DeviceBroken { name, problem } => "A device stopped working: "@ + name@
            + ". Windows says "@ + problem_reason(problem)@ + " (code "@ + decimal(problem as nat)
            + ")"@,
        Change::DeviceNew { name } => "A device is new: "@ + name@,
    }
}

/// What the human can do where catguard cannot do it for them.
pub open spec fn advice_of(c: Change) -> Option<&'static str> {
    match c {
        Change::DeviceGone { .. } => Some(DEVICE_ADVICE),
        Change::DeviceBroken { .. } => Some(DEVICE_ADVICE),
        Change::FlightMode { on } => if on {
            Some("Switch it off in the network menu of the taskbar.")
        } else {
            None
        },
        Change::Touchpad { on } => if !on {
            Some("If Undo does not bring it back: Settings, Bluetooth and devices, Touchpad.")
        } else {
            None
        },
        _ => None,
    }
}

/// What Undo will do about a change, or `None` when only the human can.
/// Things that got switched on by themselves are harmless, so only the
/// direction a cat causes trouble with is reversed for the touchpad.
pub open spec fn undo_of_change(c: Change) -> Option<Seq<char>> {
    match c {
        Change::CapsLock { on } => Some("switch Caps Lock "@ + on_off(!on)@),
        Change::NumLock { on } => Some("switch Num Lock "@ + on_off(!on)@),
        Change::ScrollLock { on } => Some("switch Scroll Lock "@ + on_off(!on)@),
        Change::StickyKeys { on } => Some("switch Sticky Keys "@ + on_off(!on)@),
        Change::FilterKeys { on } => Some("switch Filter Keys "@ + on_off(!on)@),
        Change::ToggleKeys { on } => Some("switch Toggle Keys "@ + on_off(!on)@),
        Change::Language { from, .. } => Some("switch the input language back to "@ + from@),
        Change::Rotation { .. } => Some("rotate the screen back"@),
        Change::Touchpad { on } => if !on {
            Some("press the touchpad key (Ctrl+Win+F24)"@)
        } else {
            None
        },
        _ => None,
    }
}

pub const DEVICE_ADVICE: &'static str = "Open Device Manager and choose Action, Scan for hardware changes. If that does not bring it back, run the driver update of your PC's maker, Lenovo Vantage on a Lenovo.";

fn on_off_str(on: bool) -> (r: &'static str)
    ensures
        r == on_off(on),
{
    if on {
        "on"
    } else {
        "off"
    }
}

fn digit_str(d: u32) -> (r: &'static str)
    requires
        d < 10,
    ensures
        r@ == seq![digit_char(d as nat)],
{
    proof {
        reveal_strlit("0");
        reveal_strlit("1");
        reveal_strlit("2");
        reveal_strlit("3");
        reveal_strlit("4");
        reveal_strlit("5");
        reveal_strlit("6");
        reveal_strlit("7");
        reveal_strlit("8");
        reveal_strlit("9");
    }
    if d == 0 {
        "0"
    } else if d == 1 {
        "1"
    } else if d == 2 {
        "2"
    } else if d == 3 {
        "3"
    } else if d == 4 {
        "4"
    } else if d == 5 {
        "5"
    } else if d == 6 {
        "6"
    } else if d == 7 {
        "7"
    } else if d == 8 {
        "8"
    } else {
        "9"
    }
}

/// Appends `n` in decimal.
fn push_decimal(s: &mut String, n: u32)
    ensures
        final(s)@ == old(s)@ + decimal(n as nat),
    decreases n,
{
    if n >= 10 {
        push_decimal(s, n / 10);
    }
    s.append(digit_str(n % 10));
    proof {
        if n >= 10 {
            assert(decimal(n as nat) == decimal((n / 10) as nat).push(digit_char((n % 10) as nat)));
        }
    }
    assert(s@ =~= old(s)@ + decimal(n as nat));
}

/// `a` then `b`.
fn join(a: &str, b: &str) -> (r: String)
    ensures
        r@ == a@ + b@,
{
    let mut s = String::from_str(a);
    s.append(b);
    s
}

/// `a`, `b`, then `c`.
fn join3(a: &str, b: &str, c: &str) -> (r: String)
    ensures
        r@ == a@ + b@ + c@,
{
    let mut s = String::from_str(a);
    s.append(b);
    s.append(c);
    s
}

impl Change {
    /// What happened, as a sentence without its full stop.
    pub fn text(&self) -> (r: String)
        ensures
            r@ == text_of(*self),
    {
        match self {
            Change::CapsLock { on } => join3("Caps Lock is ", on_off_str(*on), " now"),
            Change::NumLock { on } => join3("Num Lock is ", on_off_str(*on), " now"),
            Change::ScrollLock { on } => join3("Scroll Lock is ", on_off_str(*on), " now"),
            Change::StickyKeys { on } => if *on {
                String::from_str("Sticky Keys got switched on, which is what five presses of Shift do")
            } else {
                String::from_str("Sticky Keys got switched off")
            },
            Change::FilterKeys { on } => if *on {
                String::from_str(
                    "Filter Keys got switched on, which is what eight seconds on the right Shift do. Keys now react late or not at all",
                )
            } else {
                String::from_str("Filter Keys got switched off")
            },
            Change::ToggleKeys { on } => if *on {
                String::from_str("Toggle Keys got switched on, which is what five seconds on Num Lock do")
            } else {
                String::from_str("Toggle Keys got switched off")
            },
            Change::Language { from, to } => {
                let mut s = join3("The input language changed from ", from.as_str(), " to ");
                s.append(to.as_str());
                s
            },
            Change::Rotation { .. } => String::from_str("The screen got rotated"),
            Change::Touchpad { on } => join("The touchpad got switched ", on_off_str(*on)),
            Change::FlightMode { on } => join("Flight mode got switched ", on_off_str(*on)),
            Change::WindowClosed { title } => join3("A window closed: \u{201c}", title.as_str(), "\u{201d}"),
            Change::DeviceGone { name } => join("A device is gone: ", name.as_str()),
            Change::DeviceBroken { name, problem } => {
                let why = if *problem == 22 {
                    "it got disabled"
                } else if *problem == 28 {
                    "its driver is not installed"
                } else {
                    "Device Manager reports a problem"
                };
                let mut s = join3("A device stopped working: ", name.as_str(), ". Windows says ");
                s.append(why);
                s.append(" (code ");
                push_decimal(&mut s, *problem);
                s.append(")");
                s
            },
            Change::DeviceNew { name } => join("A device is new: ", name.as_str()),
        }
    }

    /// What the human can do where catguard cannot do it for them.
    pub fn advice(&self) -> (r: Option<&'static str>)
        ensures
            r == advice_of(*self),
    {
        match self {
            Change::DeviceGone { .. } | Change::DeviceBroken { .. } => Some(DEVICE_ADVICE),
            Change::FlightMode { on } => if *on {
                Some("Switch it off in the network menu of the taskbar.")
            } else {
                None
            },
            Change::Touchpad { on } => if !*on {
                Some("If Undo does not bring it back: Settings, Bluetooth and devices, Touchpad.")
            } else {
                None
            },
            _ => None,
        }
    }

    /// What Undo will do about it, or `None` when only the human can.
    /// Things that got switched on by themselves are harmless, so only the
    /// direction a cat causes trouble with is reversed for the touchpad.
    pub fn undo(&self) -> (r: Option<String>)
        ensures
            match r {
                Some(s) => undo_of_change(*self) == Some(s@),
                None => undo_of_change(*self) is None,
            },
    {
        match self {
            Change::CapsLock { on } => Some(join("switch Caps Lock ", on_off_str(!*on))),
            Change::NumLock { on } => Some(join("switch Num Lock ", on_off_str(!*on))),
            Change::ScrollLock { on } => Some(join("switch Scroll Lock ", on_off_str(!*on))),
            Change::StickyKeys { on } => Some(join("switch Sticky Keys ", on_off_str(!*on))),
            Change::FilterKeys { on } => Some(join("switch Filter Keys ", on_off_str(!*on))),
            Change::ToggleKeys { on } => Some(join("switch Toggle Keys ", on_off_str(!*on))),
            Change::Language { from, .. } => Some(join("switch the input language back to ", from.as_str())),
            Change::Rotation { .. } => Some(String::from_str("rotate the screen back")),
            Change::Touchpad { on } => if !*on {
                Some(String::from_str("press the touchpad key (Ctrl+Win+F24)"))
            } else {
                None
            },
            _ => None,
        }
    }
}

} // verus!
