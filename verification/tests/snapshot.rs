use catguard::snapshot::{diff, Change, Device, Snapshot};

fn device(id: &str, name: &str, problem: u32) -> Device {
    Device { id: id.into(), name: name.into(), problem }
}

fn desk() -> Snapshot {
    Snapshot {
        num_lock: true,
        language: (0x0407, "Deutsch (Deutschland)".into()),
        touchpad: Some(true),
        flight_mode: Some(false),
        windows: vec![(1, "Angebot.docx - Word".into()), (2, "Posteingang - Outlook".into())],
        devices: vec![device("HID\\TP", "HID-compliant touch pad", 0), device("USB\\CAM", "Integrated Camera", 0)],
        ..Snapshot::default()
    }
}

#[test]
fn nothing_changed_means_nothing_to_report() {
    assert_eq!(diff(&desk(), &desk()), []);
}

#[test]
fn the_case_this_was_built_for_a_driver_went_missing() {
    let mut after = desk();
    after.devices[0].problem = 28;
    let changes = diff(&desk(), &after);
    assert_eq!(changes, [Change::DeviceBroken { name: "HID-compliant touch pad".into(), problem: 28 }]);
    assert!(changes[0].text().contains("its driver is not installed"));
    assert!(changes[0].advice().unwrap().contains("Scan for hardware changes"));
    assert_eq!(changes[0].undo(), None);

    let mut gone = desk();
    gone.devices.remove(0);
    assert_eq!(diff(&desk(), &gone), [Change::DeviceGone { name: "HID-compliant touch pad".into() }]);
}

#[test]
fn a_device_that_was_already_broken_is_not_blamed_on_the_cat() {
    let mut before = desk();
    before.devices[1].problem = 22;
    assert_eq!(diff(&before, &before.clone()), []);
}

#[test]
fn what_a_cat_on_the_modifiers_does() {
    let mut after = desk();
    after.filter_keys = true;
    after.caps_lock = true;
    after.language = (0x0409, "English (United States)".into());
    let changes = diff(&desk(), &after);
    assert_eq!(
        changes,
        [
            Change::Language { from: "Deutsch (Deutschland)".into(), to: "English (United States)".into() },
            Change::FilterKeys { on: true },
            Change::CapsLock { on: true },
        ]
    );
    let undo: Vec<String> = changes.iter().filter_map(Change::undo).collect();
    assert_eq!(
        undo,
        ["switch the input language back to Deutsch (Deutschland)", "switch Filter Keys off", "switch Caps Lock off"]
    );
}

#[test]
fn a_closed_window_is_told_by_its_handle_not_by_its_title() {
    let mut after = desk();
    after.windows[0].1 = "Angebot final.docx - Word".into(); // renamed, still open
    after.windows.remove(1);
    assert_eq!(diff(&desk(), &after), [Change::WindowClosed { title: "Posteingang - Outlook".into() }]);
}

#[test]
fn unknown_touchpad_state_is_not_a_change() {
    let mut after = desk();
    after.touchpad = None;
    assert_eq!(diff(&desk(), &after), []);
    after.touchpad = Some(false);
    let changes = diff(&desk(), &after);
    assert_eq!(changes, [Change::Touchpad { on: false }]);
    assert!(changes[0].undo().is_some());
    assert_eq!(Change::Touchpad { on: true }.undo(), None);
}

#[test]
fn hardware_comes_first_and_windows_last() {
    let mut after = desk();
    after.windows.remove(0);
    after.rotation = 1;
    after.devices.push(device("USB\\KBD", "USB keyboard", 0));
    after.flight_mode = Some(true);
    after.devices[1].problem = 22;
    let changes = diff(&desk(), &after);
    assert_eq!(
        changes,
        [
            Change::DeviceBroken { name: "Integrated Camera".into(), problem: 22 },
            Change::DeviceNew { name: "USB keyboard".into() },
            Change::FlightMode { on: true },
            Change::Rotation { from: 0, to: 1 },
            Change::WindowClosed { title: "Angebot.docx - Word".into() },
        ]
    );
}

#[test]
fn every_change_says_what_happened() {
    let cases = [
        (Change::CapsLock { on: true }, "Caps Lock is on now"),
        (Change::NumLock { on: false }, "Num Lock is off now"),
        (Change::ScrollLock { on: true }, "Scroll Lock is on now"),
        (Change::StickyKeys { on: true }, "Sticky Keys got switched on, which is what five presses of Shift do"),
        (Change::StickyKeys { on: false }, "Sticky Keys got switched off"),
        (Change::ToggleKeys { on: true }, "Toggle Keys got switched on, which is what five seconds on Num Lock do"),
        (Change::FilterKeys { on: false }, "Filter Keys got switched off"),
        (Change::Language { from: "A".into(), to: "B".into() }, "The input language changed from A to B"),
        (Change::Rotation { from: 0, to: 2 }, "The screen got rotated"),
        (Change::Touchpad { on: false }, "The touchpad got switched off"),
        (Change::FlightMode { on: true }, "Flight mode got switched on"),
        (Change::WindowClosed { title: "Mail".into() }, "A window closed: \u{201c}Mail\u{201d}"),
        (Change::DeviceGone { name: "Pen".into() }, "A device is gone: Pen"),
        (Change::DeviceNew { name: "Pen".into() }, "A device is new: Pen"),
        (
            Change::DeviceBroken { name: "Pen".into(), problem: 22 },
            "A device stopped working: Pen. Windows says it got disabled (code 22)",
        ),
        (
            Change::DeviceBroken { name: "Pen".into(), problem: 4_000_000_007 },
            "A device stopped working: Pen. Windows says Device Manager reports a problem (code 4000000007)",
        ),
        (
            Change::DeviceBroken { name: "Pen".into(), problem: 0 },
            "A device stopped working: Pen. Windows says Device Manager reports a problem (code 0)",
        ),
    ];
    for (change, text) in cases {
        assert_eq!(change.text(), text);
    }
    assert!(Change::FilterKeys { on: true }.text().starts_with("Filter Keys got switched on"));
}

#[test]
fn advice_only_where_the_human_must_act() {
    assert!(Change::DeviceGone { name: "x".into() }.advice().is_some());
    assert_eq!(Change::FlightMode { on: true }.advice(), Some("Switch it off in the network menu of the taskbar."));
    assert_eq!(Change::FlightMode { on: false }.advice(), None);
    assert!(Change::Touchpad { on: false }.advice().unwrap().contains("Touchpad"));
    assert_eq!(Change::CapsLock { on: true }.advice(), None);
}

#[test]
fn undo_switches_back() {
    assert_eq!(Change::StickyKeys { on: true }.undo().unwrap(), "switch Sticky Keys off");
    assert_eq!(Change::ScrollLock { on: false }.undo().unwrap(), "switch Scroll Lock on");
    assert_eq!(Change::Rotation { from: 0, to: 1 }.undo().unwrap(), "rotate the screen back");
    assert_eq!(Change::Touchpad { on: false }.undo().unwrap(), "press the touchpad key (Ctrl+Win+F24)");
    assert_eq!(Change::WindowClosed { title: "x".into() }.undo(), None);
    assert_eq!(Change::DeviceNew { name: "x".into() }.undo(), None);
}

#[test]
fn every_kind_is_reported_once_and_in_order() {
    let before = desk();
    let after = Snapshot {
        caps_lock: true,
        num_lock: false,
        scroll_lock: true,
        sticky_keys: true,
        filter_keys: true,
        toggle_keys: true,
        language: (0x0409, "English (United States)".into()),
        rotation: 1,
        touchpad: Some(false),
        flight_mode: Some(true),
        windows: vec![(2, "Posteingang - Outlook".into())],
        devices: vec![device("USB\\CAM", "Integrated Camera", 0), device("USB\\PEN", "Pen", 0)],
    };
    assert_eq!(
        diff(&before, &after),
        [
            Change::DeviceGone { name: "HID-compliant touch pad".into() },
            Change::DeviceNew { name: "Pen".into() },
            Change::Touchpad { on: false },
            Change::FlightMode { on: true },
            Change::Language { from: "Deutsch (Deutschland)".into(), to: "English (United States)".into() },
            Change::Rotation { from: 0, to: 1 },
            Change::FilterKeys { on: true },
            Change::StickyKeys { on: true },
            Change::ToggleKeys { on: true },
            Change::CapsLock { on: true },
            Change::NumLock { on: false },
            Change::ScrollLock { on: true },
            Change::WindowClosed { title: "Angebot.docx - Word".into() },
        ]
    );
    // A flag that one snapshot does not know is never reported.
    let unknown = Snapshot { touchpad: None, flight_mode: None, ..desk() };
    assert_eq!(diff(&before, &unknown), []);
}
