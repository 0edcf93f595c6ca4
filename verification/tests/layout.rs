use catguard::layout::{extent, is_modifier, is_printable, key_for, position, KeyCode, Pos};

fn span(chars: &str) -> (i32, i32) {
    let keys: Vec<Pos> = chars.chars().map(|c| position(key_for(c)).unwrap()).collect();
    extent(&keys)
}

#[test]
fn stagger_matches_a_real_keyboard() {
    assert_eq!(span("qa"), (100, 25));
    assert_eq!(span("az"), (100, 50));
    assert_eq!(span("wed"), (100, 125));
}

#[test]
fn space_bar_is_next_to_every_key_above_it() {
    assert_eq!(span("v ").1, 0);
    assert_eq!(span("m ").1, 0);
    assert_eq!(span("z "), (100, 175));
}

#[test]
fn the_number_pad_has_neighbours() {
    let pad = |codes: &[KeyCode]| extent(&codes.iter().map(|&c| position(c).unwrap()).collect::<Vec<_>>());
    assert_eq!(pad(&[0x4C, 0x4D, 0x48, 0x49]), (100, 100)); // 5 6 8 9, one paw
    assert_eq!(pad(&[0x4E, 0x4A]), (150, 0)); // + under -
    assert_eq!(pad(&[0x52, 0x4F]).1, 0); // 0 under 1
}

#[test]
fn modifiers_have_no_say() {
    assert!(is_modifier(0x2A));
    assert!(is_modifier(0xE05B));
    assert!(!is_modifier(key_for('a')));
}

#[test]
fn media_keys_have_no_place() {
    assert_eq!(position(0xE020), None);
    assert_eq!(position(0x01), Some(Pos { row: 0, x: 0, half_width: 0 }));
    assert_eq!(position(0x3A), Some(Pos { row: 300, x: 40, half_width: 0 }));
}

#[test]
fn printable_keys_put_characters_into_text() {
    assert!(is_printable(key_for('q')));
    assert!(is_printable(key_for(' ')));
    assert!(is_printable(0x56));
    assert!(!is_printable(0x1C)); // Enter
    assert!(!is_printable(0x0E)); // Backspace
    assert!(!is_printable(0x2A)); // Shift
}

#[test]
fn a_single_key_spans_nothing_and_keys_on_top_of_each_other_neither() {
    let q = position(key_for('q')).unwrap();
    assert_eq!(extent(&[q]), (0, 0));
    assert_eq!(extent(&[q, q]), (0, 0));
}

#[test]
fn us_letters_map_to_their_scancodes() {
    assert_eq!(key_for('q'), 0x10);
    assert_eq!(key_for('a'), 0x1E);
    assert_eq!(key_for('z'), 0x2C);
    assert_eq!(key_for('1'), 0x02);
    assert_eq!(key_for('/'), 0x35);
}

#[test]
fn only_the_space_bar_is_wide() {
    assert_eq!(position(0x52), Some(Pos { row: 500, x: 1700, half_width: 0 }));
    assert_eq!(position(0x39), Some(Pos { row: 500, x: 675, half_width: 275 }));
}
