//! Physical key positions, in hundredths of a key unit (one unit = one letter
//! key, about 19 mm).
//!
//! Keys are identified by their set-1 scancode, so the geometry is the same
//! for QWERTY, QWERTZ and AZERTY: the scancode names the physical key, not the
//! character printed on it.
//!
//! Every place on the board is a multiple of a quarter unit or of a fifth of
//! one, so hundredths hold them exactly and the geometry is integer
//! arithmetic.
use vstd::prelude::*;

verus! {

/// Set-1 scancode. Extended keys (arrows, right Ctrl, ...) carry [`EXTENDED`].
pub type KeyCode = u16;

pub const EXTENDED: KeyCode = 0xE000;

/// One key unit in the hundredths that [`Pos`] counts in.
pub const UNIT: i32 = 100;

/// A key's place on the board, in hundredths of a key unit. Rows count down
/// from the function row (0) to the space bar row (500). `half_width` is
/// non-zero only for the space bar, so that a paw on `V` and a paw on `M`
/// are both "next to space".
#[derive(Clone, Copy, Debug, PartialEq, Eq, Structural)]
pub struct Pos {
    pub row: i16,
    pub x: i16,
    pub half_width: i16,
}

pub open spec fn at(row: int, x: int) -> Option<Pos> {
    Some(Pos { row: row as i16, x: x as i16, half_width: 0 })
}

/// Shift, Ctrl, Alt and Win.
pub open spec fn modifier_key(key: KeyCode) -> bool {
    ||| key == 0x2A
    ||| key == 0x36
    ||| key == 0x1D
    ||| key == 0x38
    ||| key == 0xE02A
    ||| key == 0xE036
    ||| key == 0xE01D
    ||| key == 0xE038
    ||| key == 0xE05B
    ||| key == 0xE05C
}

/// Letters, digits, punctuation and space.
pub open spec fn printable_key(key: KeyCode) -> bool {
    ||| 0x02 <= key <= 0x0D
    ||| 0x10 <= key <= 0x1B
    ||| 0x1E <= key <= 0x29
    ||| 0x2B <= key <= 0x35
    ||| key == 0x39
    ||| key == 0x56
}

/// Where a key sits, or `None` for keys without a fixed place across
/// keyboards.
pub open spec fn key_position(key: KeyCode) -> Option<Pos> {
    if key == 0x01 {
        at(0, 0)
    } else if 0x3B <= key <= 0x44 {
        at(0, 100 + (key - 0x3B) * 100)
    } else if key == 0x57 {
        at(0, 1100)
    } else if key == 0x58 {
        at(0, 1200)
    } else if key == 0x29 {
        at(100, 0)
    } else if 0x02 <= key <= 0x0D {
        at(100, 100 + (key - 0x02) * 100)
    } else if key == 0x0E {
        at(100, 1350)
    } else if key == 0x0F {
        at(200, 25)
    } else if 0x10 <= key <= 0x1B {
        at(200, 150 + (key - 0x10) * 100)
    } else if key == 0x2B {
        at(250, 1325)
    } else if key == 0x3A {
        at(300, 40)
    } else if 0x1E <= key <= 0x28 {
        at(300, 175 + (key - 0x1E) * 100)
    } else if key == 0x1C {
        at(300, 1325)
    } else if key == 0x56 {
        at(400, 125)
    } else if 0x2C <= key <= 0x35 {
        at(400, 225 + (key - 0x2C) * 100)
    } else if key == 0x39 {
        Some(Pos { row: 500, x: 675, half_width: 275 })
    } else if key == 0x45 {
        at(100, 1700)
    } else if key == 0xE035 {
        at(100, 1800)
    } else if key == 0x37 {
        at(100, 1900)
    } else if key == 0x4A {
        at(100, 2000)
    } else if 0x47 <= key <= 0x49 {
        at(200, 1700 + (key - 0x47) * 100)
    } else if key == 0x4E {
        at(250, 2000)
    } else if 0x4B <= key <= 0x4D {
        at(300, 1700 + (key - 0x4B) * 100)
    } else if 0x4F <= key <= 0x51 {
        at(400, 1700 + (key - 0x4F) * 100)
    } else if key == 0xE01C {
        at(450, 2000)
    } else if key == 0x52 {
        Some(Pos { row: 500, x: 1700, half_width: 0 })
    } else if key == 0x53 {
        at(500, 1900)
    } else if key == 0xE048 {
        at(400, 1400)
    } else if key == 0xE04B {
        at(500, 1300)
    } else if key == 0xE050 {
        at(500, 1400)
    } else if key == 0xE04D {
        at(500, 1500)
    } else {
        None
    }
}

/// Shift, Ctrl, Alt and Win. Humans hold these together with other keys all
/// the time, so no rule counts them.
pub fn is_modifier(key: KeyCode) -> (r: bool)
    ensures
        r == modifier_key(key),
{
    key == 0x2A || key == 0x36 || key == 0x1D || key == 0x38 || key == 0xE02A || key == 0xE036
        || key == 0xE01D || key == 0xE038 || key == 0xE05B || key == 0xE05C
}

/// Keys that put a character into a text field: letters, digits,
/// punctuation and space.
pub fn is_printable(key: KeyCode) -> (r: bool)
    ensures
        r == printable_key(key),
{
    (0x02 <= key && key <= 0x0D) || (0x10 <= key && key <= 0x1B) || (0x1E <= key && key <= 0x29)
        || (0x2B <= key && key <= 0x35) || key == 0x39 || key == 0x56
}

fn place(row: i16, x: i16) -> (r: Option<Pos>)
    ensures
        r == at(row as int, x as int),
{
    Some(Pos { row, x, half_width: 0 })
}

/// Position of a key, or `None` for keys without a fixed place across
/// keyboards (media keys, the block above the arrows). Those still count for
/// the rules that do not need geometry.
pub fn position(key: KeyCode) -> (r: Option<Pos>)
    ensures
        r == key_position(key),
        r matches Some(p) && p.half_width != 0 ==> key == 0x39,
{
    if key == 0x01 {
        place(0, 0)  // Esc
    } else if 0x3B <= key && key <= 0x44 {
        place(0, 100 + (key - 0x3B) as i16 * 100)  // F1..F10
    } else if key == 0x57 {
        place(0, 1100)  // F11
    } else if key == 0x58 {
        place(0, 1200)  // F12
    } else if key == 0x29 {
        place(100, 0)  // key left of 1
    } else if 0x02 <= key && key <= 0x0D {
        place(100, 100 + (key - 0x02) as i16 * 100)  // 1 .. =
    } else if key == 0x0E {
        place(100, 1350)  // Backspace
    } else if key == 0x0F {
        place(200, 25)  // Tab
    } else if 0x10 <= key && key <= 0x1B {
        place(200, 150 + (key - 0x10) as i16 * 100)  // Q .. ]
    } else if key == 0x2B {
        // ANSI puts this key at the end of the Q row, ISO at the end of the
        // home row. Halfway is adjacent to the right neighbours on both.
        place(250, 1325)
    } else if key == 0x3A {
        place(300, 40)  // Caps Lock
    } else if 0x1E <= key && key <= 0x28 {
        place(300, 175 + (key - 0x1E) as i16 * 100)  // A .. '
    } else if key == 0x1C {
        place(300, 1325)  // Enter
    } else if key == 0x56 {
        place(400, 125)  // ISO key left of Z
    } else if 0x2C <= key && key <= 0x35 {
        place(400, 225 + (key - 0x2C) as i16 * 100)  // Z .. /
    } else if key == 0x39 {
        Some(Pos { row: 500, x: 675, half_width: 275 })  // Space
    // The number pad, as on a full-size keyboard. Laptops squeeze it, but
    // which keys are neighbours stays the same.
    } else if key == 0x45 {
        place(100, 1700)  // Num Lock
    } else if key == 0xE035 {
        place(100, 1800)  // /
    } else if key == 0x37 {
        place(100, 1900)  // *
    } else if key == 0x4A {
        place(100, 2000)  // -
    } else if 0x47 <= key && key <= 0x49 {
        place(200, 1700 + (key - 0x47) as i16 * 100)  // 7 8 9
    } else if key == 0x4E {
        place(250, 2000)  // +, two rows tall
    } else if 0x4B <= key && key <= 0x4D {
        place(300, 1700 + (key - 0x4B) as i16 * 100)  // 4 5 6
    } else if 0x4F <= key && key <= 0x51 {
        place(400, 1700 + (key - 0x4F) as i16 * 100)  // 1 2 3
    } else if key == 0xE01C {
        place(450, 2000)  // Enter, two rows tall
    } else if key == 0x52 {
        Some(Pos { row: 500, x: 1700, half_width: 0 })  // 0, under 1
    } else if key == 0x53 {
        place(500, 1900)  // .
    } else if key == 0xE048 {
        place(400, 1400)  // Up
    } else if key == 0xE04B {
        place(500, 1300)  // Left
    } else if key == 0xE050 {
        place(500, 1400)  // Down
    } else if key == 0xE04D {
        place(500, 1500)  // Right
    } else {
        None
    }
}

pub open spec fn min_int(a: int, b: int) -> int {
    if a <= b { a } else { b }
}

pub open spec fn max_int(a: int, b: int) -> int {
    if a >= b { a } else { b }
}

/// The top row of any key in `keys`.
pub open spec fn row_lo(keys: Seq<Pos>) -> int
    decreases keys.len(),
{
    if keys.len() <= 1 {
        keys[0].row as int
    } else {
        min_int(row_lo(keys.drop_last()), keys.last().row as int)
    }
}

/// The bottom row of any key in `keys`.
pub open spec fn row_hi(keys: Seq<Pos>) -> int
    decreases keys.len(),
{
    if keys.len() <= 1 {
        keys[0].row as int
    } else {
        max_int(row_hi(keys.drop_last()), keys.last().row as int)
    }
}

/// The left edge that lies furthest right.
pub open spec fn left_hi(keys: Seq<Pos>) -> int
    decreases keys.len(),
{
    if keys.len() <= 1 {
        keys[0].x - keys[0].half_width
    } else {
        max_int(left_hi(keys.drop_last()), keys.last().x - keys.last().half_width)
    }
}

/// The right edge that lies furthest left.
pub open spec fn right_lo(keys: Seq<Pos>) -> int
    decreases keys.len(),
{
    if keys.len() <= 1 {
        keys[0].x + keys[0].half_width
    } else {
        min_int(right_lo(keys.drop_last()), keys.last().x + keys.last().half_width)
    }
}

/// Height and width of the smallest box that touches every key of a
/// non-empty set.
pub open spec fn extent_of(keys: Seq<Pos>) -> (int, int) {
    (row_hi(keys) - row_lo(keys), max_int(left_hi(keys) - right_lo(keys), 0))
}

proof fn lemma_take_step(keys: Seq<Pos>, i: int)
    requires
        1 <= i < keys.len(),
    ensures
        keys.take(i + 1).drop_last() == keys.take(i),
        keys.take(i + 1).last() == keys[i],
{
    assert(keys.take(i + 1).drop_last() =~= keys.take(i));
}

/// Height and width of the smallest box that touches every key. A wide key
/// is an interval, so it only adds width when the others lie beside it.
pub fn extent(keys: &[Pos]) -> (r: (i32, i32))
    requires
        keys@.len() > 0,
    ensures
        r.0 as int == extent_of(keys@).0,
        r.1 as int == extent_of(keys@).1,
{
    let first = keys[0];
    let mut row_min: i32 = first.row as i32;
    let mut row_max: i32 = first.row as i32;
    let mut highest_left_edge: i32 = first.x as i32 - first.half_width as i32;
    let mut lowest_right_edge: i32 = first.x as i32 + first.half_width as i32;
    assert(keys@.take(1) =~= seq![keys@[0]]);
    let mut i: usize = 1;
    while i < keys.len()
        invariant
            1 <= i <= keys@.len(),
            row_min == row_lo(keys@.take(i as int)),
            row_max == row_hi(keys@.take(i as int)),
            highest_left_edge == left_hi(keys@.take(i as int)),
            lowest_right_edge == right_lo(keys@.take(i as int)),
            i16::MIN <= row_min <= i16::MAX,
            i16::MIN <= row_max <= i16::MAX,
            -65536 <= highest_left_edge <= 65535,
            -65536 <= lowest_right_edge <= 65535,
        decreases keys@.len() - i,
    {
        let p = keys[i];
        proof {
            lemma_take_step(keys@, i as int);
        }
        let row = p.row as i32;
        let left = p.x as i32 - p.half_width as i32;
        let right = p.x as i32 + p.half_width as i32;
        if row < row_min {
            row_min = row;
        }
        if row > row_max {
            row_max = row;
        }
        if left > highest_left_edge {
            highest_left_edge = left;
        }
        if right < lowest_right_edge {
            lowest_right_edge = right;
        }
        i = i + 1;
    }
    assert(keys@.take(keys@.len() as int) =~= keys@);
    let width = highest_left_edge - lowest_right_edge;
    (row_max - row_min, if width > 0 { width } else { 0 })
}

/// The key that prints `c` on a US layout, for the letters, digits and
/// punctuation of the four main rows and the space bar.
pub open spec fn us_key(c: char) -> Option<KeyCode> {
    match c {
        ' ' => Some(0x39u16),
        '1' => Some(0x02u16),
        '2' => Some(0x03u16),
        '3' => Some(0x04u16),
        '4' => Some(0x05u16),
        '5' => Some(0x06u16),
        '6' => Some(0x07u16),
        '7' => Some(0x08u16),
        '8' => Some(0x09u16),
        '9' => Some(0x0Au16),
        '0' => Some(0x0Bu16),
        '-' => Some(0x0Cu16),
        '=' => Some(0x0Du16),
        'q' => Some(0x10u16),
        'w' => Some(0x11u16),
        'e' => Some(0x12u16),
        'r' => Some(0x13u16),
        't' => Some(0x14u16),
        'y' => Some(0x15u16),
        'u' => Some(0x16u16),
        'i' => Some(0x17u16),
        'o' => Some(0x18u16),
        'p' => Some(0x19u16),
        '[' => Some(0x1Au16),
        ']' => Some(0x1Bu16),
        'a' => Some(0x1Eu16),
        's' => Some(0x1Fu16),
        'd' => Some(0x20u16),
        'f' => Some(0x21u16),
        'g' => Some(0x22u16),
        'h' => Some(0x23u16),
        'j' => Some(0x24u16),
        'k' => Some(0x25u16),
        'l' => Some(0x26u16),
        ';' => Some(0x27u16),
        '\'' => Some(0x28u16),
        'z' => Some(0x2Cu16),
        'x' => Some(0x2Du16),
        'c' => Some(0x2Eu16),
        'v' => Some(0x2Fu16),
        'b' => Some(0x30u16),
        'n' => Some(0x31u16),
        'm' => Some(0x32u16),
        ',' => Some(0x33u16),
        '.' => Some(0x34u16),
        '/' => Some(0x35u16),
        _ => None,
    }
}

/// Scancode of the key that prints `c` on a US layout. Scenarios read
/// better as letters: `"wed"` rather than `[0x11, 0x12, 0x20]`.
pub fn key_for(c: char) -> (r: KeyCode)
    requires
        us_key(c) is Some,
    ensures
        us_key(c) == Some(r),
{
    match c {
        ' ' => 0x39,
        '1' => 0x02,
        '2' => 0x03,
        '3' => 0x04,
        '4' => 0x05,
        '5' => 0x06,
        '6' => 0x07,
        '7' => 0x08,
        '8' => 0x09,
        '9' => 0x0A,
        '0' => 0x0B,
        '-' => 0x0C,
        '=' => 0x0D,
        'q' => 0x10,
        'w' => 0x11,
        'e' => 0x12,
        'r' => 0x13,
        't' => 0x14,
        'y' => 0x15,
        'u' => 0x16,
        'i' => 0x17,
        'o' => 0x18,
        'p' => 0x19,
        '[' => 0x1A,
        ']' => 0x1B,
        'a' => 0x1E,
        's' => 0x1F,
        'd' => 0x20,
        'f' => 0x21,
        'g' => 0x22,
        'h' => 0x23,
        'j' => 0x24,
        'k' => 0x25,
        'l' => 0x26,
        ';' => 0x27,
        '\'' => 0x28,
        'z' => 0x2C,
        'x' => 0x2D,
        'c' => 0x2E,
        'v' => 0x2F,
        'b' => 0x30,
        'n' => 0x31,
        'm' => 0x32,
        ',' => 0x33,
        '.' => 0x34,
        _ => 0x35,
    }
}

} // verus!
