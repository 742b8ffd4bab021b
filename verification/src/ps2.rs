//! PS/2 keyboard decoding: scancode set 1 to key events, and key events to
//! characters under the shift / caps-lock state.
use vstd::prelude::*;
use crate::ps2_table::{alpha_of, symbol_of, map_alpha, symbol_pair};

verus! {

#[derive(Copy, Clone, PartialEq, Eq, Structural, Debug)]
pub enum KeyCode {
    Printable { normal: char, shifted: char },
    Enter,
    Backspace,
    Space,
    Shift,
    CapsLock,
    Unknown,
}

#[derive(Copy, Clone, PartialEq, Eq, Structural, Debug)]
pub enum KeyEvent {
    Press(KeyCode),
    Release(KeyCode),
}

/// Modifier state of the keyboard.
#[derive(Copy, Clone, PartialEq, Eq, Structural, Debug)]
pub struct KeyboardState {
    pub shift: bool,
    pub caps_lock: bool,
}

pub open spec fn is_lower_ascii(c: char) -> bool {
    'a' <= c && c <= 'z'
}

pub open spec fn is_ascii_alpha(c: char) -> bool {
    ('a' <= c && c <= 'z') || ('A' <= c && c <= 'Z')
}

/// ASCII upper case of `c` (other characters unchanged).
pub open spec fn upper_of(c: char) -> char {
    if is_lower_ascii(c) { ((c as u32) - 32) as char } else { c }
}

/// The key named by a 7-bit make code.
pub open spec fn key_of_code(code: u8) -> KeyCode {
    if code == 0x2A || code == 0x36 {
        KeyCode::Shift
    } else if code == 0x3A {
        KeyCode::CapsLock
    } else if code == 0x1C {
        KeyCode::Enter
    } else if code == 0x0E {
        KeyCode::Backspace
    } else if code == 0x39 {
        KeyCode::Space
    } else if symbol_of(code) is Some {
        KeyCode::Printable { normal: symbol_of(code).unwrap().0, shifted: symbol_of(code).unwrap().1 }
    } else if 0x10 <= code && code <= 0x32 && alpha_of(code) != '\0' {
        KeyCode::Printable { normal: alpha_of(code), shifted: upper_of(alpha_of(code)) }
    } else {
        KeyCode::Unknown
    }
}

/// The event that a raw scancode stands for: bit 7 tells a release from a press.
pub open spec fn event_of(scancode: u8) -> KeyEvent {
    if scancode & 0x80 != 0 {
        KeyEvent::Release(key_of_code(scancode & 0x7F))
    } else {
        KeyEvent::Press(key_of_code(scancode & 0x7F))
    }
}

/// The modifier state after `event`.
pub open spec fn state_after(s: KeyboardState, event: KeyEvent) -> KeyboardState {
    match event {
        KeyEvent::Press(KeyCode::Shift) => KeyboardState { shift: true, ..s },
        KeyEvent::Release(KeyCode::Shift) => KeyboardState { shift: false, ..s },
        KeyEvent::Press(KeyCode::CapsLock) => KeyboardState { caps_lock: !s.caps_lock, ..s },
        _ => s,
    }
}

/// The character a key event types under modifier state `s`, if any.
pub open spec fn char_of(s: KeyboardState, event: KeyEvent) -> Option<char> {
    match event {
        KeyEvent::Press(KeyCode::Printable { normal, shifted }) => {
            if is_ascii_alpha(normal) {
                Some(if s.shift != s.caps_lock { shifted } else { normal })
            } else {
                Some(if s.shift { shifted } else { normal })
            }
        },
        KeyEvent::Press(KeyCode::Enter) => Some('\n'),
        KeyEvent::Press(KeyCode::Backspace) => Some('\x08'),
        KeyEvent::Press(KeyCode::Space) => Some(' '),
        _ => None,
    }
}

/// `c` in upper case when it is an ASCII letter.
pub fn to_ascii_uppercase(c: char) -> (r: char)
    ensures
        r == upper_of(c),
{
    if 'a' <= c && c <= 'z' {
        let b: u8 = (c as u32 - 32) as u8;
        b as char
    } else {
        c
    }
}

/// Whether `c` is an ASCII letter.
pub fn is_ascii_alphabetic(c: char) -> (r: bool)
    ensures
        r == is_ascii_alpha(c),
{
    ('a' <= c && c <= 'z') || ('A' <= c && c <= 'Z')
}

impl KeyboardState {
    /// No shift held, caps lock off.
    pub fn new() -> (s: Self)
        ensures
            !s.shift,
            !s.caps_lock,
    {
        KeyboardState { shift: false, caps_lock: false }
    }

    /// Whether a shift key is held.
    pub fn shift(&self) -> (r: bool)
        ensures
            r == self.shift,
    {
        self.shift
    }

    /// Whether caps lock is on.
    pub fn caps_lock(&self) -> (r: bool)
        ensures
            r == self.caps_lock,
    {
        self.caps_lock
    }

    /// Record whether a shift key is held.
    pub fn set_shift(&mut self, v: bool)
        ensures
            final(self).shift == v,
            final(self).caps_lock == old(self).caps_lock,
    {
        self.shift = v;
    }

    /// Flip caps lock.
    pub fn toggle_caps(&mut self)
        ensures
            final(self).caps_lock == !old(self).caps_lock,
            final(self).shift == old(self).shift,
    {
        self.caps_lock = !self.caps_lock;
    }
}

fn key_for_code(code: u8) -> (k: KeyCode)
    ensures
        k == key_of_code(code),
{
    if code == 0x2A || code == 0x36 {
        KeyCode::Shift
    } else if code == 0x3A {
        KeyCode::CapsLock
    } else if code == 0x1C {
        KeyCode::Enter
    } else if code == 0x0E {
        KeyCode::Backspace
    } else if code == 0x39 {
        KeyCode::Space
    } else {
        match symbol_pair(code) {
            Some((normal, shifted)) => KeyCode::Printable { normal, shifted },
            None => {
                if 0x10 <= code && code <= 0x32 {
                    let c = map_alpha(code);
                    if c != '\0' {
                        KeyCode::Printable { normal: c, shifted: to_ascii_uppercase(c) }
                    } else {
                        KeyCode::Unknown
                    }
                } else {
                    KeyCode::Unknown
                }
            },
        }
    }
}

/// Update the modifier state for `event`.
pub fn apply_state(state: &mut KeyboardState, event: KeyEvent)
    ensures
        *final(state) == state_after(*old(state), event),
{
    match event {
        KeyEvent::Press(KeyCode::Shift) => state.set_shift(true),
        KeyEvent::Release(KeyCode::Shift) => state.set_shift(false),
        KeyEvent::Press(KeyCode::CapsLock) => state.toggle_caps(),
        _ => {},
    }
}

/// Decode one scancode into a key event and apply its effect on the modifiers.
pub fn decode_scancode(state: &mut KeyboardState, scancode: u8) -> (event: KeyEvent)
    ensures
        event == event_of(scancode),
        *final(state) == state_after(*old(state), event),
{
    let release = scancode & 0x80 != 0;
    let code = scancode & 0x7F;
    let key = key_for_code(code);
    let event = if release { KeyEvent::Release(key) } else { KeyEvent::Press(key) };
    apply_state(state, event);
    event
}

/// The character typed by `event` under the current modifiers, if any.
pub fn keyevent_to_char(state: &KeyboardState, event: KeyEvent) -> (r: Option<char>)
    ensures
        r == char_of(*state, event),
{
    match event {
        KeyEvent::Press(key) => match key {
            KeyCode::Printable { normal, shifted } => {
                let shift = state.shift();
                if is_ascii_alphabetic(normal) {
                    let upper = shift != state.caps_lock();
                    Some(if upper { shifted } else { normal })
                } else {
                    Some(if shift { shifted } else { normal })
                }
            },
            KeyCode::Enter => Some('\n'),
            KeyCode::Backspace => Some('\x08'),
            KeyCode::Space => Some(' '),
            _ => None,
        },
        KeyEvent::Release(_) => None,
    }
}


/// The keys follow the US layout of scancode set 1: each letter key's make
/// code names its letter, lower case unshifted and upper case shifted, and
/// each digit and symbol key its two characters.
pub proof fn lemma_us_layout()
    ensures
        key_of_code(0x1E) == (KeyCode::Printable { normal: 'a', shifted: 'A' }),
        key_of_code(0x30) == (KeyCode::Printable { normal: 'b', shifted: 'B' }),
        key_of_code(0x2E) == (KeyCode::Printable { normal: 'c', shifted: 'C' }),
        key_of_code(0x20) == (KeyCode::Printable { normal: 'd', shifted: 'D' }),
        key_of_code(0x12) == (KeyCode::Printable { normal: 'e', shifted: 'E' }),
        key_of_code(0x21) == (KeyCode::Printable { normal: 'f', shifted: 'F' }),
        key_of_code(0x22) == (KeyCode::Printable { normal: 'g', shifted: 'G' }),
        key_of_code(0x23) == (KeyCode::Printable { normal: 'h', shifted: 'H' }),
        key_of_code(0x17) == (KeyCode::Printable { normal: 'i', shifted: 'I' }),
        key_of_code(0x24) == (KeyCode::Printable { normal: 'j', shifted: 'J' }),
        key_of_code(0x25) == (KeyCode::Printable { normal: 'k', shifted: 'K' }),
        key_of_code(0x26) == (KeyCode::Printable { normal: 'l', shifted: 'L' }),
        key_of_code(0x32) == (KeyCode::Printable { normal: 'm', shifted: 'M' }),
        key_of_code(0x31) == (KeyCode::Printable { normal: 'n', shifted: 'N' }),
        key_of_code(0x18) == (KeyCode::Printable { normal: 'o', shifted: 'O' }),
        key_of_code(0x19) == (KeyCode::Printable { normal: 'p', shifted: 'P' }),
        key_of_code(0x10) == (KeyCode::Printable { normal: 'q', shifted: 'Q' }),
        key_of_code(0x13) == (KeyCode::Printable { normal: 'r', shifted: 'R' }),
        key_of_code(0x1F) == (KeyCode::Printable { normal: 's', shifted: 'S' }),
        key_of_code(0x14) == (KeyCode::Printable { normal: 't', shifted: 'T' }),
        key_of_code(0x16) == (KeyCode::Printable { normal: 'u', shifted: 'U' }),
        key_of_code(0x2F) == (KeyCode::Printable { normal: 'v', shifted: 'V' }),
        key_of_code(0x11) == (KeyCode::Printable { normal: 'w', shifted: 'W' }),
        key_of_code(0x2D) == (KeyCode::Printable { normal: 'x', shifted: 'X' }),
        key_of_code(0x15) == (KeyCode::Printable { normal: 'y', shifted: 'Y' }),
        key_of_code(0x2C) == (KeyCode::Printable { normal: 'z', shifted: 'Z' }),
        key_of_code(0x02) == (KeyCode::Printable { normal: '1', shifted: '!' }),
        key_of_code(0x03) == (KeyCode::Printable { normal: '2', shifted: '@' }),
        key_of_code(0x04) == (KeyCode::Printable { normal: '3', shifted: '#' }),
        key_of_code(0x05) == (KeyCode::Printable { normal: '4', shifted: '$' }),
        key_of_code(0x06) == (KeyCode::Printable { normal: '5', shifted: '%' }),
        key_of_code(0x07) == (KeyCode::Printable { normal: '6', shifted: '^' }),
        key_of_code(0x08) == (KeyCode::Printable { normal: '7', shifted: '&' }),
        key_of_code(0x09) == (KeyCode::Printable { normal: '8', shifted: '*' }),
        key_of_code(0x0A) == (KeyCode::Printable { normal: '9', shifted: '(' }),
        key_of_code(0x0B) == (KeyCode::Printable { normal: '0', shifted: ')' }),
        key_of_code(0x0C) == (KeyCode::Printable { normal: '-', shifted: '_' }),
        key_of_code(0x0D) == (KeyCode::Printable { normal: '=', shifted: '+' }),
        key_of_code(0x1A) == (KeyCode::Printable { normal: '[', shifted: '{' }),
        key_of_code(0x1B) == (KeyCode::Printable { normal: ']', shifted: '}' }),
        key_of_code(0x27) == (KeyCode::Printable { normal: ';', shifted: ':' }),
        key_of_code(0x28) == (KeyCode::Printable { normal: '\'', shifted: '"' }),
        key_of_code(0x29) == (KeyCode::Printable { normal: '`', shifted: '~' }),
        key_of_code(0x2B) == (KeyCode::Printable { normal: '\\', shifted: '|' }),
        key_of_code(0x33) == (KeyCode::Printable { normal: ',', shifted: '<' }),
        key_of_code(0x34) == (KeyCode::Printable { normal: '.', shifted: '>' }),
        key_of_code(0x35) == (KeyCode::Printable { normal: '/', shifted: '?' }),
        key_of_code(0x1C) == KeyCode::Enter && key_of_code(0x0E) == KeyCode::Backspace,
        key_of_code(0x39) == KeyCode::Space && key_of_code(0x2A) == KeyCode::Shift,
        key_of_code(0x36) == KeyCode::Shift && key_of_code(0x3A) == KeyCode::CapsLock,
{
    assert(upper_of('a') == 'A');
    assert(upper_of('b') == 'B');
    assert(upper_of('c') == 'C');
    assert(upper_of('d') == 'D');
    assert(upper_of('e') == 'E');
    assert(upper_of('f') == 'F');
    assert(upper_of('g') == 'G');
    assert(upper_of('h') == 'H');
    assert(upper_of('i') == 'I');
    assert(upper_of('j') == 'J');
    assert(upper_of('k') == 'K');
    assert(upper_of('l') == 'L');
    assert(upper_of('m') == 'M');
    assert(upper_of('n') == 'N');
    assert(upper_of('o') == 'O');
    assert(upper_of('p') == 'P');
    assert(upper_of('q') == 'Q');
    assert(upper_of('r') == 'R');
    assert(upper_of('s') == 'S');
    assert(upper_of('t') == 'T');
    assert(upper_of('u') == 'U');
    assert(upper_of('v') == 'V');
    assert(upper_of('w') == 'W');
    assert(upper_of('x') == 'X');
    assert(upper_of('y') == 'Y');
    assert(upper_of('z') == 'Z');
}

} // verus!
