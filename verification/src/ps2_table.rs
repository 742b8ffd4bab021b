use vstd::prelude::*;

verus! {

/// Letter printed by the key whose set-1 make code is `sc`, or `'\0'`.
pub open spec fn alpha_of(sc: u8) -> char {
    if sc == 0x1E { 'a' }
    else if sc == 0x30 { 'b' }
    else if sc == 0x2E { 'c' }
    else if sc == 0x20 { 'd' }
    else if sc == 0x12 { 'e' }
    else if sc == 0x21 { 'f' }
    else if sc == 0x22 { 'g' }
    else if sc == 0x23 { 'h' }
    else if sc == 0x17 { 'i' }
    else if sc == 0x24 { 'j' }
    else if sc == 0x25 { 'k' }
    else if sc == 0x26 { 'l' }
    else if sc == 0x32 { 'm' }
    else if sc == 0x31 { 'n' }
    else if sc == 0x18 { 'o' }
    else if sc == 0x19 { 'p' }
    else if sc == 0x10 { 'q' }
    else if sc == 0x13 { 'r' }
    else if sc == 0x1F { 's' }
    else if sc == 0x14 { 't' }
    else if sc == 0x16 { 'u' }
    else if sc == 0x2F { 'v' }
    else if sc == 0x11 { 'w' }
    else if sc == 0x2D { 'x' }
    else if sc == 0x15 { 'y' }
    else if sc == 0x2C { 'z' }
    else { '\0' }
}

/// The (unshifted, shifted) characters of the non-letter printable keys, by make code.
pub open spec fn symbol_of(code: u8) -> Option<(char, char)> {
    if code == 0x02 { Some(('1', '!')) }
    else if code == 0x03 { Some(('2', '@')) }
    else if code == 0x04 { Some(('3', '#')) }
    else if code == 0x05 { Some(('4', '$')) }
    else if code == 0x06 { Some(('5', '%')) }
    else if code == 0x07 { Some(('6', '^')) }
    else if code == 0x08 { Some(('7', '&')) }
    else if code == 0x09 { Some(('8', '*')) }
    else if code == 0x0A { Some(('9', '(')) }
    else if code == 0x0B { Some(('0', ')')) }
    else if code == 0x0C { Some(('-', '_')) }
    else if code == 0x0D { Some(('=', '+')) }
    else if code == 0x1A { Some(('[', '{')) }
    else if code == 0x1B { Some((']', '}')) }
    else if code == 0x27 { Some((';', ':')) }
    else if code == 0x28 { Some(('\'', '"')) }
    else if code == 0x29 { Some(('`', '~')) }
    else if code == 0x2B { Some(('\\', '|')) }
    else if code == 0x33 { Some((',', '<')) }
    else if code == 0x34 { Some(('.', '>')) }
    else if code == 0x35 { Some(('/', '?')) }
    else { None }
}

/// The lower-case letter a letter key's scancode stands for.
pub fn map_alpha(sc: u8) -> (c: char)
    ensures
        c == alpha_of(sc),
{
    match sc {
        0x1E => 'a',
        0x30 => 'b',
        0x2E => 'c',
        0x20 => 'd',
        0x12 => 'e',
        0x21 => 'f',
        0x22 => 'g',
        0x23 => 'h',
        0x17 => 'i',
        0x24 => 'j',
        0x25 => 'k',
        0x26 => 'l',
        0x32 => 'm',
        0x31 => 'n',
        0x18 => 'o',
        0x19 => 'p',
        0x10 => 'q',
        0x13 => 'r',
        0x1F => 's',
        0x14 => 't',
        0x16 => 'u',
        0x2F => 'v',
        0x11 => 'w',
        0x2D => 'x',
        0x15 => 'y',
        0x2C => 'z',
        _ => '\0',
    }
}

/// The unshifted and shifted characters of a digit or symbol key.
pub fn symbol_pair(code: u8) -> (r: Option<(char, char)>)
    ensures
        r == symbol_of(code),
{
    match code {
        0x02 => Some(('1', '!')),
        0x03 => Some(('2', '@')),
        0x04 => Some(('3', '#')),
        0x05 => Some(('4', '$')),
        0x06 => Some(('5', '%')),
        0x07 => Some(('6', '^')),
        0x08 => Some(('7', '&')),
        0x09 => Some(('8', '*')),
        0x0A => Some(('9', '(')),
        0x0B => Some(('0', ')')),
        0x0C => Some(('-', '_')),
        0x0D => Some(('=', '+')),
        0x1A => Some(('[', '{')),
        0x1B => Some((']', '}')),
        0x27 => Some((';', ':')),
        0x28 => Some(('\'', '"')),
        0x29 => Some(('`', '~')),
        0x2B => Some(('\\', '|')),
        0x33 => Some((',', '<')),
        0x34 => Some(('.', '>')),
        0x35 => Some(('/', '?')),
        _ => None,
    }
}

} // verus!
