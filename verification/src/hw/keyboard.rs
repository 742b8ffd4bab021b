//! Keyboard interrupt handling: a scancode becomes a key event, the event
//! possibly a character, and the character input to the terminal.
use vstd::prelude::*;
use crate::ps2::{char_of, decode_scancode, event_of, keyevent_to_char, state_after, KeyboardState};
use super::tty::{Echo, Tty};

verus! {

/// Handle one scancode: update the keyboard state and, when the key gives a
/// character, feed its low byte to the terminal. Returns what to echo then.
pub fn handle_scancode(kbd: &mut KeyboardState, tty: &mut Tty, scancode: u8) -> (r: Option<Echo>)
    requires
        old(tty).wf(),
    ensures
        final(tty).wf(),
        *final(kbd) == state_after(*old(kbd), event_of(scancode)),
        match char_of(*final(kbd), event_of(scancode)) {
            Some(c) => r matches Some(e) && super::tty::typed(*old(tty), *final(tty), c as u32 as u8, e),
            None => r is None && final(tty).cooked() == old(tty).cooked() && final(tty).line() == old(tty).line(),
        },
{
    let event = decode_scancode(kbd, scancode);
    match keyevent_to_char(kbd, event) {
        Some(c) => Some(tty.input_char((c as u32) as u8)),
        None => None,
    }
}

} // verus!
