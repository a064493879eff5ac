//! The global hotkey that asks for a bulk close, and what its listener makes
//! of the messages it receives.

use vstd::prelude::*;

verus! {

/// The message number under which the system reports a pressed hotkey.
pub const WM_HOTKEY: u32 = 0x0312;

/// The id under which the kill hotkey is registered.
pub const KILL_HOTKEY_ID: i32 = 1;

/// The modifier keys of the kill hotkey: Alt and Control together.
pub const KILL_HOTKEY_MODIFIERS: u32 = 0x0003;

/// The virtual key of the kill hotkey: the letter J.
pub const KILL_HOTKEY_KEY: u32 = 0x4A;

/// What the hotkey listener tells the polling loop.
#[derive(Clone, Copy, Debug, PartialEq, Eq, Structural)]
pub enum HotkeyEvent {
    /// The kill hotkey was pressed: one bulk close is asked for.
    Kill,
}

/// The message is the report of the kill hotkey.
pub open spec fn is_kill_message(message: u32, wparam: usize) -> bool {
    message == WM_HOTKEY && wparam == 1
}

/// What the listener sends for one message from its queue: one `Kill` for a
/// report of the kill hotkey, nothing for any other message.
pub fn hotkey_event(message: u32, wparam: usize) -> (event: Option<HotkeyEvent>)
    ensures
        event == (if is_kill_message(message, wparam) {
            Some(HotkeyEvent::Kill)
        } else {
            None
        }),
{
    if message == WM_HOTKEY && wparam == 1 {
        Some(HotkeyEvent::Kill)
    } else {
        None
    }
}

} // verus!
