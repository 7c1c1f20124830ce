//! What the messages of the overlay's window ask for.

use vstd::prelude::*;

use crate::overlay::state::Phase;

verus! {

pub const TICK_ID: usize = 1;
pub const ESC_HOTKEY_ID: i32 = 0x4d44;
pub const ESC_KEY: usize = 0x1b;
pub const WM_DESTROY: u32 = 0x0002;
pub const WM_SETCURSOR: u32 = 0x0020;
pub const WM_KEYDOWN: u32 = 0x0100;
pub const WM_TIMER: u32 = 0x0113;
pub const WM_LBUTTONDOWN: u32 = 0x0201;
pub const WM_HOTKEY: u32 = 0x0312;

/// The number that sixteen bits mean in two's complement.
pub open spec fn signed_word(word: int) -> int {
    if word < 0x8000 {
        word
    } else {
        word - 0x1_0000
    }
}

fn word_to_number(word: isize) -> (number: i32)
    requires
        0 <= word <= 0xffff,
    ensures
        number == signed_word(word as int),
{
    if word < 0x8000 {
        word as i32
    } else {
        word as i32 - 0x1_0000
    }
}

/// The low word of a message parameter, as a signed number.
pub fn signed_low_word(value: isize) -> (word: i32)
    ensures
        word == signed_word((value & 0xffff) as int),
{
    assert(0 <= (value & 0xffff) <= 0xffff) by (bit_vector);
    word_to_number(value & 0xffff)
}

/// The high word of a message parameter, as a signed number.
pub fn signed_high_word(value: isize) -> (word: i32)
    ensures
        word == signed_word(((value >> 16) & 0xffff) as int),
{
    assert(0 <= ((value >> 16) & 0xffff) <= 0xffff) by (bit_vector);
    word_to_number((value >> 16) & 0xffff)
}

/// What a message asks for.
#[derive(Clone, Copy, PartialEq, Eq, Structural)]
pub enum WindowAction {
    Tick,
    /// A click at a point of the window.
    Click(i32, i32),
    Close,
    ShowCrosshair,
    /// Release what the window holds, and quit.
    Quit,
    /// Leave the message to the system.
    Default,
}

/// Whether the hot key of the message is the one that closes the overlay. Its
/// number is in the lower half of the parameter.
pub open spec fn is_escape_hotkey(wparam: usize) -> bool {
    wparam & 0xffff_ffff == ESC_HOTKEY_ID as usize
}

/// What a message asks for in a phase.
pub open spec fn action_of(
    message: u32,
    wparam: usize,
    lparam: isize,
    phase: Phase,
) -> WindowAction {
    if message == WM_TIMER && wparam == TICK_ID {
        WindowAction::Tick
    } else if message == WM_LBUTTONDOWN {
        WindowAction::Click(
            signed_word((lparam & 0xffff) as int) as i32,
            signed_word(((lparam >> 16) & 0xffff) as int) as i32,
        )
    } else if message == WM_HOTKEY && is_escape_hotkey(wparam) || message == WM_KEYDOWN && wparam
        == ESC_KEY {
        WindowAction::Close
    } else if message == WM_SETCURSOR && (phase == Phase::Select || phase
        == Phase::SelectUninstallTarget) {
        WindowAction::ShowCrosshair
    } else if message == WM_DESTROY {
        WindowAction::Quit
    } else {
        WindowAction::Default
    }
}

/// What a message asks for in a phase.
pub fn window_action(message: u32, wparam: usize, lparam: isize, phase: Phase) -> (action:
    WindowAction)
    ensures
        action == action_of(message, wparam, lparam, phase),
{
    match message {
        WM_TIMER => if wparam == TICK_ID {
            WindowAction::Tick
        } else {
            WindowAction::Default
        },
        WM_LBUTTONDOWN => WindowAction::Click(signed_low_word(lparam), signed_high_word(lparam)),
        WM_HOTKEY => if wparam & 0xffff_ffff == ESC_HOTKEY_ID as usize {
            WindowAction::Close
        } else {
            WindowAction::Default
        },
        WM_KEYDOWN => if wparam == ESC_KEY {
            WindowAction::Close
        } else {
            WindowAction::Default
        },
        WM_SETCURSOR => match phase {
            Phase::Select | Phase::SelectUninstallTarget => WindowAction::ShowCrosshair,
            _ => WindowAction::Default,
        },
        WM_DESTROY => WindowAction::Quit,
        _ => WindowAction::Default,
    }
}

/// The escape key closes the overlay in every phase, whether it comes as a hot
/// key or as a key.
pub proof fn law_escape_always_closes(phase: Phase, lparam: isize)
    ensures
        action_of(WM_HOTKEY, ESC_HOTKEY_ID as usize, lparam, phase) == WindowAction::Close,
        action_of(WM_KEYDOWN, ESC_KEY, lparam, phase) == WindowAction::Close,
{
    let id: usize = 0x4d44;
    assert(id & 0xffff_ffff == id) by (bit_vector)
        requires
            id == 0x4d44,
    ;
}

/// Whether `number` is what the sixteen bits mean: the same but for a multiple of two
/// to the sixteenth, and a number of sixteen bits with a sign.
pub open spec fn is_word_of(number: int, bits: int) -> bool {
    -0x8000 <= number < 0x8000 && (number == bits || number == bits - 0x1_0000)
}

/// A click carries its point: the horizontal place in the lower half of the parameter
/// and the vertical one in the upper half, each with its sign, also left of and above
/// the window.
pub proof fn law_clicks_carry_their_point(
    low: u16,
    high: u16,
    wparam: usize,
    lparam: isize,
    phase: Phase,
)
    requires
        lparam == high * 0x1_0000 + low || lparam == high * 0x1_0000 + low - 0x1_0000_0000,
    ensures
        action_of(0x0201, wparam, lparam, phase) matches WindowAction::Click(x, y) && is_word_of(
            x as int,
            low as int,
        ) && is_word_of(y as int, high as int),
{
    let wide = lparam as i64;
    assert(wide == lparam);
    let a = low as i64;
    let b = high as i64;
    assert((wide & 0xffff) == a && ((wide >> 16) & 0xffff) == b) by (bit_vector)
        requires
            wide == b * 0x1_0000 + a || wide == b * 0x1_0000 + a - 0x1_0000_0000,
            0 <= a <= 0xffff,
            0 <= b <= 0xffff,
    ;
    assert((lparam & 0xffff) as i64 == (lparam as i64) & 0xffff) by (bit_vector);
    assert(((lparam >> 16) & 0xffff) as i64 == ((lparam as i64) >> 16) & 0xffff) by (bit_vector);
}

/// What each message of the system asks for: the timer of the overlay for a tick, its
/// hot key and the escape key for closing, the end of the window for quitting, and
/// the question for a pointer for the crosshair where the user aims. Every other
/// message is left to the system.
pub proof fn law_messages_are_told_apart(
    message: u32,
    wparam: usize,
    lparam: isize,
    phase: Phase,
)
    ensures
        ({
            let action = action_of(message, wparam, lparam, phase);
            let aims = phase == Phase::Select || phase == Phase::SelectUninstallTarget;
            &&& action == WindowAction::Tick <==> message == 0x0113 && wparam == 1
            &&& action is Click <==> message == 0x0201
            &&& action == WindowAction::Close <==> message == 0x0312 && wparam & 0xffff_ffff
                == 0x4d44usize || message == 0x0100 && wparam == 27
            &&& action == WindowAction::ShowCrosshair <==> message == 0x0020 && aims
            &&& action == WindowAction::Quit <==> message == 0x0002
        }),
{
}

} // verus!
