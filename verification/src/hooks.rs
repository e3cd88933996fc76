//! Decisions of the Windows input hooks and of the black overlay window.
use vstd::prelude::*;

verus! {

/// `nCode` of a low-level hook call that carries an event to act on.
pub const HC_ACTION: i32 = 0;

/// `WM_CREATE`.
pub const WM_CREATE: u32 = 0x0001;

/// `WM_DESTROY`.
pub const WM_DESTROY: u32 = 0x0002;

/// `WM_CLOSE`.
pub const WM_CLOSE: u32 = 0x0010;

/// `WM_KEYDOWN`.
pub const WM_KEYDOWN: u32 = 0x0100;

/// `WM_SYSKEYDOWN`.
pub const WM_SYSKEYDOWN: u32 = 0x0104;

/// `WM_POWERBROADCAST`.
pub const WM_POWERBROADCAST: u32 = 0x0218;

/// `PBT_POWERSETTINGCHANGE`.
pub const PBT_POWERSETTINGCHANGE: usize = 0x8013;

/// What the keyboard hook does with an event: the key state it reports to the
/// switch (`Some(down)`), and whether it swallows the event.
#[derive(Clone, Copy, Debug, PartialEq, Eq, Structural)]
pub struct KeyboardVerdict {
    pub report: Option<bool>,
    pub block: bool,
}

/// The keyboard hook: an event to act on is reported (down for `WM_KEYDOWN` and
/// `WM_SYSKEYDOWN`, up otherwise) and swallowed while the switch is on; any other
/// call is passed on untouched.
pub fn keyboard_hook(code: i32, msg: u32, active: bool) -> (r: KeyboardVerdict)
    ensures
        code == HC_ACTION ==> r == (KeyboardVerdict {
            report: Some(msg == WM_KEYDOWN || msg == WM_SYSKEYDOWN),
            block: active,
        }),
        code != HC_ACTION ==> r == (KeyboardVerdict { report: None, block: false }),
{
    if code == HC_ACTION {
        let down = msg == WM_KEYDOWN || msg == WM_SYSKEYDOWN;
        KeyboardVerdict { report: Some(down), block: active }
    } else {
        KeyboardVerdict { report: None, block: false }
    }
}

/// The mouse hook swallows every event to act on while the switch is on.
pub fn mouse_hook_blocks(code: i32, active: bool) -> (r: bool)
    ensures
        r == (code == HC_ACTION && active),
{
    code == HC_ACTION && active
}

/// The first step of the overlay window's handling of a message.
#[derive(Clone, Copy, Debug, PartialEq, Eq, Structural)]
pub enum OverlayStep {
    /// A power-setting change while the switch is on: look at which setting changed.
    CheckPower,
    /// Create, close or destroy: answer 0, and end the message loop when `quit`.
    Close { quit: bool },
    /// Leave the message to the default window procedure.
    PassOn,
}

/// How the overlay window starts handling message `msg` with `wparam`, given
/// whether the switch's state exists yet and whether the switch is on.
pub fn overlay_message(state_ready: bool, active: bool, msg: u32, wparam: usize) -> (r: OverlayStep)
    ensures
        r == (if state_ready && msg == WM_POWERBROADCAST && active && wparam == PBT_POWERSETTINGCHANGE {
            OverlayStep::CheckPower
        } else if msg == WM_DESTROY || msg == WM_CLOSE || msg == WM_CREATE {
            OverlayStep::Close { quit: msg == WM_DESTROY }
        } else {
            OverlayStep::PassOn
        }),
{
    if state_ready && msg == WM_POWERBROADCAST && active && wparam == PBT_POWERSETTINGCHANGE {
        OverlayStep::CheckPower
    } else if msg == WM_DESTROY || msg == WM_CLOSE || msg == WM_CREATE {
        OverlayStep::Close { quit: msg == WM_DESTROY }
    } else {
        OverlayStep::PassOn
    }
}

/// The power setting a `WM_POWERBROADCAST` change is about.
#[derive(Clone, Copy, Debug, PartialEq, Eq, Structural)]
pub enum PowerSetting {
    /// `GUID_CONSOLE_DISPLAY_STATE`.
    ConsoleDisplayState,
    /// `GUID_MONITOR_POWER_ON`.
    MonitorPowerOn,
    /// Any other setting.
    Other,
}

/// Whether a power-setting change means a display is coming back on, so the
/// overlay must turn the monitors off again: the console display state became 1
/// (on), or the monitor-power-on setting changed.
pub fn display_woke(setting: PowerSetting, display_state: u32) -> (r: bool)
    ensures
        r == ((setting == PowerSetting::ConsoleDisplayState && display_state == 1)
            || setting == PowerSetting::MonitorPowerOn),
{
    match setting {
        PowerSetting::ConsoleDisplayState => display_state == 1,
        PowerSetting::MonitorPowerOn => true,
        PowerSetting::Other => false,
    }
}

/// Whether a foreground or z-order change must put the overlay back on top: the
/// switch is on and the window concerned is not the overlay itself.
pub fn refit_overlay(active: bool, is_overlay: bool) -> (r: bool)
    ensures
        r == (active && !is_overlay),
{
    active && !is_overlay
}

/// A `COLORREF` value: red in the low byte, then green, then blue.
pub fn rgb(r: u8, g: u8, b: u8) -> (c: u32)
    ensures
        c == r + 256 * g + 65536 * b,
{
    let c = (r as u32) | ((g as u32) << 8u32) | ((b as u32) << 16u32);
    assert(c == r + 256 * g + 65536 * b) by (bit_vector)
        requires
            c == (r as u32) | ((g as u32) << 8u32) | ((b as u32) << 16u32),
    ;
    c
}

} // verus!
