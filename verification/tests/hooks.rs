use clkmonoff::hooks::{
    display_woke, keyboard_hook, mouse_hook_blocks, overlay_message, refit_overlay, rgb, KeyboardVerdict,
    OverlayStep, PowerSetting, HC_ACTION, PBT_POWERSETTINGCHANGE, WM_CLOSE, WM_CREATE, WM_DESTROY,
    WM_KEYDOWN, WM_POWERBROADCAST, WM_SYSKEYDOWN,
};
use clkmonoff::ledger::MuteLedger;

const WM_KEYUP: u32 = 0x0101;

#[test]
fn keyboard_hook_reports_and_blocks_while_active() {
    assert_eq!(keyboard_hook(HC_ACTION, WM_KEYDOWN, false), KeyboardVerdict { report: Some(true), block: false });
    assert_eq!(keyboard_hook(HC_ACTION, WM_SYSKEYDOWN, true), KeyboardVerdict { report: Some(true), block: true });
    assert_eq!(keyboard_hook(HC_ACTION, WM_KEYUP, true), KeyboardVerdict { report: Some(false), block: true });
    assert_eq!(keyboard_hook(3, WM_KEYDOWN, true), KeyboardVerdict { report: None, block: false });
}

#[test]
fn mouse_hook_blocks_only_actions_while_active() {
    assert!(mouse_hook_blocks(HC_ACTION, true));
    assert!(!mouse_hook_blocks(HC_ACTION, false));
    assert!(!mouse_hook_blocks(-1, true));
}

#[test]
fn overlay_message_steps() {
    assert_eq!(overlay_message(true, true, WM_POWERBROADCAST, PBT_POWERSETTINGCHANGE), OverlayStep::CheckPower);
    assert_eq!(overlay_message(false, true, WM_POWERBROADCAST, PBT_POWERSETTINGCHANGE), OverlayStep::PassOn);
    assert_eq!(overlay_message(true, false, WM_POWERBROADCAST, PBT_POWERSETTINGCHANGE), OverlayStep::PassOn);
    assert_eq!(overlay_message(true, true, WM_POWERBROADCAST, 0x000A), OverlayStep::PassOn);
    assert_eq!(overlay_message(true, true, WM_DESTROY, 0), OverlayStep::Close { quit: true });
    assert_eq!(overlay_message(false, false, WM_CLOSE, 0), OverlayStep::Close { quit: false });
    assert_eq!(overlay_message(false, false, WM_CREATE, 0), OverlayStep::Close { quit: false });
    assert_eq!(overlay_message(true, true, 0x000F, 0), OverlayStep::PassOn);
}

#[test]
fn display_woke_cases() {
    assert!(display_woke(PowerSetting::ConsoleDisplayState, 1));
    assert!(!display_woke(PowerSetting::ConsoleDisplayState, 0));
    assert!(!display_woke(PowerSetting::ConsoleDisplayState, 2));
    assert!(display_woke(PowerSetting::MonitorPowerOn, 0));
    assert!(!display_woke(PowerSetting::Other, 1));
}

#[test]
fn refit_overlay_cases() {
    assert!(refit_overlay(true, false));
    assert!(!refit_overlay(true, true));
    assert!(!refit_overlay(false, false));
}

#[test]
fn rgb_packs_bytes() {
    assert_eq!(rgb(0, 0, 0), 0);
    assert_eq!(rgb(1, 2, 3), 0x030201);
    assert_eq!(rgb(255, 255, 255), 0xFFFFFF);
}

#[test]
fn ledger_restores_last_noted_states() {
    let mut l = MuteLedger::new();
    assert_eq!(l.record("dev-a".to_string(), 10, false), None);
    assert_eq!(l.record("dev-b".to_string(), 20, true), None);
    assert_eq!(l.record("dev-a".to_string(), 11, true), Some(10));
    assert_eq!(l.record("dev-c".to_string(), 30, false), None);
    let back = l.take_all();
    assert_eq!(back, vec![(11, true), (20, true), (30, false)]);
    assert_eq!(l.take_all(), vec![]);
}
