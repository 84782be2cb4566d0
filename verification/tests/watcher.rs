use dark_inject::watcher::{tray_action, InjectionTracker, TrayAction, HOTKEY_ID};
use dark_inject::win32::{WM_DESTROY, WM_HOTKEY};

#[test]
fn each_process_is_attempted_once() {
    let mut t = InjectionTracker::new();
    assert!(t.claim(42));
    assert!(!t.claim(42));
    assert!(t.claim(43));
}

#[test]
fn failed_startup_injection_is_retried_later() {
    let mut t = InjectionTracker::new();
    t.record_startup(1, true);
    t.record_startup(2, false);
    assert!(!t.claim(1));
    assert!(t.claim(2));
    assert!(!t.claim(2));
}

#[test]
fn tray_window_messages() {
    assert_eq!(tray_action(WM_HOTKEY, HOTKEY_ID as usize), TrayAction::ToggleFlag);
    assert_eq!(tray_action(WM_HOTKEY, 2), TrayAction::PassOn);
    assert_eq!(tray_action(WM_HOTKEY, 0x1_0000_0001), TrayAction::ToggleFlag);
    assert_eq!(tray_action(WM_DESTROY, 0), TrayAction::Handled);
    assert_eq!(tray_action(0x000F, 0), TrayAction::PassOn);
}
