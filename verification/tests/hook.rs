use dark_inject::color::{ColorAction, ThemeName};
use dark_inject::config::Colors;
use dark_inject::hook::{colors_after_create, colors_on_cbt, HookState, WindowInfo};
use dark_inject::win32::{HCBT_CREATEWND, HC_ACTION, TVM_SETBKCOLOR, WM_CREATE, WS_CHILD};

#[test]
fn records_only_installed_hooks_and_hands_them_out_once() {
    let mut st = HookState::new();
    st.record_hook(0x10);
    st.record_hook(0);
    st.record_hook(0x20);
    assert_eq!(st.uninstall_all_hooks(), vec![0x10, 0x20]);
    assert!(st.uninstall_all_hooks().is_empty());
}

#[test]
fn window_created_uses_active_palette() {
    let mut st = HookState::new();
    let colors = Colors { bg: 0xABCDEF, text: 0x111111, line: 0x222222 };
    st.set_active_colors(colors);
    assert_eq!(st.active_colors(), colors);
    let acts = st.on_window_created("SysTreeView32", WS_CHILD);
    assert_eq!(acts[0], ColorAction::SendColor { msg: TVM_SETBKCOLOR, color: 0xABCDEF });
    assert_eq!(acts.len(), 4);
    let acts = st.on_window_created("Button", 0);
    assert_eq!(
        acts,
        vec![ColorAction::DarkTitleBar, ColorAction::SetTheme { theme: ThemeName::DarkExplorer }]
    );
}

#[test]
fn recolor_pass_plans_every_window_in_order() {
    let st = HookState::new();
    let windows = vec![
        WindowInfo { hwnd: 5, class_name: "SysHeader32".to_string(), style: WS_CHILD },
        WindowInfo { hwnd: 9, class_name: "Main".to_string(), style: 0 },
    ];
    let plans = st.recolor_pass(&windows);
    assert_eq!(plans.len(), 2);
    assert_eq!(plans[0].hwnd, 5);
    assert_eq!(plans[0].actions, vec![ColorAction::SetTheme { theme: ThemeName::DarkItemsView }]);
    assert_eq!(plans[1].hwnd, 9);
    assert_eq!(plans[1].actions[0], ColorAction::DarkTitleBar);
    assert!(st.recolor_pass(&[]).is_empty());
}

#[test]
fn hook_codes_that_trigger_recoloring() {
    assert!(colors_on_cbt(HCBT_CREATEWND));
    assert!(!colors_on_cbt(0));
    assert!(colors_after_create(HC_ACTION, WM_CREATE));
    assert!(!colors_after_create(HC_ACTION, 2));
    assert!(!colors_after_create(-1, WM_CREATE));
}
