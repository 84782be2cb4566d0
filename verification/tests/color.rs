use dark_inject::classify::WindowKind;
use dark_inject::color::{color_actions, ColorAction, ThemeName};
use dark_inject::config::Colors;
use dark_inject::win32::{
    HDM_SETBKCOLOR, LVM_SETBKCOLOR, LVM_SETTEXTBKCOLOR, LVM_SETTEXTCOLOR, TVM_SETBKCOLOR,
    TVM_SETLINECOLOR, TVM_SETTEXTCOLOR, WS_CHILD,
};

const COLORS: Colors = Colors { bg: 0x111111, text: 0x222222, line: 0x333333 };

#[test]
fn treeview_child_gets_three_colors_and_theme() {
    let acts = color_actions(WS_CHILD, WindowKind::TreeView, &COLORS);
    assert_eq!(
        acts,
        vec![
            ColorAction::SendColor { msg: TVM_SETBKCOLOR, color: 0x111111 },
            ColorAction::SendColor { msg: TVM_SETTEXTCOLOR, color: 0x222222 },
            ColorAction::SendColor { msg: TVM_SETLINECOLOR, color: 0x333333 },
            ColorAction::SetTheme { theme: ThemeName::DarkExplorer },
        ]
    );
}

#[test]
fn top_level_listview_gets_title_bar_first() {
    let acts = color_actions(0, WindowKind::ListView, &COLORS);
    assert_eq!(
        acts,
        vec![
            ColorAction::DarkTitleBar,
            ColorAction::SendColor { msg: LVM_SETBKCOLOR, color: 0x111111 },
            ColorAction::SendColor { msg: LVM_SETTEXTCOLOR, color: 0x222222 },
            ColorAction::SendColor { msg: LVM_SETTEXTBKCOLOR, color: 0x111111 },
            ColorAction::SetTheme { theme: ThemeName::DarkExplorer },
        ]
    );
}

#[test]
fn header_gets_items_view_theme_only() {
    let acts = color_actions(WS_CHILD | 0x10, WindowKind::Header, &COLORS);
    assert_eq!(acts, vec![ColorAction::SetTheme { theme: ThemeName::DarkItemsView }]);
    for a in color_actions(0, WindowKind::Header, &COLORS) {
        assert_ne!(a, ColorAction::SendColor { msg: HDM_SETBKCOLOR, color: 0x111111 });
    }
}

#[test]
fn other_windows_get_explorer_theme() {
    assert_eq!(
        color_actions(WS_CHILD, WindowKind::Other, &COLORS),
        vec![ColorAction::SetTheme { theme: ThemeName::DarkExplorer }]
    );
    assert_eq!(ThemeName::DarkExplorer.name(), "DarkMode_Explorer");
    assert_eq!(ThemeName::DarkItemsView.name(), "DarkMode_ItemsView");
}
