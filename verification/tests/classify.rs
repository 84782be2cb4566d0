use dark_inject::classify::{classify_window, WindowKind};

#[test]
fn classifies_treeview() {
    assert_eq!(classify_window("SysTreeView32"), WindowKind::TreeView);
}

#[test]
fn classifies_listview() {
    assert_eq!(classify_window("SysListView32"), WindowKind::ListView);
}

#[test]
fn classifies_header() {
    assert_eq!(classify_window("SysHeader32"), WindowKind::Header);
}

#[test]
fn classifies_unknown_as_other() {
    assert_eq!(classify_window("Button"), WindowKind::Other);
    assert_eq!(classify_window(""), WindowKind::Other);
    assert_eq!(classify_window("SomeMFCWndClassW"), WindowKind::Other);
}

#[test]
fn classification_is_case_sensitive() {
    assert_eq!(classify_window("systreeview32"), WindowKind::Other);
    assert_eq!(classify_window("SysTreeView32 "), WindowKind::Other);
    assert_eq!(classify_window("SysTreeView3"), WindowKind::Other);
}
