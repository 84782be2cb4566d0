//! Recognition of the common-control window classes that get a dedicated
//! colour treatment.
use vstd::prelude::*;
use crate::text::str_equal;

verus! {

/// The kinds of window told apart by their class name.
#[derive(Debug, Clone, Copy, PartialEq, Eq, Structural)]
pub enum WindowKind {
    TreeView,
    ListView,
    Header,
    Other,
}

/// The kind that a window class name stands for.
pub open spec fn spec_classify(class_name: Seq<char>) -> WindowKind {
    if class_name == "SysTreeView32"@ {
        WindowKind::TreeView
    } else if class_name == "SysListView32"@ {
        WindowKind::ListView
    } else if class_name == "SysHeader32"@ {
        WindowKind::Header
    } else {
        WindowKind::Other
    }
}

/// Classifies a window by its exact (case-sensitive) class name.
pub fn classify_window(class_name: &str) -> (kind: WindowKind)
    ensures
        kind == spec_classify(class_name@),
{
    if str_equal(class_name, "SysTreeView32") {
        WindowKind::TreeView
    } else if str_equal(class_name, "SysListView32") {
        WindowKind::ListView
    } else if str_equal(class_name, "SysHeader32") {
        WindowKind::Header
    } else {
        WindowKind::Other
    }
}

} // verus!
