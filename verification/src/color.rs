//! What recolouring one window consists of, as a list of actions that the
//! caller performs against the operating system in order.
use vstd::prelude::*;
use crate::classify::WindowKind;
use crate::config::Colors;
use crate::win32::{
    TVM_SETBKCOLOR, TVM_SETTEXTCOLOR, TVM_SETLINECOLOR, LVM_SETBKCOLOR, LVM_SETTEXTCOLOR,
    LVM_SETTEXTBKCOLOR, HDM_SETBKCOLOR, WS_CHILD,
};

verus! {

/// A visual theme applied with `SetWindowTheme`.
#[derive(Debug, Clone, Copy, PartialEq, Eq, Structural)]
pub enum ThemeName {
    /// `DarkMode_Explorer`
    DarkExplorer,
    /// `DarkMode_ItemsView`
    DarkItemsView,
}

impl ThemeName {
    /// The theme's name as `SetWindowTheme` takes it.
    pub fn name(&self) -> (n: &'static str)
        ensures
            n@ == (match self {
                ThemeName::DarkExplorer => "DarkMode_Explorer"@,
                ThemeName::DarkItemsView => "DarkMode_ItemsView"@,
            }),
    {
        match self {
            ThemeName::DarkExplorer => "DarkMode_Explorer",
            ThemeName::DarkItemsView => "DarkMode_ItemsView",
        }
    }
}

/// One step of recolouring a window.
#[derive(Debug, Clone, Copy, PartialEq, Eq, Structural)]
pub enum ColorAction {
    /// Turn on the immersive dark title bar (`DwmSetWindowAttribute`).
    DarkTitleBar,
    /// Send a colour message with `wParam` 0 and the colour as `lParam`.
    SendColor { msg: u32, color: u32 },
    /// Apply a visual theme.
    SetTheme { theme: ThemeName },
}

/// The steps specific to the kind of control.
pub open spec fn spec_kind_actions(kind: WindowKind, colors: Colors) -> Seq<ColorAction> {
    match kind {
        WindowKind::TreeView => seq![
            ColorAction::SendColor { msg: TVM_SETBKCOLOR, color: colors.bg },
            ColorAction::SendColor { msg: TVM_SETTEXTCOLOR, color: colors.text },
            ColorAction::SendColor { msg: TVM_SETLINECOLOR, color: colors.line },
            ColorAction::SetTheme { theme: ThemeName::DarkExplorer },
        ],
        WindowKind::ListView => seq![
            ColorAction::SendColor { msg: LVM_SETBKCOLOR, color: colors.bg },
            ColorAction::SendColor { msg: LVM_SETTEXTCOLOR, color: colors.text },
            ColorAction::SendColor { msg: LVM_SETTEXTBKCOLOR, color: colors.bg },
            ColorAction::SetTheme { theme: ThemeName::DarkExplorer },
        ],
        WindowKind::Header => seq![ColorAction::SetTheme { theme: ThemeName::DarkItemsView }],
        WindowKind::Other => seq![ColorAction::SetTheme { theme: ThemeName::DarkExplorer }],
    }
}

/// Whether a window with this style is a top-level window.
pub open spec fn is_top_level(style: u32) -> bool {
    style & WS_CHILD == 0
}

/// All steps for a window: the dark title bar first for a top-level window,
/// then the steps for its kind.
pub open spec fn spec_color_actions(style: u32, kind: WindowKind, colors: Colors) -> Seq<
    ColorAction,
> {
    (if is_top_level(style) {
        seq![ColorAction::DarkTitleBar]
    } else {
        Seq::empty()
    }) + spec_kind_actions(kind, colors)
}

/// Plans the recolouring of a window of the given style and kind.
pub fn color_actions(style: u32, kind: WindowKind, colors: &Colors) -> (acts: Vec<ColorAction>)
    ensures
        acts@ == spec_color_actions(style, kind, *colors),
{
    let mut acts: Vec<ColorAction> = Vec::new();
    if style & WS_CHILD == 0 {
        acts.push(ColorAction::DarkTitleBar);
    }
    let ghost prefix = acts@;
    match kind {
        WindowKind::TreeView => {
            acts.push(ColorAction::SendColor { msg: TVM_SETBKCOLOR, color: colors.bg });
            acts.push(ColorAction::SendColor { msg: TVM_SETTEXTCOLOR, color: colors.text });
            acts.push(ColorAction::SendColor { msg: TVM_SETLINECOLOR, color: colors.line });
            acts.push(ColorAction::SetTheme { theme: ThemeName::DarkExplorer });
        },
        WindowKind::ListView => {
            acts.push(ColorAction::SendColor { msg: LVM_SETBKCOLOR, color: colors.bg });
            acts.push(ColorAction::SendColor { msg: LVM_SETTEXTCOLOR, color: colors.text });
            acts.push(ColorAction::SendColor { msg: LVM_SETTEXTBKCOLOR, color: colors.bg });
            acts.push(ColorAction::SetTheme { theme: ThemeName::DarkExplorer });
        },
        WindowKind::Header => {
            acts.push(ColorAction::SetTheme { theme: ThemeName::DarkItemsView });
        },
        WindowKind::Other => {
            acts.push(ColorAction::SetTheme { theme: ThemeName::DarkExplorer });
        },
    }
    assert(acts@ =~= prefix + spec_kind_actions(kind, *colors));
    acts
}

/// The header "background colour" message is never sent: that message
/// number takes a pointer, and a colour in its place would be dereferenced.
pub proof fn lemma_never_sends_header_bkcolor(style: u32, kind: WindowKind, colors: Colors)
    ensures
        forall|i: int|
            0 <= i < spec_color_actions(style, kind, colors).len() ==> !(
            #[trigger] spec_color_actions(style, kind, colors)[i] matches ColorAction::SendColor {
                msg,
                ..
            } && msg == HDM_SETBKCOLOR),
{
}

/// Only top-level windows get the dark title bar, and every top-level
/// window gets it as the first step.
pub proof fn lemma_title_bar_only_top_level(style: u32, kind: WindowKind, colors: Colors)
    ensures
        spec_color_actions(style, kind, colors).contains(ColorAction::DarkTitleBar) <==> is_top_level(style),
        is_top_level(style) ==> spec_color_actions(style, kind, colors)[0] == ColorAction::DarkTitleBar,
{
    let acts = spec_color_actions(style, kind, colors);
    if is_top_level(style) {
        assert(acts[0] == ColorAction::DarkTitleBar);
    } else {
        assert(acts == spec_kind_actions(kind, colors));
        assert(!spec_kind_actions(kind, colors).contains(ColorAction::DarkTitleBar)) by {
            let k = spec_kind_actions(kind, colors);
            assert forall|i: int| 0 <= i < k.len() implies k[i] != ColorAction::DarkTitleBar by {}
        }
    }
}

/// The dark title bar is decided by the `WS_CHILD` bit (`0x4000_0000`)
/// alone: it is the first step exactly when that bit is clear, and no step
/// of a window with the bit set is a dark title bar.
pub proof fn lemma_title_bar_by_child_bit(style: u32, kind: WindowKind, colors: Colors)
    ensures
        spec_color_actions(style, kind, colors).len() > 0,
        (spec_color_actions(style, kind, colors)[0] == ColorAction::DarkTitleBar) <==> (style
            & 0x4000_0000u32 == 0),
        style & 0x4000_0000u32 != 0 ==> forall|i: int|
            0 <= i < spec_color_actions(style, kind, colors).len() ==> #[trigger] spec_color_actions(
                style,
                kind,
                colors,
            )[i] != ColorAction::DarkTitleBar,
{
    let acts = spec_color_actions(style, kind, colors);
    let k = spec_kind_actions(kind, colors);
    assert(k.len() > 0 && k[0] != ColorAction::DarkTitleBar);
    assert forall|i: int| 0 <= i < k.len() implies k[i] != ColorAction::DarkTitleBar by {}
    if style & 0x4000_0000u32 == 0 {
        assert(acts[0] == ColorAction::DarkTitleBar);
    } else {
        assert(acts =~= k);
    }
}

/// Every kind of window gets a visual theme, as its last step.
pub proof fn lemma_theme_last(style: u32, kind: WindowKind, colors: Colors)
    ensures
        spec_color_actions(style, kind, colors).last() is SetTheme,
{
}

} // verus!
