//! Recolouring windows as they are created and in periodic passes: the
//! palette in force, the window hooks installed, and the plans of the
//! recolouring that the caller carries out.
use vstd::prelude::*;
use crate::classify::{classify_window, spec_classify};
use crate::color::{ColorAction, color_actions, spec_color_actions};
use crate::config::{Colors, default_palette};
use crate::win32::{HCBT_CREATEWND, HC_ACTION, WM_CREATE};

verus! {

/// A window as observed by the caller.
pub struct WindowInfo {
    pub hwnd: isize,
    pub class_name: String,
    /// The window style (`GWL_STYLE`).
    pub style: u32,
}

/// The recolouring of one window.
pub struct WindowPlan {
    pub hwnd: isize,
    pub actions: Vec<ColorAction>,
}

/// The steps for a window given its class name and style.
pub open spec fn spec_window_actions(active: Colors, class_name: Seq<char>, style: u32) -> Seq<
    ColorAction,
> {
    spec_color_actions(style, spec_classify(class_name), active)
}

/// The hook list after recording one `SetWindowsHookExW` result: a failed
/// installation (zero handle) is not recorded.
pub open spec fn spec_record_hook(hooks: Seq<isize>, hook: isize) -> Seq<isize> {
    if hook != 0 {
        hooks.push(hook)
    } else {
        hooks
    }
}

/// The window-creation hooks act on `HCBT_CREATEWND`.
pub fn colors_on_cbt(code: i32) -> (r: bool)
    ensures
        r == (code == HCBT_CREATEWND),
{
    code == HCBT_CREATEWND
}

/// The after-call hook acts on a `WM_CREATE` that it may process.
pub fn colors_after_create(code: i32, message: u32) -> (r: bool)
    ensures
        r == (code == HC_ACTION && message == WM_CREATE),
{
    code == HC_ACTION && message == WM_CREATE
}

/// The palette in force and the hooks installed.
pub struct HookState {
    active: Colors,
    installed: Vec<isize>,
}

impl HookState {
    /// The palette in force.
    pub closed spec fn palette(&self) -> Colors {
        self.active
    }

    /// The palette in force.
    pub fn active_colors(&self) -> (c: Colors)
        ensures
            c == self.palette(),
    {
        self.active
    }

    /// The hooks recorded, in installation order.
    pub closed spec fn hooks(&self) -> Seq<isize> {
        self.installed@
    }

    /// No recorded hook is a zero handle.
    pub closed spec fn inv(&self) -> bool {
        forall|i: int| 0 <= i < self.installed@.len() ==> self.installed@[i] != 0
    }

    /// The built-in palette, no hook.
    pub fn new() -> (s: HookState)
        ensures
            s.palette() == default_palette(),
            s.hooks() == Seq::<isize>::empty(),
            s.inv(),
    {
        HookState {
            active: Colors { bg: 0x1E1E1E, text: 0xD4D4D4, line: 0x3C3C3C },
            installed: Vec::new(),
        }
    }

    /// Puts a palette in force.
    pub fn set_active_colors(&mut self, colors: Colors)
        ensures
            final(self).palette() == colors,
            final(self).hooks() == old(self).hooks(),
            old(self).inv() ==> final(self).inv(),
    {
        self.active = colors;
    }

    /// Records the result of one hook installation.
    pub fn record_hook(&mut self, hook: isize)
        ensures
            final(self).hooks() == spec_record_hook(old(self).hooks(), hook),
            final(self).palette() == old(self).palette(),
            old(self).inv() ==> final(self).inv(),
    {
        if hook != 0 {
            self.installed.push(hook);
        }
    }

    /// Hands out every recorded hook, in installation order, for removal,
    /// and forgets them.
    pub fn uninstall_all_hooks(&mut self) -> (hooks: Vec<isize>)
        ensures
            hooks@ == old(self).hooks(),
            final(self).hooks() == Seq::<isize>::empty(),
            final(self).palette() == old(self).palette(),
            final(self).inv(),
    {
        let mut taken: Vec<isize> = Vec::new();
        std::mem::swap(&mut taken, &mut self.installed);
        taken
    }

    /// The recolouring of a window that has just been created.
    pub fn on_window_created(&self, class_name: &str, style: u32) -> (acts: Vec<ColorAction>)
        ensures
            acts@ == spec_window_actions(self.palette(), class_name@, style),
    {
        let kind = classify_window(class_name);
        color_actions(style, kind, &self.active)
    }

    /// The recolouring of every listed window, in order, with the palette in
    /// force.
    pub fn recolor_pass(&self, windows: &[WindowInfo]) -> (plans: Vec<WindowPlan>)
        ensures
            plans.len() == windows.len(),
            forall|i: int|
                0 <= i < windows.len() ==> (#[trigger] plans@[i]).hwnd == windows@[i].hwnd
                    && plans@[i].actions@ == spec_window_actions(
                    self.palette(),
                    windows@[i].class_name@,
                    windows@[i].style,
                ),
    {
        let colors = self.active;
        let mut plans: Vec<WindowPlan> = Vec::new();
        let mut i: usize = 0;
        while i < windows.len()
            invariant
                colors == self.active,
                0 <= i <= windows.len(),
                plans.len() == i,
                forall|j: int|
                    0 <= j < i ==> (#[trigger] plans@[j]).hwnd == windows@[j].hwnd
                        && plans@[j].actions@ == spec_window_actions(
                        colors,
                        windows@[j].class_name@,
                        windows@[j].style,
                    ),
            decreases windows.len() - i,
        {
            let w = &windows[i];
            let kind = classify_window(w.class_name.as_str());
            let actions = color_actions(w.style, kind, &colors);
            plans.push(WindowPlan { hwnd: w.hwnd, actions });
            i = i + 1;
        }
        plans
    }
}

/// Recording a sequence of installation results keeps exactly the non-zero
/// handles, in order; a later removal hands out exactly those.
pub open spec fn spec_record_all(hooks: Seq<isize>, results: Seq<isize>) -> Seq<isize>
    decreases results.len(),
{
    if results.len() == 0 {
        hooks
    } else {
        spec_record_hook(spec_record_all(hooks, results.drop_last()), results.last())
    }
}

/// Recording installation results from no hooks yields the non-zero
/// handles among them, in order.
pub proof fn lemma_record_all_nonzero(results: Seq<isize>)
    ensures
        spec_record_all(Seq::empty(), results) == results.filter(|h: isize| h != 0),
    decreases results.len(),
{
    reveal_with_fuel(Seq::<_>::filter, 1);
    if results.len() > 0 {
        lemma_record_all_nonzero(results.drop_last());
    }
}

} // verus!
