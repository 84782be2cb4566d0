//! Selecting the top-level windows of one process from an enumeration of
//! all top-level windows; windows of other processes are never selected.
use vstd::prelude::*;

verus! {

/// A top-level window and the process that owns it.
#[derive(Debug, Clone, Copy, PartialEq, Eq, Structural)]
pub struct WindowOwner {
    pub hwnd: isize,
    pub owner_pid: u32,
}

/// The windows owned by `pid`, in enumeration order.
pub open spec fn spec_windows_of(windows: Seq<WindowOwner>, pid: u32) -> Seq<isize>
    decreases windows.len(),
{
    if windows.len() == 0 {
        seq![]
    } else {
        let rest = spec_windows_of(windows.drop_last(), pid);
        if windows.last().owner_pid == pid {
            rest.push(windows.last().hwnd)
        } else {
            rest
        }
    }
}

/// Keeps the windows owned by `pid`.
pub fn windows_owned_by(windows: &[WindowOwner], pid: u32) -> (hwnds: Vec<isize>)
    ensures
        hwnds@ == spec_windows_of(windows@, pid),
{
    let mut hwnds: Vec<isize> = Vec::new();
    let mut i: usize = 0;
    while i < windows.len()
        invariant
            0 <= i <= windows.len(),
            hwnds@ == spec_windows_of(windows@.take(i as int), pid),
        decreases windows.len() - i,
    {
        let w = windows[i];
        assert(windows@.take(i + 1).drop_last() == windows@.take(i as int));
        if w.owner_pid == pid {
            hwnds.push(w.hwnd);
        }
        i = i + 1;
    }
    assert(windows@.take(windows.len() as int) == windows@);
    hwnds
}

/// Some enumerated window owned by `pid` has the handle `h`.
pub open spec fn owned_window(windows: Seq<WindowOwner>, pid: u32, h: isize) -> bool {
    exists|k: int|
        #![trigger windows[k]]
        0 <= k < windows.len() && windows[k].owner_pid == pid && windows[k].hwnd == h
}

/// Only windows of the process are selected.
pub proof fn lemma_windows_owned(windows: Seq<WindowOwner>, pid: u32)
    ensures
        forall|j: int|
            0 <= j < spec_windows_of(windows, pid).len() ==> owned_window(
                windows,
                pid,
                #[trigger] spec_windows_of(windows, pid)[j],
            ),
    decreases windows.len(),
{
    if windows.len() > 0 {
        let prev = windows.drop_last();
        lemma_windows_owned(prev, pid);
        let prev_hs = spec_windows_of(prev, pid);
        assert forall|j: int|
            0 <= j < spec_windows_of(windows, pid).len() implies owned_window(
                windows,
                pid,
                #[trigger] spec_windows_of(windows, pid)[j],
            ) by {
            let h = spec_windows_of(windows, pid)[j];
            if j < prev_hs.len() {
                assert(h == prev_hs[j]);
                assert(owned_window(prev, pid, prev_hs[j]));
                let k = choose|k: int|
                    #![trigger prev[k]]
                    0 <= k < prev.len() && prev[k].owner_pid == pid && prev[k].hwnd == h;
                assert(windows[k] == prev[k]);
            } else {
                let k = windows.len() - 1;
                assert(windows[k] == windows.last());
            }
        }
    }
}

} // verus!
