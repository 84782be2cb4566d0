//! Decisions of the background worker inside the host process: which
//! configuration to use, whether a recolouring pass runs, which threads get
//! hooks, and when the window hierarchy is logged.
use vstd::prelude::*;
use crate::config::{Config, default_palette};
use crate::hook::HookState;
use crate::text::chars_of;
use crate::win32::string_from_chars;

verus! {

/// The configuration read from disk, or the built-in one where reading or
/// parsing failed.
pub fn config_or_default(loaded: Result<Config, String>) -> (c: Config)
    ensures
        c == (match loaded {
            Ok(cfg) => cfg,
            Err(_) => Config { colors: default_palette() },
        }),
{
    match loaded {
        Ok(cfg) => cfg,
        Err(_) => Config::default_colors(),
    }
}

/// Whether a periodic recolouring pass runs: as the shared flag says, and
/// always where the flag could not be opened.
pub fn recolor_enabled(flag: Option<bool>) -> (r: bool)
    ensures
        r == (match flag {
            Some(v) => v,
            None => true,
        }),
{
    match flag {
        Some(v) => v,
        None => true,
    }
}

/// What the worker writes to the shared flag when it starts: it switches
/// the flag on only when its process created the mapping (a fresh mapping
/// reads "off"); a flag that already existed keeps the user's choice.
pub fn startup_flag_write(created_mapping: bool) -> (w: Option<bool>)
    ensures
        w == (if created_mapping {
            Some(true)
        } else {
            None::<bool>
        }),
{
    if created_mapping {
        Some(true)
    } else {
        None
    }
}

/// A thread of the system snapshot.
#[derive(Debug, Clone, Copy, PartialEq, Eq, Structural)]
pub struct ThreadRecord {
    pub thread_id: u32,
    pub owner_pid: u32,
}

/// The ids of the threads owned by `pid`, in snapshot order.
pub open spec fn spec_threads_of(entries: Seq<ThreadRecord>, pid: u32) -> Seq<u32>
    decreases entries.len(),
{
    if entries.len() == 0 {
        seq![]
    } else {
        let rest = spec_threads_of(entries.drop_last(), pid);
        if entries.last().owner_pid == pid {
            rest.push(entries.last().thread_id)
        } else {
            rest
        }
    }
}

/// Selects the threads of one process from a thread snapshot.
pub fn threads_of_process(entries: &[ThreadRecord], pid: u32) -> (ids: Vec<u32>)
    ensures
        ids@ == spec_threads_of(entries@, pid),
{
    let mut ids: Vec<u32> = Vec::new();
    let mut i: usize = 0;
    while i < entries.len()
        invariant
            0 <= i <= entries.len(),
            ids@ == spec_threads_of(entries@.take(i as int), pid),
        decreases entries.len() - i,
    {
        let e = entries[i];
        assert(entries@.take(i + 1).drop_last() == entries@.take(i as int));
        if e.owner_pid == pid {
            ids.push(e.thread_id);
        }
        i = i + 1;
    }
    assert(entries@.take(entries.len() as int) == entries@);
    ids
}

/// Exactly the threads owned by `pid` get hooks: the selected ids are the
/// ids of the snapshot entries owned by `pid`, all of them, in snapshot
/// order; so every such entry's id is selected.
pub proof fn lemma_threads_all_owned(entries: Seq<ThreadRecord>, pid: u32)
    ensures
        spec_threads_of(entries, pid) == entries.filter(|e: ThreadRecord| e.owner_pid == pid).map_values(
            |e: ThreadRecord| e.thread_id,
        ),
        forall|k: int|
            0 <= k < entries.len() && (#[trigger] entries[k]).owner_pid == pid ==> spec_threads_of(
                entries,
                pid,
            ).contains(entries[k].thread_id),
    decreases entries.len(),
{
    let p = |e: ThreadRecord| e.owner_pid == pid;
    let f = |e: ThreadRecord| e.thread_id;
    if entries.len() > 0 {
        let prev = entries.drop_last();
        lemma_threads_all_owned(prev, pid);
        assert(prev.push(entries.last()) =~= entries);
        prev.lemma_filter_push(entries.last(), p);
        let fp = prev.filter(p);
        assert(fp.push(entries.last()).map_values(f) =~= fp.map_values(f).push(entries.last().thread_id));
        assert forall|k: int|
            0 <= k < entries.len() && (#[trigger] entries[k]).owner_pid == pid implies spec_threads_of(
                entries,
                pid,
            ).contains(entries[k].thread_id) by {
            let ids = spec_threads_of(entries, pid);
            if k < entries.len() - 1 {
                assert(entries[k] == prev[k]);
                let prev_ids = spec_threads_of(prev, pid);
                assert(prev_ids.contains(prev[k].thread_id));
                let j = choose|j: int| 0 <= j < prev_ids.len() && prev_ids[j] == prev[k].thread_id;
                assert(ids[j] == prev_ids[j]);
            } else {
                assert(ids[ids.len() - 1] == entries[k].thread_id);
            }
        }
    } else {
        assert(entries.filter(p) =~= entries) by {
            reveal_with_fuel(Seq::<_>::filter, 1);
        }
    }
}

/// Some thread of the snapshot owned by `pid` has the id `t`.
pub open spec fn owned_thread(entries: Seq<ThreadRecord>, pid: u32, t: u32) -> bool {
    exists|k: int|
        #![trigger entries[k]]
        0 <= k < entries.len() && entries[k].owner_pid == pid && entries[k].thread_id == t
}

/// Hooks go only to threads of the process itself: every selected id is
/// that of a thread owned by `pid` in the snapshot.
pub proof fn lemma_threads_owned(entries: Seq<ThreadRecord>, pid: u32)
    ensures
        forall|j: int|
            0 <= j < spec_threads_of(entries, pid).len() ==> owned_thread(
                entries,
                pid,
                #[trigger] spec_threads_of(entries, pid)[j],
            ),
    decreases entries.len(),
{
    if entries.len() > 0 {
        let prev = entries.drop_last();
        lemma_threads_owned(prev, pid);
        let prev_ids = spec_threads_of(prev, pid);
        assert forall|j: int|
            0 <= j < spec_threads_of(entries, pid).len() implies owned_thread(
                entries,
                pid,
                #[trigger] spec_threads_of(entries, pid)[j],
            ) by {
            let t = spec_threads_of(entries, pid)[j];
            if j < prev_ids.len() {
                assert(t == prev_ids[j]);
                assert(owned_thread(prev, pid, prev_ids[j]));
                let k = choose|k: int|
                    #![trigger prev[k]]
                    0 <= k < prev.len() && prev[k].owner_pid == pid && prev[k].thread_id == t;
                assert(entries[k] == prev[k]);
            } else {
                let k = entries.len() - 1;
                assert(entries[k] == entries.last());
            }
        }
    }
}

/// The character of a digit value (lower-case letters above 9).
pub open spec fn digit_char(d: nat) -> char {
    if d < 10 {
        ((48 + d) as u8) as char
    } else {
        ((87 + d) as u8) as char
    }
}

/// The digits of `n` in base `base`, most significant first, without
/// leading zeros ("0" for zero).
pub open spec fn digits(n: nat, base: nat) -> Seq<char>
    decreases n,
{
    if base < 2 || n < base {
        seq![digit_char(n)]
    } else {
        proof {
            assert(n / base < n) by (nonlinear_arith)
                requires
                    base >= 2,
                    n >= base,
            ;
        }
        digits(n / base, base).push(digit_char(n % base))
    }
}

/// The header written before a snapshot.
pub open spec fn spec_log_header(pid: u32) -> Seq<char> {
    "--- window hierarchy changed, pid="@ + digits(pid as nat, 10) + " ---"@
}

/// The header of the dump written once when the worker starts in process
/// `pid`.
pub open spec fn spec_injection_header(pid: u32) -> Seq<char> {
    "--- window hierarchy at injection, pid="@ + digits(pid as nat, 10) + " ---"@
}

/// The line written for one window: its handle in `0x`-prefixed lower-case
/// hexadecimal (two's complement for a negative handle), then its class.
pub open spec fn spec_log_line(hwnd: isize, class_name: Seq<char>) -> Seq<char> {
    "hwnd=0x"@ + digits((hwnd as usize) as nat, 16) + " class="@ + class_name
}

fn push_str(out: &mut Vec<char>, s: &str)
    ensures
        final(out)@ == old(out)@ + s@,
{
    let cs = chars_of(s);
    let mut i: usize = 0;
    let ghost start = old(out)@;
    while i < cs.len()
        invariant
            0 <= i <= cs.len(),
            out@ == start + cs@.take(i as int),
        decreases cs.len() - i,
    {
        out.push(cs[i]);
        i = i + 1;
        assert(out@ =~= start + cs@.take(i as int));
    }
    assert(cs@.take(cs.len() as int) =~= cs@);
}

fn digit(d: usize) -> (c: char)
    requires
        d < 16,
    ensures
        c == digit_char(d as nat),
{
    if d < 10 {
        (48 + d as u8) as char
    } else {
        (87 + d as u8) as char
    }
}

/// Appends the digits of `n` in base `base`.
fn push_digits(out: &mut Vec<char>, n: usize, base: usize)
    requires
        2 <= base <= 16,
    ensures
        final(out)@ == old(out)@ + digits(n as nat, base as nat),
    decreases n,
{
    if n < base {
        out.push(digit(n));
        assert(final(out)@ =~= old(out)@ + digits(n as nat, base as nat));
    } else {
        assert(n / base < n) by (nonlinear_arith)
            requires
                base >= 2,
                n >= base,
        ;
        push_digits(out, n / base, base);
        out.push(digit(n % base));
        assert(final(out)@ =~= old(out)@ + digits(n as nat, base as nat));
    }
}

/// The header written before a snapshot of process `pid`.
pub fn log_header(pid: u32) -> (line: String)
    ensures
        line@ == spec_log_header(pid),
{
    let mut cs: Vec<char> = Vec::new();
    push_str(&mut cs, "--- window hierarchy changed, pid=");
    push_digits(&mut cs, pid as usize, 10);
    push_str(&mut cs, " ---");
    assert(cs@ =~= spec_log_header(pid));
    string_from_chars(cs.as_slice())
}

/// The header of the dump written when the worker starts in process `pid`.
pub fn injection_header(pid: u32) -> (line: String)
    ensures
        line@ == spec_injection_header(pid),
{
    let mut cs: Vec<char> = Vec::new();
    push_str(&mut cs, "--- window hierarchy at injection, pid=");
    push_digits(&mut cs, pid as usize, 10);
    push_str(&mut cs, " ---");
    assert(cs@ =~= spec_injection_header(pid));
    string_from_chars(cs.as_slice())
}

/// The line written for one window.
pub fn log_line(entry: &WindowEntry) -> (line: String)
    ensures
        line@ == spec_log_line(entry.hwnd, entry.class_name@),
{
    let mut cs: Vec<char> = Vec::new();
    push_str(&mut cs, "hwnd=0x");
    push_digits(&mut cs, entry.hwnd as usize, 16);
    push_str(&mut cs, " class=");
    let class = chars_of(entry.class_name.as_str());
    let ghost before = cs@;
    let mut i: usize = 0;
    while i < class.len()
        invariant
            0 <= i <= class.len(),
            cs@ == before + class@.take(i as int),
        decreases class.len() - i,
    {
        cs.push(class[i]);
        i = i + 1;
        assert(cs@ =~= before + class@.take(i as int));
    }
    assert(class@.take(class.len() as int) =~= class@);
    assert(cs@ =~= spec_log_line(entry.hwnd, entry.class_name@));
    string_from_chars(cs.as_slice())
}

/// The lines appended to the log for a snapshot of process `pid`: the
/// header, then one line per window in snapshot order.
pub fn log_lines(pid: u32, snapshot: &[WindowEntry]) -> (lines: Vec<String>)
    ensures
        lines.len() == snapshot.len() + 1,
        lines@[0]@ == spec_log_header(pid),
        forall|i: int|
            0 <= i < snapshot.len() ==> (#[trigger] lines@[i + 1])@ == spec_log_line(
                snapshot@[i].hwnd,
                snapshot@[i].class_name@,
            ),
{
    dump_lines(log_header(pid), snapshot)
}

/// `header`, then one line per window in snapshot order.
fn dump_lines(header: String, snapshot: &[WindowEntry]) -> (lines: Vec<String>)
    ensures
        lines.len() == snapshot.len() + 1,
        lines@[0]@ == header@,
        forall|i: int|
            0 <= i < snapshot.len() ==> (#[trigger] lines@[i + 1])@ == spec_log_line(
                snapshot@[i].hwnd,
                snapshot@[i].class_name@,
            ),
{
    let ghost head = header@;
    let mut lines: Vec<String> = Vec::new();
    lines.push(header);
    let mut i: usize = 0;
    while i < snapshot.len()
        invariant
            0 <= i <= snapshot.len(),
            lines.len() == i + 1,
            lines@[0]@ == head,
            forall|j: int|
                0 <= j < i ==> (#[trigger] lines@[j + 1])@ == spec_log_line(
                    snapshot@[j].hwnd,
                    snapshot@[j].class_name@,
                ),
        decreases snapshot.len() - i,
    {
        lines.push(log_line(&snapshot[i]));
        i = i + 1;
    }
    lines
}

/// One top-level window of the hierarchy log.
pub struct WindowEntry {
    pub hwnd: isize,
    pub class_name: String,
}

/// A snapshot as plain values.
pub open spec fn entries_view(s: Seq<WindowEntry>) -> Seq<(isize, Seq<char>)> {
    s.map_values(|e: WindowEntry| (e.hwnd, e.class_name@))
}

/// Observing a snapshot: the snapshot kept afterwards, and whether it
/// differs from the one kept before (always so for the first).
pub open spec fn spec_observe(last: Option<Seq<(isize, Seq<char>)>>, snap: Seq<(isize, Seq<char>)>) -> (
    Option<Seq<(isize, Seq<char>)>>,
    bool,
) {
    (Some(snap), last != Some(snap))
}

/// After the dump at injection of snapshot `snap`, the next snapshot is
/// written exactly when it differs from `snap`.
pub proof fn lemma_observe_after_injection(snap: Seq<(isize, Seq<char>)>, next: Seq<(isize, Seq<char>)>)
    ensures
        spec_observe(Some(snap), next) == (Some(next), next != snap),
{
}

/// The last window hierarchy written to the log.
pub struct HierarchyLog {
    last: Option<Vec<WindowEntry>>,
}

impl HierarchyLog {
    /// The snapshot last written, as plain values.
    pub closed spec fn last_view(&self) -> Option<Seq<(isize, Seq<char>)>> {
        match self.last {
            Some(v) => Some(entries_view(v@)),
            None => None,
        }
    }

    /// Nothing written yet.
    pub fn new() -> (l: HierarchyLog)
        ensures
            l.last_view() is None,
    {
        HierarchyLog { last: None }
    }

    /// The dump written once when the worker starts in process `pid`: the
    /// injection header, then one line per window in snapshot order. The
    /// snapshot becomes the one last written.
    pub fn record_injection(&mut self, pid: u32, snapshot: Vec<WindowEntry>) -> (lines: Vec<String>)
        ensures
            lines.len() == snapshot.len() + 1,
            lines@[0]@ == spec_injection_header(pid),
            forall|i: int|
                0 <= i < snapshot.len() ==> (#[trigger] lines@[i + 1])@ == spec_log_line(
                    snapshot@[i].hwnd,
                    snapshot@[i].class_name@,
                ),
            final(self).last_view() == Some(entries_view(snapshot@)),
    {
        let lines = dump_lines(injection_header(pid), snapshot.as_slice());
        self.last = Some(snapshot);
        lines
    }

    /// Takes a new snapshot; true when it is to be written to the log, i.e.
    /// when it differs from the last one written.
    pub fn observe(&mut self, snapshot: Vec<WindowEntry>) -> (changed: bool)
        ensures
            (final(self).last_view(), changed) == spec_observe(
                old(self).last_view(),
                entries_view(snapshot@),
            ),
    {
        let changed = match &self.last {
            None => true,
            Some(prev) => !same_entries(prev.as_slice(), snapshot.as_slice()),
        };
        self.last = Some(snapshot);
        changed
    }
}

/// Whether two snapshots hold the same windows with the same class names,
/// in the same order.
fn same_entries(a: &[WindowEntry], b: &[WindowEntry]) -> (r: bool)
    ensures
        r == (entries_view(a@) == entries_view(b@)),
{
    if a.len() != b.len() {
        proof {
            if entries_view(a@) == entries_view(b@) {
                assert(entries_view(a@).len() == a@.len());
            }
        }
        return false;
    }
    let mut i: usize = 0;
    while i < a.len()
        invariant
            a.len() == b.len(),
            0 <= i <= a.len(),
            forall|j: int| 0 <= j < i ==> entries_view(a@)[j] == entries_view(b@)[j],
        decreases a.len() - i,
    {
        if a[i].hwnd != b[i].hwnd || a[i].class_name != b[i].class_name {
            proof {
                if entries_view(a@) == entries_view(b@) {
                    assert(entries_view(a@)[i as int] == entries_view(b@)[i as int]);
                }
            }
            return false;
        }
        i = i + 1;
    }
    assert(entries_view(a@) =~= entries_view(b@));
    true
}

/// Removes every hook on unload, handing them out for removal.
pub fn shutdown(hooks: &mut HookState) -> (removed: Vec<isize>)
    ensures
        removed@ == old(hooks).hooks(),
        final(hooks).hooks() == Seq::<isize>::empty(),
        final(hooks).palette() == old(hooks).palette(),
{
    hooks.uninstall_all_hooks()
}

/// The log grows only on change: observing the same snapshot twice in a row
/// writes it once.
pub proof fn lemma_log_once(last: Option<Seq<(isize, Seq<char>)>>, snap: Seq<(isize, Seq<char>)>)
    ensures
        !spec_observe(spec_observe(last, snap).0, snap).1,
{
}

/// The first snapshot is always written.
pub proof fn lemma_first_written(snap: Seq<(isize, Seq<char>)>)
    ensures
        spec_observe(None, snap).1,
{
}

} // verus!
