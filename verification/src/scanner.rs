//! Finding the processes of a given executable name in a process snapshot.
use vstd::prelude::*;
use crate::text::chars_of;
use crate::win32::{wide_chars, decode_utf16_lossy, before_nul};

verus! {

/// A process of the system snapshot: its id and its fixed-size
/// executable-name buffer.
pub struct ProcessRecord {
    pub pid: u32,
    pub exe_file: Vec<u16>,
}

/// ASCII lower case of a character's scalar value.
pub open spec fn lower_scalar(v: u32) -> u32 {
    if 65 <= v <= 90 {
        (v + 32) as u32
    } else {
        v
    }
}

/// Character sequences equal up to ASCII case.
pub open spec fn chars_eq_ignore_ascii_case(a: Seq<char>, b: Seq<char>) -> bool {
    a.len() == b.len() && forall|i: int|
        0 <= i < a.len() ==> lower_scalar(a[i] as u32) == lower_scalar(b[i] as u32)
}

/// The executable name recorded for a process.
pub open spec fn exe_name(p: ProcessRecord) -> Seq<char> {
    decode_utf16_lossy(before_nul(p.exe_file@))
}

/// The ids of the processes whose executable name equals `name` up to
/// ASCII case, in snapshot order.
pub open spec fn spec_select_by_name(entries: Seq<ProcessRecord>, name: Seq<char>) -> Seq<u32>
    decreases entries.len(),
{
    if entries.len() == 0 {
        seq![]
    } else {
        let rest = spec_select_by_name(entries.drop_last(), name);
        if chars_eq_ignore_ascii_case(exe_name(entries.last()), name) {
            rest.push(entries.last().pid)
        } else {
            rest
        }
    }
}

/// Some process of the snapshot whose executable name matches has the id
/// `p`.
pub open spec fn matching_process(entries: Seq<ProcessRecord>, name: Seq<char>, p: u32) -> bool {
    exists|k: int|
        #![trigger entries[k]]
        0 <= k < entries.len() && chars_eq_ignore_ascii_case(exe_name(entries[k]), name)
            && entries[k].pid == p
}

/// Only processes of the wanted name are selected: every selected id is
/// that of a snapshot entry whose executable name matches.
pub proof fn lemma_selected_match(entries: Seq<ProcessRecord>, name: Seq<char>)
    ensures
        forall|j: int|
            0 <= j < spec_select_by_name(entries, name).len() ==> matching_process(
                entries,
                name,
                #[trigger] spec_select_by_name(entries, name)[j],
            ),
    decreases entries.len(),
{
    if entries.len() > 0 {
        let prev = entries.drop_last();
        lemma_selected_match(prev, name);
        let prev_ids = spec_select_by_name(prev, name);
        assert forall|j: int|
            0 <= j < spec_select_by_name(entries, name).len() implies matching_process(
                entries,
                name,
                #[trigger] spec_select_by_name(entries, name)[j],
            ) by {
            let p = spec_select_by_name(entries, name)[j];
            if j < prev_ids.len() {
                assert(p == prev_ids[j]);
                assert(matching_process(prev, name, prev_ids[j]));
                let k = choose|k: int|
                    #![trigger prev[k]]
                    0 <= k < prev.len() && chars_eq_ignore_ascii_case(exe_name(prev[k]), name)
                        && prev[k].pid == p;
                assert(entries[k] == prev[k]);
            } else {
                let k = entries.len() - 1;
                assert(entries[k] == entries.last());
            }
        }
    }
}

fn lower_u32(v: u32) -> (r: u32)
    ensures
        r == lower_scalar(v),
{
    if 65 <= v && v <= 90 {
        v + 32
    } else {
        v
    }
}

/// Whether two character sequences are equal up to ASCII case.
pub fn eq_ignore_ascii_case(a: &[char], b: &[char]) -> (r: bool)
    ensures
        r == chars_eq_ignore_ascii_case(a@, b@),
{
    if a.len() != b.len() {
        return false;
    }
    let mut i: usize = 0;
    while i < a.len()
        invariant
            a.len() == b.len(),
            0 <= i <= a.len(),
            forall|j: int| 0 <= j < i ==> lower_scalar(a@[j] as u32) == lower_scalar(b@[j] as u32),
        decreases a.len() - i,
    {
        if lower_u32(a[i] as u32) != lower_u32(b[i] as u32) {
            return false;
        }
        i = i + 1;
    }
    true
}

/// Selects, from a process snapshot, the processes whose executable name
/// equals `name` up to ASCII case.
pub fn select_processes_by_name(entries: &[ProcessRecord], name: &str) -> (pids: Vec<u32>)
    ensures
        pids@ == spec_select_by_name(entries@, name@),
{
    let wanted = chars_of(name);
    let mut pids: Vec<u32> = Vec::new();
    let mut i: usize = 0;
    while i < entries.len()
        invariant
            0 <= i <= entries.len(),
            wanted@ == name@,
            pids@ == spec_select_by_name(entries@.take(i as int), name@),
        decreases entries.len() - i,
    {
        let e = &entries[i];
        let exe = wide_chars(e.exe_file.as_slice());
        assert(entries@.take(i + 1).drop_last() == entries@.take(i as int));
        assert(entries@.take(i + 1).last() == entries@[i as int]);
        if eq_ignore_ascii_case(exe.as_slice(), wanted.as_slice()) {
            pids.push(e.pid);
        }
        i = i + 1;
    }
    assert(entries@.take(entries.len() as int) == entries@);
    pids
}

} // verus!
