//! The cairo interception layer: which imported cairo functions get
//! redirected, the palette in force, and the slots already redirected. The
//! colour decision itself works on floating-point channels and is made by
//! the caller.
use vstd::prelude::*;
use crate::config::{Colors, default_palette};
use crate::patch::{
    PatchedSlots, FoundImport, spec_claim, spec_rescan, found_seq, comes_from_found,
    lemma_rescan_redirects_fresh,
};
use crate::text::str_equal;

verus! {

/// The imported cairo functions that get redirected.
#[derive(Debug, Clone, Copy, PartialEq, Eq, Structural)]
pub enum CairoTarget {
    SetSourceRgb,
    SetSourceRgba,
}

/// The redirected function that an import name stands for.
pub open spec fn spec_cairo_target(name: Seq<char>) -> Option<CairoTarget> {
    if name == "cairo_set_source_rgb"@ {
        Some(CairoTarget::SetSourceRgb)
    } else if name == "cairo_set_source_rgba"@ {
        Some(CairoTarget::SetSourceRgba)
    } else {
        None
    }
}

/// The cairo import names that a scan looks for.
pub fn cairo_import_names() -> (names: [&'static str; 2])
    ensures
        names[0]@ == "cairo_set_source_rgb"@,
        names[1]@ == "cairo_set_source_rgba"@,
{
    ["cairo_set_source_rgb", "cairo_set_source_rgba"]
}

/// The redirected function for an import name.
pub fn cairo_target(name: &str) -> (t: Option<CairoTarget>)
    ensures
        t == spec_cairo_target(name@),
{
    if str_equal(name, "cairo_set_source_rgb") {
        Some(CairoTarget::SetSourceRgb)
    } else if str_equal(name, "cairo_set_source_rgba") {
        Some(CairoTarget::SetSourceRgba)
    } else {
        None
    }
}

/// The target of each import name, as a function.
pub open spec fn cairo_targets() -> spec_fn(Seq<char>) -> Option<CairoTarget> {
    |name: Seq<char>| spec_cairo_target(name)
}

/// State of the cairo layer: the palette in force and the slots already
/// redirected.
pub struct CairoHookState {
    pub active: Colors,
    pub patched: PatchedSlots,
}

impl CairoHookState {
    /// The built-in palette, nothing redirected.
    pub fn new() -> (s: CairoHookState)
        ensures
            s.active == default_palette(),
            s.patched@ == Set::<usize>::empty(),
    {
        CairoHookState {
            active: Colors { bg: 0x1E1E1E, text: 0xD4D4D4, line: 0x3C3C3C },
            patched: PatchedSlots::new(),
        }
    }

    /// Puts a palette in force.
    pub fn set_active_colors(&mut self, colors: Colors)
        ensures
            final(self).active == colors,
            final(self).patched@ == old(self).patched@,
    {
        self.active = colors;
    }

    /// Handles one import slot found by a scan: records it, and says which
    /// redirect to install, if any. A slot recorded before is left alone.
    pub fn claim_slot(&mut self, name: &str, slot: usize) -> (t: Option<CairoTarget>)
        ensures
            final(self).patched@ == spec_claim(old(self).patched@, slot).0,
            final(self).active == old(self).active,
            t == (if spec_claim(old(self).patched@, slot).1 {
                spec_cairo_target(name@)
            } else {
                None
            }),
    {
        if !self.patched.claim(slot) {
            return None;
        }
        cairo_target(name)
    }

    /// Handles every import slot found by a scan, in order: records each,
    /// and lists the redirects to install for the slots not recorded before.
    /// Safe to call again and again, as modules keep loading.
    pub fn rescan(&mut self, found: &[FoundImport]) -> (redirects: Vec<(usize, CairoTarget)>)
        ensures
            (final(self).patched@, redirects@) == spec_rescan(
                old(self).patched@,
                found_seq(found@),
                cairo_targets(),
            ),
            final(self).active == old(self).active,
    {
        let ghost fs = found_seq(found@);
        let mut out: Vec<(usize, CairoTarget)> = Vec::new();
        let mut i: usize = 0;
        assert(fs.take(0) =~= Seq::<(Seq<char>, usize)>::empty());
        while i < found.len()
            invariant
                0 <= i <= found.len(),
                fs == found_seq(found@),
                fs.len() == found.len(),
                self.active == old(self).active,
                (self.patched@, out@) == spec_rescan(old(self).patched@, fs.take(i as int), cairo_targets()),
            decreases found.len() - i,
        {
            let f = &found[i];
            assert(fs.take(i + 1).drop_last() == fs.take(i as int));
            assert(fs.take(i + 1).last() == (f.name@, f.slot));
            match self.claim_slot(f.name.as_str(), f.slot) {
                Some(t) => {
                    out.push((f.slot, t));
                },
                None => {},
            }
            i = i + 1;
        }
        assert(fs.take(found.len() as int) == fs);
        out
    }

    /// The first scan, right after injection.
    pub fn install(&mut self, found: &[FoundImport]) -> (redirects: Vec<(usize, CairoTarget)>)
        ensures
            (final(self).patched@, redirects@) == spec_rescan(
                old(self).patched@,
                found_seq(found@),
                cairo_targets(),
            ),
            final(self).active == old(self).active,
    {
        self.rescan(found)
    }
}

/// A rescan redirects every found slot that was not recorded before it
/// (nor found earlier in the same scan) and whose import name is one of the
/// redirected functions, to that function's hook; it redirects nothing
/// else.
pub proof fn lemma_cairo_rescan_redirects_fresh(patched: Set<usize>, found: Seq<(Seq<char>, usize)>)
    ensures
        forall|i: int|
            0 <= i < found.len() && !patched.contains(#[trigger] found[i].1) && (forall|j: int|
                0 <= j < i ==> found[j].1 != found[i].1) && cairo_targets()(found[i].0) is Some
                ==> spec_rescan(patched, found, cairo_targets()).1.contains(
                (found[i].1, cairo_targets()(found[i].0)->0),
            ),
        forall|r: int|
            0 <= r < spec_rescan(patched, found, cairo_targets()).1.len() ==> comes_from_found(
                patched,
                found,
                cairo_targets(),
                #[trigger] spec_rescan(patched, found, cairo_targets()).1[r],
            ),
{
    lemma_rescan_redirects_fresh(patched, found, cairo_targets());
}

} // verus!
