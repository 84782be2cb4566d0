//! Bookkeeping of the import-table slots that have already been redirected,
//! so that a repeated scan never redirects a slot twice (which would record
//! our own hook as the function to forward to).
use vstd::prelude::*;
use std::collections::HashSet;

verus! {

broadcast use vstd::std_specs::hash::group_hash_axioms;

/// The set of slot addresses already redirected.
pub struct PatchedSlots {
    slots: HashSet<usize>,
}

impl View for PatchedSlots {
    type V = Set<usize>;

    closed spec fn view(&self) -> Set<usize> {
        self.slots@
    }
}

/// The state after claiming `slot`, and whether the claim is new.
pub open spec fn spec_claim(patched: Set<usize>, slot: usize) -> (Set<usize>, bool) {
    (patched.insert(slot), !patched.contains(slot))
}

impl PatchedSlots {
    /// No slot redirected yet.
    pub fn new() -> (s: PatchedSlots)
        ensures
            s@ == Set::<usize>::empty(),
    {
        PatchedSlots { slots: HashSet::new() }
    }

    /// Records `slot` as redirected; true exactly when it was not recorded
    /// before, i.e. when the caller is to redirect it now.
    pub fn claim(&mut self, slot: usize) -> (fresh: bool)
        ensures
            (final(self)@, fresh) == spec_claim(old(self)@, slot),
    {
        self.slots.insert(slot)
    }

    /// Whether `slot` has been redirected.
    pub fn contains(&self, slot: usize) -> (r: bool)
        ensures
            r == self@.contains(slot),
    {
        self.slots.contains(&slot)
    }
}

/// An import slot found by a scan, with the name it imports.
pub struct FoundImport {
    pub name: String,
    pub slot: usize,
}

/// A found import as plain values.
pub open spec fn found_view(f: FoundImport) -> (Seq<char>, usize) {
    (f.name@, f.slot)
}

/// Found imports as plain values.
pub open spec fn found_seq(found: Seq<FoundImport>) -> Seq<(Seq<char>, usize)> {
    found.map_values(|f: FoundImport| found_view(f))
}

/// A rescan over found imports: the slots recorded afterwards, and the
/// redirects to install, in scan order. Each found slot is recorded; one
/// not recorded before is redirected when its name has a target.
pub open spec fn spec_rescan<T>(
    patched: Set<usize>,
    found: Seq<(Seq<char>, usize)>,
    target: spec_fn(Seq<char>) -> Option<T>,
) -> (Set<usize>, Seq<(usize, T)>)
    decreases found.len(),
{
    if found.len() == 0 {
        (patched, seq![])
    } else {
        let (p, r) = spec_rescan(patched, found.drop_last(), target);
        let (name, slot) = found.last();
        let (p2, fresh) = spec_claim(p, slot);
        if fresh && target(name) is Some {
            (p2, r.push((slot, target(name)->0)))
        } else {
            (p2, r)
        }
    }
}

/// A rescan records every slot it sees and forgets none.
pub proof fn lemma_rescan_records<T>(
    patched: Set<usize>,
    found: Seq<(Seq<char>, usize)>,
    target: spec_fn(Seq<char>) -> Option<T>,
)
    ensures
        patched.subset_of(spec_rescan(patched, found, target).0),
        forall|i: int| 0 <= i < found.len() ==> spec_rescan(patched, found, target).0.contains(
            #[trigger] found[i].1,
        ),
    decreases found.len(),
{
    if found.len() > 0 {
        lemma_rescan_records(patched, found.drop_last(), target);
        let p = spec_rescan(patched, found.drop_last(), target).0;
        assert forall|i: int| 0 <= i < found.len() implies spec_rescan(
            patched,
            found,
            target,
        ).0.contains(#[trigger] found[i].1) by {
            if i < found.len() - 1 {
                assert(found.drop_last()[i] == found[i]);
            }
        }
    }
}

/// A rescan never redirects a slot that was recorded before it.
pub proof fn lemma_rescan_skips_recorded<T>(
    patched: Set<usize>,
    found: Seq<(Seq<char>, usize)>,
    target: spec_fn(Seq<char>) -> Option<T>,
)
    ensures
        forall|j: int|
            0 <= j < spec_rescan(patched, found, target).1.len() ==> !patched.contains(
                #[trigger] spec_rescan(patched, found, target).1[j].0,
            ),
    decreases found.len(),
{
    if found.len() > 0 {
        lemma_rescan_skips_recorded(patched, found.drop_last(), target);
        lemma_rescan_records(patched, found.drop_last(), target);
    }
}

/// Rescanning is idempotent: scanning the same imports again redirects
/// nothing, so no slot is ever redirected twice.
pub proof fn lemma_rescan_idempotent<T>(
    patched: Set<usize>,
    found: Seq<(Seq<char>, usize)>,
    target: spec_fn(Seq<char>) -> Option<T>,
)
    ensures
        spec_rescan(spec_rescan(patched, found, target).0, found, target).1.len() == 0,
{
    let p = spec_rescan(patched, found, target).0;
    lemma_rescan_records(patched, found, target);
    lemma_rescan_nothing_new(p, found, target);
}

/// A rescan of slots that are all recorded redirects nothing.
proof fn lemma_rescan_nothing_new<T>(
    patched: Set<usize>,
    found: Seq<(Seq<char>, usize)>,
    target: spec_fn(Seq<char>) -> Option<T>,
)
    requires
        forall|i: int| 0 <= i < found.len() ==> patched.contains(#[trigger] found[i].1),
    ensures
        spec_rescan(patched, found, target).1.len() == 0,
        spec_rescan(patched, found, target).0 == patched,
    decreases found.len(),
{
    if found.len() > 0 {
        assert forall|i: int| 0 <= i < found.drop_last().len() implies patched.contains(
            #[trigger] found.drop_last()[i].1,
        ) by {
            assert(found.drop_last()[i] == found[i]);
        }
        lemma_rescan_nothing_new(patched, found.drop_last(), target);
        assert(patched.contains(found[found.len() - 1].1));
        assert(patched.insert(found.last().1) =~= patched);
    }
}

/// A rescan records nothing but the recorded slots and the found ones.
proof fn lemma_rescan_records_only<T>(
    patched: Set<usize>,
    found: Seq<(Seq<char>, usize)>,
    target: spec_fn(Seq<char>) -> Option<T>,
    x: usize,
)
    requires
        !patched.contains(x),
        forall|j: int| 0 <= j < found.len() ==> (#[trigger] found[j]).1 != x,
    ensures
        !spec_rescan(patched, found, target).0.contains(x),
    decreases found.len(),
{
    if found.len() > 0 {
        assert forall|j: int| 0 <= j < found.drop_last().len() implies (
        #[trigger] found.drop_last()[j]).1 != x by {
            assert(found.drop_last()[j] == found[j]);
        }
        lemma_rescan_records_only(patched, found.drop_last(), target, x);
        assert(found.last() == found[found.len() - 1]);
    }
}

/// A redirect is that of a found slot not recorded before, to the target
/// of the name found with it.
pub open spec fn comes_from_found<T>(
    patched: Set<usize>,
    found: Seq<(Seq<char>, usize)>,
    target: spec_fn(Seq<char>) -> Option<T>,
    red: (usize, T),
) -> bool {
    exists|i: int|
        #![trigger found[i]]
        0 <= i < found.len() && found[i].1 == red.0 && target(found[i].0) == Some(red.1)
            && !patched.contains(found[i].1)
}

/// Every rescan redirects each found slot that was not recorded before it
/// (nor found earlier in the same scan) and whose name has a target, to
/// that target; and every redirect it makes is of that kind.
pub proof fn lemma_rescan_redirects_fresh<T>(
    patched: Set<usize>,
    found: Seq<(Seq<char>, usize)>,
    target: spec_fn(Seq<char>) -> Option<T>,
)
    ensures
        forall|i: int|
            0 <= i < found.len() && !patched.contains(#[trigger] found[i].1) && (forall|j: int|
                0 <= j < i ==> found[j].1 != found[i].1) && target(found[i].0) is Some
                ==> spec_rescan(patched, found, target).1.contains(
                (found[i].1, target(found[i].0)->0),
            ),
        forall|r: int|
            0 <= r < spec_rescan(patched, found, target).1.len() ==> comes_from_found(
                patched,
                found,
                target,
                #[trigger] spec_rescan(patched, found, target).1[r],
            ),
    decreases found.len(),
{
    if found.len() > 0 {
        let prev = found.drop_last();
        lemma_rescan_redirects_fresh(patched, prev, target);
        let (p, r) = spec_rescan(patched, prev, target);
        let (name, slot) = found.last();
        let out = spec_rescan(patched, found, target).1;
        assert(out == r || out == r.push((slot, target(name)->0)));
        assert forall|i: int|
            0 <= i < found.len() && !patched.contains(#[trigger] found[i].1) && (forall|j: int|
                0 <= j < i ==> found[j].1 != found[i].1) && target(found[i].0) is Some
                implies out.contains((found[i].1, target(found[i].0)->0)) by {
            if i < found.len() - 1 {
                assert(prev[i] == found[i]);
                assert forall|j: int| 0 <= j < i implies prev[j].1 != prev[i].1 by {
                    assert(prev[j] == found[j]);
                }
                let k = choose|k: int| 0 <= k < r.len() && r[k] == (found[i].1, target(found[i].0)->0);
                assert(out[k] == r[k]);
            } else {
                assert(found[i] == found.last());
                assert forall|j: int| 0 <= j < prev.len() implies (#[trigger] prev[j]).1 != slot by {
                    assert(prev[j] == found[j]);
                }
                lemma_rescan_records_only(patched, prev, target, slot);
                assert(out[out.len() - 1] == (slot, target(name)->0));
            }
        }
        assert forall|k: int|
            0 <= k < spec_rescan(patched, found, target).1.len() implies comes_from_found(
                patched,
                found,
                target,
                #[trigger] spec_rescan(patched, found, target).1[k],
            ) by {
            if k < r.len() {
                assert(out[k] == r[k]);
                assert(r[k] == spec_rescan(patched, prev, target).1[k]);
                assert(comes_from_found(patched, prev, target, r[k]));
                let i = choose|i: int|
                    #![trigger prev[i]]
                    0 <= i < prev.len() && prev[i].1 == r[k].0 && target(prev[i].0) == Some(r[k].1)
                        && !patched.contains(prev[i].1);
                assert(prev[i] == found[i]);
            } else {
                lemma_rescan_records(patched, prev, target);
                assert(found[found.len() - 1] == found.last());
                assert(!p.contains(slot));
                assert(patched.subset_of(p));
                let i = found.len() - 1;
                assert(found[i].1 == slot);
                let out = spec_rescan(patched, found, target).1;
                assert(out != r);
                assert(out[k] == (slot, target(name)->0));
                assert(target(found[i].0) == Some(out[k].1));
            }
        }
    }
}

/// A slot is claimed at most once: once claimed, every later claim of the
/// same slot, after any other claims in between, is refused.
pub proof fn lemma_claim_once(patched: Set<usize>, slot: usize, others: Seq<usize>)
    ensures
        ({
            let after = spec_claim(patched, slot).0;
            let later = others.fold_left(after, |s: Set<usize>, x: usize| spec_claim(s, x).0);
            !spec_claim(later, slot).1
        }),
{
    let after = spec_claim(patched, slot).0;
    lemma_claims_keep(after, others);
}

/// Claiming never forgets a slot.
proof fn lemma_claims_keep(start: Set<usize>, others: Seq<usize>)
    ensures
        start.subset_of(others.fold_left(start, |s: Set<usize>, x: usize| spec_claim(s, x).0)),
    decreases others.len(),
{
    if others.len() > 0 {
        let f = |s: Set<usize>, x: usize| spec_claim(s, x).0;
        lemma_claims_keep(start, others.drop_last());
        assert(others.fold_left(start, f) == f(others.drop_last().fold_left(start, f), others.last()));
    }
}

} // verus!
