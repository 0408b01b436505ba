use vstd::prelude::*;

use crate::container::{
    any_resolved, candidates, confirmed, survivors, unit_steps, units_of, CommitStep,
    ContainerKind, SnapshotContainer,
};
use crate::operation::Resolution;
use crate::pending::{InlineEntry, PendingSnapshot};

verus! {

/// The number of `true` answers.
pub open spec fn count_true(s: Seq<bool>) -> nat
    decreases s.len(),
{
    if s.len() == 0 {
        0
    } else {
        count_true(s.drop_last()) + if s.last() {
            1nat
        } else {
            0nat
        }
    }
}

proof fn lemma_confirmed_len<S>(cands: Seq<InlineEntry<S>>, found: Seq<bool>)
    requires
        found.len() == cands.len(),
    ensures
        confirmed(cands, found).len() == count_true(found),
    decreases cands.len(),
{
    if cands.len() > 0 {
        lemma_confirmed_len(cands.drop_last(), found.drop_last());
    }
}

/// The position of the `i`-th `true` answer, counting from zero.
pub open spec fn nth_true(found: Seq<bool>, i: int) -> int
    decreases found.len(),
{
    if found.len() == 0 {
        0
    } else if found.last() && i == count_true(found.drop_last()) {
        found.len() - 1
    } else {
        nth_true(found.drop_last(), i)
    }
}

proof fn lemma_confirmed_at<S>(cands: Seq<InlineEntry<S>>, found: Seq<bool>, i: int)
    requires
        found.len() == cands.len(),
        0 <= i < confirmed(cands, found).len(),
    ensures
        0 <= nth_true(found, i) < cands.len(),
        found[nth_true(found, i)],
        confirmed(cands, found)[i] == cands[nth_true(found, i)],
    decreases cands.len(),
{
    lemma_confirmed_len(cands.drop_last(), found.drop_last());
    let last = cands.len() - 1;
    assert(confirmed(cands, found) == if found.last() {
        confirmed(cands.drop_last(), found.drop_last()).push(cands.last())
    } else {
        confirmed(cands.drop_last(), found.drop_last())
    });
    if i < confirmed(cands.drop_last(), found.drop_last()).len() {
        lemma_confirmed_at(cands.drop_last(), found.drop_last(), i);
        assert(confirmed(cands, found)[i] == confirmed(cands.drop_last(), found.drop_last())[i]);
        assert(nth_true(found, i) == nth_true(found.drop_last(), i));
        let j = nth_true(found, i);
        assert(found[j] == found.drop_last()[j] && cands[j] == cands.drop_last()[j]);
    } else {
        assert(confirmed(cands, found)[i] == cands[last] && found[last]);
    }
}

proof fn lemma_found_is_confirmed<S>(cands: Seq<InlineEntry<S>>, found: Seq<bool>)
    requires
        found.len() == cands.len(),
    ensures
        forall|j: int|
            0 <= j < cands.len() && #[trigger] found[j] ==> exists|i: int|
                0 <= i < confirmed(cands, found).len() && confirmed(cands, found)[i] == cands[j],
    decreases cands.len(),
{
    if cands.len() > 0 {
        lemma_found_is_confirmed(cands.drop_last(), found.drop_last());
        let last = cands.len() - 1;
        assert(confirmed(cands, found) == if found.last() {
            confirmed(cands.drop_last(), found.drop_last()).push(cands.last())
        } else {
            confirmed(cands.drop_last(), found.drop_last())
        });
        assert forall|j: int| 0 <= j < cands.len() && #[trigger] found[j] implies exists|i: int|
            0 <= i < confirmed(cands, found).len() && confirmed(cands, found)[i] == cands[j] by {
            if j < last {
                assert(found.drop_last()[j] && cands.drop_last()[j] == cands[j]);
                let i = choose|i: int|
                    0 <= i < confirmed(cands.drop_last(), found.drop_last()).len() && confirmed(
                        cands.drop_last(),
                        found.drop_last(),
                    )[i] == cands.drop_last()[j];
                assert(confirmed(cands, found)[i] == confirmed(cands.drop_last(), found.drop_last())[i]);
            } else {
                assert(confirmed(cands, found)[confirmed(cands.drop_last(), found.drop_last()).len() as int]
                    == cands[last]);
            }
        }
    }
}

proof fn lemma_confirmed<S>(cands: Seq<InlineEntry<S>>, found: Seq<bool>)
    requires
        found.len() == cands.len(),
    ensures
        confirmed(cands, found).len() == count_true(found),
        forall|j: int|
            0 <= j < cands.len() && #[trigger] found[j] ==> exists|i: int|
                0 <= i < confirmed(cands, found).len() && confirmed(cands, found)[i] == cands[j],
{
    lemma_confirmed_len(cands, found);
    lemma_found_is_confirmed(cands, found);
}

proof fn lemma_count_true_zero(s: Seq<bool>)
    ensures
        count_true(s) == 0 <==> forall|j: int| 0 <= j < s.len() ==> !s[j],
    decreases s.len(),
{
    if s.len() > 0 {
        lemma_count_true_zero(s.drop_last());
        if count_true(s) == 0 {
            assert forall|j: int| 0 <= j < s.len() implies !s[j] by {
                if j < s.len() - 1 {
                    assert(s.drop_last()[j] == s[j]);
                }
            }
        }
        if forall|j: int| 0 <= j < s.len() ==> !s[j] {
            assert forall|j: int| 0 <= j < s.drop_last().len() implies !s.drop_last()[j] by {
                assert(s.drop_last()[j] == s[j]);
            }
        }
    }
}

/// Loading an inline batch keeps exactly the entries whose call site the
/// patcher confirmed: every loaded snapshot sits at the line of a confirmed
/// probe, every confirmed probe gives a snapshot, and there are as many
/// snapshots as confirmations.
pub proof fn lemma_loaded_lines_are_confirmed<S>(entries: Seq<InlineEntry<S>>, found: Seq<bool>)
    requires
        found.len() == candidates(entries).len(),
    ensures
        ({
            let units = units_of(survivors(entries, Some(found)));
            let probes = candidates(entries);
            &&& units.len() == count_true(found)
            &&& forall|i: int| #![trigger units[i]]
                0 <= i < units.len() ==> {
                    &&& 0 <= nth_true(found, i) < probes.len()
                    &&& found[nth_true(found, i)]
                    &&& units[i].line == Some(probes[nth_true(found, i)].line)
                }
            &&& forall|j: int|
                0 <= j < probes.len() && #[trigger] found[j] ==> exists|i: int|
                    0 <= i < units.len() && units[i].line == Some(probes[j].line)
        }),
{
    let probes = candidates(entries);
    let kept = confirmed(probes, found);
    let units = units_of(survivors(entries, Some(found)));
    lemma_confirmed(probes, found);
    assert forall|i: int| #![trigger units[i]] 0 <= i < units.len() implies {
        &&& 0 <= nth_true(found, i) < probes.len()
        &&& found[nth_true(found, i)]
        &&& units[i].line == Some(probes[nth_true(found, i)].line)
    } by {
        lemma_confirmed_at(probes, found, i);
        assert(units[i].line == Some(kept[i].line));
    }
    assert forall|j: int| 0 <= j < probes.len() && #[trigger] found[j] implies exists|i: int|
        0 <= i < units.len() && units[i].line == Some(probes[j].line) by {
        let i = choose|i: int| 0 <= i < kept.len() && kept[i] == probes[j];
        assert(units[i].line == Some(kept[i].line));
    }
}

/// An inline batch loads with no snapshot exactly when the source file is
/// missing or the patcher confirmed none of its call sites; the container
/// then asks for the pending artifact to be removed.
pub proof fn lemma_empty_load_is_stale<S>(entries: Seq<InlineEntry<S>>, found: Option<Seq<bool>>)
    requires
        found is Some ==> found->Some_0.len() == candidates(entries).len(),
    ensures
        units_of(survivors(entries, found)).len() == 0 <==> match found {
            Some(f) => forall|j: int| 0 <= j < f.len() ==> !f[j],
            None => true,
        },
{
    if let Some(f) = found {
        lemma_confirmed(candidates(entries), f);
        lemma_count_true_zero(f);
    }
}

proof fn lemma_unit_steps_all_skip<S>(units: Seq<PendingSnapshot<S>>)
    requires
        forall|i: int| 0 <= i < units.len() ==> #[trigger] units[i].op.resolution_spec() == Resolution::Skip,
    ensures
        unit_steps(units) == Seq::new(units.len(), |i: int| CommitStep::Requeue(i as usize)),
    decreases units.len(),
{
    if units.len() > 0 {
        let rest = units.drop_last();
        assert forall|i: int| 0 <= i < rest.len() implies #[trigger] rest[i].op.resolution_spec()
            == Resolution::Skip by {
            assert(rest[i] == units[i]);
        }
        lemma_unit_steps_all_skip(rest);
        assert(units.last().op.resolution_spec() == Resolution::Skip);
        assert(unit_steps(units) =~= Seq::new(units.len(), |i: int| CommitStep::Requeue(i as usize)));
    }
}

/// Committing a container in which every snapshot is skipped changes no
/// source or target file: an inline container writes every unit back to the
/// pending batch, in order, and a file-backed one does nothing at all.
pub proof fn lemma_skip_all_commit<S>(c: SnapshotContainer<S>, old_sidecar: bool, new_sidecar: bool)
    requires
        c.wf(),
        forall|i: int|
            0 <= i < c.snapshots@.len() ==> #[trigger] c.snapshots@[i].op.resolution_spec()
                == Resolution::Skip,
    ensures
        c.has_patcher ==> c.commit_steps(old_sidecar, new_sidecar) == Seq::new(
            c.snapshots@.len(),
            |i: int| CommitStep::Requeue(i as usize),
        ).push(CommitStep::WriteBatch),
        !c.has_patcher ==> c.commit_steps(old_sidecar, new_sidecar) == Seq::<CommitStep>::empty(),
        forall|k: int|
            0 <= k < c.commit_steps(old_sidecar, new_sidecar).len() ==> {
                let s = #[trigger] c.commit_steps(old_sidecar, new_sidecar)[k];
                &&& s != CommitStep::SaveSource
                &&& s != CommitStep::SaveTarget
                &&& !(s is SetContent)
            },
{
    let units = c.snapshots@;
    if c.kind == ContainerKind::File {
        assert(units[0].op.resolution_spec() == Resolution::Skip);
        assert(c.commit_steps(old_sidecar, new_sidecar) =~= Seq::<CommitStep>::empty());
    } else if c.has_patcher {
        lemma_unit_steps_all_skip(units);
        assert(!any_resolved(units, Resolution::Accept));
        assert(units[0].op.resolution_spec() == Resolution::Skip);
        assert(any_resolved(units, Resolution::Skip));
    }
}

/// Accepting a file-backed snapshot removes the pending artifact first and
/// writes the new value to the target last, after every sidecar removal.
pub proof fn lemma_file_accept_commit<S>(c: SnapshotContainer<S>, old_sidecar: bool, new_sidecar: bool)
    requires
        c.wf(),
        c.kind == ContainerKind::File,
        c.snapshots@[0].op.resolution_spec() == Resolution::Accept,
    ensures
        ({
            let s = c.commit_steps(old_sidecar, new_sidecar);
            &&& s.len() >= 2
            &&& s[0] == CommitStep::RemovePending
            &&& s.last() == CommitStep::SaveTarget
            &&& forall|k: int| 0 <= k < s.len() - 1 ==> #[trigger] s[k] != CommitStep::SaveTarget
            &&& forall|k: int| 0 <= k < s.len() ==> #[trigger] s[k] != CommitStep::WriteBatch
        }),
{
    let s = c.commit_steps(old_sidecar, new_sidecar);
    if old_sidecar && new_sidecar {
        assert(s =~= seq![CommitStep::RemovePending, CommitStep::RemoveOldSidecar, CommitStep::RemoveNewSidecar, CommitStep::SaveTarget]);
    } else if old_sidecar {
        assert(s =~= seq![CommitStep::RemovePending, CommitStep::RemoveOldSidecar, CommitStep::SaveTarget]);
    } else if new_sidecar {
        assert(s =~= seq![CommitStep::RemovePending, CommitStep::RemoveNewSidecar, CommitStep::SaveTarget]);
    } else {
        assert(s =~= seq![CommitStep::RemovePending, CommitStep::SaveTarget]);
    }
}

/// Rejecting a file-backed snapshot removes the pending artifact and the new
/// value's sidecar, and leaves the target and the old baseline's sidecar alone.
pub proof fn lemma_file_reject_commit<S>(c: SnapshotContainer<S>, old_sidecar: bool, new_sidecar: bool)
    requires
        c.wf(),
        c.kind == ContainerKind::File,
        c.snapshots@[0].op.resolution_spec() == Resolution::Reject,
    ensures
        new_sidecar ==> c.commit_steps(old_sidecar, new_sidecar) == seq![
            CommitStep::RemovePending,
            CommitStep::RemoveNewSidecar,
        ],
        !new_sidecar ==> c.commit_steps(old_sidecar, new_sidecar) == seq![CommitStep::RemovePending],
        forall|k: int|
            0 <= k < c.commit_steps(old_sidecar, new_sidecar).len() ==> {
                let s = #[trigger] c.commit_steps(old_sidecar, new_sidecar)[k];
                &&& s != CommitStep::RemoveOldSidecar
                &&& s != CommitStep::SaveTarget
            },
{
    let s = c.commit_steps(old_sidecar, new_sidecar);
    if new_sidecar {
        assert(s =~= seq![CommitStep::RemovePending, CommitStep::RemoveNewSidecar]);
    } else {
        assert(s =~= seq![CommitStep::RemovePending]);
    }
}

} // verus!
