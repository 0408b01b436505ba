use vstd::prelude::*;

use crate::operation::{Operation, Resolution};
use crate::pending::{InlineEntry, PendingSnapshot};

verus! {

/// How a container stores its accepted baselines.
#[derive(Clone, Copy, Debug, PartialEq, Eq, Structural)]
pub enum ContainerKind {
    /// The baseline lives in a snapshot file of its own.
    File,
    /// The baselines are literals at assertion call sites of a source file.
    Inline,
}

/// One piece of file work that committing a container calls for, in the
/// order in which it must be carried out.
#[derive(Clone, Copy, Debug, PartialEq, Eq, Structural)]
pub enum CommitStep {
    /// Replace the literal of the call site in this patcher slot by the new value.
    SetContent(usize),
    /// Keep the unit in this patcher slot pending, at the slot's current line.
    Requeue(usize),
    /// Write the patched source file back.
    SaveSource,
    /// Write the re-collected pending batch to the pending path.
    WriteBatch,
    /// Remove the pending artifact, tolerating that it is already gone.
    RemovePending,
    /// Remove the binary sidecar of the old baseline, tolerating its absence.
    RemoveOldSidecar,
    /// Remove the binary sidecar of the new value, tolerating its absence.
    RemoveNewSidecar,
    /// Write the new value to the target path.
    SaveTarget,
}

/// The reconciliation work for one target: the single snapshot of a snapshot
/// file, or every inline snapshot of one source file.
pub struct SnapshotContainer<S> {
    pub pending_path: String,
    pub target_path: String,
    pub kind: ContainerKind,
    pub snapshots: Vec<PendingSnapshot<S>>,
    /// Whether a source patcher holds the target file for this container.
    pub has_patcher: bool,
}

pub open spec fn lines_ascending<S>(entries: Seq<InlineEntry<S>>) -> bool {
    forall|i: int, j: int|
        0 <= i <= j < entries.len() ==> entries[i].line <= entries[j].line
}

/// The entries of a batch that carry a new value, in batch order.
pub open spec fn candidates<S>(entries: Seq<InlineEntry<S>>) -> Seq<InlineEntry<S>>
    decreases entries.len(),
{
    if entries.len() == 0 {
        Seq::empty()
    } else {
        let rest = candidates(entries.drop_last());
        if entries.last().new is Some {
            rest.push(entries.last())
        } else {
            rest
        }
    }
}

/// The candidates whose call site the patcher confirmed; `found[k]` answers
/// for `cands[k]`.
pub open spec fn confirmed<S>(cands: Seq<InlineEntry<S>>, found: Seq<bool>) -> Seq<InlineEntry<S>>
    decreases cands.len(),
{
    if cands.len() == 0 || found.len() == 0 {
        Seq::empty()
    } else {
        let rest = confirmed(cands.drop_last(), found.drop_last());
        if found.last() {
            rest.push(cands.last())
        } else {
            rest
        }
    }
}

/// The entries that survive loading: none without a target file, else the
/// confirmed candidates.
pub open spec fn survivors<S>(entries: Seq<InlineEntry<S>>, found: Option<Seq<bool>>) -> Seq<
    InlineEntry<S>,
> {
    match found {
        Some(f) => confirmed(candidates(entries), f),
        None => Seq::empty(),
    }
}

pub open spec fn unit_of<S>(e: InlineEntry<S>, id: int) -> PendingSnapshot<S> {
    PendingSnapshot {
        id: id as usize,
        old: e.old,
        new: e.new->Some_0,
        op: Operation::Skip,
        line: Some(e.line),
    }
}

/// The reconciliation units for surviving entries, numbered from zero.
pub open spec fn units_of<S>(s: Seq<InlineEntry<S>>) -> Seq<PendingSnapshot<S>> {
    Seq::new(s.len(), |i: int| unit_of(s[i], i))
}

pub open spec fn step_of<S>(u: PendingSnapshot<S>, i: int) -> Seq<CommitStep> {
    match u.op.resolution_spec() {
        Resolution::Accept => seq![CommitStep::SetContent(i as usize)],
        Resolution::Reject => Seq::empty(),
        Resolution::Skip => seq![CommitStep::Requeue(i as usize)],
    }
}

/// The per-unit steps of an inline commit, in unit order.
pub open spec fn unit_steps<S>(units: Seq<PendingSnapshot<S>>) -> Seq<CommitStep>
    decreases units.len(),
{
    if units.len() == 0 {
        Seq::empty()
    } else {
        unit_steps(units.drop_last()) + step_of(units.last(), units.len() - 1)
    }
}

pub open spec fn any_resolved<S>(units: Seq<PendingSnapshot<S>>, r: Resolution) -> bool {
    exists|i: int| 0 <= i < units.len() && units[i].op.resolution_spec() == r
}

/// Commit of inline units: the unit steps, then the source file is saved if
/// anything was accepted, then the skipped units are written back or the
/// pending batch is removed.
pub open spec fn inline_commit_steps<S>(units: Seq<PendingSnapshot<S>>) -> Seq<CommitStep> {
    let body = unit_steps(units);
    let body = if any_resolved(units, Resolution::Accept) {
        body.push(CommitStep::SaveSource)
    } else {
        body
    };
    if any_resolved(units, Resolution::Skip) {
        body.push(CommitStep::WriteBatch)
    } else {
        body.push(CommitStep::RemovePending)
    }
}

/// Commit of a file-backed unit. On accept the new value is saved only after
/// every removal, since it may reuse a sidecar path just removed.
pub open spec fn file_commit_steps(op: Operation, old_sidecar: bool, new_sidecar: bool) -> Seq<
    CommitStep,
> {
    let old_part = if old_sidecar {
        seq![CommitStep::RemoveOldSidecar]
    } else {
        Seq::empty()
    };
    let new_part = if new_sidecar {
        seq![CommitStep::RemoveNewSidecar]
    } else {
        Seq::empty()
    };
    match op.resolution_spec() {
        Resolution::Accept => seq![CommitStep::RemovePending] + old_part + new_part + seq![
            CommitStep::SaveTarget,
        ],
        Resolution::Reject => seq![CommitStep::RemovePending] + new_part,
        Resolution::Skip => Seq::empty(),
    }
}

impl<S> SnapshotContainer<S> {
    pub open spec fn wf(&self) -> bool {
        match self.kind {
            ContainerKind::File => {
                &&& self.snapshots@.len() == 1
                &&& !self.has_patcher
                &&& self.snapshots@[0].id == 0
                &&& self.snapshots@[0].line is None
            },
            ContainerKind::Inline => {
                &&& self.has_patcher == (self.snapshots@.len() > 0)
                &&& forall|i: int|
                    0 <= i < self.snapshots@.len() ==> {
                        &&& #[trigger] self.snapshots@[i].id == i
                        &&& self.snapshots@[i].line is Some
                    }
                &&& forall|i: int, j: int|
                    0 <= i <= j < self.snapshots@.len() ==> #[trigger] self.snapshots@[i].line->Some_0
                        <= #[trigger] self.snapshots@[j].line->Some_0
            },
        }
    }

    /// What committing the container does, given whether the old baseline
    /// and the new value of a file-backed unit have binary sidecars.
    pub open spec fn commit_steps(&self, old_sidecar: bool, new_sidecar: bool) -> Seq<CommitStep> {
        match self.kind {
            ContainerKind::Inline => if self.has_patcher {
                inline_commit_steps(self.snapshots@)
            } else {
                Seq::empty()
            },
            ContainerKind::File => file_commit_steps(
                self.snapshots@[0].op,
                old_sidecar,
                new_sidecar,
            ),
        }
    }

    /// A container for one snapshot file, from its baseline (if the target
    /// file exists) and the pending value.
    pub fn load_file(pending_path: String, target_path: String, old: Option<S>, new: S) -> (r: Self)
        ensures
            r.wf(),
            r.pending_path == pending_path,
            r.target_path == target_path,
            r.kind == ContainerKind::File,
            r.snapshots@ == seq![
                PendingSnapshot { id: 0, old, new, op: Operation::Skip, line: None },
            ],
            !r.has_patcher,
    {
        let mut snapshots: Vec<PendingSnapshot<S>> = Vec::new();
        snapshots.push(PendingSnapshot { id: 0, old, new, op: Operation::Skip, line: None });
        proof {
            assert(snapshots@ =~= seq![
                PendingSnapshot { id: 0, old, new, op: Operation::Skip, line: None },
            ]);
        }
        SnapshotContainer {
            pending_path,
            target_path,
            kind: ContainerKind::File,
            snapshots,
            has_patcher: false,
        }
    }
}

/// Relies on std's `slice::sort_by_key`: a stable sort, so the result is the
/// same entries, ordered by line.
#[verifier::external_body]
fn sort_entries_by_line<S>(entries: Vec<InlineEntry<S>>) -> (r: Vec<InlineEntry<S>>)
    ensures
        lines_ascending(r@),
        r@.to_multiset() == entries@.to_multiset(),
{
    let mut entries = entries;
    entries.sort_by_key(|e| e.line);
    entries
}

/// Puts a pending batch in line order, so that call sites are reconciled
/// from the top of the source file down.
pub fn sort_batch<S>(entries: Vec<InlineEntry<S>>) -> (r: Vec<InlineEntry<S>>)
    ensures
        lines_ascending(r@),
        r@.to_multiset() == entries@.to_multiset(),
{
    sort_entries_by_line(entries)
}

/// The lines at which the source patcher is to be asked for a call site, one
/// for each entry that carries a new value, in batch order.
pub fn probe_lines<S>(entries: &Vec<InlineEntry<S>>) -> (r: Vec<u32>)
    ensures
        r@ == candidates(entries@).map_values(|e: InlineEntry<S>| e.line),
{
    let mut r: Vec<u32> = Vec::new();
    let mut i: usize = 0;
    while i < entries.len()
        invariant
            i <= entries@.len(),
            r@ == candidates(entries@.subrange(0, i as int)).map_values(
                |e: InlineEntry<S>| e.line,
            ),
        decreases entries@.len() - i,
    {
        let ghost prefix = entries@.subrange(0, i as int + 1);
        proof {
            assert(prefix.drop_last() =~= entries@.subrange(0, i as int));
        }
        if entries[i].new.is_some() {
            r.push(entries[i].line);
            proof {
                let c = candidates(entries@.subrange(0, i as int));
                assert(c.push(entries@[i as int]).map_values(|e: InlineEntry<S>| e.line) =~= c.map_values(
                    |e: InlineEntry<S>| e.line,
                ).push(entries@[i as int].line));
            }
        }
        i += 1;
    }
    proof {
        assert(entries@.subrange(0, entries@.len() as int) =~= entries@);
    }
    r
}

proof fn lemma_candidates_prefix<S>(s: Seq<InlineEntry<S>>, k: int)
    requires
        0 <= k <= s.len(),
    ensures
        candidates(s.subrange(0, k)).len() <= candidates(s).len(),
    decreases s.len() - k,
{
    if k < s.len() {
        assert(s.subrange(0, k + 1).drop_last() =~= s.subrange(0, k));
        lemma_candidates_prefix(s, k + 1);
    } else {
        assert(s.subrange(0, k) =~= s);
    }
}

impl<S> SnapshotContainer<S> {
    /// A container for the inline snapshots of one source file. `entries` is
    /// the pending batch in line order; `found` is `None` when the source file
    /// does not exist, else the patcher's answer for each line of
    /// `probe_lines(entries)`. Entries without a new value and entries whose
    /// call site is gone are dropped; the survivors are numbered in order.
    pub fn load_inline(
        pending_path: String,
        target_path: String,
        entries: Vec<InlineEntry<S>>,
        found: Option<Vec<bool>>,
    ) -> (r: Self)
        requires
            lines_ascending(entries@),
            found is Some ==> found->Some_0@.len() == candidates(entries@).len(),
        ensures
            r.wf(),
            r.pending_path == pending_path,
            r.target_path == target_path,
            r.kind == ContainerKind::Inline,
            r.snapshots@ == units_of(
                survivors(
                    entries@,
                    match found {
                        Some(f) => Some(f@),
                        None => None,
                    },
                ),
            ),
            r.has_patcher == (r.snapshots@.len() > 0),
    {
        let ghost orig = entries@;
        let n = entries.len();
        assert(orig.len() == n);
        let mut entries = entries;
        let mut snapshots: Vec<PendingSnapshot<S>> = Vec::new();
        match found {
            None => {},
            Some(found) => {
                let ghost fs = found@;
                let nf = found.len();
                assert(fs.len() == nf);
                let mut k: usize = 0;
                let mut c: usize = 0;
                while entries.len() > 0
                    invariant
                        k + entries@.len() == orig.len(),
                        entries@ == orig.subrange(k as int, orig.len() as int),
                        c == candidates(orig.subrange(0, k as int)).len(),
                        found@ == fs,
                        fs.len() == candidates(orig).len(),
                        c <= fs.len(),
                        fs.len() <= usize::MAX,
                        orig.len() <= usize::MAX,
                        snapshots@ == units_of(
                            confirmed(candidates(orig.subrange(0, k as int)), fs.subrange(0, c as int)),
                        ),
                    decreases entries.len(),
                {
                    let ghost prev_cands = candidates(orig.subrange(0, k as int));
                    let ghost prev_kept = confirmed(prev_cands, fs.subrange(0, c as int));
                    let e = entries.remove(0);
                    proof {
                        assert(orig.subrange(0, k as int + 1).drop_last() =~= orig.subrange(
                            0,
                            k as int,
                        ));
                        assert(entries@ =~= orig.subrange(k as int + 1, orig.len() as int));
                        lemma_candidates_prefix(orig, k as int + 1);
                        assert(orig.subrange(0, k as int + 1).last() == e);
                    }
                    let InlineEntry { line, new, old } = e;
                    match new {
                        Some(v) => {
                            proof {
                                let ne = InlineEntry { line, new: Some(v), old };
                                assert(candidates(orig.subrange(0, k as int + 1)) == prev_cands.push(ne));
                                assert(prev_cands.push(ne).drop_last() =~= prev_cands);
                            }
                            let ok = found[c];
                            proof {
                                assert(fs.subrange(0, c as int + 1).drop_last() =~= fs.subrange(
                                    0,
                                    c as int,
                                ));
                            }
                            if ok {
                                let id = snapshots.len();
                                snapshots.push(
                                    PendingSnapshot {
                                        id,
                                        old,
                                        new: v,
                                        op: Operation::Skip,
                                        line: Some(line),
                                    },
                                );
                                proof {
                                    let ne = InlineEntry { line, new: Some(v), old };
                                    assert(units_of(prev_kept.push(ne)) =~= units_of(prev_kept).push(
                                        unit_of(ne, prev_kept.len() as int),
                                    ));
                                }
                            }
                            c += 1;
                        },
                        None => {
                            assert(candidates(orig.subrange(0, k as int + 1)) == prev_cands);
                        },
                    }
                    k += 1;
                }
                proof {
                    assert(orig.subrange(0, k as int) =~= orig);
                    assert(fs.subrange(0, c as int) =~= fs);
                    lemma_candidates_ascending(orig);
                    lemma_confirmed_ascending(candidates(orig), fs);
                }
            },
        }
        let has_patcher = snapshots.len() > 0;
        SnapshotContainer {
            pending_path,
            target_path,
            kind: ContainerKind::Inline,
            snapshots,
            has_patcher,
        }
    }
}

proof fn lemma_any_resolved_push<S>(units: Seq<PendingSnapshot<S>>, u: PendingSnapshot<S>, r: Resolution)
    ensures
        any_resolved(units.push(u), r) == (any_resolved(units, r) || u.op.resolution_spec() == r),
{
    let p = units.push(u);
    if any_resolved(units, r) {
        let i = choose|i: int| 0 <= i < units.len() && units[i].op.resolution_spec() == r;
        assert(p[i] == units[i]);
    }
    if any_resolved(p, r) && u.op.resolution_spec() != r {
        let i = choose|i: int| 0 <= i < p.len() && p[i].op.resolution_spec() == r;
        assert(i < units.len() && units[i] == p[i]);
    }
    if u.op.resolution_spec() == r {
        assert(p[units.len() as int] == u);
    }
}

impl<S> SnapshotContainer<S> {
    /// The number of pending snapshots.
    pub fn len(&self) -> (r: usize)
        ensures
            r == self.snapshots@.len(),
    {
        self.snapshots.len()
    }

    pub fn target_file(&self) -> (r: &String)
        ensures
            r == &self.target_path,
    {
        &self.target_path
    }

    /// The snapshot file of a file-backed container; inline containers have none.
    pub fn snapshot_file(&self) -> (r: Option<&String>)
        ensures
            r == (match self.kind {
                ContainerKind::File => Some(&self.target_path),
                ContainerKind::Inline => None,
            }),
    {
        match self.kind {
            ContainerKind::File => Some(&self.target_path),
            ContainerKind::Inline => None,
        }
    }

    /// Whether the pending artifact is to be removed right after loading: an
    /// inline batch none of whose entries survived is a stale leftover.
    pub fn pending_is_stale(&self) -> (r: bool)
        ensures
            r == (self.kind == ContainerKind::Inline && self.snapshots@.len() == 0),
    {
        match self.kind {
            ContainerKind::Inline => self.snapshots.len() == 0,
            ContainerKind::File => false,
        }
    }

    /// Records the user's decision for the snapshot at `index`.
    pub fn set_op(&mut self, index: usize, op: Operation)
        requires
            index < old(self).snapshots@.len(),
        ensures
            final(self).pending_path == old(self).pending_path,
            final(self).target_path == old(self).target_path,
            final(self).kind == old(self).kind,
            final(self).has_patcher == old(self).has_patcher,
            final(self).snapshots@ == old(self).snapshots@.update(
                index as int,
                PendingSnapshot { op, ..old(self).snapshots@[index as int] },
            ),
            old(self).wf() ==> final(self).wf(),
    {
        let mut unit = self.snapshots.remove(index);
        unit.set_op(op);
        self.snapshots.insert(index, unit);
        proof {
            assert(self.snapshots@ =~= old(self).snapshots@.update(
                index as int,
                PendingSnapshot { op, ..old(self).snapshots@[index as int] },
            ));
        }
    }

    /// The file work that committing the container calls for, in order.
    /// `old_sidecar` and `new_sidecar` say whether the old baseline and the
    /// new value of a file-backed unit have binary sidecars.
    pub fn commit_plan(&self, old_sidecar: bool, new_sidecar: bool) -> (r: Vec<CommitStep>)
        requires
            self.wf(),
        ensures
            r@ == self.commit_steps(old_sidecar, new_sidecar),
    {
        let mut steps: Vec<CommitStep> = Vec::new();
        match self.kind {
            ContainerKind::File => {
                let res = self.snapshots[0].op.resolution();
                match res {
                    Resolution::Accept => {
                        steps.push(CommitStep::RemovePending);
                        if old_sidecar {
                            steps.push(CommitStep::RemoveOldSidecar);
                        }
                        if new_sidecar {
                            steps.push(CommitStep::RemoveNewSidecar);
                        }
                        steps.push(CommitStep::SaveTarget);
                    },
                    Resolution::Reject => {
                        steps.push(CommitStep::RemovePending);
                        if new_sidecar {
                            steps.push(CommitStep::RemoveNewSidecar);
                        }
                    },
                    Resolution::Skip => {},
                }
                proof {
                    assert(steps@ =~= file_commit_steps(self.snapshots@[0].op, old_sidecar, new_sidecar));
                }
            },
            ContainerKind::Inline => {
                if self.has_patcher {
                    let mut did_accept = false;
                    let mut did_skip = false;
                    let mut i: usize = 0;
                    while i < self.snapshots.len()
                        invariant
                            i <= self.snapshots@.len(),
                            steps@ == unit_steps(self.snapshots@.subrange(0, i as int)),
                            did_accept == any_resolved(self.snapshots@.subrange(0, i as int), Resolution::Accept),
                            did_skip == any_resolved(self.snapshots@.subrange(0, i as int), Resolution::Skip),
                        decreases self.snapshots@.len() - i,
                    {
                        let ghost prefix = self.snapshots@.subrange(0, i as int);
                        let ghost u = self.snapshots@[i as int];
                        proof {
                            assert(self.snapshots@.subrange(0, i as int + 1) =~= prefix.push(u));
                            assert(prefix.push(u).drop_last() =~= prefix);
                            lemma_any_resolved_push(prefix, u, Resolution::Accept);
                            lemma_any_resolved_push(prefix, u, Resolution::Skip);
                        }
                        match self.snapshots[i].op.resolution() {
                            Resolution::Accept => {
                                steps.push(CommitStep::SetContent(i));
                                did_accept = true;
                            },
                            Resolution::Reject => {},
                            Resolution::Skip => {
                                steps.push(CommitStep::Requeue(i));
                                did_skip = true;
                            },
                        }
                        proof {
                            assert(steps@ =~= unit_steps(prefix) + step_of(u, i as int));
                        }
                        i += 1;
                    }
                    proof {
                        assert(self.snapshots@.subrange(0, i as int) =~= self.snapshots@);
                    }
                    if did_accept {
                        steps.push(CommitStep::SaveSource);
                    }
                    if did_skip {
                        steps.push(CommitStep::WriteBatch);
                    } else {
                        steps.push(CommitStep::RemovePending);
                    }
                }
                proof {
                    if !self.has_patcher {
                        assert(steps@ =~= Seq::<CommitStep>::empty());
                    }
                }
            },
        }
        steps
    }
}

proof fn lemma_candidates_ascending<S>(s: Seq<InlineEntry<S>>)
    requires
        lines_ascending(s),
    ensures
        lines_ascending(candidates(s)),
        s.len() > 0 ==> forall|i: int|
            0 <= i < candidates(s).len() ==> #[trigger] candidates(s)[i].line <= s.last().line,
    decreases s.len(),
{
    if s.len() > 0 {
        let s0 = s.drop_last();
        assert(lines_ascending(s0));
        lemma_candidates_ascending(s0);
        if s0.len() > 0 {
            assert(s0.last().line <= s.last().line);
        }
        assert forall|i: int| 0 <= i < candidates(s).len() implies #[trigger] candidates(s)[i].line
            <= s.last().line by {
            if i < candidates(s0).len() {
                assert(candidates(s)[i] == candidates(s0)[i]);
            }
        }
    }
}

proof fn lemma_confirmed_ascending<S>(c: Seq<InlineEntry<S>>, f: Seq<bool>)
    requires
        lines_ascending(c),
        f.len() == c.len(),
    ensures
        lines_ascending(confirmed(c, f)),
        c.len() > 0 ==> forall|i: int|
            0 <= i < confirmed(c, f).len() ==> #[trigger] confirmed(c, f)[i].line <= c.last().line,
    decreases c.len(),
{
    if c.len() > 0 {
        let c0 = c.drop_last();
        let f0 = f.drop_last();
        assert(lines_ascending(c0));
        lemma_confirmed_ascending(c0, f0);
        if c0.len() > 0 {
            assert(c0.last().line <= c.last().line);
        }
        assert forall|i: int| 0 <= i < confirmed(c, f).len() implies #[trigger] confirmed(c, f)[i].line
            <= c.last().line by {
            if i < confirmed(c0, f0).len() {
                assert(confirmed(c, f)[i] == confirmed(c0, f0)[i]);
            }
        }
    }
}

} // verus!
