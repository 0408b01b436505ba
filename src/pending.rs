use vstd::prelude::*;

use crate::operation::Operation;

verus! {

/// One reconciliation unit: a freshly captured value, the baseline it is
/// compared with, and the user's decision.
pub struct PendingSnapshot<S> {
    /// Slot of the unit within its container; for inline snapshots it is the
    /// slot the source patcher assigned to the call site.
    pub id: usize,
    /// The accepted baseline, if there is one yet.
    pub old: Option<S>,
    /// The value captured by the latest test run.
    pub new: S,
    /// The decision; `Skip` until the user acts.
    pub op: Operation,
    /// The line of the call site; present for inline snapshots only.
    pub line: Option<u32>,
}

/// One entry of an inline pending batch as the test run wrote it.
pub struct InlineEntry<S> {
    pub line: u32,
    /// `None` where the assertion matched its baseline again.
    pub new: Option<S>,
    pub old: Option<S>,
}

impl<S> PendingSnapshot<S> {
    pub fn id(&self) -> (r: usize)
        ensures
            r == self.id,
    {
        self.id
    }

    pub fn set_op(&mut self, op: Operation)
        ensures
            *final(self) == (PendingSnapshot { op, ..*old(self) }),
    {
        self.op = op;
    }
}

} // verus!
