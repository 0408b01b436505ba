use vstd::prelude::*;

verus! {

/// What the user decided for one pending snapshot.
#[derive(Clone, Copy, Debug, PartialEq, Eq, Structural)]
pub enum Operation {
    Accept,
    AcceptAll,
    Reject,
    RejectAll,
    Skip,
    SkipAll,
}

/// The effect an operation has when a container is committed.
#[derive(Clone, Copy, Debug, PartialEq, Eq, Structural)]
pub enum Resolution {
    Accept,
    Reject,
    Skip,
}

impl Operation {
    /// The commit behaviour of an operation: the "all" variants act like their
    /// single counterpart.
    pub open spec fn resolution_spec(self) -> Resolution {
        match self {
            Operation::Accept | Operation::AcceptAll => Resolution::Accept,
            Operation::Reject | Operation::RejectAll => Resolution::Reject,
            Operation::Skip | Operation::SkipAll => Resolution::Skip,
        }
    }

    /// Whether the user asked for this decision to be applied to every
    /// remaining snapshot of the session.
    pub open spec fn applies_to_remaining_spec(self) -> bool {
        match self {
            Operation::AcceptAll | Operation::RejectAll | Operation::SkipAll => true,
            _ => false,
        }
    }

    pub fn resolution(&self) -> (r: Resolution)
        ensures
            r == self.resolution_spec(),
    {
        match self {
            Operation::Accept | Operation::AcceptAll => Resolution::Accept,
            Operation::Reject | Operation::RejectAll => Resolution::Reject,
            Operation::Skip | Operation::SkipAll => Resolution::Skip,
        }
    }

    pub fn applies_to_remaining(&self) -> (r: bool)
        ensures
            r == self.applies_to_remaining_spec(),
    {
        match self {
            Operation::AcceptAll | Operation::RejectAll | Operation::SkipAll => true,
            _ => false,
        }
    }

    /// Builds the operation from a resolution and the "apply to the remaining
    /// snapshots" flag.
    pub fn from_parts(resolution: Resolution, to_remaining: bool) -> (r: Operation)
        ensures
            r.resolution_spec() == resolution,
            r.applies_to_remaining_spec() == to_remaining,
    {
        match (resolution, to_remaining) {
            (Resolution::Accept, false) => Operation::Accept,
            (Resolution::Accept, true) => Operation::AcceptAll,
            (Resolution::Reject, false) => Operation::Reject,
            (Resolution::Reject, true) => Operation::RejectAll,
            (Resolution::Skip, false) => Operation::Skip,
            (Resolution::Skip, true) => Operation::SkipAll,
        }
    }
}

impl Default for Operation {
    fn default() -> (r: Operation)
        ensures
            r == Operation::Skip,
    {
        Operation::Skip
    }
}

} // verus!
