use vstd::prelude::*;

use crate::pending::PendingSnapshot;
use crate::summary::{render_summary, summary_text};

verus! {

/// `insta::Snapshot`, a captured snapshot value; the library carries it
/// through without looking inside.
#[verifier::external_type_specification]
#[verifier::external_body]
pub struct ExSnapshot(insta::Snapshot);

/// Relies on `insta::Snapshot::metadata` and `insta::MetaData::source`: the
/// source file recorded with the snapshot, if any.
#[verifier::external_body]
fn snapshot_source(s: &insta::Snapshot) -> (r: Option<&str>) {
    s.metadata().source()
}

/// Relies on `insta::Snapshot::snapshot_name`: the snapshot's name, if it has one.
#[verifier::external_body]
fn snapshot_name(s: &insta::Snapshot) -> (r: Option<&str>) {
    s.snapshot_name()
}

impl PendingSnapshot<insta::Snapshot> {
    /// The display line `source[:line] (name)` of this pending snapshot; the
    /// line part is present exactly for inline snapshots.
    pub fn summary(&self) -> (r: String)
        ensures
            exists|source: Option<Seq<char>>, name: Option<Seq<char>>|
                r@ == summary_text(source, self.line, name),
    {
        let source = snapshot_source(&self.new);
        let name = snapshot_name(&self.new);
        render_summary(source, self.line, name)
    }
}

} // verus!
