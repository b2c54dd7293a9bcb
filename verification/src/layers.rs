//! A layer that makes an operator read-only.
use vstd::prelude::*;

use crate::error::{ErrorKind, Failure, FailureView};
use crate::mount::Operation;

verus! {

/// A layer that rejects all writes and deletes.
#[derive(Clone, Copy, Debug, PartialEq, Eq, Structural)]
pub struct ReadOnlyLayer;

/// What a request that the layer rejects is answered.
pub open spec fn read_only_refused() -> FailureView {
    FailureView::new(ErrorKind::PermissionDenied, "read-only mount point"@).with_context(
        "layer"@,
        "ReadonlyLayer"@,
    )
}

impl ReadOnlyLayer {
    /// Whether the layer rejects an operation.
    pub open spec fn rejects(op: Operation) -> bool {
        op is Write || op is Delete
    }

    /// Decides on an operation: what the layer does not reject goes on to the operator below.
    pub fn check(op: Operation) -> (r: Result<(), Failure>)
        ensures
            match r {
                Ok(_) => !ReadOnlyLayer::rejects(op),
                Err(failure) => ReadOnlyLayer::rejects(op) && failure@ == read_only_refused(),
            },
    {
        match op {
            Operation::Write | Operation::Delete => Err(
                Failure::new(ErrorKind::PermissionDenied, "read-only mount point").with_context(
                    "layer",
                    "ReadonlyLayer",
                ),
            ),
            _ => Ok(()),
        }
    }
}

/// Exactly writing and deleting are rejected, and the answer says that the mount is read-only.
pub proof fn law_rejects_writes_and_deletes(op: Operation)
    ensures
        ReadOnlyLayer::rejects(op) <==> op == Operation::Write || op == Operation::Delete,
        read_only_refused().kind == ErrorKind::PermissionDenied,
        read_only_refused().message == "read-only mount point"@,
        read_only_refused().context == seq![("layer"@, "ReadonlyLayer"@)],
        read_only_refused().source is None,
{
    assert(Seq::<(Seq<char>, Seq<char>)>::empty().push(("layer"@, "ReadonlyLayer"@)) =~= seq![
        ("layer"@, "ReadonlyLayer"@),
    ]);
}

} // verus!
