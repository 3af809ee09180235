//! The lifecycle of a transactional output: created armed, it ends either
//! committed, when the caller takes the finished output, or abandoned, when it
//! is dropped before that and its file must be removed.

use vstd::prelude::*;

verus! {

/// Where an output stands in its lifecycle.
#[derive(Debug, Clone, Copy, PartialEq, Eq, Structural)]
pub enum SinkState {
    /// Created; it will be removed unless committed.
    Armed,
    /// Handed over to the caller; nothing will remove it.
    Committed,
    /// Given up; its file has been removed.
    Abandoned,
}

impl SinkState {
    /// The state of a freshly created output.
    pub fn armed() -> (r: Self)
        ensures
            r == SinkState::Armed,
    {
        SinkState::Armed
    }

    /// Whether the output still has to be removed if it is dropped.
    pub open spec fn must_remove(self) -> bool {
        self == SinkState::Armed
    }

    /// Commits an armed output: from now on nothing removes it.
    pub fn commit(&mut self)
        requires
            *old(self) == SinkState::Armed,
        ensures
            *final(self) == SinkState::Committed,
    {
        *self = SinkState::Committed;
    }

    /// The outcome of one `release`, from state `old` to state `new`.
    pub open spec fn released(old: Self, new: Self, remove: bool) -> bool {
        &&& remove == old.must_remove()
        &&& new == if remove {
            SinkState::Abandoned
        } else {
            old
        }
    }

    /// Called when the output is dropped: says whether its file must be
    /// removed now, which is the case exactly when it was never committed.
    pub fn release(&mut self) -> (remove: bool)
        ensures
            Self::released(*old(self), *final(self), remove),
    {
        match *self {
            SinkState::Armed => {
                *self = SinkState::Abandoned;
                true
            },
            _ => false,
        }
    }
}

/// An output dropped before it is committed is removed by the first release,
/// and no later release removes it again.
pub proof fn lemma_abandoned_removed(
    s1: SinkState,
    first: bool,
    s2: SinkState,
    second: bool,
    s3: SinkState,
    third: bool,
)
    requires
        SinkState::released(SinkState::Armed, s1, first),
        SinkState::released(s1, s2, second),
        SinkState::released(s2, s3, third),
    ensures
        first,
        s1 == SinkState::Abandoned,
        !second,
        !third,
        s3 == SinkState::Abandoned,
{
}

/// Once committed, an output is never removed, however often it is released.
pub proof fn lemma_committed_kept(s1: SinkState, first: bool, s2: SinkState, second: bool)
    requires
        SinkState::released(SinkState::Committed, s1, first),
        SinkState::released(s1, s2, second),
    ensures
        !first,
        !second,
        s2 == SinkState::Committed,
{
}

} // verus!
