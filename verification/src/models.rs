//! A placeholder model and communicator with the call shapes of real ones.
use vstd::prelude::*;

verus! {

/// Vocabulary of the placeholder forward: enough to give the logits a
/// concrete, non-empty shape.
pub const SKELETON_VOCAB: usize = 8;

/// Communicator of a single rank: every collective is a no-op.
#[derive(Debug, Clone, Copy, Default)]
pub struct NoopCommunicator;

impl NoopCommunicator {
    /// There is no group to reduce across.
    pub fn all_reduce<T>(&self, tensor: &mut T)
        ensures
            *final(tensor) == *old(tensor),
    {
    }

    /// There is no group to exchange with.
    pub fn all_to_all<T>(&self, send: &T, recv: &mut T)
        ensures
            *final(recv) == *old(recv),
    {
    }

    /// There is no pipeline peer.
    pub fn send_recv<T>(&self, stage: u32, tensor: &mut T)
        ensures
            *final(tensor) == *old(tensor),
    {
    }
}

/// A model whose forward gives zeroed logits, whatever the plan.
#[derive(Debug, Clone, Copy, Default)]
pub struct SkeletonModel;

impl SkeletonModel {
    #[must_use]
    pub fn new() -> (r: Self)
        ensures
            r == SkeletonModel,
    {
        SkeletonModel
    }

    /// `SKELETON_VOCAB` times the given zero.
    pub fn forward<T: Copy>(&mut self, zero: T) -> (logits: Vec<T>)
        ensures
            *final(self) == *old(self),
            logits@ == Seq::new(SKELETON_VOCAB as nat, |i: int| zero),
    {
        let mut logits: Vec<T> = Vec::new();
        let mut i: usize = 0;
        while i < SKELETON_VOCAB
            invariant
                i <= SKELETON_VOCAB,
                *self == *old(self),
                logits@ == Seq::new(i as nat, |j: int| zero),
            decreases SKELETON_VOCAB - i,
        {
            logits.push(zero);
            i = i + 1;
            assert(logits@ =~= Seq::new(i as nat, |j: int| zero));
        }
        logits
    }
}

} // verus!
