//! In-order delivery for the parallel snapshot loader.
//!
//! Snapshot files are decompressed and parsed by a pool of workers that
//! finish in any order, but the per-tick driver must see the results in
//! submission order. Workers hand each result in under its submission
//! number; the consumer takes results out strictly in that order, each
//! exactly once.

use vstd::prelude::*;

use crate::error::Error;
use crate::snapshot::Response;

verus! {

/// What loading one snapshot file produced: a parsed snapshot, or the
/// error that reading, decompressing or decoding it raised.
pub enum LoadOutcome {
    Parsed(Response),
    Failed(Error),
}

/// A reorder buffer over `total` submissions.
///
/// Submission `idx` occupies `pending[idx - next]`; the first `next`
/// submissions have already been handed out and their slots dropped.
pub struct ReorderBuffer {
    /// The slots of the submissions not yet handed out, in submission
    /// order.
    pub pending: Vec<Option<LoadOutcome>>,
    /// How many results have been handed out so far.
    pub next: usize,
    /// How many submissions the buffer was created for.
    pub total: usize,
}

impl ReorderBuffer {
    /// The slot counts add up.
    pub open spec fn wf(self) -> bool {
        self.next + self.pending@.len() == self.total
    }

    /// The slot of submission `idx`.
    pub open spec fn slot(self, idx: int) -> Option<LoadOutcome>
        recommends
            self.next <= idx < self.total,
    {
        self.pending@[idx - self.next]
    }

    /// A buffer for `total` submissions, all slots empty.
    pub fn new(total: usize) -> (b: ReorderBuffer)
        ensures
            b.wf(),
            b.next == 0,
            b.total == total,
            forall|idx: int| 0 <= idx < total ==> b.slot(idx) is None,
    {
        let mut pending: Vec<Option<LoadOutcome>> = Vec::new();
        let mut i: usize = 0;
        while i < total
            invariant
                i <= total,
                pending@.len() == i,
                forall|idx: int| 0 <= idx < i ==> pending@[idx] is None,
            decreases total - i,
        {
            pending.push(None);
            i = i + 1;
        }
        ReorderBuffer { pending, next: 0, total }
    }

    /// Files a worker's result under its submission number.
    ///
    /// Succeeds exactly when the submission has not been handed out and
    /// its slot is still empty; a rejected result leaves the buffer
    /// unchanged.
    pub fn insert(&mut self, idx: usize, item: LoadOutcome) -> (r: bool)
        requires
            old(self).wf(),
        ensures
            final(self).wf(),
            final(self).next == old(self).next,
            final(self).total == old(self).total,
            r == (old(self).next <= idx < old(self).total && old(self).slot(idx as int) is None),
            r ==> final(self).slot(idx as int) == Some(item),
            r ==> forall|idx2: int|
                old(self).next <= idx2 < old(self).total && idx2 != idx ==> final(self).slot(idx2)
                    == old(self).slot(idx2),
            !r ==> *final(self) == *old(self),
    {
        if idx >= self.next && idx < self.total {
            let off = idx - self.next;
            let empty = self.pending[off].is_none();
            if empty {
                self.pending[off] = Some(item);
                return true;
            }
        }
        false
    }

    /// Hands out the next result in submission order, if it has arrived.
    ///
    /// All later submissions keep their slots; nothing is handed out
    /// twice or early.
    pub fn pop_ready(&mut self) -> (r: Option<LoadOutcome>)
        requires
            old(self).wf(),
        ensures
            final(self).wf(),
            final(self).total == old(self).total,
            (old(self).next < old(self).total && old(self).slot(old(self).next as int) is Some)
                ==> {
                &&& r == old(self).slot(old(self).next as int)
                &&& final(self).next == old(self).next + 1
                &&& forall|idx2: int|
                    final(self).next <= idx2 < final(self).total ==> final(self).slot(idx2)
                        == old(self).slot(idx2)
            },
            !(old(self).next < old(self).total && old(self).slot(old(self).next as int) is Some)
                ==> r is None && *final(self) == *old(self),
    {
        if self.next < self.total {
            let ready = self.pending[0].is_some();
            if ready {
                let item = self.pending.remove(0);
                self.next = self.next + 1;
                return item;
            }
        }
        None
    }

    /// How many results have been handed out so far.
    pub fn delivered(&self) -> (r: usize)
        ensures
            r == self.next,
    {
        self.next
    }
}

} // verus!
