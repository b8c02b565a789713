//! The queue that hands out the rows of a frame to the workers of a render pass.

use vstd::prelude::*;

verus! {

/// The counter that hands out the rows of a frame to the workers of one
/// render pass: the next row that nobody has claimed, and the number of rows.
#[derive(Clone, Copy, Debug, PartialEq, Eq, Structural)]
pub struct WorkQueue {
    pub next_chunk: usize,
    pub chunks_len: usize,
}

impl WorkQueue {
    /// What the next claim returns: the next row, or `None` once every row
    /// was claimed.
    pub open spec fn next_claim(self) -> Option<usize> {
        if self.next_chunk < self.chunks_len {
            Some(self.next_chunk)
        } else {
            None
        }
    }

    /// The queue after the next claim.
    pub open spec fn after_claim(self) -> WorkQueue {
        if self.next_chunk < self.chunks_len {
            WorkQueue { next_chunk: (self.next_chunk + 1) as usize, chunks_len: self.chunks_len }
        } else {
            self
        }
    }

    /// The queue after `claims` claims.
    pub open spec fn after_claims(self, claims: nat) -> WorkQueue
        decreases claims,
    {
        if claims == 0 {
            self
        } else {
            self.after_claims((claims - 1) as nat).after_claim()
        }
    }

    /// A queue of `chunks_len` rows, none of them claimed.
    pub fn new(chunks_len: usize) -> (queue: WorkQueue)
        ensures
            queue == (WorkQueue { next_chunk: 0, chunks_len }),
    {
        WorkQueue { next_chunk: 0, chunks_len }
    }

    /// Claims the next row: its index, or `None` once every row was claimed.
    pub fn claim(&mut self) -> (claimed: Option<usize>)
        ensures
            claimed == old(self).next_claim(),
            *final(self) == old(self).after_claim(),
    {
        if self.next_chunk < self.chunks_len {
            let current_chunk: usize = self.next_chunk;
            self.next_chunk = current_chunk + 1;
            Some(current_chunk)
        } else {
            None
        }
    }
}

/// A new queue hands out every row once and in order, whoever claims: the
/// claim that follows `claims` earlier ones gets the row `claims`, until the
/// rows run out, and nothing from then on.
pub proof fn lemma_every_row_is_claimed_once(chunks_len: usize, claims: nat)
    ensures
        (WorkQueue { next_chunk: 0, chunks_len }).after_claims(claims).chunks_len == chunks_len,
        (WorkQueue { next_chunk: 0, chunks_len }).after_claims(claims).next_chunk == (if claims
            < chunks_len {
            claims as int
        } else {
            chunks_len as int
        }),
        (WorkQueue { next_chunk: 0, chunks_len }).after_claims(claims).next_claim() == (if claims
            < chunks_len {
            Some(claims as usize)
        } else {
            None
        }),
    decreases claims,
{
    if claims > 0 {
        lemma_every_row_is_claimed_once(chunks_len, (claims - 1) as nat);
    }
}

} // verus!
