//! The pull protocol of batch executors, and the decorator that caps the rows pulled.

use crate::chunk::{chunk_wf, rows_of, Chunk};
use crate::error::ExecError;
use vstd::prelude::*;

verus! {

/// What one pull returns: a batch, and whether the executor is drained (or why it failed).
pub struct BatchExecuteResult {
    pub data: Chunk,
    pub is_drained: Result<bool, ExecError>,
}

/// Execution statistics that executors hand down the chain.
#[derive(Debug, Default)]
pub struct BatchExecuteStatistics {
    pub scanned_rows: u64,
    pub produced_rows: u64,
}

/// An executor that produces its rows batch by batch, on demand.
pub trait BatchExecutor {
    /// Pulls at most `expect_rows` rows.
    fn next_batch(&mut self, expect_rows: usize) -> (r: BatchExecuteResult)
        ensures
            chunk_wf(r.data@),
            rows_of(r.data@) <= expect_rows,
    ;

    /// Adds this executor's statistics to `destination`.
    fn collect_statistics(&mut self, destination: &mut BatchExecuteStatistics);
}

/// Passes at most `limit` rows of its source through, over all pulls together.
pub struct BatchLimitExecutor<Src: BatchExecutor> {
    src: Src,
    expect_rows: u64,
    produced: Ghost<nat>,
    last_request: Ghost<Option<nat>>,
}

impl<Src: BatchExecutor> BatchLimitExecutor<Src> {
    /// Rows that may still pass.
    pub closed spec fn remaining(&self) -> nat {
        self.expect_rows as nat
    }

    /// The limit it was made with: the rows passed and those that may still pass.
    pub closed spec fn limit(&self) -> nat {
        self.produced@ + self.expect_rows as nat
    }

    /// Rows passed so far.
    pub closed spec fn produced(&self) -> nat {
        self.produced@
    }

    /// The request the last pull passed on to the source; `None` when it passed none on.
    pub closed spec fn last_request(&self) -> Option<nat> {
        self.last_request@
    }

    pub fn new(src: Src, limit: u64) -> (r: Self)
        ensures
            r.limit() == limit,
            r.remaining() == limit,
            r.produced() == 0,
            r.last_request() is None,
    {
        BatchLimitExecutor { src, expect_rows: limit, produced: Ghost(0), last_request: Ghost(None) }
    }

    /// The request passed on to the source: `expect_rows`, but no more than remain.
    pub fn clamp_request(&self, expect_rows: usize) -> (r: usize)
        ensures
            r == if expect_rows as nat > self.remaining() {
                self.remaining()
            } else {
                expect_rows as nat
            },
    {
        if expect_rows as u64 > self.expect_rows {
            self.expect_rows as usize
        } else {
            expect_rows
        }
    }

    /// Pulls at most `expect_rows` rows, and no more than remain; once none remain,
    /// returns an empty drained batch without pulling from the source.
    pub fn pull(&mut self, expect_rows: usize) -> (r: BatchExecuteResult)
        ensures
            final(self).limit() == old(self).limit(),
            chunk_wf(r.data@),
            rows_of(r.data@) <= expect_rows,
            rows_of(r.data@) <= old(self).remaining(),
            final(self).remaining() == old(self).remaining() - rows_of(r.data@),
            final(self).produced() == old(self).produced() + rows_of(r.data@),
            old(self).remaining() == 0 ==> rows_of(r.data@) == 0 && r.is_drained == Ok::<
                bool,
                ExecError,
            >(true),
            old(self).remaining() == 0 ==> final(self).last_request() is None,
            old(self).remaining() > 0 ==> final(self).last_request() == Some(
                if expect_rows as nat > old(self).remaining() {
                    old(self).remaining()
                } else {
                    expect_rows as nat
                },
            ),
    {
        if self.expect_rows == 0 {
            self.last_request = Ghost(None);
            let empty: [i32; 0] = [];
            return BatchExecuteResult { data: Chunk::new_chunk(&empty), is_drained: Ok(true) };
        }
        let request = self.clamp_request(expect_rows);
        self.last_request = Ghost(Some(request as nat));
        let result = self.src.next_batch(request);
        let rows_len = result.data.num_rows();
        self.expect_rows = self.expect_rows - rows_len as u64;
        self.produced = Ghost(self.produced@ + rows_len as nat);
        result
    }
}

impl<Src: BatchExecutor> BatchExecutor for BatchLimitExecutor<Src> {
    /// Pulls as `pull` does: at most `expect_rows` rows, no more than remain, and an
    /// empty drained batch once none remain.
    fn next_batch(&mut self, expect_rows: usize) -> (r: BatchExecuteResult)
        ensures
            final(self).limit() == old(self).limit(),
            chunk_wf(r.data@),
            rows_of(r.data@) <= expect_rows,
            rows_of(r.data@) <= old(self).remaining(),
            final(self).remaining() == old(self).remaining() - rows_of(r.data@),
            final(self).produced() == old(self).produced() + rows_of(r.data@),
            old(self).remaining() == 0 ==> rows_of(r.data@) == 0 && r.is_drained == Ok::<
                bool,
                ExecError,
            >(true),
            old(self).remaining() == 0 ==> final(self).last_request() is None,
            old(self).remaining() > 0 ==> final(self).last_request() == Some(
                if expect_rows as nat > old(self).remaining() {
                    old(self).remaining()
                } else {
                    expect_rows as nat
                },
            ),
    {
        self.pull(expect_rows)
    }

    /// Hands `destination` on to the source; the quota is left as it is.
    fn collect_statistics(&mut self, destination: &mut BatchExecuteStatistics)
        ensures
            final(self).limit() == old(self).limit(),
            final(self).remaining() == old(self).remaining(),
            final(self).produced() == old(self).produced(),
    {
        self.src.collect_statistics(destination);
    }
}

/// However many pulls were made, the rows passed do not exceed the limit.
pub proof fn lemma_limit_never_exceeded<Src: BatchExecutor>(e: &BatchLimitExecutor<Src>)
    ensures
        e.produced() <= e.limit(),
        e.produced() + e.remaining() == e.limit(),
{
}

} // verus!
