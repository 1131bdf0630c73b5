use coprocessor_chunk::chunk::Chunk;
use coprocessor_chunk::executor::{
    BatchExecuteResult, BatchExecuteStatistics, BatchExecutor, BatchLimitExecutor,
};
use coprocessor_chunk::error::ExecError;
use coprocessor_chunk::types;

/// Produces `total` rows of one integer column, and records each request it gets.
struct Source {
    total: usize,
    sent: usize,
    requests: Vec<usize>,
}

impl BatchExecutor for Source {
    fn next_batch(&mut self, expect_rows: usize) -> BatchExecuteResult {
        self.requests.push(expect_rows);
        let mut data = Chunk::new_chunk(&[types::LONG_LONG as i32]);
        if expect_rows == 0 {
            return BatchExecuteResult { data, is_drained: Err(ExecError::Other("zero rows requested".to_string())) };
        }
        let n = std::cmp::min(expect_rows, self.total - self.sent);
        for i in 0..n {
            data.append_i64(0, (self.sent + i) as i64);
        }
        self.sent += n;
        BatchExecuteResult { data, is_drained: Ok(self.sent == self.total) }
    }

    fn collect_statistics(&mut self, destination: &mut BatchExecuteStatistics) {
        destination.produced_rows += self.sent as u64;
    }
}

#[test]
fn limit_clamps_requests_and_stops_at_limit() {
    let src = Source { total: 100, sent: 0, requests: vec![] };
    let mut limit = BatchLimitExecutor::new(src, 7);
    let r = limit.next_batch(3);
    assert_eq!(r.data.num_rows(), 3);
    assert_eq!(limit.clamp_request(10), 4);
    let r = limit.next_batch(10);
    assert_eq!(r.data.num_rows(), 4);
    let r = limit.next_batch(10);
    assert_eq!(r.data.num_rows(), 0);
    assert_eq!(r.is_drained, Ok(true));
    let mut stats = BatchExecuteStatistics::default();
    limit.collect_statistics(&mut stats);
    assert_eq!(stats.produced_rows, 7);
}

#[test]
fn limit_above_source_rows_passes_everything() {
    let src = Source { total: 5, sent: 0, requests: vec![] };
    let mut limit = BatchLimitExecutor::new(src, 1000);
    let mut total = 0;
    loop {
        let r = limit.next_batch(2);
        total += r.data.num_rows();
        if r.is_drained == Ok(true) {
            break;
        }
    }
    assert_eq!(total, 5);
}

#[test]
fn zero_request_is_left_to_the_source() {
    let src = Source { total: 5, sent: 0, requests: vec![] };
    let mut limit = BatchLimitExecutor::new(src, 3);
    let r = limit.next_batch(0);
    assert!(r.is_drained.is_err());
    assert_eq!(r.data.num_rows(), 0);
}

#[test]
fn zero_limit_never_pulls() {
    let src = Source { total: 5, sent: 0, requests: vec![] };
    let mut limit = BatchLimitExecutor::new(src, 0);
    let r = limit.next_batch(4);
    assert_eq!(r.data.num_rows(), 0);
    assert_eq!(r.is_drained, Ok(true));
    let mut stats = BatchExecuteStatistics::default();
    limit.collect_statistics(&mut stats);
    assert_eq!(stats.produced_rows, 0);
}
