use coprocessor_chunk::dag::{captured_in_response, ChunkBuilder, DAGContext, DistSqlCache, CACHE_SIZE_LIMIT};
use coprocessor_chunk::error::ExecError;
use coprocessor_chunk::row_codec::{inflate_cols, ColumnInfo, ExecRow};

fn ctx_of(has_aggr: bool, has_topn: bool, limit: usize, key: String, enable: bool) -> DAGContext {
    DAGContext::new(vec![], vec![], has_aggr, has_topn, limit, key, enable)
}

fn col(id: i64, pk: bool, default_val: Option<Vec<u8>>, flag: i32) -> ColumnInfo {
    ColumnInfo { column_id: id, pk_handle: pk, default_val, flag }
}

fn sample_row() -> ExecRow {
    // column 1 stores [3, 2], column 2 stores [1, 0x61]
    ExecRow { handle: -3, value: vec![3, 2, 1, 0x61], cols: vec![(1, 0, 2), (2, 2, 2)] }
}

#[test]
fn inflate_takes_stored_then_handle_then_default_then_null() {
    let cols = vec![
        col(1, false, None, 0),
        col(7, true, None, 0),
        col(8, true, None, 32),
        col(9, false, Some(vec![8, 4]), 1),
        col(10, false, None, 0),
        col(2, false, None, 1),
    ];
    let row = sample_row();
    let out = inflate_cols(&row, &cols, &[0, 1, 3, 4, 5]).unwrap();
    // handle -3 as a zig-zag varint is 5
    assert_eq!(out, vec![3, 2, 8, 5, 8, 4, 0, 1, 0x61]);
    let unsigned = ExecRow { handle: 300, value: vec![], cols: vec![] };
    assert_eq!(inflate_cols(&unsigned, &cols, &[2]).unwrap(), vec![9, 0xac, 0x02]);
    assert_eq!(inflate_cols(&unsigned, &cols, &[1]).unwrap(), vec![8, 0xd8, 0x04]);
}

#[test]
fn inflate_fails_on_missing_not_null_column() {
    let cols = vec![col(1, false, None, 0), col(5, false, None, 1)];
    let row = sample_row();
    assert_eq!(inflate_cols(&row, &cols, &[0, 1]), Err(ExecError::MissingColumn(5, -3)));
    assert_eq!(inflate_cols(&row, &cols, &[]), Ok(vec![]));
}

#[test]
fn rows_after_aggregation_pass_verbatim() {
    let aggr = DAGContext::new(vec![], vec![], true, false, 8, "k".to_string(), true);
    assert_eq!(aggr.encode_row(&sample_row()), Ok(vec![3, 2, 1, 0x61]));
    let plain = DAGContext::new(vec![col(2, false, None, 0)], vec![0, 0], false, false, 8, "k".to_string(), true);
    assert_eq!(plain.encode_row(&sample_row()), Ok(vec![1, 0x61, 1, 0x61]));
    assert!(!plain.has_aggr());
    assert_eq!(plain.batch_row_limit(), 8);
}

#[test]
fn only_business_errors_are_captured() {
    assert!(captured_in_response(&ExecError::Other("plan".to_string())));
    assert!(!captured_in_response(&ExecError::Outdated));
    assert!(!captured_in_response(&ExecError::MissingColumn(1, 2)));
}

#[test]
fn cacheability_needs_aggregation_or_topn() {
    assert!(ctx_of(true, false, 64, "k".to_string(), true).can_cache());
    assert!(ctx_of(false, true, 64, "k".to_string(), true).can_cache());
    assert!(!ctx_of(false, false, 64, "k".to_string(), true).can_cache());
    assert!(!ctx_of(true, true, 64, "k".to_string(), false).can_cache());
    let ctx = ctx_of(true, false, 64, "k".to_string(), true);
    assert!(ctx.can_cache_with_size(&vec![0u8; CACHE_SIZE_LIMIT]));
    assert!(!ctx.can_cache_with_size(&vec![0u8; CACHE_SIZE_LIMIT + 1]));
}

#[test]
fn identical_cacheable_request_misses_then_hits() {
    let mut cache = DistSqlCache::new();
    cache.set_region_version(9, 4);
    let first = ctx_of(true, false, 64, "ranges, plan".to_string(), true);
    let (version, hit) = first.cache_lookup(&cache, 9);
    assert_eq!(version, 4);
    assert!(hit.is_none());
    assert!(first.cache_store(&mut cache, 9, version, b"response"));
    let second = ctx_of(true, false, 64, "ranges, plan".to_string(), true);
    let (_, hit) = second.cache_lookup(&cache, 9);
    assert_eq!(hit, Some(b"response".to_vec()));
    let (_, other_region) = second.cache_lookup(&cache, 10);
    assert!(other_region.is_none());
    let different = ctx_of(true, false, 64, "ranges, other plan".to_string(), true);
    assert!(different.cache_lookup(&cache, 9).1.is_none());
}

#[test]
fn store_is_skipped_when_too_large_or_not_cacheable() {
    let mut cache = DistSqlCache::new();
    let plain = ctx_of(false, false, 64, "k".to_string(), true);
    assert!(!plain.cache_store(&mut cache, 1, 0, b"x"));
    assert_eq!(plain.cache_lookup(&cache, 1), (0, None));
    let aggr = ctx_of(true, false, 64, "k".to_string(), true);
    assert!(aggr.cache_lookup(&cache, 1).1.is_none());
    assert!(!aggr.cache_store(&mut cache, 1, 0, &vec![1u8; CACHE_SIZE_LIMIT + 1]));
    assert!(aggr.cache_lookup(&cache, 1).1.is_none());
}

#[test]
fn later_store_supersedes_earlier() {
    let mut cache = DistSqlCache::new();
    cache.put(3, b"k", 1, b"old");
    cache.put(3, b"k", 2, b"new");
    assert_eq!(cache.get(3, b"k"), Some(b"new".to_vec()));
    assert_eq!(cache.get_region_version(3), 0);
    cache.set_region_version(3, 8);
    cache.set_region_version(3, 9);
    assert_eq!(cache.get_region_version(3), 9);
}

#[test]
fn rows_are_grouped_by_row_limit() {
    let mut b = ChunkBuilder::new(2);
    b.push_row(b"a");
    b.push_row(b"bc");
    b.push_row(b"d");
    b.push_row(b"e");
    b.push_row(b"f");
    assert_eq!(b.into_chunks(), vec![b"abc".to_vec(), b"de".to_vec(), b"f".to_vec()]);
}

#[test]
fn row_and_schema_validity_checks() {
    assert!(sample_row().is_well_formed());
    let bad = ExecRow { handle: 0, value: vec![1], cols: vec![(1, 1, 1)] };
    assert!(!bad.is_well_formed());
    let huge = ExecRow { handle: 0, value: vec![1], cols: vec![(1, usize::MAX, 2)] };
    assert!(!huge.is_well_formed());
    let ok = DAGContext::new(vec![col(2, false, None, 0)], vec![0], false, false, 8, "k".to_string(), true);
    assert!(ok.outputs_in_schema());
    let out = DAGContext::new(vec![col(2, false, None, 0)], vec![0, 1], false, false, 8, "k".to_string(), true);
    assert!(!out.outputs_in_schema());
}

#[test]
fn request_run_hits_after_store_with_lookup_version() {
    let mut cache = DistSqlCache::new();
    cache.set_region_version(4, 11);
    let ctx = DAGContext::new(vec![col(2, false, None, 0)], vec![0], false, true, 1, "q".to_string(), true);
    let mut run = match ctx.begin_request(&cache, 4) {
        Ok(run) => run,
        Err(_) => panic!("nothing is cached yet"),
    };
    assert!(ctx.on_row(&mut run, Ok(()), &sample_row()).is_ok());
    assert!(ctx.on_row(&mut run, Ok(()), &sample_row()).is_ok());
    assert_eq!(ctx.on_row(&mut run, Err(ExecError::Outdated), &sample_row()), Err(ExecError::Outdated));
    let chunks = run.take_chunks();
    assert_eq!(chunks, vec![vec![1, 0x61], vec![1, 0x61]]);
    // the region moves on while the request runs; the store still happens
    cache.set_region_version(4, 12);
    assert!(ctx.finish_request(&run, &mut cache, b"payload"));
    match ctx.begin_request(&cache, 4) {
        Err(data) => assert_eq!(data, b"payload".to_vec()),
        Ok(_) => panic!("expected a cache hit"),
    }
}

#[test]
fn request_run_reports_missing_column() {
    let cache = DistSqlCache::new();
    let ctx = DAGContext::new(vec![col(42, false, None, 1)], vec![0], false, false, 4, "q".to_string(), true);
    let mut run = match ctx.begin_request(&cache, 1) {
        Ok(run) => run,
        Err(_) => panic!("an uncacheable plan never hits"),
    };
    assert_eq!(ctx.on_row(&mut run, Ok(()), &sample_row()), Err(ExecError::MissingColumn(42, -3)));
    assert!(run.take_chunks().is_empty());
    let mut cache = cache;
    assert!(!ctx.finish_request(&run, &mut cache, b"x"));
}
