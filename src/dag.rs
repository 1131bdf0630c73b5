//! Request-level decisions: whether a result may be cached, how encoded rows are grouped
//! into output chunks, and the result cache keyed by region and request.

use crate::error::ExecError;
use crate::row_codec::{inflate_cols, inflated, ColumnInfo, ExecRow};
use vstd::prelude::*;
use vstd::slice::slice_to_vec;
use vstd::utf8::encode_utf8;

verus! {

/// Largest serialized response that is cached, in bytes.
pub const CACHE_SIZE_LIMIT: usize = 5 * 1024 * 1024;

/// Byte-wise equality of two slices.
pub fn bytes_equal(a: &[u8], b: &[u8]) -> (r: bool)
    ensures
        r == (a@ == b@),
{
    if a.len() != b.len() {
        return false;
    }
    let mut i: usize = 0;
    while i < a.len()
        invariant
            a@.len() == b@.len(),
            i <= a@.len(),
            forall|k: int| 0 <= k < i ==> a@[k] == b@[k],
        decreases a@.len() - i,
    {
        if a[i] != b[i] {
            return false;
        }
        i = i + 1;
    }
    assert(a@ =~= b@);
    true
}

/// One cached response.
pub struct CacheEntry {
    pub region_id: u64,
    pub key: Vec<u8>,
    pub version: u64,
    pub data: Vec<u8>,
}

/// The data of the last of the first `n` entries stored for (`region_id`, `key`).
pub open spec fn last_stored(s: Seq<CacheEntry>, region_id: u64, key: Seq<u8>, n: int) -> Option<
    Seq<u8>,
>
    decreases n,
{
    if n <= 0 {
        None
    } else if s[n - 1].region_id == region_id && s[n - 1].key@ == key {
        Some(s[n - 1].data@)
    } else {
        last_stored(s, region_id, key, n - 1)
    }
}

/// The version of the last of the first `n` entries stored for (`region_id`, `key`).
pub open spec fn last_stored_version(s: Seq<CacheEntry>, region_id: u64, key: Seq<u8>, n: int) -> Option<u64>
    decreases n,
{
    if n <= 0 {
        None
    } else if s[n - 1].region_id == region_id && s[n - 1].key@ == key {
        Some(s[n - 1].version)
    } else {
        last_stored_version(s, region_id, key, n - 1)
    }
}

/// The last of the first `n` versions recorded for `region_id`.
pub open spec fn last_version(s: Seq<(u64, u64)>, region_id: u64, n: int) -> Option<u64>
    decreases n,
{
    if n <= 0 {
        None
    } else if s[n - 1].0 == region_id {
        Some(s[n - 1].1)
    } else {
        last_version(s, region_id, n - 1)
    }
}

/// Cached responses, keyed by region and request, with the version of each region.
/// A later store for the same key supersedes an earlier one.
pub struct DistSqlCache {
    entries: Vec<CacheEntry>,
    versions: Vec<(u64, u64)>,
}

impl DistSqlCache {
    /// What a lookup of request `key` on region `region_id` finds.
    pub closed spec fn cached(&self, region_id: u64, key: Seq<u8>) -> Option<Seq<u8>> {
        last_stored(self.entries@, region_id, key, self.entries@.len() as int)
    }

    /// The region version that the bytes `cached(region_id, key)` were stored with.
    pub closed spec fn cached_version(&self, region_id: u64, key: Seq<u8>) -> Option<u64> {
        last_stored_version(self.entries@, region_id, key, self.entries@.len() as int)
    }

    /// The version of region `region_id`; 0 for a region that has none yet.
    pub closed spec fn version_of(&self, region_id: u64) -> u64 {
        match last_version(self.versions@, region_id, self.versions@.len() as int) {
            Some(v) => v,
            None => 0,
        }
    }

    /// An empty cache.
    pub fn new() -> (r: DistSqlCache)
        ensures
            forall|region_id: u64, key: Seq<u8>| #[trigger] r.cached(region_id, key) is None,
            forall|region_id: u64, key: Seq<u8>| #[trigger] r.cached_version(region_id, key) is None,
            forall|region_id: u64| #[trigger] r.version_of(region_id) == 0,
    {
        DistSqlCache { entries: Vec::new(), versions: Vec::new() }
    }

    /// The version of region `region_id`; 0 for a region that has none yet.
    pub fn get_region_version(&self, region_id: u64) -> (r: u64)
        ensures
            r == self.version_of(region_id),
    {
        let mut i: usize = self.versions.len();
        while i > 0
            invariant
                i <= self.versions@.len(),
                last_version(self.versions@, region_id, self.versions@.len() as int)
                    == last_version(self.versions@, region_id, i as int),
            decreases i,
        {
            if self.versions[i - 1].0 == region_id {
                return self.versions[i - 1].1;
            }
            i = i - 1;
        }
        0
    }

    /// Sets the version of region `region_id`.
    pub fn set_region_version(&mut self, region_id: u64, version: u64)
        ensures
            final(self).version_of(region_id) == version,
            forall|r: u64| r != region_id ==> #[trigger] final(self).version_of(r) == old(self).version_of(r),
            forall|r: u64, key: Seq<u8>| #[trigger] final(self).cached(r, key) == old(self).cached(r, key),
            forall|r: u64, key: Seq<u8>| #[trigger] final(self).cached_version(r, key) == old(self).cached_version(r, key),
    {
        let ghost v0 = self.versions@;
        self.versions.push((region_id, version));
        proof {
            assert forall|r: u64| r != region_id implies #[trigger] self.version_of(r)
                == old(self).version_of(r) by {
                lemma_last_version_prefix(self.versions@, v0, r, v0.len() as int);
            }
        }
    }

    /// The cached bytes of request `key` on region `region_id`.
    pub fn get(&self, region_id: u64, key: &[u8]) -> (r: Option<Vec<u8>>)
        ensures
            r matches Some(d) ==> self.cached(region_id, key@) == Some(d@),
            r is None ==> self.cached(region_id, key@) is None,
    {
        let mut i: usize = self.entries.len();
        while i > 0
            invariant
                i <= self.entries@.len(),
                last_stored(self.entries@, region_id, key@, self.entries@.len() as int)
                    == last_stored(self.entries@, region_id, key@, i as int),
            decreases i,
        {
            if self.entries[i - 1].region_id == region_id && bytes_equal(
                self.entries[i - 1].key.as_slice(),
                key,
            ) {
                return Some(slice_to_vec(self.entries[i - 1].data.as_slice()));
            }
            i = i - 1;
        }
        None
    }

    /// Stores `data` as the result of request `key` on region `region_id`, taken at `version`.
    pub fn put(&mut self, region_id: u64, key: &[u8], version: u64, data: &[u8])
        ensures
            final(self).cached(region_id, key@) == Some(data@),
            final(self).cached_version(region_id, key@) == Some(version),
            forall|r: u64, k: Seq<u8>|
                !(r == region_id && k == key@) ==> #[trigger] final(self).cached(r, k) == old(
                    self,
                ).cached(r, k),
            forall|r: u64, k: Seq<u8>|
                !(r == region_id && k == key@) ==> #[trigger] final(self).cached_version(r, k) == old(
                    self,
                ).cached_version(r, k),
            forall|r: u64| #[trigger] final(self).version_of(r) == old(self).version_of(r),
    {
        let ghost e0 = self.entries@;
        let entry = CacheEntry { region_id, key: slice_to_vec(key), version, data: slice_to_vec(data) };
        self.entries.push(entry);
        proof {
            assert forall|r: u64, k: Seq<u8>| !(r == region_id && k == key@) implies #[trigger] self.cached(r, k)
                == old(self).cached(r, k) by {
                lemma_last_stored_prefix(self.entries@, e0, r, k, e0.len() as int);
            }
            assert forall|r: u64, k: Seq<u8>| !(r == region_id && k == key@) implies #[trigger] self.cached_version(r, k)
                == old(self).cached_version(r, k) by {
                lemma_last_stored_version_prefix(self.entries@, e0, r, k, e0.len() as int);
            }
        }
    }
}

proof fn lemma_last_stored_prefix(s: Seq<CacheEntry>, t: Seq<CacheEntry>, r: u64, k: Seq<u8>, n: int)
    requires
        0 <= n <= t.len() <= s.len(),
        forall|i: int| 0 <= i < t.len() ==> s[i] == t[i],
    ensures
        last_stored(s, r, k, n) == last_stored(t, r, k, n),
    decreases n,
{
    if n > 0 {
        lemma_last_stored_prefix(s, t, r, k, n - 1);
    }
}

proof fn lemma_last_stored_version_prefix(s: Seq<CacheEntry>, t: Seq<CacheEntry>, r: u64, k: Seq<u8>, n: int)
    requires
        0 <= n <= t.len() <= s.len(),
        forall|i: int| 0 <= i < t.len() ==> s[i] == t[i],
    ensures
        last_stored_version(s, r, k, n) == last_stored_version(t, r, k, n),
    decreases n,
{
    if n > 0 {
        lemma_last_stored_version_prefix(s, t, r, k, n - 1);
    }
}

proof fn lemma_last_version_prefix(s: Seq<(u64, u64)>, t: Seq<(u64, u64)>, r: u64, n: int)
    requires
        0 <= n <= t.len() <= s.len(),
        forall|i: int| 0 <= i < t.len() ==> s[i] == t[i],
    ensures
        last_version(s, r, n) == last_version(t, r, n),
    decreases n,
{
    if n > 0 {
        lemma_last_version_prefix(s, t, r, n - 1);
    }
}

/// The request-level state of one query: its plan's shape, its cache key and the
/// output chunk size.
pub struct DAGContext {
    columns: Vec<ColumnInfo>,
    output_offsets: Vec<u32>,
    has_aggr: bool,
    has_topn: bool,
    batch_row_limit: usize,
    cache_key: String,
    enable_distsql_cache: bool,
}

impl DAGContext {
    pub closed spec fn aggr(&self) -> bool {
        self.has_aggr
    }

    pub closed spec fn topn(&self) -> bool {
        self.has_topn
    }

    pub closed spec fn cache_enabled(&self) -> bool {
        self.enable_distsql_cache
    }

    pub closed spec fn row_limit(&self) -> nat {
        self.batch_row_limit as nat
    }

    /// The output schema.
    pub closed spec fn schema(&self) -> Seq<ColumnInfo> {
        self.columns@
    }

    /// The positions in the schema of the columns output, in order.
    pub closed spec fn outputs(&self) -> Seq<u32> {
        self.output_offsets@
    }

    /// The key of this request in the cache.
    pub closed spec fn key(&self) -> Seq<u8> {
        encode_utf8(self.cache_key@)
    }

    /// The result of this request may be cached.
    pub open spec fn cacheable(&self) -> bool {
        self.cache_enabled() && (self.aggr() || self.topn())
    }

    /// `cache_key` is a description of the scanned ranges and of the executor chain, so
    /// that structurally identical requests over the same ranges share it.
    pub fn new(
        columns: Vec<ColumnInfo>,
        output_offsets: Vec<u32>,
        has_aggr: bool,
        has_topn: bool,
        batch_row_limit: usize,
        cache_key: String,
        enable_distsql_cache: bool,
    ) -> (r: DAGContext)
        ensures
            r.schema() == columns@,
            r.outputs() == output_offsets@,
            r.aggr() == has_aggr,
            r.topn() == has_topn,
            r.row_limit() == batch_row_limit,
            r.key() == encode_utf8(cache_key@),
            r.cache_enabled() == enable_distsql_cache,
    {
        DAGContext {
            columns,
            output_offsets,
            has_aggr,
            has_topn,
            batch_row_limit,
            cache_key,
            enable_distsql_cache,
        }
    }

    /// Whether the plan ends in an aggregation, whose rows arrive already encoded.
    pub fn has_aggr(&self) -> (r: bool)
        ensures
            r == self.aggr(),
    {
        self.has_aggr
    }

    /// Every output position names a column of the schema.
    pub open spec fn outputs_valid(&self) -> bool {
        forall|i: int| 0 <= i < self.outputs().len() ==> (#[trigger] self.outputs()[i]) < self.schema().len()
    }

    /// Whether every output position names a column of the schema.
    pub fn outputs_in_schema(&self) -> (r: bool)
        ensures
            r == self.outputs_valid(),
    {
        let mut i: usize = 0;
        while i < self.output_offsets.len()
            invariant
                i <= self.outputs().len(),
                forall|k: int| 0 <= k < i ==> (#[trigger] self.outputs()[k]) < self.schema().len(),
            decreases self.outputs().len() - i,
        {
            if self.output_offsets[i] as usize >= self.columns.len() {
                return false;
            }
            i = i + 1;
        }
        true
    }

    /// The output chunk size, in rows.
    pub fn batch_row_limit(&self) -> (r: usize)
        ensures
            r == self.row_limit(),
    {
        self.batch_row_limit
    }

    /// The bytes a produced row adds to the response: as they are after an aggregation,
    /// else encoded against the output schema.
    pub fn encode_row(&self, row: &ExecRow) -> (r: Result<Vec<u8>, ExecError>)
        requires
            row.wf(),
            !self.aggr() ==> self.outputs_valid(),
        ensures
            self.aggr() ==> (r matches Ok(v) && v@ == row.value@),
            !self.aggr() ==> (r matches Ok(v) ==> inflated(
                *row,
                self.schema(),
                self.outputs(),
                self.outputs().len() as int,
            ) == Some(v@)),
            !self.aggr() ==> (r is Err <==> inflated(
                *row,
                self.schema(),
                self.outputs(),
                self.outputs().len() as int,
            ) is None),
    {
        if self.has_aggr {
            Ok(slice_to_vec(row.value.as_slice()))
        } else {
            inflate_cols(row, self.columns.as_slice(), self.output_offsets.as_slice())
        }
    }

    /// Caching is on and the plan holds an aggregation or a top-N stage.
    pub fn can_cache(&self) -> (r: bool)
        ensures
            r == self.cacheable(),
    {
        self.enable_distsql_cache && (self.has_aggr || self.has_topn)
    }

    /// `data` may be cached: the plan is cacheable and `data` is at most 5 MiB.
    pub fn can_cache_with_size(&self, data: &[u8]) -> (r: bool)
        ensures
            r == (data@.len() <= CACHE_SIZE_LIMIT && self.cacheable()),
    {
        if data.len() > CACHE_SIZE_LIMIT {
            false
        } else {
            self.can_cache()
        }
    }

    /// Looks the request up before running it: the region's version (kept for a later
    /// store) and the cached bytes, if any. Nothing is looked up for an uncacheable plan.
    pub fn cache_lookup(&self, cache: &DistSqlCache, region_id: u64) -> (r: (u64, Option<Vec<u8>>))
        ensures
            self.cacheable() ==> r.0 == cache.version_of(region_id),
            self.cacheable() ==> (r.1 matches Some(d) ==> cache.cached(region_id, self.key()) == Some(d@)),
            self.cacheable() ==> (r.1 is None ==> cache.cached(region_id, self.key()) is None),
            !self.cacheable() ==> r.0 == 0 && r.1 is None,
    {
        if self.can_cache() {
            let version = cache.get_region_version(region_id);
            let hit = cache.get(region_id, self.cache_key.as_str().as_bytes());
            (version, hit)
        } else {
            (0, None)
        }
    }

    /// Stores the serialized response `data` under this request, at the version taken
    /// by the lookup, when it may be cached; returns whether it was stored.
    pub fn cache_store(&self, cache: &mut DistSqlCache, region_id: u64, version: u64, data: &[u8]) -> (r: bool)
        ensures
            r == (data@.len() <= CACHE_SIZE_LIMIT && self.cacheable()),
            r ==> final(cache).cached(region_id, self.key()) == Some(data@),
            r ==> final(cache).cached_version(region_id, self.key()) == Some(version),
            forall|reg: u64, k: Seq<u8>|
                !(r && reg == region_id && k == self.key()) ==> #[trigger] final(cache).cached(reg, k)
                    == old(cache).cached(reg, k),
            forall|reg: u64, k: Seq<u8>|
                !(r && reg == region_id && k == self.key()) ==> #[trigger] final(cache).cached_version(reg, k)
                    == old(cache).cached_version(reg, k),
            forall|reg: u64| #[trigger] final(cache).version_of(reg) == old(cache).version_of(reg),
    {
        if self.can_cache_with_size(data) {
            cache.put(region_id, self.cache_key.as_str().as_bytes(), version, data);
            true
        } else {
            false
        }
    }
}

/// A business error is written into the response and the request still succeeds;
/// any other error aborts the request.
pub fn captured_in_response(e: &ExecError) -> (r: bool)
    ensures
        r == (e is Other),
{
    match e {
        ExecError::Other(_) => true,
        _ => false,
    }
}

/// Once a cacheable request has stored its response, an identical request on the same
/// region finds it; a response over 5 MiB, or of a plan without aggregation or top-N,
/// is not stored and the cache is left as it was.
pub proof fn lemma_store_then_hit(
    ctx: &DAGContext,
    again: &DAGContext,
    c0: &DistSqlCache,
    c1: &DistSqlCache,
    region_id: u64,
    data: Seq<u8>,
    stored: bool,
)
    requires
        again.key() == ctx.key(),
        again.cache_enabled() == ctx.cache_enabled(),
        again.aggr() == ctx.aggr(),
        again.topn() == ctx.topn(),
        stored == (data.len() <= CACHE_SIZE_LIMIT && ctx.cacheable()),
        stored ==> c1.cached(region_id, ctx.key()) == Some(data),
        forall|reg: u64, k: Seq<u8>|
            !(stored && reg == region_id && k == ctx.key()) ==> #[trigger] c1.cached(reg, k)
                == c0.cached(reg, k),
    ensures
        ctx.cacheable() && data.len() <= CACHE_SIZE_LIMIT ==> again.cacheable() && c1.cached(
            region_id,
            again.key(),
        ) == Some(data),
        !ctx.cacheable() || data.len() > CACHE_SIZE_LIMIT ==> forall|reg: u64, k: Seq<u8>|
            #[trigger] c1.cached(reg, k) == c0.cached(reg, k),
{
}

/// `new` is `old` with the encoded row `row` appended to the last chunk, or to a new
/// chunk when there is none yet or the last one holds the row limit already.
pub open spec fn pushed_row(new: ChunkBuilder, old: ChunkBuilder, row: Seq<u8>) -> bool {
    &&& new.limit() == old.limit()
    &&& old.chunks().len() == 0 || old.rows_in_last() >= old.limit() ==> {
        &&& new.chunks() == old.chunks().push(row)
        &&& new.rows_in_last() == 1
    }
    &&& !(old.chunks().len() == 0 || old.rows_in_last() >= old.limit()) ==> {
        &&& new.chunks() == old.chunks().update(old.chunks().len() - 1, old.chunks().last() + row)
        &&& new.rows_in_last() == old.rows_in_last() + 1
    }
}

/// Groups encoded rows into output chunks of at most a given number of rows.
pub struct ChunkBuilder {
    chunks: Vec<Vec<u8>>,
    record_cnt: usize,
    batch_row_limit: usize,
}

impl ChunkBuilder {
    /// The bytes of each chunk so far.
    pub closed spec fn chunks(&self) -> Seq<Seq<u8>> {
        self.chunks@.map_values(|c: Vec<u8>| c@)
    }

    /// Rows in the last chunk.
    pub closed spec fn rows_in_last(&self) -> nat {
        self.record_cnt as nat
    }

    pub closed spec fn limit(&self) -> nat {
        self.batch_row_limit as nat
    }

    pub fn new(batch_row_limit: usize) -> (r: ChunkBuilder)
        ensures
            r.chunks() == Seq::<Seq<u8>>::empty(),
            r.rows_in_last() == 0,
            r.limit() == batch_row_limit,
    {
        let r = ChunkBuilder { chunks: Vec::new(), record_cnt: 0, batch_row_limit };
        assert(r.chunks() =~= Seq::<Seq<u8>>::empty());
        r
    }

    /// Appends the encoded row `row` to the last chunk, or to a new one when there is
    /// none yet or the last one holds the row limit already.
    pub fn push_row(&mut self, row: &[u8])
        ensures
            final(self).limit() == old(self).limit(),
            pushed_row(*final(self), *old(self), row@),
    {
        let ghost c0 = self.chunks();
        if self.chunks.is_empty() || self.record_cnt >= self.batch_row_limit {
            self.chunks.push(Vec::new());
            self.record_cnt = 0;
        }
        let last = self.chunks.len() - 1;
        let ghost mid = self.chunks@;
        self.chunks[last].extend_from_slice(row);
        assert(self.chunks@[last as int]@ =~= mid[last as int]@ + row@);
        self.record_cnt = self.record_cnt + 1;
        proof {
            if c0.len() == 0 || old(self).record_cnt >= old(self).batch_row_limit {
                assert(self.chunks() =~= c0.push(row@));
            } else {
                assert(self.chunks() =~= c0.update(c0.len() - 1, c0.last() + row@));
            }
        }
    }

    /// Hands out the chunks built so far and starts over with none.
    pub fn take_chunks(&mut self) -> (r: Vec<Vec<u8>>)
        ensures
            r@.map_values(|c: Vec<u8>| c@) == old(self).chunks(),
            final(self).chunks() == Seq::<Seq<u8>>::empty(),
            final(self).rows_in_last() == 0,
            final(self).limit() == old(self).limit(),
    {
        let mut taken = Vec::new();
        std::mem::swap(&mut taken, &mut self.chunks);
        self.record_cnt = 0;
        assert(self.chunks() =~= Seq::<Seq<u8>>::empty());
        taken
    }

    /// The chunks built.
    pub fn into_chunks(self) -> (r: Vec<Vec<u8>>)
        ensures
            r@.map_values(|c: Vec<u8>| c@) == self.chunks(),
    {
        self.chunks
    }
}

/// The bytes a produced row adds to the response under `ctx`; `None` when a not-null
/// output column is missing from it.
pub open spec fn row_response_bytes(ctx: DAGContext, row: ExecRow) -> Option<Seq<u8>> {
    if ctx.aggr() {
        Some(row.value@)
    } else {
        inflated(row, ctx.schema(), ctx.outputs(), ctx.outputs().len() as int)
    }
}

/// A request in progress: its region, the region version read when it was looked up,
/// and the output chunks so far.
pub struct RequestRun {
    region_id: u64,
    version: u64,
    builder: ChunkBuilder,
}

impl RequestRun {
    pub closed spec fn region(&self) -> u64 {
        self.region_id
    }

    /// The region version read at lookup; a store at the end is made with it.
    pub closed spec fn version_token(&self) -> u64 {
        self.version
    }

    pub closed spec fn output(&self) -> ChunkBuilder {
        self.builder
    }

    /// Hands out the output chunks built so far.
    pub fn take_chunks(&mut self) -> (r: Vec<Vec<u8>>)
        ensures
            r@.map_values(|c: Vec<u8>| c@) == old(self).output().chunks(),
            final(self).output().chunks() == Seq::<Seq<u8>>::empty(),
            final(self).region() == old(self).region(),
            final(self).version_token() == old(self).version_token(),
    {
        self.builder.take_chunks()
    }
}

impl DAGContext {
    /// Starts a request on region `region_id`. A cacheable request whose result is cached
    /// ends here with the cached bytes (`Err`); otherwise the run starts with no chunks and
    /// the region version read now (0 for an uncacheable request).
    pub fn begin_request(&self, cache: &DistSqlCache, region_id: u64) -> (r: Result<RequestRun, Vec<u8>>)
        ensures
            r matches Err(d) ==> self.cacheable() && cache.cached(region_id, self.key()) == Some(d@),
            r matches Ok(run) ==> {
                &&& self.cacheable() ==> cache.cached(region_id, self.key()) is None
                &&& run.region() == region_id
                &&& run.version_token() == if self.cacheable() {
                    cache.version_of(region_id)
                } else {
                    0
                }
                &&& run.output().chunks() == Seq::<Seq<u8>>::empty()
                &&& run.output().rows_in_last() == 0
                &&& run.output().limit() == self.row_limit()
            },
    {
        let (version, hit) = self.cache_lookup(cache, region_id);
        match hit {
            Some(data) => Err(data),
            None => Ok(RequestRun { region_id, version, builder: ChunkBuilder::new(self.batch_row_limit) }),
        }
    }

    /// Consumes one produced row: `fresh` is the staleness check made before it, and a
    /// stale request aborts with that error; otherwise the row's bytes go to the output.
    pub fn on_row(&self, run: &mut RequestRun, fresh: Result<(), ExecError>, row: &ExecRow) -> (r: Result<(), ExecError>)
        requires
            row.wf(),
            !self.aggr() ==> self.outputs_valid(),
        ensures
            final(run).region() == old(run).region(),
            final(run).version_token() == old(run).version_token(),
            fresh is Err ==> r == fresh && *final(run) == *old(run),
            fresh is Ok && row_response_bytes(*self, *row) is None ==> r is Err && *final(run) == *old(run),
            fresh is Ok && row_response_bytes(*self, *row) is Some ==> r is Ok && pushed_row(
                final(run).output(),
                old(run).output(),
                row_response_bytes(*self, *row)->0,
            ),
    {
        if let Err(e) = fresh {
            return Err(e);
        }
        match self.encode_row(row) {
            Ok(value) => {
                run.builder.push_row(value.as_slice());
                Ok(())
            },
            Err(e) => Err(e),
        }
    }

    /// Ends a request whose chain is exhausted, `data` being its serialized response:
    /// stores it, with the version read at lookup, when it may be cached.
    pub fn finish_request(&self, run: &RequestRun, cache: &mut DistSqlCache, data: &[u8]) -> (r: bool)
        ensures
            r == (data@.len() <= CACHE_SIZE_LIMIT && self.cacheable()),
            r ==> final(cache).cached(run.region(), self.key()) == Some(data@),
            r ==> final(cache).cached_version(run.region(), self.key()) == Some(run.version_token()),
            forall|reg: u64, k: Seq<u8>|
                !(r && reg == run.region() && k == self.key()) ==> #[trigger] final(cache).cached(reg, k)
                    == old(cache).cached(reg, k),
            forall|reg: u64| #[trigger] final(cache).version_of(reg) == old(cache).version_of(reg),
    {
        self.cache_store(cache, run.region_id, run.version, data)
    }
}

} // verus!
