//! Caches in front of the memory graph.
//!
//! The graph cache holds each graph under the path of its file, as long as the
//! file stays as it was. The retrieval cache holds the results of recent queries
//! for a short time, and drops the oldest query when it is full.

use vstd::prelude::*;

use crate::table::StringTable;
use crate::text;

verus! {

/// A graph, with the time at which its file was last modified: nanoseconds since
/// the Unix epoch, or none where the file system did not say.
#[derive(Debug)]
pub struct GraphCacheEntry<G> {
    pub graph: G,
    pub modified: Option<i128>,
}

/// Graphs under the paths of their files.
#[derive(Debug)]
pub struct GraphCache<G> {
    entries: StringTable<GraphCacheEntry<G>>,
}

impl<G> View for GraphCache<G> {
    type V = Map<Seq<char>, GraphCacheEntry<G>>;

    closed spec fn view(&self) -> Map<Seq<char>, GraphCacheEntry<G>> {
        self.entries@
    }
}

/// The graph that a cache holds for a file that was last modified at `modified`.
pub open spec fn fresh_graph<G>(
    cache: Map<Seq<char>, GraphCacheEntry<G>>,
    path: Seq<char>,
    modified: Option<i128>,
) -> Option<G> {
    if cache.contains_key(path) && cache[path].modified == modified {
        Some(cache[path].graph)
    } else {
        None
    }
}

impl<G> GraphCache<G> {
    /// The table of graphs is well formed.
    pub closed spec fn wf(&self) -> bool {
        self.entries.wf()
    }

    /// An empty cache.
    pub fn new() -> (r: GraphCache<G>)
        ensures
            r.wf(),
            r@ == Map::<Seq<char>, GraphCacheEntry<G>>::empty(),
    {
        GraphCache { entries: StringTable::new() }
    }

    /// The graph of the file `path`, unless the file has changed since the graph
    /// was put here. `modified` is when the file was last modified.
    pub fn cached_graph(&self, path: &str, modified: Option<i128>) -> (r: Option<&G>)
        requires
            self.wf(),
        ensures
            match r {
                Some(graph) => fresh_graph(self@, path@, modified) == Some(*graph),
                None => fresh_graph(self@, path@, modified) is None,
            },
    {
        match self.entries.get(path) {
            Some(entry) => {
                if same_time(entry.modified, modified) {
                    Some(&entry.graph)
                } else {
                    None
                }
            },
            None => None,
        }
    }

    /// Puts the graph of the file `path` here.
    pub fn cache_graph(&mut self, path: String, modified: Option<i128>, graph: G)
        requires
            old(self).wf(),
        ensures
            final(self).wf(),
            final(self)@ == old(self)@.insert(path@, GraphCacheEntry { graph, modified }),
    {
        self.entries.insert(path, GraphCacheEntry { graph, modified });
    }
}

fn same_time(a: Option<i128>, b: Option<i128>) -> (r: bool)
    ensures
        r == (a == b),
{
    match (a, b) {
        (Some(x), Some(y)) => x == y,
        (None, None) => true,
        _ => false,
    }
}

/// A graph that was cached is found as long as its file stays as it was.
pub proof fn law_graph_found_while_file_unchanged<G>(
    cache: Map<Seq<char>, GraphCacheEntry<G>>,
    path: Seq<char>,
    graph: G,
    cached_at: Option<i128>,
    modified: Option<i128>,
)
    ensures
        fresh_graph(
            cache.insert(path, GraphCacheEntry { graph, modified: cached_at }),
            path,
            modified,
        ) == if modified == cached_at {
            Some(graph)
        } else {
            None
        },
{
}

/// Caching the graph of one file changes nothing for another.
pub proof fn law_graphs_are_independent<G>(
    cache: Map<Seq<char>, GraphCacheEntry<G>>,
    path: Seq<char>,
    entry: GraphCacheEntry<G>,
    other: Seq<char>,
    modified: Option<i128>,
)
    requires
        path != other,
    ensures
        fresh_graph(cache.insert(path, entry), other, modified) == fresh_graph(
            cache,
            other,
            modified,
        ),
{
}

/// The signature of a modification time: the nanoseconds since the Unix epoch, and
/// zero for a time before it and where there is no file.
pub fn graph_mtime_signature(modified: Option<i128>) -> (r: u128)
    ensures
        r == match modified {
            Some(t) => if t >= 0 {
                t as int
            } else {
                0
            },
            None => 0,
        },
{
    match modified {
        Some(t) => {
            if t >= 0 {
                t as u128
            } else {
                0
            }
        },
        None => 0,
    }
}

/// How long results stay, in nanoseconds.
pub const RETRIEVAL_CACHE_TTL_NANOS: u128 = 30_000_000_000;

/// How many queries the retrieval cache holds at most.
pub const RETRIEVAL_CACHE_CAPACITY: usize = 128;

/// The offset basis of the 64 bit FNV hash.
pub const FNV_OFFSET: u64 = 0xcbf29ce484222325;

/// The prime of the 64 bit FNV hash.
pub const FNV_PRIME: u64 = 0x100000001b3;

/// The 64 bit FNV-1a hash of some bytes.
pub open spec fn fnv(bytes: Seq<u8>) -> u64
    decreases bytes.len(),
{
    if bytes.len() == 0 {
        FNV_OFFSET
    } else {
        (fnv(bytes.drop_last()) ^ (bytes.last() as u64)).wrapping_mul(FNV_PRIME)
    }
}

/// A hash of `value` that is the same in every process: the FNV-1a hash of its
/// UTF-8 bytes.
pub fn stable_hash(value: &str) -> (r: u64)
    ensures
        r == fnv(vstd::utf8::encode_utf8(value@)),
{
    let bytes = value.as_bytes();
    let mut hash: u64 = FNV_OFFSET;
    let mut i: usize = 0;
    while i < bytes.len()
        invariant
            i <= bytes.len(),
            hash == fnv(bytes@.take(i as int)),
        decreases bytes.len() - i,
    {
        assert(bytes@.take(i + 1).drop_last() =~= bytes@.take(i as int));
        hash = hash ^ (bytes[i] as u64);
        hash = hash.wrapping_mul(FNV_PRIME);
        i += 1;
    }
    assert(bytes@.take(i as int) =~= bytes@);
    hash
}

/// The memories that a query looks at.
#[derive(Debug, Clone, Copy, PartialEq, Eq, Hash, Structural)]
pub enum MemoryScope {
    Project,
    Global,
    All,
}

/// What a query is recognised by: how it searches, for what, and the state of the
/// graphs.
#[derive(Debug, Clone, PartialEq, Eq, Hash)]
pub struct RetrievalCacheKey {
    mode: String,
    scope: MemoryScope,
    query_hash: u64,
    threshold_bits: u32,
    limit: usize,
    project_mtime: u128,
    global_mtime: u128,
}

/// What a [`RetrievalCacheKey`] means.
pub struct KeyView {
    pub mode: Seq<char>,
    pub scope: MemoryScope,
    pub query_hash: u64,
    pub threshold_bits: u32,
    pub limit: usize,
    pub project_mtime: u128,
    pub global_mtime: u128,
}

impl View for RetrievalCacheKey {
    type V = KeyView;

    closed spec fn view(&self) -> KeyView {
        KeyView {
            mode: self.mode@,
            scope: self.scope,
            query_hash: self.query_hash,
            threshold_bits: self.threshold_bits,
            limit: self.limit,
            project_mtime: self.project_mtime,
            global_mtime: self.global_mtime,
        }
    }
}

impl RetrievalCacheKey {
    /// The key of a query. `threshold_bits` are the bits of the similarity
    /// threshold.
    pub fn new(
        mode: &str,
        scope: MemoryScope,
        query: &str,
        threshold_bits: u32,
        limit: usize,
        project_mtime: u128,
        global_mtime: u128,
    ) -> (r: RetrievalCacheKey)
        ensures
            r@ == (KeyView {
                mode: mode@,
                scope,
                query_hash: fnv(vstd::utf8::encode_utf8(query@)),
                threshold_bits,
                limit,
                project_mtime,
                global_mtime,
            }),
    {
        RetrievalCacheKey {
            mode: mode.to_owned(),
            scope,
            query_hash: stable_hash(query),
            threshold_bits,
            limit,
            project_mtime,
            global_mtime,
        }
    }

    /// Whether two keys are the same.
    pub fn is_same(&self, other: &RetrievalCacheKey) -> (r: bool)
        ensures
            r == (self@ == other@),
    {
        self.scope == other.scope && self.query_hash == other.query_hash && self.threshold_bits
            == other.threshold_bits && self.limit == other.limit && self.project_mtime
            == other.project_mtime && self.global_mtime == other.global_mtime && text::same(
            self.mode.as_str(),
            other.mode.as_str(),
        )
    }
}

/// What happened to a retrieval cache so far.
#[derive(Debug, Clone, Copy, PartialEq, Eq, Structural)]
pub struct RetrievalCacheStats {
    pub hits: u64,
    pub misses: u64,
    pub inserts: u64,
    pub evictions: u64,
    pub stale: u64,
    pub entries: usize,
}

impl Default for RetrievalCacheStats {
    fn default() -> (r: RetrievalCacheStats)
        ensures
            r == no_stats(),
    {
        RetrievalCacheStats { hits: 0, misses: 0, inserts: 0, evictions: 0, stale: 0, entries: 0 }
    }
}

/// Nothing happened yet.
pub open spec fn no_stats() -> RetrievalCacheStats {
    RetrievalCacheStats { hits: 0, misses: 0, inserts: 0, evictions: 0, stale: 0, entries: 0 }
}

/// A counter, one further; it starts over behind its last value.
pub open spec fn next(n: u64) -> u64 {
    if n == u64::MAX {
        0
    } else {
        (n + 1) as u64
    }
}

fn count(n: u64) -> (r: u64)
    ensures
        r == next(n),
{
    n.wrapping_add(1)
}

#[derive(Debug)]
struct RetrievalCacheEntry<R> {
    key: RetrievalCacheKey,
    /// When the results were put here, in nanoseconds.
    inserted_at: u128,
    results: Vec<R>,
}

/// The results of recent queries.
#[derive(Debug)]
pub struct RetrievalCache<R> {
    /// One entry for each query, the longest known query first.
    entries: Vec<RetrievalCacheEntry<R>>,
    stats: RetrievalCacheStats,
}

/// What an entry of a retrieval cache means.
pub struct EntryView<R> {
    pub key: KeyView,
    pub inserted_at: u128,
    pub results: Seq<R>,
}

/// What a [`RetrievalCache`] means: its entries, the longest known query first, and
/// what happened to it.
pub struct CacheView<R> {
    pub entries: Seq<EntryView<R>>,
    pub stats: RetrievalCacheStats,
}

spec fn entry_view<R>(entry: RetrievalCacheEntry<R>) -> EntryView<R> {
    EntryView {
        key: entry.key@,
        inserted_at: entry.inserted_at,
        results: entry.results@,
    }
}

spec fn entries_view<R>(entries: Seq<RetrievalCacheEntry<R>>) -> Seq<EntryView<R>> {
    Seq::new(entries.len(), |i: int| entry_view(entries[i]))
}

impl<R> View for RetrievalCache<R> {
    type V = CacheView<R>;

    closed spec fn view(&self) -> CacheView<R> {
        CacheView { entries: entries_view(self.entries@), stats: self.stats }
    }
}

/// No query stands twice, there are no more than fit, and the statistics give
/// their number.
pub open spec fn cache_ok<R>(cache: CacheView<R>) -> bool {
    &&& forall|i: int, j: int|
        0 <= i < j < cache.entries.len() ==> (#[trigger] cache.entries[i]).key != (
        #[trigger] cache.entries[j]).key
    &&& cache.entries.len() <= RETRIEVAL_CACHE_CAPACITY
    &&& cache.stats.entries == cache.entries.len()
}

/// The place of the entry of a query, from the place `from` on.
pub open spec fn place_from<R>(entries: Seq<EntryView<R>>, key: KeyView, from: int) -> Option<int>
    decreases entries.len() - from,
{
    if from < 0 || from >= entries.len() {
        None
    } else if entries[from].key == key {
        Some(from)
    } else {
        place_from(entries, key, from + 1)
    }
}

/// The place of the entry of a query.
pub open spec fn place_of<R>(entries: Seq<EntryView<R>>, key: KeyView) -> Option<int> {
    place_from(entries, key, 0)
}

/// Results that were put here at `inserted_at` are too old at `now`.
pub open spec fn is_stale(inserted_at: u128, now: u128) -> bool {
    now - inserted_at > RETRIEVAL_CACHE_TTL_NANOS
}

/// The results that a cache gives for a query at the time `now`.
pub open spec fn found<R>(cache: CacheView<R>, key: KeyView, now: u128) -> Option<Seq<R>> {
    match place_of(cache.entries, key) {
        Some(i) => if is_stale(cache.entries[i].inserted_at, now) {
            None
        } else {
            Some(cache.entries[i].results)
        },
        None => None,
    }
}

/// The cache after a query was looked up: results that are too old are gone.
pub open spec fn after_lookup<R>(cache: CacheView<R>, key: KeyView, now: u128) -> CacheView<R> {
    match place_of(cache.entries, key) {
        None => CacheView {
            entries: cache.entries,
            stats: RetrievalCacheStats { misses: next(cache.stats.misses), ..cache.stats },
        },
        Some(i) => if is_stale(cache.entries[i].inserted_at, now) {
            CacheView {
                entries: cache.entries.remove(i),
                stats: RetrievalCacheStats {
                    misses: next(cache.stats.misses),
                    stale: next(cache.stats.stale),
                    entries: (cache.entries.len() - 1) as usize,
                    ..cache.stats
                },
            }
        } else {
            CacheView {
                entries: cache.entries,
                stats: RetrievalCacheStats { hits: next(cache.stats.hits), ..cache.stats },
            }
        },
    }
}

/// The entries with the results of a query among them, whether or not they fit.
pub open spec fn with_results<R>(
    entries: Seq<EntryView<R>>,
    key: KeyView,
    results: Seq<R>,
    now: u128,
) -> Seq<EntryView<R>> {
    let entry = EntryView { key, inserted_at: now, results };
    match place_of(entries, key) {
        Some(i) => entries.update(i, entry),
        None => entries.push(entry),
    }
}

/// The cache after results were put in it: a query that is known keeps its place, a
/// new one comes last, and where there are too many, the longest known leaves.
/// Empty results are not put in.
pub open spec fn after_insert<R>(
    cache: CacheView<R>,
    key: KeyView,
    results: Seq<R>,
    now: u128,
) -> CacheView<R> {
    let entries = with_results(cache.entries, key, results, now);
    let inserts = next(cache.stats.inserts);
    if results.len() == 0 {
        cache
    } else if entries.len() > RETRIEVAL_CACHE_CAPACITY {
        CacheView {
            entries: entries.drop_first(),
            stats: RetrievalCacheStats {
                inserts,
                evictions: next(cache.stats.evictions),
                entries: (entries.len() - 1) as usize,
                ..cache.stats
            },
        }
    } else {
        CacheView {
            entries,
            stats: RetrievalCacheStats { inserts, entries: entries.len() as usize, ..cache.stats },
        }
    }
}

impl<R> RetrievalCache<R> {
    /// An empty cache.
    pub fn new() -> (r: RetrievalCache<R>)
        ensures
            cache_ok(r@),
            r@.entries.len() == 0,
            r@.stats == no_stats(),
    {
        RetrievalCache { entries: Vec::new(), stats: RetrievalCacheStats::default() }
    }

    /// The place of the entry of a query.
    fn position(&self, key: &RetrievalCacheKey) -> (r: Option<usize>)
        ensures
            match r {
                Some(i) => place_of(self@.entries, key@) == Some(i as int) && i
                    < self.entries.len(),
                None => place_of(self@.entries, key@) is None,
            },
    {
        let ghost all = self@.entries;
        let mut i: usize = 0;
        while i < self.entries.len()
            invariant
                i <= self.entries.len(),
                all == self@.entries,
                place_of(all, key@) == place_from(all, key@, i as int),
            decreases self.entries.len() - i,
        {
            if self.entries[i].key.is_same(key) {
                return Some(i);
            }
            i += 1;
        }
        None
    }

    /// Looks a query up at the time `now`. Results that are too old are dropped.
    pub fn cached_retrieval_results(&mut self, key: &RetrievalCacheKey, now: u128) -> (r: Option<
        Vec<R>,
    >) where R: Clone
        requires
            cache_ok(old(self)@),
        ensures
            cache_ok(final(self)@),
            final(self)@ == after_lookup(old(self)@, key@, now),
            match (r, found(old(self)@, key@, now)) {
                (Some(results), Some(kept)) => {
                    &&& results.len() == kept.len()
                    &&& forall|i: int|
                        0 <= i < kept.len() ==> vstd::pervasive::cloned::<R>(
                            kept[i],
                            #[trigger] results[i],
                        )
                },
                (None, None) => true,
                _ => false,
            },
    {
        let ghost before = self@;
        match self.position(key) {
            None => {
                self.stats.misses = count(self.stats.misses);
                self.stats.entries = self.entries.len();
                None
            },
            Some(i) => {
                let inserted_at = self.entries[i].inserted_at;
                if now > inserted_at && now - inserted_at > RETRIEVAL_CACHE_TTL_NANOS {
                    self.entries.remove(i);
                    self.stats.stale = count(self.stats.stale);
                    self.stats.misses = count(self.stats.misses);
                    self.stats.entries = self.entries.len();
                    proof {
                        assert(self@.entries =~= before.entries.remove(i as int));
                        lemma_removed_ok(before, i as int);
                    }
                    return None;
                }
                let results = self.entries[i].results.clone();
                self.stats.hits = count(self.stats.hits);
                Some(results)
            },
        }
    }

    /// Puts the results of a query here at the time `now`.
    pub fn cache_retrieval_results(
        &mut self,
        key: RetrievalCacheKey,
        results: Vec<R>,
        now: u128,
    )
        requires
            cache_ok(old(self)@),
        ensures
            cache_ok(final(self)@),
            final(self)@ == after_insert(old(self)@, key@, results@, now),
    {
        if results.len() == 0 {
            return;
        }
        let ghost before = self@;
        let ghost name = key@;
        let ghost kept = results@;
        let found = self.position(&key);
        let entry = RetrievalCacheEntry { key, inserted_at: now, results };
        match found {
            Some(i) => {
                self.entries.set(i, entry);
                proof {
                    lemma_place_from(before.entries, name, 0);
                }
            },
            None => self.entries.push(entry),
        }
        let ghost grown = with_results(before.entries, name, kept, now);
        assert(self@.entries =~= grown);
        self.stats.inserts = count(self.stats.inserts);
        proof {
            lemma_with_results_distinct(before.entries, name, kept, now);
        }
        if self.entries.len() > RETRIEVAL_CACHE_CAPACITY {
            self.entries.remove(0);
            assert(self@.entries =~= grown.drop_first());
            self.stats.evictions = count(self.stats.evictions);
        }
        self.stats.entries = self.entries.len();
    }

    /// What happened to the cache so far.
    pub fn stats(&self) -> (r: RetrievalCacheStats)
        requires
            cache_ok(self@),
        ensures
            r == self@.stats,
            r.entries == self@.entries.len(),
    {
        self.stats
    }

    /// Empties the cache and forgets what happened to it.
    pub fn clear_retrieval_cache(&mut self)
        ensures
            cache_ok(final(self)@),
            final(self)@.entries.len() == 0,
            final(self)@.stats == no_stats(),
    {
        *self = RetrievalCache::new();
    }
}

/// What happened to a cache so far; nothing, where it cannot be looked at.
pub fn retrieval_cache_stats<R>(cache: Option<&RetrievalCache<R>>) -> (r: RetrievalCacheStats)
    requires
        cache matches Some(c) ==> cache_ok(c@),
    ensures
        r == match cache {
            Some(c) => c@.stats,
            None => no_stats(),
        },
{
    match cache {
        Some(c) => c.stats(),
        None => RetrievalCacheStats::default(),
    }
}

proof fn lemma_place_from<R>(entries: Seq<EntryView<R>>, key: KeyView, from: int)
    requires
        0 <= from,
    ensures
        match place_from(entries, key, from) {
            Some(i) => from <= i < entries.len() && entries[i].key == key && forall|j: int|
                from <= j < i ==> (#[trigger] entries[j]).key != key,
            None => forall|j: int| from <= j < entries.len() ==> (#[trigger] entries[j]).key != key,
        },
    decreases entries.len() - from,
{
    if from < entries.len() && entries[from].key != key {
        lemma_place_from(entries, key, from + 1);
    }
}

/// Where one entry is that of the query, it is found.
proof fn lemma_place_found<R>(entries: Seq<EntryView<R>>, key: KeyView, i: int)
    requires
        0 <= i < entries.len(),
        entries[i].key == key,
        forall|j: int| 0 <= j < i ==> (#[trigger] entries[j]).key != key,
    ensures
        place_of(entries, key) == Some(i),
{
    lemma_place_from(entries, key, 0);
}

proof fn lemma_removed_ok<R>(cache: CacheView<R>, i: int)
    requires
        cache_ok(cache),
        0 <= i < cache.entries.len(),
    ensures
        forall|a: int, b: int|
            0 <= a < b < cache.entries.len() - 1 ==> (#[trigger] cache.entries.remove(i)[a]).key
                != (#[trigger] cache.entries.remove(i)[b]).key,
{
    let now = cache.entries.remove(i);
    assert forall|a: int, b: int| 0 <= a < b < now.len() implies (#[trigger] now[a]).key != (
    #[trigger] now[b]).key by {
        let x = if a < i {
            a
        } else {
            a + 1
        };
        let y = if b < i {
            b
        } else {
            b + 1
        };
        assert(now[a] == cache.entries[x] && now[b] == cache.entries[y]);
    }
}

proof fn lemma_with_results_distinct<R>(
    entries: Seq<EntryView<R>>,
    key: KeyView,
    results: Seq<R>,
    now: u128,
)
    requires
        forall|i: int, j: int|
            0 <= i < j < entries.len() ==> (#[trigger] entries[i]).key != (
            #[trigger] entries[j]).key,
    ensures
        ({
            let after = with_results(entries, key, results, now);
            &&& forall|i: int, j: int|
                0 <= i < j < after.len() ==> (#[trigger] after[i]).key != (#[trigger] after[j]).key
            &&& after.len() <= entries.len() + 1
        }),
{
    lemma_place_from(entries, key, 0);
    let after = with_results(entries, key, results, now);
    assert forall|i: int, j: int| 0 <= i < j < after.len() implies (#[trigger] after[i]).key != (
    #[trigger] after[j]).key by {
        if j < entries.len() {
            assert(entries[i].key != entries[j].key);
        } else {
            assert(entries[i].key != key);
        }
    }
}

/// Results that were put in are found until they are too old.
pub proof fn law_results_found_until_stale<R>(
    cache: CacheView<R>,
    key: KeyView,
    results: Seq<R>,
    inserted_at: u128,
    now: u128,
)
    requires
        cache_ok(cache),
        results.len() > 0,
    ensures
        found(after_insert(cache, key, results, inserted_at), key, now) == if is_stale(
            inserted_at,
            now,
        ) {
            None
        } else {
            Some(results)
        },
{
    lemma_place_from(cache.entries, key, 0);
    let grown = with_results(cache.entries, key, results, inserted_at);
    lemma_with_results_distinct(cache.entries, key, results, inserted_at);
    let after = after_insert(cache, key, results, inserted_at).entries;
    match place_of(cache.entries, key) {
        Some(i) => {
            lemma_place_found(grown, key, i);
        },
        None => {
            let last = grown.len() - 1;
            if grown.len() > RETRIEVAL_CACHE_CAPACITY {
                assert(after == grown.drop_first());
                lemma_place_found(after, key, last - 1);
            } else {
                lemma_place_found(grown, key, last);
            }
        },
    }
}

/// Putting in one query changes nothing for another that stays in the cache; only
/// the longest known one can leave, and only where a new one comes to a full cache.
pub proof fn law_insert_keeps_other_queries<R>(
    cache: CacheView<R>,
    key: KeyView,
    results: Seq<R>,
    inserted_at: u128,
    other: KeyView,
    now: u128,
)
    requires
        cache_ok(cache),
        key != other,
    ensures
        ({
            let evicts = {
                &&& results.len() > 0
                &&& cache.entries.len() == RETRIEVAL_CACHE_CAPACITY
                &&& place_of(cache.entries, key) is None
                &&& cache.entries[0].key == other
            };
            found(after_insert(cache, key, results, inserted_at), other, now) == if evicts {
                None
            } else {
                found(cache, other, now)
            }
        }),
{
    lemma_place_from(cache.entries, key, 0);
    lemma_place_from(cache.entries, other, 0);
    if results.len() > 0 {
        let grown = with_results(cache.entries, key, results, inserted_at);
        lemma_with_results_distinct(cache.entries, key, results, inserted_at);
        lemma_place_from(grown, other, 0);
        match place_of(cache.entries, other) {
            Some(i) => {
                assert(grown[i] == cache.entries[i]);
                lemma_place_found(grown, other, i);
            },
            None => {
                assert forall|j: int| 0 <= j < grown.len() implies (#[trigger] grown[j]).key
                    != other by {
                    if j < cache.entries.len() {
                        assert(cache.entries[j].key != other);
                    }
                }
            },
        }
        if grown.len() > RETRIEVAL_CACHE_CAPACITY {
            let after = grown.drop_first();
            lemma_place_from(after, other, 0);
            match place_of(grown, other) {
                Some(i) => {
                    if i > 0 {
                        assert(after[i - 1] == grown[i]);
                        lemma_place_found(after, other, i - 1);
                    } else {
                        assert forall|j: int| 0 <= j < after.len() implies (
                        #[trigger] after[j]).key != other by {
                            assert(after[j] == grown[j + 1]);
                            assert(grown[0].key != grown[j + 1].key);
                        }
                    }
                },
                None => {
                    assert forall|j: int| 0 <= j < after.len() implies (#[trigger] after[j]).key
                        != other by {
                        assert(after[j] == grown[j + 1]);
                    }
                },
            }
        }
    }
}

/// Looking a query up changes nothing for another, and nothing for itself either:
/// looked up again at the same time it gives the same results.
pub proof fn law_lookup_keeps_queries<R>(
    cache: CacheView<R>,
    key: KeyView,
    now: u128,
    other: KeyView,
    later: u128,
)
    requires
        cache_ok(cache),
    ensures
        key != other ==> found(after_lookup(cache, key, now), other, later) == found(
            cache,
            other,
            later,
        ),
        found(after_lookup(cache, key, now), key, now) == found(cache, key, now),
{
    lemma_place_from(cache.entries, key, 0);
    lemma_place_from(cache.entries, other, 0);
    let after = after_lookup(cache, key, now).entries;
    if let Some(i) = place_of(cache.entries, key) {
        if is_stale(cache.entries[i].inserted_at, now) {
            lemma_place_from(after, other, 0);
            lemma_place_from(after, key, 0);
            assert forall|j: int| 0 <= j < after.len() implies (#[trigger] after[j]).key
                != key by {
                if j < i {
                    assert(after[j] == cache.entries[j]);
                } else {
                    assert(after[j] == cache.entries[j + 1]);
                    assert(cache.entries[i].key != cache.entries[j + 1].key);
                }
            }
            if key != other {
                lemma_removed_ok(cache, i);
                match place_of(cache.entries, other) {
                    Some(k) => {
                        let x = if k < i {
                            k
                        } else {
                            k - 1
                        };
                        assert(after[x] == cache.entries[k]);
                        lemma_place_found(after, other, x);
                    },
                    None => {
                        assert forall|j: int| 0 <= j < after.len() implies (
                        #[trigger] after[j]).key != other by {
                            let x = if j < i {
                                j
                            } else {
                                j + 1
                            };
                            assert(after[j] == cache.entries[x]);
                        }
                    },
                }
            }
        }
    }
}

/// Empty results are never put in.
pub proof fn law_empty_results_are_not_cached<R>(cache: CacheView<R>, key: KeyView, now: u128)
    ensures
        after_insert(cache, key, Seq::<R>::empty(), now) == cache,
{
}

/// The counters agree with each other: a stale entry was a miss, and every entry
/// that is here, was evicted or went stale was put in.
pub open spec fn counts_agree(stats: RetrievalCacheStats) -> bool {
    &&& stats.stale <= stats.misses
    &&& stats.entries + stats.evictions + stats.stale <= stats.inserts
}

/// No counter is about to start over.
pub open spec fn no_counter_full(stats: RetrievalCacheStats) -> bool {
    &&& stats.hits < u64::MAX
    &&& stats.misses < u64::MAX
    &&& stats.inserts < u64::MAX
    &&& stats.evictions < u64::MAX
    &&& stats.stale < u64::MAX
}

/// The counters of a new cache agree, and looking up and putting in keep it so as
/// long as no counter is full.
pub proof fn law_counts_agree<R>(cache: CacheView<R>, key: KeyView, results: Seq<R>, now: u128)
    requires
        cache_ok(cache),
        counts_agree(cache.stats),
        no_counter_full(cache.stats),
    ensures
        counts_agree(no_stats()),
        counts_agree(after_lookup(cache, key, now).stats),
        counts_agree(after_insert(cache, key, results, now).stats),
{
    lemma_place_from(cache.entries, key, 0);
}

/// Results that were put in are given back for thirty seconds, and at no time after
/// that.
pub proof fn law_results_expire_after_thirty_seconds<R>(
    cache: CacheView<R>,
    key: KeyView,
    results: Seq<R>,
    inserted_at: u128,
    now: u128,
)
    requires
        cache_ok(cache),
        results.len() > 0,
    ensures
        now > inserted_at + 30_000_000_000 ==> found(
            after_insert(cache, key, results, inserted_at),
            key,
            now,
        ) is None,
        now <= inserted_at + 30_000_000_000 ==> found(
            after_insert(cache, key, results, inserted_at),
            key,
            now,
        ) == Some(results),
{
    law_results_found_until_stale(cache, key, results, inserted_at, now);
}

/// A query that gives nothing at some time gives nothing at any later time, where
/// nothing is put in meanwhile.
pub proof fn law_nothing_comes_back<R>(cache: CacheView<R>, key: KeyView, now: u128, later: u128)
    requires
        cache_ok(cache),
        now <= later,
        found(cache, key, now) is None,
    ensures
        found(cache, key, later) is None,
        found(after_lookup(cache, key, now), key, later) is None,
{
    lemma_place_from(cache.entries, key, 0);
    let after = after_lookup(cache, key, now).entries;
    lemma_place_from(after, key, 0);
    if let Some(i) = place_of(cache.entries, key) {
        assert forall|j: int| 0 <= j < after.len() implies (#[trigger] after[j]).key != key by {
            if j < i {
                assert(after[j] == cache.entries[j]);
            } else {
                assert(after[j] == cache.entries[j + 1]);
                assert(cache.entries[i].key != cache.entries[j + 1].key);
            }
        }
    }
}

/// A lookup gives what stands under the query, if that is no older than thirty
/// seconds, and nothing where nothing stands under it. What is older it takes out of
/// the cache; of the rest it changes nothing.
pub proof fn law_lookup_gives_what_is_there<R>(cache: CacheView<R>, key: KeyView, now: u128, i: int)
    requires
        cache_ok(cache),
    ensures
        0 <= i < cache.entries.len() && cache.entries[i].key == key && now
            <= cache.entries[i].inserted_at + 30_000_000_000 ==> found(cache, key, now) == Some(
            cache.entries[i].results,
        ) && after_lookup(cache, key, now).entries == cache.entries,
        0 <= i < cache.entries.len() && cache.entries[i].key == key && now
            > cache.entries[i].inserted_at + 30_000_000_000 ==> found(cache, key, now) is None
            && after_lookup(cache, key, now).entries == cache.entries.take(i)
            + cache.entries.skip(i + 1),
        (forall|j: int| 0 <= j < cache.entries.len() ==> (#[trigger] cache.entries[j]).key != key)
            ==> found(cache, key, now) is None && after_lookup(cache, key, now).entries
            == cache.entries,
{
    lemma_place_from(cache.entries, key, 0);
    if 0 <= i < cache.entries.len() && cache.entries[i].key == key {
        if let Some(k) = place_of(cache.entries, key) {
            if k < i {
                assert(cache.entries[k].key != cache.entries[i].key);
            }
        }
        assert(cache.entries.remove(i) =~= cache.entries.take(i) + cache.entries.skip(i + 1));
    }
}

/// The cache never holds more than 128 queries. Putting results in makes them the
/// ones that stand under their query, and takes out another query only where the
/// query is new and 128 are there: then the one that is known longest leaves.
pub proof fn law_longest_known_query_leaves<R>(
    cache: CacheView<R>,
    key: KeyView,
    results: Seq<R>,
    now: u128,
    i: int,
)
    requires
        cache_ok(cache),
        results.len() > 0,
    ensures
        ({
            let after = after_insert(cache, key, results, now).entries;
            let entry = EntryView { key, inserted_at: now, results };
            let known = exists|j: int|
                0 <= j < cache.entries.len() && (#[trigger] cache.entries[j]).key == key;
            &&& after.len() <= 128
            &&& after.contains(entry)
            &&& known ==> after.len() == cache.entries.len()
            &&& !known && cache.entries.len() < 128 ==> after == cache.entries.push(entry)
            &&& !known && cache.entries.len() == 128 ==> after == cache.entries.skip(1).push(entry)
            &&& known && 0 <= i < cache.entries.len() ==> after[i] == if cache.entries[i].key
                == key {
                entry
            } else {
                cache.entries[i]
            }
        }),
{
    lemma_place_from(cache.entries, key, 0);
    let after = after_insert(cache, key, results, now).entries;
    let entry = EntryView { key, inserted_at: now, results };
    match place_of(cache.entries, key) {
        Some(k) => {
            assert(after[k] == entry);
            assert(cache.entries[k].key == key);
            if 0 <= i < cache.entries.len() && i != k {
                if i < k {
                    assert(cache.entries[i].key != cache.entries[k].key);
                } else {
                    assert(cache.entries[k].key != cache.entries[i].key);
                }
            }
        },
        None => {
            let grown = cache.entries.push(entry);
            if cache.entries.len() == 128 {
                assert(grown.drop_first() =~= cache.entries.skip(1).push(entry));
            }
            assert(after[after.len() - 1] == entry);
        },
    }
}

/// Every lookup counts as a hit where it gives results and as a miss where it does
/// not, and as stale where it took results out. Putting in non-empty results counts
/// as an insert, and as an eviction where another query left. Nothing else is
/// counted, as long as no counter is full.
pub proof fn law_everything_is_counted<R>(
    cache: CacheView<R>,
    key: KeyView,
    results: Seq<R>,
    now: u128,
)
    requires
        cache_ok(cache),
        cache.stats.hits < u64::MAX,
        cache.stats.misses < u64::MAX,
        cache.stats.inserts < u64::MAX,
        cache.stats.evictions < u64::MAX,
        cache.stats.stale < u64::MAX,
    ensures
        ({
            let before = cache.stats;
            let after = after_lookup(cache, key, now);
            let hit = found(cache, key, now) is Some;
            &&& after.stats.hits == before.hits + if hit {
                1int
            } else {
                0
            }
            &&& after.stats.misses == before.misses + if hit {
                0int
            } else {
                1
            }
            &&& after.stats.stale == before.stale + cache.entries.len() - after.entries.len()
            &&& after.stats.inserts == before.inserts
            &&& after.stats.evictions == before.evictions
            &&& after.stats.entries == after.entries.len()
        }),
        ({
            let before = cache.stats;
            let after = after_insert(cache, key, results, now);
            let known = exists|j: int|
                0 <= j < cache.entries.len() && (#[trigger] cache.entries[j]).key == key;
            &&& after.stats.inserts == before.inserts + if results.len() > 0 {
                1int
            } else {
                0
            }
            &&& after.stats.evictions == before.evictions + if results.len() > 0 && !known
                && cache.entries.len() == 128 {
                1int
            } else {
                0
            }
            &&& after.stats.hits == before.hits
            &&& after.stats.misses == before.misses
            &&& after.stats.stale == before.stale
            &&& after.stats.entries == after.entries.len()
        }),
{
    lemma_place_from(cache.entries, key, 0);
    if let Some(k) = place_of(cache.entries, key) {
        assert(cache.entries[k].key == key);
    }
}

/// The hash takes the bytes one after the other: each is mixed in by exclusive or and
/// multiplied by the prime. No bytes hash to the offset basis.
pub proof fn law_the_hash_takes_each_byte(bytes: Seq<u8>, b: u8)
    ensures
        fnv(Seq::<u8>::empty()) == 0xcbf29ce484222325u64,
        fnv(bytes.push(b)) == (fnv(bytes) ^ (b as u64)).wrapping_mul(0x100000001b3u64),
{
    assert(bytes.push(b).drop_last() =~= bytes);
}

} // verus!
