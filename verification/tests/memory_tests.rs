use jcode_tools::memory::cache::{
    graph_mtime_signature, retrieval_cache_stats, stable_hash, GraphCache, MemoryScope,
    RetrievalCache, RetrievalCacheKey, RetrievalCacheStats, RETRIEVAL_CACHE_CAPACITY,
    RETRIEVAL_CACHE_TTL_NANOS,
};
use jcode_tools::memory::float;
use jcode_tools::memory::garden::{
    candidate_priority, comparable_pairs, garden_candidates_for_graph, has_relates_edge,
    should_prune, EdgeKind, GardenCandidateKind, GardenScope, MemoryEdge, MemoryEntry,
    MemoryGardenReport, MemoryGraph, MemoryGraphScore, MemoryManager, DEDUP_SIMILARITY_THRESHOLD,
    MAX_CANDIDATES_PER_SCOPE, PRUNE_CONFIDENCE_THRESHOLD, RELATIONSHIP_SIMILARITY_THRESHOLD,
};

fn key(query: &str) -> RetrievalCacheKey {
    RetrievalCacheKey::new(
        "keyword",
        MemoryScope::All,
        query,
        0.5f32.to_bits(),
        10,
        1,
        2,
    )
}

fn memory(id: &str, embedding_len: Option<usize>) -> MemoryEntry {
    MemoryEntry {
        id: id.to_string(),
        active: true,
        strength: 5,
        confidence_bits: 0.9f32.to_bits(),
        doubt_bits: 0.1f32.to_bits(),
        embedding_len,
    }
}

fn weak(id: &str, confidence: f32) -> MemoryEntry {
    MemoryEntry {
        id: id.to_string(),
        active: true,
        strength: 1,
        confidence_bits: confidence.to_bits(),
        doubt_bits: (1.0 - confidence).to_bits(),
        embedding_len: None,
    }
}

fn edge(source: &str, target: &str, kind: EdgeKind) -> MemoryEdge {
    MemoryEdge {
        source: source.into(),
        target: target.into(),
        kind,
    }
}

fn score(id: &str, centrality: f32) -> MemoryGraphScore {
    MemoryGraphScore {
        id: id.into(),
        centrality_bits: centrality.to_bits(),
    }
}

// graph cache

#[test]
fn a_graph_is_cached_until_its_file_changes() {
    let mut cache: GraphCache<&str> = GraphCache::new();
    assert_eq!(cache.cached_graph("/g", Some(5)), None);
    cache.cache_graph("/g".into(), Some(5), "graph");
    cache.cache_graph("/h".into(), None, "other");
    assert_eq!(cache.cached_graph("/g", Some(5)), Some(&"graph"));
    assert_eq!(cache.cached_graph("/g", Some(6)), None);
    assert_eq!(cache.cached_graph("/g", None), None);
    assert_eq!(cache.cached_graph("/h", None), Some(&"other"));
    cache.cache_graph("/g".into(), Some(6), "newer");
    assert_eq!(cache.cached_graph("/g", Some(6)), Some(&"newer"));
}

#[test]
fn modification_times_have_signatures() {
    assert_eq!(graph_mtime_signature(Some(17)), 17);
    assert_eq!(graph_mtime_signature(Some(-17)), 0);
    assert_eq!(graph_mtime_signature(None), 0);
}

#[test]
fn the_hash_is_fnv() {
    assert_eq!(stable_hash(""), 0xcbf29ce484222325);
    assert_eq!(stable_hash("a"), 0xaf63dc4c8601ec8c);
    assert_eq!(stable_hash("foobar"), 0x85944171f73967e8);
    assert_ne!(stable_hash("ä"), stable_hash("a"));
}

// retrieval cache

#[test]
fn results_are_found_until_they_are_stale() {
    let mut cache: RetrievalCache<u32> = RetrievalCache::new();
    assert_eq!(cache.cached_retrieval_results(&key("q"), 0), None);
    cache.cache_retrieval_results(key("q"), vec![1, 2], 100);
    assert_eq!(
        cache.cached_retrieval_results(&key("q"), 100),
        Some(vec![1, 2])
    );
    assert_eq!(
        cache.cached_retrieval_results(&key("q"), 100 + RETRIEVAL_CACHE_TTL_NANOS),
        Some(vec![1, 2])
    );
    // A clock that went back finds them too.
    assert_eq!(
        cache.cached_retrieval_results(&key("q"), 50),
        Some(vec![1, 2])
    );
    assert_eq!(
        cache.cached_retrieval_results(&key("q"), 101 + RETRIEVAL_CACHE_TTL_NANOS),
        None
    );
    assert_eq!(
        retrieval_cache_stats(Some(&cache)),
        RetrievalCacheStats {
            hits: 3,
            misses: 2,
            inserts: 1,
            evictions: 0,
            stale: 1,
            entries: 0,
        }
    );
}

#[test]
fn keys_distinguish_every_part() {
    let base = || {
        (
            "semantic".to_string(),
            MemoryScope::Project,
            "q".to_string(),
            1u32,
            2usize,
            3u128,
            4u128,
        )
    };
    let make = |p: &(String, MemoryScope, String, u32, usize, u128, u128)| {
        RetrievalCacheKey::new(&p.0, p.1, &p.2, p.3, p.4, p.5, p.6)
    };
    let first = base();
    assert!(make(&first).is_same(&make(&base())));
    let mut others = Vec::new();
    for i in 0..7 {
        let mut p = base();
        match i {
            0 => p.0 = "keyword".into(),
            1 => p.1 = MemoryScope::Global,
            2 => p.2 = "r".into(),
            3 => p.3 = 9,
            4 => p.4 = 9,
            5 => p.5 = 9,
            _ => p.6 = 9,
        }
        others.push(p);
    }
    for p in &others {
        assert!(!make(&first).is_same(&make(p)));
    }
}

#[test]
fn the_oldest_query_leaves_a_full_cache() {
    let mut cache: RetrievalCache<u32> = RetrievalCache::new();
    for i in 0..RETRIEVAL_CACHE_CAPACITY {
        cache.cache_retrieval_results(key(&format!("q{i}")), vec![i as u32], 0);
    }
    // A known query keeps its place.
    cache.cache_retrieval_results(key("q0"), vec![1000], 0);
    cache.cache_retrieval_results(key("new"), vec![7], 0);
    assert_eq!(cache.cached_retrieval_results(&key("q0"), 0), None);
    assert_eq!(cache.cached_retrieval_results(&key("q1"), 0), Some(vec![1]));
    assert_eq!(
        cache.cached_retrieval_results(&key("new"), 0),
        Some(vec![7])
    );
    let stats = retrieval_cache_stats(Some(&cache));
    assert_eq!(stats.entries, RETRIEVAL_CACHE_CAPACITY);
    assert_eq!(stats.evictions, 1);
    assert_eq!(stats.inserts, RETRIEVAL_CACHE_CAPACITY as u64 + 2);
}

#[test]
fn the_counters_agree() {
    let agree = |cache: &RetrievalCache<u32>| {
        let stats = retrieval_cache_stats(Some(cache));
        assert!(stats.stale <= stats.misses);
        assert!(stats.entries as u64 + stats.evictions + stats.stale <= stats.inserts);
    };
    let late = RETRIEVAL_CACHE_TTL_NANOS + 1;
    let mut cache: RetrievalCache<u32> = RetrievalCache::new();
    agree(&cache);
    for i in 0..RETRIEVAL_CACHE_CAPACITY + 2 {
        cache.cache_retrieval_results(key(&format!("q{i}")), vec![1], 0);
        agree(&cache);
    }
    for (query, now) in [("q2", 0), ("q0", 0), ("q3", late), ("q3", late)] {
        cache.cached_retrieval_results(&key(query), now);
        agree(&cache);
    }
    cache.cache_retrieval_results(key("q3"), vec![2], late);
    cache.cache_retrieval_results(key("q3"), vec![3], late);
    agree(&cache);
    assert_eq!(
        retrieval_cache_stats(Some(&cache)),
        RetrievalCacheStats {
            hits: 1,
            misses: 3,
            inserts: RETRIEVAL_CACHE_CAPACITY as u64 + 4,
            evictions: 2,
            stale: 1,
            entries: RETRIEVAL_CACHE_CAPACITY,
        }
    );
}

#[test]
fn empty_results_are_not_cached() {
    let mut cache: RetrievalCache<u32> = RetrievalCache::new();
    cache.cache_retrieval_results(key("q"), vec![], 0);
    assert_eq!(retrieval_cache_stats(Some(&cache)).inserts, 0);
    assert_eq!(cache.cached_retrieval_results(&key("q"), 0), None);
}

#[test]
fn a_cleared_cache_is_new() {
    let mut cache: RetrievalCache<u32> = RetrievalCache::new();
    cache.cache_retrieval_results(key("q"), vec![1], 0);
    cache.clear_retrieval_cache();
    assert_eq!(
        retrieval_cache_stats(Some(&cache)),
        RetrievalCacheStats::default()
    );
    assert_eq!(cache.cached_retrieval_results(&key("q"), 0), None);
    assert_eq!(
        retrieval_cache_stats::<u32>(None),
        RetrievalCacheStats::default()
    );
}

// numbers

#[test]
fn thresholds_are_the_decimal_numbers() {
    assert_eq!(DEDUP_SIMILARITY_THRESHOLD, 0.95f32.to_bits());
    assert_eq!(RELATIONSHIP_SIMILARITY_THRESHOLD, 0.78f32.to_bits());
    assert_eq!(PRUNE_CONFIDENCE_THRESHOLD, 0.05f32.to_bits());
}

#[test]
fn numbers_compare_as_floats_do() {
    let samples = [
        0.0f32,
        -0.0,
        1.0,
        -1.0,
        0.95,
        0.05,
        f32::MIN_POSITIVE,
        1e-45,
        f32::MAX,
        f32::MIN,
        f32::INFINITY,
        f32::NEG_INFINITY,
        f32::NAN,
        -f32::NAN,
    ];
    for a in samples {
        for b in samples {
            let (x, y) = (a.to_bits(), b.to_bits());
            assert_eq!(float::is_at_least(x, y), a >= b, "{a} {b}");
            assert_eq!(float::is_less_than(x, y), a < b, "{a} {b}");
            assert_eq!(
                float::total_rank_of(x) <= float::total_rank_of(y),
                a.total_cmp(&b).is_le(),
                "{a} {b}"
            );
            let greater = f32::from_bits(float::greater(x, y));
            if a.is_nan() && b.is_nan() {
                assert!(greater.is_nan());
            } else {
                assert_eq!(greater, a.max(b), "{a} {b}");
            }
        }
    }
}

// garden

#[test]
fn weak_and_inactive_memories_are_pruned() {
    assert!(should_prune(&weak("w", 0.04)));
    assert!(!should_prune(&weak("w", 0.05)));
    let mut strong = weak("s", 0.01);
    strong.strength = 2;
    assert!(!should_prune(&strong));
    strong.active = false;
    assert!(should_prune(&strong));
}

#[test]
fn relations_count_in_both_directions() {
    let graph = MemoryGraph {
        memories: vec![],
        edges: vec![
            edge("a", "b", EdgeKind::RelatesTo),
            edge("a", "c", EdgeKind::Other),
        ],
    };
    assert!(has_relates_edge(&graph, "a", "b"));
    assert!(has_relates_edge(&graph, "b", "a"));
    assert!(!has_relates_edge(&graph, "a", "c"));
    assert_eq!(candidate_priority(GardenCandidateKind::Deduplicate), 0);
    assert_eq!(candidate_priority(GardenCandidateKind::Prune), 1);
    assert_eq!(candidate_priority(GardenCandidateKind::Relate), 2);
}

#[test]
fn pairs_go_by_name_and_length() {
    let mut sleeping = memory("a", Some(3));
    sleeping.active = false;
    let graph = MemoryGraph {
        memories: vec![
            memory("d", Some(3)),
            sleeping,
            memory("b", Some(3)),
            memory("c", Some(4)),
            memory("e", None),
            memory("aa", Some(3)),
        ],
        edges: vec![],
    };
    // By name: aa (5), b (2), c (3), d (0).
    assert_eq!(comparable_pairs(&graph), vec![(5, 2), (5, 0), (2, 0)]);
}

#[test]
fn similar_memories_become_candidates() {
    let graph = MemoryGraph {
        memories: vec![
            memory("c", Some(2)),
            memory("a", Some(2)),
            memory("b", Some(2)),
            weak("w", 0.01),
        ],
        edges: vec![edge("c", "b", EdgeKind::RelatesTo)],
    };
    let scores = vec![score("a", 0.1), score("b", 0.7), score("w", 0.2), score("b", 0.3)];
    assert_eq!(comparable_pairs(&graph), vec![(1, 2), (1, 0), (2, 0)]);
    let similarities = vec![0.96f32.to_bits(), 0.8f32.to_bits(), 0.9f32.to_bits()];
    let found = garden_candidates_for_graph("project", &graph, &scores, &similarities);
    let shown: Vec<(GardenCandidateKind, &str, Option<&str>, f32, f32)> = found
        .iter()
        .map(|c| {
            (
                c.kind,
                c.primary_id.as_str(),
                c.secondary_id.as_deref(),
                f32::from_bits(c.score_bits),
                f32::from_bits(c.centrality_bits),
            )
        })
        .collect();
    assert_eq!(
        shown,
        vec![
            (GardenCandidateKind::Deduplicate, "a", Some("b"), 0.96, 0.3),
            (GardenCandidateKind::Prune, "w", None, 0.99, 0.2),
            (GardenCandidateKind::Relate, "a", Some("c"), 0.8, 0.1),
        ]
    );
    assert_eq!(
        found[0].reason,
        "embedding similarity exceeds dedup threshold"
    );
    assert_eq!(
        found[1].reason,
        "low effective confidence and weak reinforcement"
    );
    assert_eq!(
        found[2].reason,
        "similar active memories are not explicitly related"
    );
    assert!(found.iter().all(|c| c.scope == "project"));
}

#[test]
fn a_worklist_is_short_and_in_order() {
    let mut memories = Vec::new();
    let mut scores = Vec::new();
    for i in 0..60u32 {
        let id = format!("m{:02}", (i * 37) % 60);
        let mut m = weak(&id, 0.01);
        m.active = i % 2 == 0;
        memories.push(m);
        scores.push(score(&id, (i % 5) as f32));
    }
    let graph = MemoryGraph {
        memories,
        edges: vec![],
    };
    let found = garden_candidates_for_graph("global", &graph, &scores, &vec![]);
    assert_eq!(found.len(), MAX_CANDIDATES_PER_SCOPE);
    for pair in found.windows(2) {
        let (a, b) = (&pair[0], &pair[1]);
        let (ca, cb) = (
            f32::from_bits(a.centrality_bits),
            f32::from_bits(b.centrality_bits),
        );
        assert!(ca > cb || (ca == cb && a.primary_id < b.primary_id));
    }
    assert!(found
        .iter()
        .any(|c| c.reason == "inactive or superseded memory"));
}

#[test]
fn both_graphs_make_one_report() {
    let project = GardenScope {
        graph: MemoryGraph {
            memories: vec![weak("p", 0.01)],
            edges: vec![],
        },
        scores: vec![score("p", 0.5)],
        similarities: vec![],
    };
    let global = GardenScope {
        graph: MemoryGraph {
            memories: vec![
                weak("g", 0.01),
                memory("x", Some(1)),
                memory("y", Some(1)),
                weak("p", 0.01),
            ],
            edges: vec![],
        },
        scores: vec![score("g", 0.9), score("p", 0.5)],
        similarities: vec![1.0f32.to_bits()],
    };
    let report = MemoryManager { project, global }.garden_dry_run();
    assert_eq!(report.scanned_memories, 5);
    assert_eq!(report.clone(), report);
    assert_eq!(MemoryGardenReport::default().scanned_memories, 0);
    assert_eq!(report.project_scores, vec![score("p", 0.5)]);
    assert_eq!(report.global_scores.len(), 2);
    let shown: Vec<(&str, &str)> = report
        .candidates
        .iter()
        .map(|c| (c.scope.as_str(), c.primary_id.as_str()))
        .collect();
    // Equal candidates keep their order: those of the project come first.
    assert_eq!(
        shown,
        vec![
            ("global", "x"),
            ("global", "g"),
            ("project", "p"),
            ("global", "p"),
        ]
    );
}
