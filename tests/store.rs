use capsule_memory::capsule::{AdaptationSummary, MemoryCapsule, PrivacyLevel};
use capsule_memory::numeric::SCALE;
use capsule_memory::vector_store::{
    calculate_enhanced_quality_score, generate_metadata_vector, generate_semantic_embedding,
    SearchAlgorithm, SearchCandidate, VectorMemoryDatabase, VectorSearchQuery, DAY_MS,
};

const NOW: u64 = 100 * 86_400_000;

fn capsule(id: &str, ctx: Vec<i64>, timestamp: u64, tags: &[&str]) -> MemoryCapsule {
    let mut context = ctx;
    context.resize(16, 0);
    MemoryCapsule {
        capsule_id: id.to_string(),
        timestamp,
        cluster_id: "c1".to_string(),
        privacy_level: PrivacyLevel::Public,
        context_vector: context,
        semantic_tags: tags.iter().map(|t| t.to_string()).collect(),
        adaptation_summary: AdaptationSummary {
            threshold_adaptations: 0,
            timer_adaptations: 0,
            weight_changes: 0,
            error_magnitude: 0,
            learning_rate_changes: 0,
        },
        compressed_data: vec![1u8; 500],
        novelty_score: 500_000,
        importance_score: 500_000,
    }
}

fn recency_of(c: &SearchCandidate) -> i64 {
    let hours = c.age_ms as f64 / 3_600_000.0;
    ((-hours / 168.0).exp() * 1_000_000.0) as i64
}

fn search(db: &mut VectorMemoryDatabase, q: &VectorSearchQuery, now: u64) -> Vec<String> {
    let cands = db.search_candidates(q, now);
    let rec: Vec<i64> = cands.iter().map(recency_of).collect();
    db.rank_search_results(&cands, &rec, q.max_results, now)
        .into_iter()
        .map(|r| r.capsule_id)
        .collect()
}

fn query(v: Vec<i64>, alg: SearchAlgorithm) -> VectorSearchQuery {
    VectorSearchQuery {
        query_vector: v,
        context_filter: vec![],
        time_range: None,
        quality_threshold: 0,
        max_results: 10,
        search_algorithm: alg,
    }
}

#[test]
fn stale_unaccessed_entries_are_all_evicted() {
    let mut db = VectorMemoryDatabase::new(0);
    let old = NOW - 31 * DAY_MS;
    for i in 0..150 {
        let c = capsule(&format!("cap{}", i), vec![SCALE], old, &["t"]);
        assert!(db.store_memory_capsule(&c, format!("ref{}", i)));
    }
    assert_eq!(db.get_vector_count(), 150);
    assert_eq!(db.get_total_memory_size(), 150 * 500);
    assert!(db.consolidate_memory(NOW));
    assert_eq!(db.get_vector_count(), 0);
    assert_eq!(db.get_total_memory_size(), 0);
    assert_eq!(db.get_temporal_entry_count(), 0);
    assert_eq!(db.get_semantic_cluster_count(), 0);
}

#[test]
fn second_eviction_removes_nothing() {
    let mut db = VectorMemoryDatabase::new(0);
    db.store_memory_capsule(&capsule("old", vec![SCALE], NOW - 40 * DAY_MS, &["a"]), "r".to_string());
    db.store_memory_capsule(&capsule("new", vec![SCALE], NOW - DAY_MS, &["a"]), "r".to_string());
    db.consolidate_memory(NOW);
    assert_eq!(db.get_vector_count(), 1);
    let size = db.get_total_memory_size();
    db.consolidate_memory(NOW);
    assert_eq!(db.get_vector_count(), 1);
    assert_eq!(db.get_total_memory_size(), size);
    assert!(db.get_entry(&"new".to_string()).is_some());
}

#[test]
fn accessed_entries_survive_eviction() {
    let mut db = VectorMemoryDatabase::new(0);
    let ts = NOW - 40 * DAY_MS;
    db.store_memory_capsule(&capsule("keep", vec![SCALE], ts, &["a"]), "r".to_string());
    let q = query(vec![SCALE], SearchAlgorithm::CosineSimilarity);
    for _ in 0..3 {
        assert_eq!(search(&mut db, &q, NOW), vec!["keep".to_string()]);
    }
    assert_eq!(db.get_entry(&"keep".to_string()).unwrap().access_pattern.total_accesses, 3);
    assert_eq!(db.get_entry(&"keep".to_string()).unwrap().access_pattern.recent_accesses, vec![NOW, NOW, NOW]);
    db.consolidate_memory(NOW);
    assert_eq!(db.get_vector_count(), 1);
}

#[test]
fn own_context_ranks_first_under_cosine() {
    let mut db = VectorMemoryDatabase::new(0);
    let a = capsule("a", vec![SCALE, 0, 0], NOW, &["x"]);
    let b = capsule("b", vec![0, SCALE, 0], NOW, &["x"]);
    let c = capsule("c", vec![600_000, 0, 800_000], NOW, &["x"]);
    for cap in [&a, &b, &c] {
        db.store_memory_capsule(cap, "r".to_string());
    }
    for cap in [&a, &b, &c] {
        let ids = search(&mut db, &query(cap.context_vector.clone(), SearchAlgorithm::CosineSimilarity), NOW);
        assert_eq!(ids[0], cap.capsule_id);
    }
}

#[test]
fn search_results_are_ordered_and_capped() {
    let mut db = VectorMemoryDatabase::new(0);
    for i in 0..5 {
        let c = capsule(&format!("c{}", i), vec![SCALE, (i as i64) * 200_000], NOW, &["x"]);
        db.store_memory_capsule(&c, "r".to_string());
    }
    let mut q = query(vec![SCALE], SearchAlgorithm::Hybrid);
    q.max_results = 3;
    let cands = db.search_candidates(&q, NOW);
    assert_eq!(cands.len(), 5);
    let rec: Vec<i64> = cands.iter().map(recency_of).collect();
    let res = db.rank_search_results(&cands, &rec, 3, NOW);
    assert_eq!(res.len(), 3);
    assert!(res[0].relevance_score >= res[1].relevance_score);
    assert!(res[1].relevance_score >= res[2].relevance_score);
    assert_eq!(res[0].capsule_id, "c0");
    assert!(res.iter().all(|r| r.blockchain_verified));
}

#[test]
fn filters_skip_entries() {
    let mut db = VectorMemoryDatabase::new(0);
    db.store_memory_capsule(&capsule("t1", vec![SCALE], 1_000, &["alpha"]), "r".to_string());
    db.store_memory_capsule(&capsule("t2", vec![SCALE], 5_000, &["beta"]), "r".to_string());
    let mut q = query(vec![SCALE], SearchAlgorithm::DotProduct);
    q.context_filter = vec!["beta".to_string()];
    let c = db.search_candidates(&q, NOW);
    assert_eq!(c.len(), 1);
    assert_eq!(c[0].capsule_id, "t2");
    assert_eq!(c[0].context_match, SCALE);
    let mut q2 = query(vec![SCALE], SearchAlgorithm::EuclideanDistance);
    q2.time_range = Some((0, 2_000));
    let c2 = db.search_candidates(&q2, NOW);
    assert_eq!(c2.len(), 1);
    assert_eq!(c2[0].capsule_id, "t1");
    let mut q3 = query(vec![SCALE], SearchAlgorithm::CosineSimilarity);
    q3.quality_threshold = SCALE;
    assert_eq!(db.search_candidates(&q3, NOW).len(), 0);
}

#[test]
fn malformed_query_yields_nothing() {
    let mut db = VectorMemoryDatabase::new(0);
    db.store_memory_capsule(&capsule("t1", vec![SCALE], 1_000, &["alpha"]), "r".to_string());
    let q = query(vec![i64::MAX], SearchAlgorithm::CosineSimilarity);
    assert_eq!(db.search_candidates(&q, NOW).len(), 0);
}

#[test]
fn quality_formula_values() {
    let mut c = capsule("q", vec![SCALE], 0, &["a", "b", "c", "d"]);
    c.adaptation_summary.threshold_adaptations = 2;
    c.adaptation_summary.weight_changes = -200_000;
    // 0.3 * 0.5 + 0.3 * 0.5 + 0.1 + 0.2 = 0.6
    assert_eq!(calculate_enhanced_quality_score(&c), 600_000);
    c.compressed_data = vec![0u8; 10];
    assert_eq!(calculate_enhanced_quality_score(&c), 540_000);
    c.importance_score = 5 * SCALE;
    // clamped to one, then the size penalty
    assert_eq!(calculate_enhanced_quality_score(&c), 900_000);
}

#[test]
fn quality_always_within_unit_range() {
    for nov in [0, 250_000, SCALE] {
        for imp in [0, SCALE, 100 * SCALE] {
            let mut c = capsule("q", vec![SCALE], 0, &["a", "b", "c", "d", "e"]);
            c.novelty_score = nov;
            c.importance_score = imp;
            c.adaptation_summary.timer_adaptations = 1;
            let q = calculate_enhanced_quality_score(&c);
            assert!((0..=SCALE).contains(&q));
        }
    }
}

#[test]
fn metadata_features() {
    let mut c = capsule("m", vec![SCALE], 0, &["a", "b"]);
    c.privacy_level = PrivacyLevel::Behavioral;
    assert_eq!(generate_metadata_vector(&c), vec![50_000, 200_000, 500_000, 500_000, 500_000]);
}

#[test]
fn embedding_copies_context_and_pads() {
    let c = capsule("e", vec![SCALE], 0, &[]);
    let jitter = vec![0i64; 7];
    let e = generate_semantic_embedding(&c, &jitter);
    assert_eq!(e.len(), 128);
    // raw slots: context 1.0, novelty 0.5, importance 0.5; integer root of 1.5e12 is 1224744
    assert_eq!(e[0], 816_497);
    assert_eq!(e[117], 408_248);
    assert_eq!(e[16], 0);
}

#[test]
fn embedding_encodes_tag_bytes() {
    let c = capsule("e", vec![], 0, &["ab"]);
    let e = generate_semantic_embedding(&c, &vec![0i64; 7]);
    // hash("ab") = 97 * 31 + 98 = 3105; 105 / 1000 in slot 16
    let raw = [105_000i64, 380_392, 384_313, 500_000, 500_000];
    let norm = raw.iter().map(|x| (*x as f64) * (*x as f64)).sum::<f64>().sqrt().floor() as i64;
    assert_eq!(e[16], raw[0] * SCALE / norm);
    assert_eq!(e[17], raw[1] * SCALE / norm);
    assert_eq!(e[18], raw[2] * SCALE / norm);
}

#[test]
fn stored_embedding_uses_drawn_padding() {
    let mut db = VectorMemoryDatabase::new(0);
    db.store_memory_capsule(&capsule("p", vec![SCALE], 0, &[]), "r".to_string());
    let e = db.get_entry(&"p".to_string()).unwrap();
    assert_eq!(e.embedding_vector.len(), 128);
    assert!(e.embedding_vector[121..].iter().all(|x| (0..10_000).contains(x)));
}

#[test]
fn restoring_an_id_replaces_the_entry() {
    let mut db = VectorMemoryDatabase::new(0);
    db.store_memory_capsule(&capsule("d", vec![SCALE], 0, &["a"]), "r1".to_string());
    db.store_memory_capsule(&capsule("d", vec![SCALE], 7, &["b"]), "r2".to_string());
    assert_eq!(db.get_vector_count(), 1);
    assert_eq!(db.get_temporal_entry_count(), 1);
    assert_eq!(db.get_entry(&"d".to_string()).unwrap().timestamp, 7);
    assert_eq!(db.get_average_vector_dimension(), 128);
}

#[test]
fn trends_report_counts() {
    let mut db = VectorMemoryDatabase::new(0);
    db.store_memory_capsule(&capsule("a", vec![SCALE], 0, &["x", "y"]), "r".to_string());
    db.store_memory_capsule(&capsule("b", vec![SCALE], DAY_MS + 5, &["x"]), "r".to_string());
    let t = db.get_memory_trends();
    assert_eq!(t.total_capsules, 2);
    assert_eq!(t.total_memory_size, 1000);
    assert_eq!(t.average_quality, 300_000);
    assert_eq!(t.quality_distribution[3], 2);
    assert_eq!(t.blockchain_verification_rate, SCALE);
    assert_eq!(t.semantic_cluster_distribution.len(), 2);
    assert!(t.temporal_distribution.contains(&(0, 1)));
    assert!(t.temporal_distribution.contains(&(1, 1)));
    assert_eq!(t.most_accessed_capsules.len(), 2);
}

#[test]
fn malformed_capsule_is_not_stored() {
    let mut db = VectorMemoryDatabase::new(0);
    let mut c = capsule("z", vec![SCALE], 0, &[]);
    c.novelty_score = -1;
    assert!(!db.store_memory_capsule(&c, "r".to_string()));
    assert_eq!(db.get_vector_count(), 0);
}

fn cand(id: &str, sim: i64) -> SearchCandidate {
    SearchCandidate {
        capsule_id: id.to_string(),
        similarity_score: sim,
        quality_score: 500_000,
        context_match: SCALE,
        age_ms: 0,
        blockchain_verified: true,
    }
}

#[test]
fn equal_relevance_orders_by_capsule_id() {
    let mut db = VectorMemoryDatabase::new(0);
    let cands = vec![cand("x", 100_000), cand("y", 900_000), cand("z", 100_000), cand("w", 100_000)];
    let rec = vec![SCALE; 4];
    let res = db.rank_search_results(&cands, &rec, 10, NOW);
    let ids: Vec<&str> = res.iter().map(|r| r.capsule_id.as_str()).collect();
    assert_eq!(ids, vec!["y", "w", "x", "z"]);
    // 0.5 * 0.9 + 0.3 * 0.5 + 0.1 + 0.1
    assert_eq!(res[0].relevance_score, 800_000);
    assert_eq!(db.rank_search_results(&cands, &rec, 2, NOW).len(), 2);
}

#[test]
fn tag_filter_counts_share_of_filter_tags() {
    let mut db = VectorMemoryDatabase::new(0);
    db.store_memory_capsule(&capsule("none", vec![SCALE], 1_000, &[]), "r".to_string());
    db.store_memory_capsule(&capsule("many", vec![SCALE], 1_000, &["a", "c", "d", "e"]), "r".to_string());
    let mut q = query(vec![SCALE], SearchAlgorithm::CosineSimilarity);
    q.context_filter = vec!["a".to_string(), "b".to_string()];
    let c = db.search_candidates(&q, NOW);
    assert_eq!(c.len(), 1);
    assert_eq!(c[0].capsule_id, "many");
    assert_eq!(c[0].context_match, 500_000);
    q.context_filter = vec!["a".to_string()];
    let only = db.search_candidates(&q, NOW);
    assert_eq!(only.len(), 1);
    assert_eq!(only[0].context_match, SCALE);
}
