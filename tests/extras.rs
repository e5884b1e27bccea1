use capsule_memory::capsule::{compress_data, decompress_data, AdaptationSummary, MemoryCapsule, PrivacyLevel};
use capsule_memory::ledger::BlockchainLedger;
use capsule_memory::pipeline::register_and_store;
use capsule_memory::vector_store::VectorMemoryDatabase;
use capsule_memory::features::{calculate_novelty_score, generate_context_vector};
use capsule_memory::global_memory::GlobalMemory;
use capsule_memory::numeric::SCALE;
use capsule_memory::text::apply_semantic_mask;

fn capsule(id: &str, cluster: &str, novelty: i64, importance: i64, tags: &[&str]) -> MemoryCapsule {
    MemoryCapsule {
        capsule_id: id.to_string(),
        timestamp: 5,
        cluster_id: cluster.to_string(),
        privacy_level: PrivacyLevel::Public,
        context_vector: vec![SCALE],
        semantic_tags: tags.iter().map(|t| t.to_string()).collect(),
        adaptation_summary: AdaptationSummary {
            threshold_adaptations: 0,
            timer_adaptations: 0,
            weight_changes: 0,
            error_magnitude: 0,
            learning_rate_changes: 0,
        },
        compressed_data: vec![],
        novelty_score: novelty,
        importance_score: importance,
    }
}

#[test]
fn global_index_counts_and_scores() {
    let mut g = GlobalMemory::new();
    assert!(g.store_capsule(capsule("a", "c1", 500_000, 2 * SCALE, &["x", "y"])));
    assert!(g.store_capsule(capsule("b", "c1", SCALE, 300_000, &["y"])));
    assert!(g.store_capsule(capsule("c", "c2", SCALE, SCALE, &["z"])));
    assert_eq!(g.get_total_capsules(), 3);
    assert_eq!(g.get_device_incentive_score(&"c1".to_string()), SCALE + 300_000);
    assert_eq!(g.get_device_incentive_score(&"c2".to_string()), SCALE);
    assert_eq!(g.get_device_incentive_score(&"c3".to_string()), 0);
    let ids = g.query_capsules_by_tags(&vec!["y".to_string(), "z".to_string()]);
    assert_eq!(ids, vec!["a".to_string(), "b".to_string(), "c".to_string()]);
    assert!(g.get_capsule(&"b".to_string()).is_some());
}

#[test]
fn global_index_rejects_malformed() {
    let mut g = GlobalMemory::new();
    assert!(!g.store_capsule(capsule("a", "c1", -5, 0, &[])));
    assert_eq!(g.get_total_capsules(), 0);
}

#[test]
fn context_vector_statistics() {
    let a = vec![SCALE, 3 * SCALE];
    let v = generate_context_vector(&a, &vec![], &vec![]);
    // mean 2, max 3, min 1, variance 1: norm sqrt(15)
    let raw = [2.0f64, 3.0, 1.0, 1.0];
    let norm = (15.0f64).sqrt();
    for (k, x) in raw.iter().enumerate() {
        let want = (x / norm * 1e6) as i64;
        assert!((v[k] - want).abs() <= 1);
    }
    assert!(v[4..].iter().all(|x| *x == 0));
    let t = generate_context_vector(&vec![], &vec![], &vec![0, 10, 30]);
    // gaps 10 and 20: mean 15, max 20, min 10
    assert!(t[8] > t[7] && t[7] > t[9] && t[9] > 0);
}

#[test]
fn pattern_novelty_scaling() {
    let p = vec![SCALE, 0];
    assert_eq!(calculate_novelty_score(&p, &vec![], 2 * SCALE), SCALE);
    let hist = vec![vec![SCALE, 0], vec![0, 0]];
    assert_eq!(calculate_novelty_score(&p, &hist, 2 * SCALE), 0);
    let far = vec![vec![0, 0]];
    assert_eq!(calculate_novelty_score(&p, &far, 2 * SCALE), 500_000);
    assert_eq!(calculate_novelty_score(&p, &far, SCALE / 2), SCALE);
}

#[test]
fn email_masking() {
    assert_eq!(apply_semantic_mask("contact me at bob@example.com"), "contact me at bob[EMAIL]");
    assert_eq!(apply_semantic_mask("no address here"), "no address here");
    assert_eq!(apply_semantic_mask("a@b@c"), "a[EMAIL]");
}

#[test]
fn capsule_flows_into_ledger_and_store() {
    let mut ledger = BlockchainLedger::new(0);
    let mut store = VectorMemoryDatabase::new(0);
    let c = capsule("k1", "c1", SCALE, SCALE, &["x"]);
    assert!(register_and_store(&mut ledger, &mut store, &c, "dev".to_string(), 9));
    assert!(ledger.get_memory_record(&"k1".to_string()).is_some());
    assert!(store.get_entry(&"k1".to_string()).is_some());
    assert_eq!(store.calculate_blockchain_verification_rate(), SCALE);
    let bad = capsule("k2", "c1", 2 * SCALE, 0, &[]);
    assert!(!register_and_store(&mut ledger, &mut store, &bad, "dev".to_string(), 9));
    assert_eq!(store.get_vector_count(), 1);
}

#[test]
fn payload_packing_is_identity() {
    let d = vec![1u8, 2, 3];
    assert_eq!(decompress_data(&compress_data(&d)), d);
}
