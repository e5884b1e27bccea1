use capsule_memory::capsule::{AdaptationSummary, MemoryCapsule, PrivacyLevel};
use capsule_memory::ledger::{validate_blocks, BlockchainLedger, BorrowingStatus, LeaseError, TransactionType};
use capsule_memory::numeric::SCALE;

fn capsule(id: &str, novelty: i64, importance: i64, tags: &[&str]) -> MemoryCapsule {
    MemoryCapsule {
        capsule_id: id.to_string(),
        timestamp: 1_000,
        cluster_id: "c1".to_string(),
        privacy_level: PrivacyLevel::Public,
        context_vector: vec![SCALE, 0, 0, 0, 0, 0, 0, 0, 0, 0, 0, 0, 0, 0, 0, 0],
        semantic_tags: tags.iter().map(|t| t.to_string()).collect(),
        adaptation_summary: AdaptationSummary {
            threshold_adaptations: 0,
            timer_adaptations: 0,
            weight_changes: 0,
            error_magnitude: 0,
            learning_rate_changes: 0,
        },
        compressed_data: vec![0u8; 500],
        novelty_score: novelty,
        importance_score: importance,
    }
}

fn s(x: &str) -> String {
    x.to_string()
}

#[test]
fn upload_credits_quality_times_novelty() {
    let mut l = BlockchainLedger::new(0);
    assert!(l.register_device(s("d1"), 10 * SCALE, 1));
    let c = capsule("cap1", 900_000, 900_000, &["a", "b", "c", "d"]);
    let id = l.register_memory_capsule(&c, s("d1"), 2);
    assert_eq!(id, Some(s("cap1")));
    // quality: 0.5 + 0.2 + 0.2 + 0.1 = 1.0; incentive 1.0 * 1.0 * 0.9
    let rec = l.get_memory_record(&s("cap1")).unwrap();
    assert_eq!(rec.quality_score, SCALE);
    assert!(rec.quality_score >= 900_000);
    assert_eq!(rec.incentive_earned, 900_000);
    assert_eq!(l.get_account_balance(&s("d1")), 10 * SCALE + 900_000);
    let last = l.pending_transactions().last().unwrap();
    assert_eq!(last.tx_type, TransactionType::MemoryUpload);
    assert_eq!(last.amount, 900_000);
}

#[test]
fn upload_quality_base_only() {
    let mut l = BlockchainLedger::new(0);
    let c = capsule("cap2", 500_000, 100_000, &["a"]);
    l.register_memory_capsule(&c, s("u"), 1);
    let rec = l.get_memory_record(&s("cap2")).unwrap();
    assert_eq!(rec.quality_score, 500_000);
    assert_eq!(rec.incentive_earned, 250_000);
    assert_eq!(l.get_account_balance(&s("u")), 250_000);
}

#[test]
fn malformed_capsule_is_rejected_without_change() {
    let mut l = BlockchainLedger::new(0);
    let c = capsule("bad", 2 * SCALE, 0, &[]);
    assert_eq!(l.register_memory_capsule(&c, s("u"), 1), None);
    assert!(l.get_memory_record(&s("bad")).is_none());
    assert_eq!(l.get_blockchain_stats().pending_transactions, 0);
}

#[test]
fn lease_with_insufficient_balance_fails() {
    let mut l = BlockchainLedger::new(0);
    l.register_device(s("b"), 3 * SCALE, 1);
    // cost 5 credits: duration of 10 units at half a credit each
    let r = l.request_node_borrowing(s("b"), s("o"), s("n1"), 10 * SCALE as u64, 2);
    assert_eq!(r, Err(LeaseError::InsufficientCredits));
    assert_eq!(l.get_account_balance(&s("b")), 3 * SCALE);
    assert_eq!(l.get_blockchain_stats().total_borrowing_records, 0);
}

#[test]
fn lease_denied_at_one_credit() {
    let mut l = BlockchainLedger::new(0);
    l.register_device(s("b"), SCALE, 1);
    let r = l.request_node_borrowing(s("b"), s("o"), s("n1"), 1_000_000, 2);
    assert_eq!(r, Err(LeaseError::PermissionDenied));
    assert_eq!(l.get_account_balance(&s("b")), SCALE);
}

#[test]
fn lease_approved_moves_credits_and_bonus_on_completion() {
    let mut l = BlockchainLedger::new(0);
    l.register_device(s("b"), 10 * SCALE, 1);
    let id = l.request_node_borrowing(s("b"), s("o"), s("n1"), 4 * SCALE as u64, 2).unwrap();
    assert_eq!(l.get_account_balance(&s("b")), 8 * SCALE);
    assert_eq!(l.get_account_balance(&s("o")), 2 * SCALE);
    let rec = l.get_borrowing_record(id).unwrap();
    assert_eq!(rec.status, BorrowingStatus::Approved);
    assert_eq!(rec.cost, 2 * SCALE);
    assert!(l.complete_node_borrowing(id, vec![(s("latency"), 900_000), (s("uptime"), 950_000)], 3));
    assert_eq!(l.get_borrowing_record(id).unwrap().status, BorrowingStatus::Completed);
    assert_eq!(l.get_account_balance(&s("b")), 8 * SCALE + 200_000);
}

#[test]
fn completion_without_good_metrics_gives_no_bonus() {
    let mut l = BlockchainLedger::new(0);
    l.register_device(s("b"), 10 * SCALE, 1);
    let id = l.request_node_borrowing(s("b"), s("o"), s("n1"), 4 * SCALE as u64, 2).unwrap();
    assert!(l.complete_node_borrowing(id, vec![(s("m"), 800_000)], 3));
    assert_eq!(l.get_account_balance(&s("b")), 8 * SCALE);
    assert!(l.complete_node_borrowing(id, vec![], 4));
    assert_eq!(l.get_account_balance(&s("b")), 8 * SCALE);
}

#[test]
fn unknown_lease_completion_fails() {
    let mut l = BlockchainLedger::new(0);
    assert!(!l.complete_node_borrowing(42, vec![], 1));
}

#[test]
fn reregistration_resets_balance() {
    let mut l = BlockchainLedger::new(0);
    l.register_device(s("d"), 10 * SCALE, 1);
    l.register_device(s("d"), 4 * SCALE, 2);
    assert_eq!(l.get_account_balance(&s("d")), 4 * SCALE);
    assert_eq!(l.get_blockchain_stats().total_accounts, 1);
}

#[test]
fn mining_empty_pool_is_a_no_op() {
    let mut l = BlockchainLedger::new(0);
    assert_eq!(l.mine_block(5), None);
    assert_eq!(l.get_blockchain_stats().total_blocks, 1);
}

#[test]
fn chain_stays_valid_under_interleaved_mining() {
    let mut l = BlockchainLedger::new(0);
    l.register_device(s("a"), 10 * SCALE, 1);
    assert!(l.mine_block(2).is_some());
    l.register_memory_capsule(&capsule("c", 800_000, 900_000, &["x"]), s("a"), 3);
    l.request_node_borrowing(s("a"), s("b"), s("n"), 2 * SCALE as u64, 4).unwrap();
    assert!(l.mine_block(5).is_some());
    assert!(l.mine_block(6).is_none());
    l.register_device(s("z"), 1, 7);
    let h = l.mine_block(8).unwrap();
    assert!(l.validate_chain());
    let stats = l.get_blockchain_stats();
    assert_eq!(stats.total_blocks, 4);
    assert_eq!(stats.total_transactions, 4);
    assert_eq!(stats.pending_transactions, 0);
    assert_eq!(stats.total_smart_contracts, 3);
    let blocks = l.blocks();
    assert_eq!(blocks[3].hash, h);
    assert_eq!(blocks[3].index, 3);
    assert_eq!(blocks[3].previous_hash, blocks[2].hash);
}

#[test]
fn corrupted_link_is_detected() {
    let mut l = BlockchainLedger::new(0);
    l.register_device(s("a"), SCALE, 1);
    l.mine_block(2);
    l.register_device(s("b"), SCALE, 3);
    l.mine_block(4);
    let mut blocks = l.blocks().clone();
    assert!(validate_blocks(&blocks));
    blocks[2].previous_hash = blocks[2].previous_hash.wrapping_add(1);
    assert!(!validate_blocks(&blocks));
}

#[test]
fn block_seal_is_filler_in_range() {
    let mut l = BlockchainLedger::new(0);
    l.register_device(s("a"), SCALE, 1);
    l.mine_block(2);
    let seal = l.blocks()[1].nonce;
    assert!((1000..9999).contains(&seal));
}

#[test]
fn transaction_ids_are_drawn_fresh() {
    let mut l = BlockchainLedger::new(0);
    l.register_device(s("a"), SCALE, 1);
    l.register_device(s("b"), SCALE, 1);
    let p = l.pending_transactions();
    assert_ne!(p[0].tx_id, p[1].tx_id);
}

#[test]
fn lease_ids_are_fresh_and_records_name_capsules() {
    let mut l = BlockchainLedger::new(0);
    l.register_device(s("b"), 10 * SCALE, 1);
    let a = l.request_node_borrowing(s("b"), s("o"), s("n1"), SCALE as u64, 2).unwrap();
    let b = l.request_node_borrowing(s("b"), s("o"), s("n2"), SCALE as u64, 3).unwrap();
    assert_ne!(a, b);
    assert_eq!(l.get_borrowing_record(a).unwrap().node_id, "n1");
    assert_eq!(l.get_borrowing_record(b).unwrap().node_id, "n2");
    l.register_memory_capsule(&capsule("cap9", 900_000, 900_000, &["a", "b", "c", "d"]), s("b"), 4);
    assert_eq!(l.get_memory_record(&s("cap9")).unwrap().capsule_id, "cap9");
}

#[test]
fn provenance_hash_covers_scores() {
    let mut l = BlockchainLedger::new(0);
    l.register_memory_capsule(&capsule("h1", 900_000, 900_000, &["a"]), s("u"), 1);
    let first = l.get_memory_record(&s("h1")).unwrap().hash;
    l.register_memory_capsule(&capsule("h1", 800_000, 900_000, &["a"]), s("u"), 2);
    let second = l.get_memory_record(&s("h1")).unwrap().hash;
    l.register_memory_capsule(&capsule("h1", 800_000, 900_000, &["b"]), s("u"), 3);
    let third = l.get_memory_record(&s("h1")).unwrap().hash;
    assert_ne!(first, second);
    assert_ne!(second, third);
}
