use capsule_memory::capsule::PrivacyLevel;
use capsule_memory::consolidator::{classify_privacy, ClusterMemory};
use capsule_memory::numeric::SCALE;
use capsule_memory::telemetry::NodeMemory;

fn s(x: &str) -> String {
    x.to_string()
}

fn tags(t: &[&str]) -> Vec<String> {
    t.iter().map(|x| x.to_string()).collect()
}

#[test]
fn first_capsule_is_fully_novel() {
    let mut c = ClusterMemory::new(s("c1"));
    c.add_node_memory(s("n1"), 10);
    c.update_node_memory(&s("n1"), 500_000, -200_000, 100_000, 0);
    let cap = c.create_memory_capsule(120, vec![1, 2, 3]).unwrap();
    assert_eq!(cap.novelty_score, SCALE);
    assert_eq!(cap.capsule_id, "c1_120");
    assert_eq!(cap.timestamp, 120);
    assert_eq!(cap.compressed_data, vec![1, 2, 3]);
}

#[test]
fn empty_telemetry_yields_zero_capsule() {
    let mut c = ClusterMemory::new(s("c"));
    let cap = c.create_memory_capsule(61, vec![]).unwrap();
    assert_eq!(cap.context_vector, vec![0i64; 16]);
    assert_eq!(cap.importance_score, 0);
    assert_eq!(cap.adaptation_summary.error_magnitude, 0);
    assert!(cap.semantic_tags.is_empty());
    assert_eq!(cap.privacy_level, PrivacyLevel::Public);
}

#[test]
fn consolidation_due_by_time_or_backpressure() {
    let mut c = ClusterMemory::new(s("c"));
    assert!(!c.should_consolidate(60));
    assert!(c.should_consolidate(61));
    c.add_node_memory(s("n"), 4);
    for _ in 0..3 {
        c.update_node_memory(&s("n"), 1, 1, 1, 1);
    }
    assert!(c.should_consolidate(0));
    assert!(c.create_memory_capsule(0, vec![]).is_some());
    assert!(c.create_memory_capsule(30, vec![]).is_some());
    let mut quiet = ClusterMemory::new(s("q"));
    quiet.add_node_memory(s("n"), 100);
    quiet.update_node_memory(&s("n"), 1, 1, 1, 1);
    assert!(quiet.create_memory_capsule(10, vec![]).is_none());
}

#[test]
fn context_means_and_importance() {
    let mut c = ClusterMemory::new(s("c"));
    c.add_node_memory(s("n1"), 10);
    c.update_node_memory(&s("n1"), 300_000, -400_000, 0, 0);
    c.update_node_memory(&s("n1"), 300_000, -400_000, 0, 0);
    c.add_node_tag(&s("n1"), s("zeta"));
    c.add_node_tag(&s("n1"), s("alpha"));
    c.add_node_tag(&s("n1"), s("zeta"));
    let cap = c.create_memory_capsule(100, vec![]).unwrap();
    // means (0.3, -0.4) normalize to (0.6, -0.8)
    assert_eq!(cap.context_vector[0], 600_000);
    assert_eq!(cap.context_vector[1], -800_000);
    assert_eq!(cap.adaptation_summary.error_magnitude, 400_000);
    assert_eq!(cap.semantic_tags, tags(&["alpha", "zeta"]));
    // 0.4 + 0.1 * 2
    assert_eq!(cap.importance_score, 600_000);
}

#[test]
fn tags_merged_sorted_without_duplicates() {
    let mut c = ClusterMemory::new(s("c"));
    c.add_node_memory(s("a"), 10);
    c.add_node_memory(s("b"), 10);
    c.update_node_memory(&s("a"), 1, 1, 1, 1);
    c.update_node_memory(&s("b"), 1, 1, 1, 1);
    c.add_node_tag(&s("a"), s("motion"));
    c.add_node_tag(&s("a"), s("audio"));
    c.add_node_tag(&s("b"), s("audio"));
    c.add_node_tag(&s("b"), s("ab"));
    let cap = c.create_memory_capsule(100, vec![]).unwrap();
    assert_eq!(cap.semantic_tags, tags(&["ab", "audio", "motion"]));
}

#[test]
fn novelty_relative_to_recent_capsules() {
    let mut c = ClusterMemory::new(s("c"));
    c.add_node_memory(s("n"), 10);
    c.update_node_memory(&s("n"), SCALE, 0, 0, 0);
    let first = c.create_memory_capsule(100, vec![]).unwrap();
    assert_eq!(first.novelty_score, SCALE);
    let second = c.create_memory_capsule(200, vec![]).unwrap();
    assert_eq!(second.novelty_score, 0);
    assert_eq!(c.get_latest_capsule().unwrap().capsule_id, "c_200");
    let ids = c.query_similar_capsules(&vec![SCALE], 1);
    assert_eq!(ids.len(), 1);
}

#[test]
fn privacy_first_match_wins() {
    assert_eq!(classify_privacy(&tags(&["my_private_notes", "behavior"])), PrivacyLevel::Personal);
    assert_eq!(classify_privacy(&tags(&["personal"])), PrivacyLevel::Personal);
    assert_eq!(classify_privacy(&tags(&["sleep_pattern"])), PrivacyLevel::Behavioral);
    assert_eq!(classify_privacy(&tags(&["behavioral"])), PrivacyLevel::Behavioral);
    assert_eq!(classify_privacy(&tags(&["weather", "priv"])), PrivacyLevel::Public);
    assert_eq!(classify_privacy(&tags(&[])), PrivacyLevel::Public);
}

#[test]
fn node_history_is_bounded() {
    let mut n = NodeMemory::new(s("n"), 3);
    for i in 0..5 {
        n.store_activation(i, -i, 2 * i, 3 * i);
    }
    assert_eq!(n.activations, vec![2, 3, 4]);
    assert_eq!(n.errors, vec![-2, -3, -4]);
    assert_eq!(n.eligibility_history, vec![4, 6, 8]);
    assert_eq!(n.threshold_history, vec![6, 9, 12]);
    n.add_context_tag(s("a"));
    n.add_context_tag(s("a"));
    assert_eq!(n.context_tags, tags(&["a"]));
    for t in 0..4 {
        n.add_event(t, s("fire"));
    }
    assert_eq!(n.timer_events.len(), 3);
    assert_eq!(n.timer_events[0].0, 1);
}

#[test]
fn buffer_keeps_last_hundred() {
    let mut c = ClusterMemory::new(s("c"));
    for i in 1..=105u64 {
        assert!(c.create_memory_capsule(i * 100, vec![]).is_some());
    }
    assert_eq!(c.get_latest_capsule().unwrap().capsule_id, "c_10500");
    let ids = c.query_similar_capsules(&vec![0], 200);
    assert_eq!(ids.len(), 100);
}

#[test]
fn backpressure_fires_at_three_quarters() {
    let mut c = ClusterMemory::new(s("c"));
    c.add_node_memory(s("n"), 5);
    for _ in 0..3 {
        c.update_node_memory(&s("n"), 1, 1, 1, 1);
    }
    assert!(!c.should_consolidate(10));
    c.update_node_memory(&s("n"), 1, 1, 1, 1);
    assert!(c.should_consolidate(10));
}
