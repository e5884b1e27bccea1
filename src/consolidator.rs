//! The capsule consolidator: decides when to distill the telemetry of a
//! cluster's units into a memory capsule, and scores the capsule's novelty,
//! importance and privacy.
use vstd::prelude::*;
use crate::capsule::{AdaptationSummary, MemoryCapsule, PrivacyLevel};
use crate::numeric::{SCALE, LIMIT, abs, div_trunc, min, bytes_of};
use crate::telemetry::NodeMemory;
use crate::text::{lex_lt, contains_bytes, find_bytes, bytes_less, decimal, push_decimal};
use crate::keyed::{unique_keys, lookup, lemma_lookup_at, lemma_lookup_update, lemma_lookup_push, lemma_lookup_absent};
use crate::vector_math::{bounded_by, distance_spec, euclidean_distance, normalized, normalize_vector};

verus! {

/// Dimension of a capsule's context vector.
pub const CONTEXT_DIM: usize = 16;

/// Capsules kept for novelty comparison.
pub const BUFFER_CAPACITY: usize = 100;

/// Time after which a consolidation is due regardless of backpressure.
pub const CONSOLIDATION_INTERVAL: u64 = 60;

/// Divisor that turns the distance to the nearest recent capsule into
/// novelty.
pub const NOVELTY_DIVISOR: i64 = 2;

/// Running sums saturate at this magnitude.
pub const SUM_LIMIT: i128 = 0x10_0000_0000_0000_0000_0000_0000;

// ------------------------------------------------------------ aggregation

pub open spec fn sat_sum(a: int) -> int {
    if a > SUM_LIMIT {
        SUM_LIMIT as int
    } else if a < -SUM_LIMIT {
        -SUM_LIMIT
    } else {
        a
    }
}

pub open spec fn clamp_limit(a: int) -> int {
    if a > LIMIT {
        LIMIT as int
    } else if a < -LIMIT {
        -LIMIT
    } else {
        a
    }
}

pub open spec fn seq_sum(v: Seq<i64>) -> int
    decreases v.len(),
{
    if v.len() == 0 {
        0
    } else {
        seq_sum(v.drop_last()) + v.last()
    }
}

/// The mean of a history, rounded toward zero; zero when empty.
pub open spec fn mean(v: Seq<i64>) -> int {
    if v.len() == 0 {
        0
    } else {
        div_trunc(seq_sum(v), v.len() as int)
    }
}

/// A unit contributes to a capsule when its activation history is not
/// empty.
pub open spec fn active(n: NodeMemory) -> bool {
    n.activations@.len() > 0
}

/// The per-unit feature summed into context slot `k`: mean activation,
/// mean error, summed eligibility; and, for `k == 3`, the error magnitude.
pub open spec fn feature(n: NodeMemory, k: int) -> int {
    if k == 0 {
        mean(n.activations@)
    } else if k == 1 {
        mean(n.errors@)
    } else if k == 2 {
        sat_sum(seq_sum(n.eligibility_history@))
    } else {
        abs(mean(n.errors@))
    }
}

/// Feature `k` summed over the active units (each step saturating).
pub open spec fn feature_total(ns: Seq<NodeMemory>, k: int) -> int
    decreases ns.len(),
{
    if ns.len() == 0 {
        0
    } else if active(ns.last()) {
        sat_sum(feature_total(ns.drop_last(), k) + feature(ns.last(), k))
    } else {
        feature_total(ns.drop_last(), k)
    }
}

/// The context vector before normalization: sixteen slots, the first
/// three holding the summed features.
pub open spec fn raw_context(ns: Seq<NodeMemory>) -> Seq<i64> {
    Seq::new(
        CONTEXT_DIM as nat,
        |i: int|
            if i < 3 {
                clamp_limit(feature_total(ns, i)) as i64
            } else {
                0i64
            },
    )
}

pub open spec fn error_magnitude_of(ns: Seq<NodeMemory>) -> int {
    clamp_limit(feature_total(ns, 3))
}

/// The tags of the active units.
pub open spec fn tag_set(ns: Seq<NodeMemory>) -> Set<Seq<char>>
    decreases ns.len(),
{
    if ns.len() == 0 {
        Set::empty()
    } else if active(ns.last()) {
        tag_set(ns.drop_last()).union(
            Set::new(|t: Seq<char>| exists|m: int| 0 <= m < ns.last().context_tags@.len() && (#[trigger] ns.last().context_tags@[m])@ == t),
        )
    } else {
        tag_set(ns.drop_last())
    }
}

/// Strictly ascending in byte order (hence free of duplicates).
pub open spec fn strictly_sorted(v: Seq<String>) -> bool {
    forall|i: int, j: int| 0 <= i < j < v.len() ==> lex_lt(bytes_of((#[trigger] v[i])@), bytes_of((#[trigger] v[j])@))
}

pub open spec fn view_set(v: Seq<String>) -> Set<Seq<char>> {
    Set::new(|t: Seq<char>| exists|m: int| 0 <= m < v.len() && (#[trigger] v[m])@ == t)
}

// ---------------------------------------------------------------- privacy

pub open spec fn personal_bytes() -> Seq<u8> {
    seq![112u8, 101, 114, 115, 111, 110, 97, 108]
}

pub open spec fn private_bytes() -> Seq<u8> {
    seq![112u8, 114, 105, 118, 97, 116, 101]
}

pub open spec fn behavior_bytes() -> Seq<u8> {
    seq![98u8, 101, 104, 97, 118, 105, 111, 114]
}

pub open spec fn pattern_bytes() -> Seq<u8> {
    seq![112u8, 97, 116, 116, 101, 114, 110]
}

pub open spec fn any_contains(tags: Seq<String>, needle: Seq<u8>) -> bool {
    exists|m: int| 0 <= m < tags.len() && contains_bytes(bytes_of((#[trigger] tags[m])@), needle)
}

/// `Personal` when a tag contains "personal" or "private"; otherwise
/// `Behavioral` when one contains "behavior" or "pattern"; otherwise
/// `Public`.
pub open spec fn privacy_of(tags: Seq<String>) -> PrivacyLevel {
    if any_contains(tags, personal_bytes()) || any_contains(tags, private_bytes()) {
        PrivacyLevel::Personal
    } else if any_contains(tags, behavior_bytes()) || any_contains(tags, pattern_bytes()) {
        PrivacyLevel::Behavioral
    } else {
        PrivacyLevel::Public
    }
}

fn tags_contain(tags: &Vec<String>, needle: &Vec<u8>) -> (r: bool)
    ensures
        r == any_contains(tags@, needle@),
{
    let mut i: usize = 0;
    while i < tags.len()
        invariant
            0 <= i <= tags@.len(),
            forall|m: int| 0 <= m < i ==> !contains_bytes(bytes_of((#[trigger] tags@[m])@), needle@),
        decreases tags@.len() - i,
    {
        if find_bytes(tags[i].as_str().as_bytes(), needle.as_slice()) {
            return true;
        }
        i += 1;
    }
    false
}

pub fn classify_privacy(tags: &Vec<String>) -> (r: PrivacyLevel)
    ensures
        r == privacy_of(tags@),
{
    let personal: Vec<u8> = vec![112u8, 101, 114, 115, 111, 110, 97, 108];
    let private: Vec<u8> = vec![112u8, 114, 105, 118, 97, 116, 101];
    let behavior: Vec<u8> = vec![98u8, 101, 104, 97, 118, 105, 111, 114];
    let pattern: Vec<u8> = vec![112u8, 97, 116, 116, 101, 114, 110];
    assert(personal@ == personal_bytes());
    assert(private@ == private_bytes());
    assert(behavior@ == behavior_bytes());
    assert(pattern@ == pattern_bytes());
    if tags_contain(tags, &personal) || tags_contain(tags, &private) {
        PrivacyLevel::Personal
    } else if tags_contain(tags, &behavior) || tags_contain(tags, &pattern) {
        PrivacyLevel::Behavioral
    } else {
        PrivacyLevel::Public
    }
}

// ------------------------------------------------------------------- tags

proof fn lemma_bytes_injective(a: Seq<char>, b: Seq<char>)
    requires
        bytes_of(a) == bytes_of(b),
    ensures
        a == b,
{
    vstd::utf8::encode_utf8_decode_utf8(a);
    vstd::utf8::encode_utf8_decode_utf8(b);
}

/// Inserts `t` into a strictly sorted list unless an equal tag is there.
fn insert_tag(v: &mut Vec<String>, t: &String)
    requires
        strictly_sorted(old(v)@),
    ensures
        strictly_sorted(final(v)@),
        view_set(final(v)@) == view_set(old(v)@).insert(t@),
{
    let tb = t.as_str().as_bytes();
    let mut p: usize = 0;
    while p < v.len() && bytes_less(v[p].as_str().as_bytes(), tb)
        invariant
            0 <= p <= v@.len(),
            v@ == old(v)@,
            tb@ == bytes_of(t@),
            forall|j: int| 0 <= j < p ==> lex_lt(bytes_of((#[trigger] v@[j])@), bytes_of(t@)),
        decreases v@.len() - p,
    {
        p += 1;
    }
    if p < v.len() && v[p] == *t {
        assert(view_set(v@) == view_set(v@).insert(t@)) by {
            assert(view_set(v@).contains(t@));
        }
        return;
    }
    let ghost v0 = v@;
    if p < v.len() {
        assert(lex_lt(bytes_of(t@), bytes_of(v0[p as int]@))) by {
            if bytes_of(t@) == bytes_of(v0[p as int]@) {
                lemma_bytes_injective(t@, v0[p as int]@);
            }
            lemma_lex_total_or_eq(bytes_of(t@), bytes_of(v0[p as int]@));
        }
    }
    v.insert(p, t.clone());
    assert forall|i: int, j: int| 0 <= i < j < v@.len() implies lex_lt(bytes_of((#[trigger] v@[i])@), bytes_of((#[trigger] v@[j])@)) by {
        if j < p {
            assert(v@[i] == v0[i] && v@[j] == v0[j]);
        } else if j == p {
            assert(v@[i] == v0[i]);
        } else if i == p {
            assert(v@[j] == v0[j - 1]);
            if j - 1 > p {
                crate::text::lemma_lex_transitive(bytes_of(t@), bytes_of(v0[p as int]@), bytes_of(v0[j - 1]@));
            }
        } else if i < p {
            assert(v@[i] == v0[i] && v@[j] == v0[j - 1]);
        } else {
            assert(v@[i] == v0[i - 1] && v@[j] == v0[j - 1]);
        }
    }
    assert(view_set(v@) == view_set(v0).insert(t@)) by {
        assert forall|x: Seq<char>| view_set(v@).contains(x) <==> view_set(v0).insert(t@).contains(x) by {
            if view_set(v@).contains(x) {
                let m = choose|m: int| 0 <= m < v@.len() && (#[trigger] v@[m])@ == x;
                if m < p {
                    assert(v@[m] == v0[m]);
                } else if m > p {
                    assert(v@[m] == v0[m - 1]);
                }
            }
            if view_set(v0).contains(x) {
                let m = choose|m: int| 0 <= m < v0.len() && (#[trigger] v0[m])@ == x;
                if m < p {
                    assert(v@[m] == v0[m]);
                } else {
                    assert(v@[m + 1] == v0[m]);
                }
            }
            if x == t@ {
                assert(v@[p as int]@ == t@);
            }
        }
    }
}

proof fn lemma_lex_total_or_eq(a: Seq<u8>, b: Seq<u8>)
    requires
        !lex_lt(b, a),
        a != b,
    ensures
        lex_lt(a, b),
{
    crate::text::lemma_lex_total(a, b);
}

} // verus!

verus! {

fn history_sum(v: &Vec<i64>) -> (r: i128)
    ensures
        r == seq_sum(v@),
{
    let n = v.len();
    let mut s: i128 = 0;
    let mut i: usize = 0;
    while i < n
        invariant
            0 <= i <= n,
            n == v@.len(),
            s == seq_sum(v@.subrange(0, i as int)),
            -(i as int) * 0x8000_0000_0000_0000 <= s <= (i as int) * 0x8000_0000_0000_0000,
        decreases n - i,
    {
        assert(v@.subrange(0, i as int + 1).drop_last() == v@.subrange(0, i as int));
        assert((i as int + 1) * 0x8000_0000_0000_0000 == (i as int) * 0x8000_0000_0000_0000
            + 0x8000_0000_0000_0000) by (nonlinear_arith);
        assert((i as int + 1) * 0x8000_0000_0000_0000 <= 0xFFFF_FFFF_FFFF_FFFF * 0x8000_0000_0000_0000) by (nonlinear_arith)
            requires i < 0xFFFF_FFFF_FFFF_FFFF;
        s = s + v[i] as i128;
        i += 1;
    }
    assert(v@.subrange(0, n as int) == v@);
    s
}

fn history_mean(v: &Vec<i64>) -> (r: i128)
    ensures
        r == mean(v@),
        -0x8000_0000_0000_0000 <= r <= 0x8000_0000_0000_0000,
{
    if v.len() == 0 {
        return 0;
    }
    let s = history_sum(v);
    proof {
        lemma_sum_bound(v@);
    }
    let n = v.len() as i128;
    let r = s / n;
    assert(-0x8000_0000_0000_0000 <= r <= 0x8000_0000_0000_0000) by (nonlinear_arith)
        requires
            -(n * 0x8000_0000_0000_0000) <= s <= n * 0x8000_0000_0000_0000,
            n >= 1,
            r == div_trunc(s as int, n as int),
    ;
    r
}

proof fn lemma_sum_bound(v: Seq<i64>)
    ensures
        -(v.len() * 0x8000_0000_0000_0000) <= seq_sum(v) <= v.len() * 0x8000_0000_0000_0000,
    decreases v.len(),
{
    if v.len() > 0 {
        lemma_sum_bound(v.drop_last());
        assert(v.len() * 0x8000_0000_0000_0000 == (v.len() - 1) * 0x8000_0000_0000_0000
            + 0x8000_0000_0000_0000) by (nonlinear_arith);
    }
}

fn sat_add_sum(a: i128, b: i128) -> (r: i128)
    requires
        -SUM_LIMIT <= a <= SUM_LIMIT,
        -SUM_LIMIT <= b <= SUM_LIMIT,
    ensures
        r == sat_sum(a + b),
        -SUM_LIMIT <= r <= SUM_LIMIT,
{
    let s = a + b;
    if s > SUM_LIMIT {
        SUM_LIMIT
    } else if s < -SUM_LIMIT {
        -SUM_LIMIT
    } else {
        s
    }
}

fn to_limit(a: i128) -> (r: i64)
    ensures
        r == clamp_limit(a as int),
{
    if a > LIMIT as i128 {
        LIMIT
    } else if a < -(LIMIT as i128) {
        -LIMIT
    } else {
        a as i64
    }
}

fn unit_feature(n: &NodeMemory, k: usize) -> (r: i128)
    requires
        k < 4,
    ensures
        r == feature(*n, k as int),
        -SUM_LIMIT <= r <= SUM_LIMIT,
{
    if k == 0 {
        history_mean(&n.activations)
    } else if k == 1 {
        history_mean(&n.errors)
    } else if k == 2 {
        let s = history_sum(&n.eligibility_history);
        if s > SUM_LIMIT {
            SUM_LIMIT
        } else if s < -SUM_LIMIT {
            -SUM_LIMIT
        } else {
            s
        }
    } else {
        let m = history_mean(&n.errors);
        if m < 0 {
            -m
        } else {
            m
        }
    }
}

fn total_feature(ns: &Vec<NodeMemory>, k: usize) -> (r: i128)
    requires
        k < 4,
    ensures
        r == feature_total(ns@, k as int),
        -SUM_LIMIT <= r <= SUM_LIMIT,
{
    let mut s: i128 = 0;
    let mut i: usize = 0;
    while i < ns.len()
        invariant
            0 <= i <= ns@.len(),
            k < 4,
            s == feature_total(ns@.subrange(0, i as int), k as int),
            -SUM_LIMIT <= s <= SUM_LIMIT,
        decreases ns@.len() - i,
    {
        assert(ns@.subrange(0, i as int + 1).drop_last() == ns@.subrange(0, i as int));
        if ns[i].activations.len() > 0 {
            let f = unit_feature(&ns[i], k);
            s = sat_add_sum(s, f);
        }
        i += 1;
    }
    assert(ns@.subrange(0, ns@.len() as int) == ns@);
    s
}

fn collect_tags(ns: &Vec<NodeMemory>) -> (r: Vec<String>)
    ensures
        strictly_sorted(r@),
        view_set(r@) == tag_set(ns@),
{
    let mut tags: Vec<String> = Vec::new();
    let mut i: usize = 0;
    assert(view_set(tags@) == Set::<Seq<char>>::empty());
    while i < ns.len()
        invariant
            0 <= i <= ns@.len(),
            strictly_sorted(tags@),
            view_set(tags@) == tag_set(ns@.subrange(0, i as int)),
        decreases ns@.len() - i,
    {
        let ghost sub = ns@.subrange(0, i as int + 1);
        assert(sub.drop_last() == ns@.subrange(0, i as int));
        assert(sub.last() == ns@[i as int]);
        let n = &ns[i];
        if n.activations.len() > 0 {
            let ghost before = view_set(tags@);
            let mut m: usize = 0;
            while m < n.context_tags.len()
                invariant
                    0 <= m <= n.context_tags@.len(),
                    strictly_sorted(tags@),
                    view_set(tags@) == before.union(view_set(n.context_tags@.subrange(0, m as int))),
                decreases n.context_tags@.len() - m,
            {
                let ghost pre = n.context_tags@.subrange(0, m as int);
                insert_tag(&mut tags, &n.context_tags[m]);
                assert(view_set(n.context_tags@.subrange(0, m as int + 1)) == view_set(pre).insert(n.context_tags@[m as int]@)) by {
                    let s1 = n.context_tags@.subrange(0, m as int + 1);
                    assert forall|x: Seq<char>| view_set(s1).contains(x) <==> view_set(pre).insert(n.context_tags@[m as int]@).contains(x) by {
                        if view_set(s1).contains(x) {
                            let j = choose|j: int| 0 <= j < s1.len() && (#[trigger] s1[j])@ == x;
                            if j < m {
                                assert(pre[j] == s1[j]);
                            }
                        }
                        if view_set(pre).contains(x) {
                            let j = choose|j: int| 0 <= j < pre.len() && (#[trigger] pre[j])@ == x;
                            assert(s1[j] == pre[j]);
                        }
                        if x == n.context_tags@[m as int]@ {
                            assert(s1[m as int] == n.context_tags@[m as int]);
                        }
                    }
                }
                m += 1;
            }
            assert(n.context_tags@.subrange(0, n.context_tags@.len() as int) == n.context_tags@);
            assert(view_set(n.context_tags@) == Set::new(|t: Seq<char>| exists|m: int| 0 <= m < n.context_tags@.len() && (#[trigger] n.context_tags@[m])@ == t));
        }
        i += 1;
    }
    assert(ns@.subrange(0, ns@.len() as int) == ns@);
    tags
}

} // verus!

verus! {

/// Two capsules hold the same values.
pub open spec fn same_capsule(a: MemoryCapsule, b: MemoryCapsule) -> bool {
    &&& a.capsule_id@ == b.capsule_id@
    &&& a.timestamp == b.timestamp
    &&& a.cluster_id@ == b.cluster_id@
    &&& a.privacy_level == b.privacy_level
    &&& a.context_vector@ == b.context_vector@
    &&& a.semantic_tags.deep_view() == b.semantic_tags.deep_view()
    &&& a.adaptation_summary == b.adaptation_summary
    &&& a.compressed_data@ == b.compressed_data@
    &&& a.novelty_score == b.novelty_score
    &&& a.importance_score == b.importance_score
}

fn duplicate(c: &MemoryCapsule) -> (r: MemoryCapsule)
    ensures
        same_capsule(r, *c),
{
    MemoryCapsule {
        capsule_id: c.capsule_id.clone(),
        timestamp: c.timestamp,
        cluster_id: c.cluster_id.clone(),
        privacy_level: c.privacy_level,
        context_vector: c.context_vector.clone(),
        semantic_tags: c.semantic_tags.clone(),
        adaptation_summary: AdaptationSummary {
            threshold_adaptations: c.adaptation_summary.threshold_adaptations,
            timer_adaptations: c.adaptation_summary.timer_adaptations,
            weight_changes: c.adaptation_summary.weight_changes,
            error_magnitude: c.adaptation_summary.error_magnitude,
            learning_rate_changes: c.adaptation_summary.learning_rate_changes,
        },
        compressed_data: c.compressed_data.clone(),
        novelty_score: c.novelty_score,
        importance_score: c.importance_score,
    }
}

/// The smallest distance from `ctx` to the context of a buffered capsule.
pub open spec fn min_distance(buf: Seq<MemoryCapsule>, ctx: Seq<i64>) -> int
    decreases buf.len(),
{
    if buf.len() <= 1 {
        distance_spec(ctx, buf[0].context_vector@)
    } else {
        min(min_distance(buf.drop_last(), ctx), distance_spec(ctx, buf.last().context_vector@))
    }
}

/// Novelty in millionths: one when nothing is buffered, else the distance
/// to the nearest buffered context over the divisor, at most one.
pub open spec fn novelty_of(buf: Seq<MemoryCapsule>, ctx: Seq<i64>) -> int {
    if buf.len() == 0 {
        SCALE as int
    } else {
        min(min_distance(buf, ctx) / NOVELTY_DIVISOR as int, SCALE as int)
    }
}

pub open spec fn importance_of(error_magnitude: int, tag_count: int) -> int {
    min(error_magnitude + 100_000 * tag_count, LIMIT as int)
}

pub open spec fn context_ok(c: MemoryCapsule) -> bool {
    c.context_vector@.len() == CONTEXT_DIM && bounded_by(c.context_vector@, SCALE as int)
}

/// The buffer after remembering `c`: oldest dropped past the capacity.
pub open spec fn remembered(buf: Seq<MemoryCapsule>, c: MemoryCapsule) -> Seq<MemoryCapsule> {
    if buf.len() + 1 > BUFFER_CAPACITY {
        buf.push(c).drop_first()
    } else {
        buf.push(c)
    }
}

pub open spec fn node_key() -> spec_fn(NodeMemory) -> Seq<char> {
    |n: NodeMemory| n.node_id@
}

/// A unit's history has reached three quarters of its capacity.
pub open spec fn under_pressure(n: NodeMemory) -> bool {
    4 * n.activations@.len() >= 3 * n.max_size as int
}

pub struct ClusterMemory {
    cluster_id: String,
    node_memories: Vec<NodeMemory>,
    capsule_buffer: Vec<MemoryCapsule>,
    last_consolidation: u64,
}

impl ClusterMemory {
    /// Unit ids are unique; the buffer holds at most `BUFFER_CAPACITY`
    /// capsules, each with a sixteen-slot context within one unit.
    pub closed spec fn wf(&self) -> bool {
        &&& unique_keys(self.node_memories@, node_key())
        &&& self.capsule_buffer@.len() <= BUFFER_CAPACITY
        &&& forall|i: int| 0 <= i < self.capsule_buffer@.len() ==> context_ok(#[trigger] self.capsule_buffer@[i])
    }

    pub closed spec fn id(&self) -> Seq<char> {
        self.cluster_id@
    }

    pub closed spec fn units(&self) -> Seq<NodeMemory> {
        self.node_memories@
    }

    /// The recently produced capsules, oldest first.
    pub closed spec fn capsules(&self) -> Seq<MemoryCapsule> {
        self.capsule_buffer@
    }

    pub closed spec fn last_consolidated(&self) -> u64 {
        self.last_consolidation
    }

    /// A consolidation is due when more than `CONSOLIDATION_INTERVAL` has
    /// passed since the last one, or when some unit's history is three
    /// quarters full.
    pub open spec fn due(&self, now: u64) -> bool {
        ||| (now as int) - (self.last_consolidated() as int) > CONSOLIDATION_INTERVAL as int
        ||| exists|i: int| 0 <= i < self.units().len() && under_pressure(#[trigger] self.units()[i])
    }

    pub fn new(cluster_id: String) -> (r: Self)
        ensures
            r.wf(),
            r.id() == cluster_id@,
            r.units().len() == 0,
            r.capsules().len() == 0,
            r.last_consolidated() == 0,
    {
        ClusterMemory {
            cluster_id,
            node_memories: Vec::new(),
            capsule_buffer: Vec::new(),
            last_consolidation: 0,
        }
    }

    /// Starts tracking a unit with an empty history of capacity
    /// `memory_size`, replacing any unit of the same id.
    pub fn add_node_memory(&mut self, node_id: String, memory_size: usize)
        requires
            old(self).wf(),
        ensures
            final(self).wf(),
            lookup(final(self).units(), node_key(), node_id@) matches Some(n) && n.max_size == memory_size
                && n.activations@.len() == 0 && n.context_tags@.len() == 0,
            forall|k: Seq<char>| k != node_id@ ==> #[trigger] lookup(final(self).units(), node_key(), k)
                == lookup(old(self).units(), node_key(), k),
            final(self).capsules() == old(self).capsules(),
            final(self).id() == old(self).id(),
            final(self).last_consolidated() == old(self).last_consolidated(),
    {
        let node = NodeMemory::new(node_id.clone(), memory_size);
        let ghost ns0 = self.node_memories@;
        match self.find_node(&node_id) {
            Some(i) => {
                proof {
                    lemma_lookup_update(ns0, node_key(), i as int, node);
                }
                self.node_memories.set(i, node);
            },
            None => {
                proof {
                    lemma_lookup_push(ns0, node_key(), node);
                }
                self.node_memories.push(node);
            },
        }
    }

    fn find_node(&self, node_id: &String) -> (r: Option<usize>)
        ensures
            match r {
                Some(i) => i < self.node_memories@.len() && self.node_memories@[i as int].node_id@ == node_id@,
                None => forall|j: int| 0 <= j < self.node_memories@.len() ==> (#[trigger] self.node_memories@[j]).node_id@ != node_id@,
            },
    {
        let mut i: usize = 0;
        while i < self.node_memories.len()
            invariant
                0 <= i <= self.node_memories@.len(),
                forall|j: int| 0 <= j < i ==> (#[trigger] self.node_memories@[j]).node_id@ != node_id@,
            decreases self.node_memories@.len() - i,
        {
            if self.node_memories[i].node_id == *node_id {
                return Some(i);
            }
            i += 1;
        }
        None
    }

    /// Records one telemetry sample on a tracked unit; an unknown unit id
    /// changes nothing.
    pub fn update_node_memory(&mut self, node_id: &String, activation: i64, error: i64, eligibility: i64, threshold: i64)
        requires
            old(self).wf(),
        ensures
            final(self).wf(),
            lookup(old(self).units(), node_key(), node_id@) is None ==> *final(self) == *old(self),
            lookup(old(self).units(), node_key(), node_id@) matches Some(n) ==> (lookup(final(self).units(), node_key(), node_id@) matches Some(n2) && {
                let trim = n.activations@.len() + 1 > n.max_size;
                &&& n2.activations@ == crate::telemetry::pushed(n.activations@, activation, trim)
                &&& n2.errors@ == crate::telemetry::pushed(n.errors@, error, trim)
                &&& n2.eligibility_history@ == crate::telemetry::pushed(n.eligibility_history@, eligibility, trim)
                &&& n2.threshold_history@ == crate::telemetry::pushed(n.threshold_history@, threshold, trim)
                &&& n2.context_tags == n.context_tags
                &&& n2.max_size == n.max_size
            }),
            forall|k: Seq<char>| k != node_id@ ==> #[trigger] lookup(final(self).units(), node_key(), k)
                == lookup(old(self).units(), node_key(), k),
            final(self).capsules() == old(self).capsules(),
            final(self).id() == old(self).id(),
            final(self).last_consolidated() == old(self).last_consolidated(),
    {
        let ghost ns0 = self.node_memories@;
        match self.find_node(node_id) {
            Some(i) => {
                proof {
                    lemma_lookup_at(ns0, node_key(), i as int);
                }
                let mut n = self.node_memories.remove(i);
                n.store_activation(activation, error, eligibility, threshold);
                self.node_memories.insert(i, n);
                assert(self.node_memories@ == ns0.update(i as int, n));
                proof {
                    lemma_lookup_update(ns0, node_key(), i as int, n);
                }
            },
            None => {
                proof {
                    lemma_lookup_absent(ns0, node_key(), node_id@);
                }
            },
        }
    }

    /// Adds a tag to a tracked unit unless it already carries an equal
    /// one; an unknown unit id changes nothing.
    pub fn add_node_tag(&mut self, node_id: &String, tag: String)
        requires
            old(self).wf(),
        ensures
            final(self).wf(),
            lookup(old(self).units(), node_key(), node_id@) is None ==> *final(self) == *old(self),
            lookup(old(self).units(), node_key(), node_id@) matches Some(n) ==> (lookup(final(self).units(), node_key(), node_id@) matches Some(n2) && {
                &&& n2.activations == n.activations
                &&& n2.max_size == n.max_size
                &&& view_set(n2.context_tags@) == view_set(n.context_tags@).insert(tag@)
            }),
            final(self).capsules() == old(self).capsules(),
            final(self).id() == old(self).id(),
            final(self).last_consolidated() == old(self).last_consolidated(),
            forall|k: Seq<char>| k != node_id@ ==> #[trigger] lookup(final(self).units(), node_key(), k)
                == lookup(old(self).units(), node_key(), k),
    {
        let ghost ns0 = self.node_memories@;
        match self.find_node(node_id) {
            Some(i) => {
                proof {
                    lemma_lookup_at(ns0, node_key(), i as int);
                }
                let ghost t = tag;
                let mut n = self.node_memories.remove(i);
                let ghost n0 = n;
                n.add_context_tag(tag);
                assert(view_set(n.context_tags@) == view_set(n0.context_tags@).insert(t@)) by {
                    let old_tags = n0.context_tags@;
                    let new_tags = n.context_tags@;
                    assert forall|x: Seq<char>| view_set(new_tags).contains(x) <==> view_set(old_tags).insert(t@).contains(x) by {
                        if view_set(new_tags).contains(x) {
                            let m = choose|m: int| 0 <= m < new_tags.len() && (#[trigger] new_tags[m])@ == x;
                            if m < old_tags.len() {
                                assert(new_tags[m] == old_tags[m]);
                            }
                        }
                        if view_set(old_tags).contains(x) {
                            let m = choose|m: int| 0 <= m < old_tags.len() && (#[trigger] old_tags[m])@ == x;
                            if new_tags != old_tags {
                                assert(new_tags[m] == old_tags[m]);
                            }
                        }
                        if x == t@ && new_tags != old_tags {
                            assert(new_tags[old_tags.len() as int]@ == t@);
                        }
                    }
                }
                self.node_memories.insert(i, n);
                assert(self.node_memories@ == ns0.update(i as int, n));
                proof {
                    lemma_lookup_update(ns0, node_key(), i as int, n);
                }
            },
            None => {
                proof {
                    lemma_lookup_absent(ns0, node_key(), node_id@);
                }
            },
        }
    }

    pub fn should_consolidate(&self, now: u64) -> (r: bool)
        ensures
            r == self.due(now),
    {
        if (now as i128) - (self.last_consolidation as i128) > CONSOLIDATION_INTERVAL as i128 {
            return true;
        }
        let mut i: usize = 0;
        while i < self.node_memories.len()
            invariant
                0 <= i <= self.node_memories@.len(),
                (now as int) - (self.last_consolidation as int) <= CONSOLIDATION_INTERVAL as int,
                forall|j: int| 0 <= j < i ==> !under_pressure(#[trigger] self.units()[j]),
            decreases self.node_memories@.len() - i,
        {
            let n = &self.node_memories[i];
            assert(self.node_memories@[i as int] == self.units()[i as int]);
            if 4 * (n.activations.len() as u128) >= 3 * (n.max_size as u128) {
                return true;
            }
            i += 1;
        }
        false
    }

    /// Novelty of a context against the buffered capsules.
    pub fn calculate_novelty(&self, ctx: &Vec<i64>) -> (r: i64)
        requires
            self.wf(),
            ctx@.len() == CONTEXT_DIM,
            bounded_by(ctx@, SCALE as int),
        ensures
            r == novelty_of(self.capsules(), ctx@),
            0 <= r <= SCALE,
    {
        let n = self.capsule_buffer.len();
        if n == 0 {
            return SCALE;
        }
        assert(context_ok(self.capsule_buffer@[0]));
        let mut best = euclidean_distance(ctx, &self.capsule_buffer[0].context_vector);
        let mut i: usize = 1;
        while i < n
            invariant
                1 <= i <= n,
                n == self.capsule_buffer@.len(),
                self.wf(),
                ctx@.len() == CONTEXT_DIM,
                bounded_by(ctx@, SCALE as int),
                best == min_distance(self.capsule_buffer@.subrange(0, i as int), ctx@),
                best >= 0,
            decreases n - i,
        {
            let ghost sub = self.capsule_buffer@.subrange(0, i as int + 1);
            assert(sub.drop_last() == self.capsule_buffer@.subrange(0, i as int));
            assert(context_ok(self.capsule_buffer@[i as int]));
            let d = euclidean_distance(ctx, &self.capsule_buffer[i].context_vector);
            if d < best {
                best = d;
            }
            i += 1;
        }
        assert(self.capsule_buffer@.subrange(0, n as int) == self.capsule_buffer@);
        let r = best / NOVELTY_DIVISOR;
        if r > SCALE {
            SCALE
        } else {
            r
        }
    }

    /// The latest capsule produced, if any.
    pub fn get_latest_capsule(&self) -> (r: Option<&MemoryCapsule>)
        ensures
            self.capsules().len() == 0 ==> r is None,
            self.capsules().len() > 0 ==> r == Some(&self.capsules().last()),
    {
        let n = self.capsule_buffer.len();
        if n == 0 {
            None
        } else {
            Some(&self.capsule_buffer[n - 1])
        }
    }
}

/// The first capsule a consolidator produces is maximally novel: with
/// nothing buffered, novelty is one whatever the context.
pub proof fn lemma_first_capsule_novel(buf: Seq<MemoryCapsule>, ctx: Seq<i64>)
    requires
        buf.len() == 0,
    ensures
        novelty_of(buf, ctx) == SCALE,
{
}

} // verus!

verus! {

/// The capsule that consolidating `ns` at `now` yields, given the
/// buffered capsules `buf`, the cluster id and the payload.
pub open spec fn consolidated(
    c: MemoryCapsule,
    cluster: Seq<char>,
    ns: Seq<NodeMemory>,
    buf: Seq<MemoryCapsule>,
    now: u64,
    payload: Seq<u8>,
) -> bool {
    let ctx = normalized(raw_context(ns));
    &&& c.capsule_id@ == cluster + seq!['_'] + decimal(now as nat)
    &&& c.timestamp == now
    &&& c.cluster_id@ == cluster
    &&& c.context_vector@ == ctx
    &&& strictly_sorted(c.semantic_tags@)
    &&& view_set(c.semantic_tags@) == tag_set(ns)
    &&& c.privacy_level == privacy_of(c.semantic_tags@)
    &&& c.novelty_score == novelty_of(buf, ctx)
    &&& c.importance_score == importance_of(
        error_magnitude_of(ns),
        c.semantic_tags@.len() as int,
    )
    &&& c.adaptation_summary.error_magnitude == error_magnitude_of(ns)
    &&& c.adaptation_summary.threshold_adaptations == 0
    &&& c.adaptation_summary.timer_adaptations == 0
    &&& c.adaptation_summary.weight_changes == 0
    &&& c.adaptation_summary.learning_rate_changes == 0
    &&& c.compressed_data@ == payload
}

impl ClusterMemory {
    /// Distills the telemetry of every unit with a non-empty history into
    /// a capsule: means of activation and error and summed eligibility in
    /// context slots 0-2 (then scaled to unit length), the units' tags
    /// sorted without duplicates, novelty against the buffered capsules,
    /// importance as error magnitude plus 0.1 per tag, and the privacy
    /// class of the tags. `payload` is the serialized telemetry window.
    pub fn consolidate_memories(&self, now: u64, payload: Vec<u8>) -> (r: MemoryCapsule)
        requires
            self.wf(),
        ensures
            consolidated(r, self.id(), self.units(), self.capsules(), now, payload@),
            context_ok(r),
            0 <= r.novelty_score <= SCALE,
            0 <= r.importance_score <= LIMIT,
    {
        let ns = &self.node_memories;
        let mut ctx: Vec<i64> = Vec::new();
        let mut k: usize = 0;
        while k < CONTEXT_DIM
            invariant
                0 <= k <= CONTEXT_DIM,
                ctx@.len() == k,
                forall|j: int| 0 <= j < k ==> #[trigger] ctx@[j] == raw_context(ns@)[j],
            decreases CONTEXT_DIM - k,
        {
            if k < 3 {
                let t = total_feature(ns, k);
                ctx.push(to_limit(t));
            } else {
                ctx.push(0);
            }
            k += 1;
        }
        assert(ctx@ == raw_context(ns@));
        assert(bounded_by(ctx@, LIMIT as int));
        let ghost raw = ctx@;
        normalize_vector(&mut ctx);
        assert(bounded_by(ctx@, SCALE as int)) by {
            if crate::vector_math::norm_sq(raw) == 0 {
                assert forall|j: int| 0 <= j < ctx@.len() implies -SCALE <= #[trigger] ctx@[j] <= SCALE by {
                    crate::vector_math::lemma_component_le_norm(raw, raw.len() as int, j);
                    assert(raw[j] == 0) by (nonlinear_arith)
                        requires
                            raw[j] * raw[j] <= 0,
                    ;
                }
            }
        }
        let err = to_limit(total_feature(ns, 3));
        assert(err >= 0) by {
            lemma_magnitude_nonneg(ns@);
        }
        let tags = collect_tags(ns);
        let privacy = classify_privacy(&tags);
        let novelty = self.calculate_novelty(&ctx);
        let tag_weight: i128 = (tags.len() as i128) * 100_000;
        let importance: i64 = if (err as i128) + tag_weight > LIMIT as i128 {
            LIMIT
        } else {
            ((err as i128) + tag_weight) as i64
        };
        let mut id = self.cluster_id.clone();
        proof {
            reveal_strlit("_");
        }
        id.append("_");
        push_decimal(&mut id, now);
        assert(id@ == self.cluster_id@ + seq!['_'] + decimal(now as nat));
        assert(importance == importance_of(error_magnitude_of(ns@), tags@.len() as int));
        assert(novelty == novelty_of(self.capsule_buffer@, normalized(raw_context(ns@))));
        assert(strictly_sorted(tags@));
        MemoryCapsule {
            capsule_id: id,
            timestamp: now,
            cluster_id: self.cluster_id.clone(),
            privacy_level: privacy,
            context_vector: ctx,
            semantic_tags: tags,
            adaptation_summary: AdaptationSummary {
                threshold_adaptations: 0,
                timer_adaptations: 0,
                weight_changes: 0,
                error_magnitude: err,
                learning_rate_changes: 0,
            },
            compressed_data: payload,
            novelty_score: novelty,
            importance_score: importance,
        }
    }

    /// Produces a capsule when one is due (see `should_consolidate`),
    /// remembers it in the buffer (dropping the oldest past the capacity)
    /// and records `now` as the last consolidation. Otherwise nothing
    /// changes and the result is `None`.
    pub fn create_memory_capsule(&mut self, now: u64, payload: Vec<u8>) -> (r: Option<MemoryCapsule>)
        requires
            old(self).wf(),
        ensures
            final(self).wf(),
            !old(self).due(now) ==> r is None && *final(self) == *old(self),
            old(self).due(now) ==> (r matches Some(c) && {
                &&& consolidated(c, old(self).id(), old(self).units(), old(self).capsules(), now, payload@)
                &&& final(self).capsules().len() == remembered(old(self).capsules(), c).len()
                &&& forall|i: int| 0 <= i < final(self).capsules().len() ==> same_capsule(
                    #[trigger] final(self).capsules()[i],
                    remembered(old(self).capsules(), c)[i],
                )
                &&& final(self).last_consolidated() == now
                &&& final(self).units() == old(self).units()
                &&& final(self).id() == old(self).id()
            }),
    {
        if !self.should_consolidate(now) {
            return None;
        }
        let c = self.consolidate_memories(now, payload);
        let copy = duplicate(&c);
        let ghost b0 = self.capsule_buffer@;
        self.capsule_buffer.push(copy);
        if self.capsule_buffer.len() > BUFFER_CAPACITY {
            self.capsule_buffer.remove(0);
        }
        let ghost want = remembered(b0, c);
        assert forall|i: int| 0 <= i < self.capsule_buffer@.len() implies same_capsule(
            #[trigger] self.capsule_buffer@[i],
            want[i],
        ) by {
            if b0.len() + 1 > BUFFER_CAPACITY {
                if i + 1 < b0.len() + 1 - 0 && i + 1 < b0.len() {
                    assert(self.capsule_buffer@[i] == b0[i + 1]);
                }
            } else if i < b0.len() {
                assert(self.capsule_buffer@[i] == b0[i]);
            }
        }
        assert forall|i: int| 0 <= i < self.capsule_buffer@.len() implies context_ok(#[trigger] self.capsule_buffer@[i]) by {
            assert(same_capsule(self.capsule_buffer@[i], want[i]));
            if b0.len() + 1 > BUFFER_CAPACITY {
                if i + 1 < b0.len() {
                    assert(want[i] == b0[i + 1]);
                }
            } else if i < b0.len() {
                assert(want[i] == b0[i]);
            }
        }
        self.last_consolidation = now;
        Some(c)
    }
}

proof fn lemma_magnitude_nonneg(ns: Seq<NodeMemory>)
    ensures
        feature_total(ns, 3) >= 0,
    decreases ns.len(),
{
    if ns.len() > 0 {
        lemma_magnitude_nonneg(ns.drop_last());
    }
}

} // verus!

verus! {

broadcast use vstd::seq_lib::group_to_multiset_ensures;

pub open spec fn by_score(r: Seq<(i64, String)>) -> bool {
    forall|i: int, j: int| 0 <= i < j < r.len() ==> (#[trigger] r[i]).0 >= (#[trigger] r[j]).0
}

/// Each buffered capsule with its cosine similarity to `q`.
pub open spec fn buffer_scores(buf: Seq<MemoryCapsule>, q: Seq<i64>) -> Seq<(i64, String)> {
    Seq::new(
        buf.len(),
        |i: int| (crate::vector_math::cosine_spec(q, buf[i].context_vector@) as i64, buf[i].capsule_id),
    )
}

fn insert_by_score(v: &mut Vec<(i64, String)>, x: (i64, String))
    requires
        by_score(old(v)@),
    ensures
        by_score(final(v)@),
        final(v)@.to_multiset() == old(v)@.to_multiset().insert(x),
        final(v)@.len() == old(v)@.len() + 1,
{
    let mut p: usize = 0;
    while p < v.len() && v[p].0 >= x.0
        invariant
            0 <= p <= v@.len(),
            v@ == old(v)@,
            forall|j: int| 0 <= j < p ==> (#[trigger] v@[j]).0 >= x.0,
        decreases v@.len() - p,
    {
        p += 1;
    }
    v.insert(p, x);
}

impl ClusterMemory {
    /// The ids of the `num_results` buffered capsules most similar (by
    /// cosine) to `query_vector`, most similar first. A probe with more
    /// than `MAX_DIM` components or a component beyond `LIMIT` yields
    /// nothing.
    pub fn query_similar_capsules(&self, query_vector: &Vec<i64>, num_results: usize) -> (r: Vec<String>)
        requires
            self.wf(),
        ensures
            !(query_vector@.len() <= crate::numeric::MAX_DIM && bounded_by(query_vector@, LIMIT as int))
                ==> r@.len() == 0,
            query_vector@.len() <= crate::numeric::MAX_DIM && bounded_by(query_vector@, LIMIT as int) ==> {
                &&& r@.len() == min(self.capsules().len() as int, num_results as int)
                &&& exists|all: Seq<(i64, String)>|
                    {
                        &&& by_score(all)
                        &&& all.to_multiset() == buffer_scores(self.capsules(), query_vector@).to_multiset()
                        &&& r@.len() <= all.len()
                        &&& forall|j: int| 0 <= j < r@.len() ==> (#[trigger] r@[j]) == all[j].1
                    }
            },
    {
        let mut ids: Vec<String> = Vec::new();
        if query_vector.len() > crate::numeric::MAX_DIM || !crate::vector_math::all_within(query_vector, LIMIT) {
            return ids;
        }
        let ghost target = buffer_scores(self.capsule_buffer@, query_vector@);
        let mut sorted: Vec<(i64, String)> = Vec::new();
        let mut i: usize = 0;
        while i < self.capsule_buffer.len()
            invariant
                0 <= i <= self.capsule_buffer@.len(),
                self.wf(),
                query_vector@.len() <= crate::numeric::MAX_DIM,
                bounded_by(query_vector@, LIMIT as int),
                target == buffer_scores(self.capsule_buffer@, query_vector@),
                by_score(sorted@),
                sorted@.len() == i,
                sorted@.to_multiset() == target.take(i as int).to_multiset(),
            decreases self.capsule_buffer@.len() - i,
        {
            let c = &self.capsule_buffer[i];
            assert(context_ok(self.capsule_buffer@[i as int]));
            let score = crate::vector_math::cosine_similarity(query_vector, &c.context_vector);
            let x = (score, c.capsule_id.clone());
            assert(x == target[i as int]);
            assert(target.take(i as int + 1) == target.take(i as int).push(x));
            insert_by_score(&mut sorted, x);
            i += 1;
        }
        assert(target.take(self.capsule_buffer@.len() as int) == target);
        let n = if num_results < sorted.len() {
            num_results
        } else {
            sorted.len()
        };
        let mut j: usize = 0;
        while j < n
            invariant
                0 <= j <= n,
                n <= sorted@.len(),
                ids@.len() == j,
                forall|a: int| 0 <= a < j ==> (#[trigger] ids@[a]) == sorted@[a].1,
            decreases n - j,
        {
            ids.push(sorted[j].1.clone());
            j += 1;
        }
        ids
    }
}

} // verus!
