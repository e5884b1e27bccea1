//! The vector memory store: capsules embedded as fixed-dimension vectors,
//! indexed by tag, time and quality, ranked by similarity and evicted when
//! stale.
//!
//! Scores and vector components are fixed-point millionths; times are
//! milliseconds supplied by the caller.
use vstd::prelude::*;
use crate::capsule::{MemoryCapsule, PrivacyLevel};
use crate::numeric::{SCALE, LIMIT, MAX_DIM, abs, bytes_of, hash_bytes, hash_byte_slice, div_trunc, min};
use crate::vector_math::{bounded_by, normalized, normalize_vector};
use crate::keyed::{unique_keys, lookup, has_key, lemma_lookup_at, lemma_lookup_update, lemma_lookup_push, lemma_lookup_absent};

verus! {

/// Dimension of every embedding.
pub const EMBEDDING_DIM: usize = 128;

/// Number of padding slots at the end of an embedding.
pub const JITTER_SLOTS: usize = 7;

/// Milliseconds in a day.
pub const DAY_MS: u64 = 86_400_000;

/// Entries older than this many milliseconds may be evicted (30 days).
pub const STALE_AFTER_MS: u64 = 2_592_000_000;

/// Entries accessed this many times are never evicted.
pub const KEEP_ACCESSES: u32 = 3;

#[derive(Clone, Debug)]
pub struct AccessPattern {
    pub total_accesses: u32,
    pub recent_accesses: Vec<u64>,
    pub access_contexts: Vec<String>,
    pub collaborative_filters: Vec<String>,
}

#[derive(Clone, Debug)]
pub struct VectorEntry {
    pub capsule_id: String,
    pub embedding_vector: Vec<i64>,
    pub metadata_vector: Vec<i64>,
    pub context_tags: Vec<String>,
    pub timestamp: u64,
    pub quality_score: i64,
    pub importance_score: i64,
    pub access_pattern: AccessPattern,
    pub compression_ratio: i64,
    pub original_size: usize,
}

// ------------------------------------------------------------- embedding

/// Value of slot `k` (0..14) of the band that encodes tag bytes `b`: a
/// hashed scalar, then up to 13 byte values scaled to [0, 1].
pub open spec fn tag_slot(b: Seq<u8>, k: int) -> int {
    if k == 0 {
        (hash_bytes(b) as int % 1000) * 1000
    } else if k - 1 < b.len() {
        b[k - 1] as int * SCALE / 255
    } else {
        0
    }
}

/// Slot `i` of a capsule's embedding before normalization; `jitter` fills
/// the padding slots.
pub open spec fn raw_slot(c: MemoryCapsule, jitter: Seq<i64>, i: int) -> int {
    let a = c.adaptation_summary;
    if i < 16 {
        if i < c.context_vector@.len() {
            c.context_vector@[i] as int
        } else {
            0
        }
    } else if i < 112 {
        let t = (i - 16) / 14;
        if t < c.semantic_tags@.len() {
            tag_slot(bytes_of(c.semantic_tags@[t]@), (i - 16) % 14)
        } else {
            0
        }
    } else if i == 112 {
        a.threshold_adaptations as int * 1000
    } else if i == 113 {
        a.timer_adaptations as int * 1000
    } else if i == 114 {
        abs(a.weight_changes as int)
    } else if i == 115 {
        a.error_magnitude as int
    } else if i == 116 {
        a.learning_rate_changes as int
    } else if i == 117 {
        c.novelty_score as int
    } else if i == 118 {
        c.importance_score as int
    } else if i == 119 {
        (c.timestamp as int % DAY_MS as int) * SCALE / DAY_MS as int
    } else if i == 120 {
        (c.timestamp as int % (7 * DAY_MS as int)) * SCALE / (7 * DAY_MS as int)
    } else {
        jitter[i - 121] as int
    }
}

pub open spec fn raw_embedding(c: MemoryCapsule, jitter: Seq<i64>) -> Seq<i64> {
    Seq::new(EMBEDDING_DIM as nat, |i: int| raw_slot(c, jitter, i) as i64)
}

/// The embedding of a capsule: its raw slots scaled to unit length.
pub open spec fn embedding_of(c: MemoryCapsule, jitter: Seq<i64>) -> Seq<i64> {
    normalized(raw_embedding(c, jitter))
}

pub open spec fn jitter_ok(jitter: Seq<i64>) -> bool {
    jitter.len() == JITTER_SLOTS && bounded_by(jitter, SCALE as int)
}

fn tag_band_slot(tag: &String, k: usize) -> (r: i64)
    requires
        k < 14,
    ensures
        r == tag_slot(bytes_of(tag@), k as int),
        0 <= r <= SCALE,
{
    let b = tag.as_str().as_bytes();
    if k == 0 {
        let h = hash_byte_slice(b);
        ((h % 1000) * 1000) as i64
    } else if k - 1 < b.len() {
        (b[k - 1] as i64) * SCALE / 255
    } else {
        0
    }
}

fn embedding_slot(c: &MemoryCapsule, jitter: &Vec<i64>, i: usize) -> (r: i64)
    requires
        c.in_range(),
        jitter_ok(jitter@),
        i < EMBEDDING_DIM,
    ensures
        r == raw_slot(*c, jitter@, i as int),
        -LIMIT <= r <= LIMIT,
{
    let a = &c.adaptation_summary;
    if i < 16 {
        if i < c.context_vector.len() {
            c.context_vector[i]
        } else {
            0
        }
    } else if i < 112 {
        let t = (i - 16) / 14;
        if t < c.semantic_tags.len() {
            tag_band_slot(&c.semantic_tags[t], (i - 16) % 14)
        } else {
            0
        }
    } else if i == 112 {
        (a.threshold_adaptations as i64) * 1000
    } else if i == 113 {
        (a.timer_adaptations as i64) * 1000
    } else if i == 114 {
        if a.weight_changes < 0 {
            -a.weight_changes
        } else {
            a.weight_changes
        }
    } else if i == 115 {
        a.error_magnitude
    } else if i == 116 {
        a.learning_rate_changes
    } else if i == 117 {
        c.novelty_score
    } else if i == 118 {
        c.importance_score
    } else if i == 119 {
        ((c.timestamp % DAY_MS) as i64) * SCALE / (DAY_MS as i64)
    } else if i == 120 {
        ((c.timestamp % (7 * DAY_MS)) as i64) * SCALE / ((7 * DAY_MS) as i64)
    } else {
        jitter[i - 121]
    }
}

/// Builds the 128-slot embedding of a capsule: slots 0-15 copy the context
/// vector, slots 16-111 encode up to eight tags (a hashed scalar and up to
/// thirteen byte values each), slots 112-120 the adaptation summary,
/// novelty, importance, time of day and day of week, and the last seven
/// slots take the padding noise `jitter`; the whole is then scaled to unit
/// length.
pub fn generate_semantic_embedding(capsule: &MemoryCapsule, jitter: &Vec<i64>) -> (r: Vec<i64>)
    requires
        capsule.in_range(),
        jitter_ok(jitter@),
    ensures
        r@ == embedding_of(*capsule, jitter@),
        r@.len() == EMBEDDING_DIM,
        bounded_by(r@, SCALE as int),
{
    let mut v: Vec<i64> = Vec::new();
    let mut i: usize = 0;
    while i < EMBEDDING_DIM
        invariant
            0 <= i <= EMBEDDING_DIM,
            capsule.in_range(),
            jitter_ok(jitter@),
            v@.len() == i,
            forall|j: int| 0 <= j < i ==> #[trigger] v@[j] == raw_slot(*capsule, jitter@, j) as i64,
            bounded_by(v@, LIMIT as int),
        decreases EMBEDDING_DIM - i,
    {
        let x = embedding_slot(capsule, jitter, i);
        v.push(x);
        i += 1;
    }
    assert(v@ == raw_embedding(*capsule, jitter@));
    let ghost raw = v@;
    normalize_vector(&mut v);
    assert(bounded_by(v@, SCALE as int)) by {
        if crate::vector_math::norm_sq(raw) == 0 {
            assert forall|j: int| 0 <= j < v@.len() implies -SCALE <= #[trigger] v@[j] <= SCALE by {
                crate::vector_math::lemma_component_le_norm(raw, raw.len() as int, j);
                assert(raw[j] == 0) by (nonlinear_arith)
                    requires
                        raw[j] * raw[j] <= 0,
                ;
            }
        }
    }
    v
}

// ------------------------------------------------------ metadata, quality

pub open spec fn privacy_ordinal(p: PrivacyLevel) -> int {
    match p {
        PrivacyLevel::Personal => SCALE as int,
        PrivacyLevel::Behavioral => SCALE / 2,
        PrivacyLevel::Public => 0,
    }
}

/// The five metadata features: payload size over 10000 bytes, tag count
/// over ten, privacy ordinal, novelty and importance.
pub open spec fn metadata_of(c: MemoryCapsule) -> Seq<i64> {
    seq![
        (c.compressed_data@.len() * 100) as i64,
        (c.semantic_tags@.len() * 100_000) as i64,
        privacy_ordinal(c.privacy_level) as i64,
        c.novelty_score,
        c.importance_score,
    ]
}

pub fn generate_metadata_vector(capsule: &MemoryCapsule) -> (r: Vec<i64>)
    requires
        capsule.in_range(),
    ensures
        r@ == metadata_of(*capsule),
{
    let p: i64 = match capsule.privacy_level {
        PrivacyLevel::Personal => SCALE,
        PrivacyLevel::Behavioral => SCALE / 2,
        PrivacyLevel::Public => 0,
    };
    let mut v: Vec<i64> = Vec::new();
    v.push((capsule.compressed_data.len() as i64) * 100);
    v.push((capsule.semantic_tags.len() as i64) * 100_000);
    v.push(p);
    v.push(capsule.novelty_score);
    v.push(capsule.importance_score);
    assert(v@ == metadata_of(*capsule));
    v
}

/// How many of the three adaptation kinds moved: threshold, timer, and
/// weight changes above 0.1 in magnitude.
pub open spec fn adaptation_diversity(c: MemoryCapsule) -> int {
    let a = c.adaptation_summary;
    (if a.threshold_adaptations > 0 { 1int } else { 0int }) + (if a.timer_adaptations > 0 {
        1int
    } else {
        0int
    }) + (if abs(a.weight_changes as int) > 100_000 { 1int } else { 0int })
}

pub open spec fn clamp01(x: int) -> int {
    if x < 0 {
        0
    } else if x > SCALE {
        SCALE as int
    } else {
        x
    }
}

/// The store's quality score: 0.3 novelty + 0.3 importance, plus 0.1 for
/// more than three tags and 0.1 per adaptation kind, held to [0, 1], then
/// times 0.9 when the payload is under 100 or over 100000 bytes.
pub open spec fn quality_of(c: MemoryCapsule) -> int {
    let base = (3 * c.novelty_score + 3 * c.importance_score) / 10 + (if c.semantic_tags@.len() > 3 {
        100_000int
    } else {
        0int
    }) + 100_000 * adaptation_diversity(c);
    let size = c.compressed_data@.len();
    if size < 100 || size > 100_000 {
        clamp01(base) * 9 / 10
    } else {
        clamp01(base)
    }
}

pub fn calculate_enhanced_quality_score(capsule: &MemoryCapsule) -> (r: i64)
    requires
        capsule.in_range(),
    ensures
        r == quality_of(*capsule),
        0 <= r <= SCALE,
{
    let a = &capsule.adaptation_summary;
    let mut q: i64 = (3 * capsule.novelty_score + 3 * capsule.importance_score) / 10;
    if capsule.semantic_tags.len() > 3 {
        q = q + 100_000;
    }
    if a.threshold_adaptations > 0 {
        q = q + 100_000;
    }
    if a.timer_adaptations > 0 {
        q = q + 100_000;
    }
    if a.weight_changes > 100_000 || a.weight_changes < -100_000 {
        q = q + 100_000;
    }
    if q > SCALE {
        q = SCALE;
    }
    let size = capsule.compressed_data.len();
    if size < 100 || size > 100_000 {
        q * 9 / 10
    } else {
        q
    }
}

/// The estimated compression ratio of a capsule's payload, in millionths:
/// the payload is taken to be a third of its uncompressed size.
pub open spec fn compression_ratio_of(c: MemoryCapsule) -> int {
    if c.compressed_data@.len() == 0 {
        0
    } else {
        SCALE / 3
    }
}

fn calculate_compression_ratio(capsule: &MemoryCapsule) -> (r: i64)
    ensures
        r == compression_ratio_of(*capsule),
{
    if capsule.compressed_data.len() == 0 {
        0
    } else {
        SCALE / 3
    }
}

} // verus!

verus! {

pub open spec fn entry_key() -> spec_fn(VectorEntry) -> Seq<char> {
    |e: VectorEntry| e.capsule_id@
}

pub open spec fn hash_key() -> spec_fn((String, String)) -> Seq<char> {
    |p: (String, String)| p.0@
}

pub open spec fn cluster_key() -> spec_fn((String, Vec<String>)) -> Seq<char> {
    |c: (String, Vec<String>)| c.0@
}

pub open spec fn has_tag(tags: Seq<String>, t: Seq<char>) -> bool {
    exists|m: int| 0 <= m < tags.len() && (#[trigger] tags[m])@ == t
}

/// Some entry has id `id`.
pub open spec fn has_entry(es: Seq<VectorEntry>, id: Seq<char>) -> bool {
    exists|k: int| 0 <= k < es.len() && (#[trigger] es[k]).capsule_id@ == id
}

/// Some entry has id `id` and time `ts`.
pub open spec fn has_entry_at(es: Seq<VectorEntry>, id: Seq<char>, ts: u64) -> bool {
    exists|k: int| 0 <= k < es.len() && (#[trigger] es[k]).capsule_id@ == id && es[k].timestamp == ts
}

/// Some entry has id `id` and quality `q`.
pub open spec fn has_entry_scored(es: Seq<VectorEntry>, id: Seq<char>, q: i64) -> bool {
    exists|k: int|
        0 <= k < es.len() && (#[trigger] es[k]).capsule_id@ == id && es[k].quality_score == q
}

/// Some entry has id `id` and tag `t`.
pub open spec fn has_entry_tagged(es: Seq<VectorEntry>, id: Seq<char>, t: Seq<char>) -> bool {
    exists|k: int|
        0 <= k < es.len() && (#[trigger] es[k]).capsule_id@ == id && has_tag(es[k].context_tags@, t)
}

/// The temporal index: one item per entry, ascending by time, each naming
/// an entry with that time.
pub open spec fn temporal_ok(t: Seq<(u64, String)>, es: Seq<VectorEntry>) -> bool {
    &&& t.len() == es.len()
    &&& forall|i: int, j: int| 0 <= i < j < t.len() ==> (#[trigger] t[i]).0 <= (#[trigger] t[j]).0
    &&& forall|j: int| 0 <= j < t.len() ==> has_entry_at(es, (#[trigger] t[j]).1@, t[j].0)
}

/// The quality index: one item per entry, descending by quality, each
/// naming an entry with that quality.
pub open spec fn quality_ok(q: Seq<(i64, String)>, es: Seq<VectorEntry>) -> bool {
    &&& q.len() == es.len()
    &&& forall|i: int, j: int| 0 <= i < j < q.len() ==> (#[trigger] q[i]).0 >= (#[trigger] q[j]).0
    &&& forall|j: int| 0 <= j < q.len() ==> has_entry_scored(es, (#[trigger] q[j]).1@, q[j].0)
}

/// The tag index lists `id` under tag `t`.
pub open spec fn listed(c: Seq<(String, Vec<String>)>, t: Seq<char>, id: Seq<char>) -> bool {
    exists|i: int, n: int|
        0 <= i < c.len() && c[i].0@ == t && 0 <= n < c[i].1@.len() && (#[trigger] c[i].1@[n])@ == id
}

/// Every tag of the entries `es[0..upto]` lists that entry's id.
pub open spec fn tags_listed(c: Seq<(String, Vec<String>)>, es: Seq<VectorEntry>, upto: int) -> bool {
    forall|k: int, m: int|
        0 <= k < upto && 0 <= m < es[k].context_tags@.len() ==> listed(
            c,
            (#[trigger] es[k].context_tags@[m])@,
            es[k].capsule_id@,
        )
}

/// The tag index: every tag of every entry lists the entry's id, and
/// `clusters_sound` holds.
pub open spec fn clusters_ok(c: Seq<(String, Vec<String>)>, es: Seq<VectorEntry>) -> bool {
    &&& tags_listed(c, es, es.len() as int)
    &&& clusters_sound(c, es)
}

/// One non-empty list per tag, each id in it naming an entry that carries
/// the tag.
pub open spec fn clusters_sound(c: Seq<(String, Vec<String>)>, es: Seq<VectorEntry>) -> bool {
    &&& unique_keys(c, cluster_key())
    &&& forall|i: int| 0 <= i < c.len() ==> (#[trigger] c[i]).1@.len() > 0
    &&& forall|i: int, m: int|
        0 <= i < c.len() && 0 <= m < c[i].1@.len() ==> has_entry_tagged(
            es,
            (#[trigger] c[i].1@[m])@,
            c[i].0@,
        )
}

pub open spec fn hashes_ok(h: Seq<(String, String)>, es: Seq<VectorEntry>) -> bool {
    &&& unique_keys(h, hash_key())
    &&& forall|j: int| 0 <= j < h.len() ==> has_entry(es, (#[trigger] h[j]).0@)
}

pub open spec fn entry_ok(e: VectorEntry) -> bool {
    &&& e.embedding_vector@.len() == EMBEDDING_DIM
    &&& bounded_by(e.embedding_vector@, SCALE as int)
    &&& 0 <= e.quality_score <= SCALE
    &&& e.context_tags@.len() <= MAX_DIM
}

pub open spec fn size_sum(es: Seq<VectorEntry>) -> int
    decreases es.len(),
{
    if es.len() == 0 {
        0
    } else {
        size_sum(es.drop_last()) + es.last().original_size
    }
}

pub struct VectorMemoryDatabase {
    vector_index: Vec<VectorEntry>,
    blockchain_hashes: Vec<(String, String)>,
    semantic_clusters: Vec<(String, Vec<String>)>,
    temporal_index: Vec<(u64, String)>,
    quality_rankings: Vec<(i64, String)>,
    total_memory_size: u64,
    average_vector_dimension: usize,
    last_consolidation_time: u64,
}

fn insert_by_time(t: &mut Vec<(u64, String)>, ts: u64, id: String)
    requires
        forall|i: int, j: int|
            0 <= i < j < old(t)@.len() ==> (#[trigger] old(t)@[i]).0 <= (#[trigger] old(t)@[j]).0,
    ensures
        exists|p: int| 0 <= p <= old(t)@.len() && final(t)@ == old(t)@.insert(p, (ts, id)),
        forall|i: int, j: int|
            0 <= i < j < final(t)@.len() ==> (#[trigger] final(t)@[i]).0 <= (#[trigger] final(t)@[j]).0,
{
    let mut p: usize = 0;
    while p < t.len() && t[p].0 <= ts
        invariant
            0 <= p <= t@.len(),
            t@ == old(t)@,
            forall|j: int| 0 <= j < p ==> (#[trigger] t@[j]).0 <= ts,
        decreases t@.len() - p,
    {
        p += 1;
    }
    t.insert(p, (ts, id));
}

fn insert_by_quality(q: &mut Vec<(i64, String)>, score: i64, id: String)
    requires
        forall|i: int, j: int|
            0 <= i < j < old(q)@.len() ==> (#[trigger] old(q)@[i]).0 >= (#[trigger] old(q)@[j]).0,
    ensures
        exists|p: int| 0 <= p <= old(q)@.len() && final(q)@ == old(q)@.insert(p, (score, id)),
        forall|i: int, j: int|
            0 <= i < j < final(q)@.len() ==> (#[trigger] final(q)@[i]).0 >= (#[trigger] final(q)@[j]).0,
{
    let mut p: usize = 0;
    while p < q.len() && q[p].0 >= score
        invariant
            0 <= p <= q@.len(),
            q@ == old(q)@,
            forall|j: int| 0 <= j < p ==> (#[trigger] q@[j]).0 >= score,
        decreases q@.len() - p,
    {
        p += 1;
    }
    q.insert(p, (score, id));
}

/// Builds the temporal index of `es` from scratch.
fn build_temporal_index(es: &Vec<VectorEntry>) -> (t: Vec<(u64, String)>)
    ensures
        temporal_ok(t@, es@),
{
    let mut t: Vec<(u64, String)> = Vec::new();
    let mut i: usize = 0;
    while i < es.len()
        invariant
            0 <= i <= es@.len(),
            t@.len() == i,
            forall|a: int, b: int| 0 <= a < b < t@.len() ==> (#[trigger] t@[a]).0 <= (#[trigger] t@[b]).0,
            forall|j: int| 0 <= j < t@.len() ==> has_entry_at(es@, (#[trigger] t@[j]).1@, t@[j].0),
        decreases es@.len() - i,
    {
        let ghost t0 = t@;
        insert_by_time(&mut t, es[i].timestamp, es[i].capsule_id.clone());
        let ghost p = choose|p: int| 0 <= p <= t0.len() && t@ == t0.insert(p, (es@[i as int].timestamp, es@[i as int].capsule_id));
        assert forall|j: int| 0 <= j < t@.len() implies has_entry_at(es@, (#[trigger] t@[j]).1@, t@[j].0) by {
            if j < p {
                assert(t@[j] == t0[j]);
            } else if j == p {
                assert(es@[i as int].capsule_id@ == t@[j].1@);
            } else {
                assert(t@[j] == t0[j - 1]);
            }
        }
        i += 1;
    }
    t
}

/// Builds the quality index of `es` from scratch.
fn build_quality_index(es: &Vec<VectorEntry>) -> (q: Vec<(i64, String)>)
    ensures
        quality_ok(q@, es@),
{
    let mut q: Vec<(i64, String)> = Vec::new();
    let mut i: usize = 0;
    while i < es.len()
        invariant
            0 <= i <= es@.len(),
            q@.len() == i,
            forall|a: int, b: int| 0 <= a < b < q@.len() ==> (#[trigger] q@[a]).0 >= (#[trigger] q@[b]).0,
            forall|j: int| 0 <= j < q@.len() ==> has_entry_scored(es@, (#[trigger] q@[j]).1@, q@[j].0),
        decreases es@.len() - i,
    {
        let ghost q0 = q@;
        insert_by_quality(&mut q, es[i].quality_score, es[i].capsule_id.clone());
        let ghost p = choose|p: int| 0 <= p <= q0.len() && q@ == q0.insert(p, (es@[i as int].quality_score, es@[i as int].capsule_id));
        assert forall|j: int| 0 <= j < q@.len() implies has_entry_scored(es@, (#[trigger] q@[j]).1@, q@[j].0) by {
            if j < p {
                assert(q@[j] == q0[j]);
            } else if j == p {
                assert(es@[i as int].capsule_id@ == q@[j].1@);
            } else {
                assert(q@[j] == q0[j - 1]);
            }
        }
        i += 1;
    }
    q
}

} // verus!

verus! {

fn find_cluster(c: &Vec<(String, Vec<String>)>, tag: &String) -> (r: Option<usize>)
    ensures
        match r {
            Some(i) => i < c@.len() && c@[i as int].0@ == tag@,
            None => forall|j: int| 0 <= j < c@.len() ==> (#[trigger] c@[j]).0@ != tag@,
        },
{
    let mut i: usize = 0;
    while i < c.len()
        invariant
            0 <= i <= c@.len(),
            forall|j: int| 0 <= j < i ==> (#[trigger] c@[j]).0@ != tag@,
        decreases c@.len() - i,
    {
        if c[i].0 == *tag {
            return Some(i);
        }
        i += 1;
    }
    None
}

/// Builds the tag index of `es` from scratch: each entry's id is listed
/// under each of its tags.
proof fn lemma_listed_kept(c0: Seq<(String, Vec<String>)>, c1: Seq<(String, Vec<String>)>, t: Seq<char>, id: Seq<char>)
    requires
        c1.len() >= c0.len(),
        forall|i: int|
            0 <= i < c0.len() ==> (#[trigger] c1[i]).0 == c0[i].0 && c1[i].1@.len() >= c0[i].1@.len()
                && forall|n: int| 0 <= n < c0[i].1@.len() ==> c1[i].1@[n] == c0[i].1@[n],
        listed(c0, t, id),
    ensures
        listed(c1, t, id),
{
    let (i, n) = choose|i: int, n: int|
        0 <= i < c0.len() && c0[i].0@ == t && 0 <= n < c0[i].1@.len() && (#[trigger] c0[i].1@[n])@ == id;
    assert(c1[i].0 == c0[i].0);
    assert(c1[i].1@[n] == c0[i].1@[n]);
}

fn build_clusters(es: &Vec<VectorEntry>) -> (c: Vec<(String, Vec<String>)>)
    ensures
        clusters_ok(c@, es@),
{
    let mut c: Vec<(String, Vec<String>)> = Vec::new();
    let mut i: usize = 0;
    while i < es.len()
        invariant
            0 <= i <= es@.len(),
            clusters_sound(c@, es@),
            tags_listed(c@, es@, i as int),
        decreases es@.len() - i,
    {
        let e = &es[i];
        let mut m: usize = 0;
        while m < e.context_tags.len()
            invariant
                0 <= m <= e.context_tags@.len(),
                i < es@.len(),
                *e == es@[i as int],
                clusters_sound(c@, es@),
                tags_listed(c@, es@, i as int),
                forall|m2: int| 0 <= m2 < m ==> listed(c@, (#[trigger] e.context_tags@[m2])@, e.capsule_id@),
            decreases e.context_tags@.len() - m,
        {
            let ghost cb = c@;
            let tag = &e.context_tags[m];
            assert(has_tag(e.context_tags@, tag@));
            assert(has_entry_tagged(es@, e.capsule_id@, tag@)) by {
                assert(es@[i as int].capsule_id@ == e.capsule_id@);
            }
            match find_cluster(&c, tag) {
                Some(k) => {
                    let mut ids = c[k].1.clone();
                    ids.push(e.capsule_id.clone());
                    let key = c[k].0.clone();
                    let ghost c0 = c@;
                    let ghost item = (key, ids);
                    proof {
                        lemma_lookup_update(c0, cluster_key(), k as int, item);
                    }
                    c.set(k, (key, ids));
                    assert(c@[k as int].1@[c@[k as int].1@.len() - 1]@ == e.capsule_id@);
                    assert(listed(c@, tag@, e.capsule_id@));
                    assert forall|a: int, b: int|
                        0 <= a < c@.len() && 0 <= b < c@[a].1@.len() implies has_entry_tagged(
                        es@,
                        (#[trigger] c@[a].1@[b])@,
                        c@[a].0@,
                    ) by {
                        if a != k {
                            assert(c@[a] == c0[a]);
                        } else if b < c0[a].1@.len() {
                            assert(c@[a].1@[b] == c0[a].1@[b]);
                        } else {
                            assert(c@[a].1@[b]@ == e.capsule_id@);
                        }
                    }
                },
                None => {
                    let mut ids: Vec<String> = Vec::new();
                    ids.push(e.capsule_id.clone());
                    let item = (tag.clone(), ids);
                    let ghost c0 = c@;
                    proof {
                        lemma_lookup_push(c0, cluster_key(), item);
                    }
                    c.push(item);
                    assert(c@[c0.len() as int].1@[0]@ == e.capsule_id@);
                    assert(listed(c@, tag@, e.capsule_id@));
                    assert forall|a: int, b: int|
                        0 <= a < c@.len() && 0 <= b < c@[a].1@.len() implies has_entry_tagged(
                        es@,
                        (#[trigger] c@[a].1@[b])@,
                        c@[a].0@,
                    ) by {
                        if a < c0.len() {
                            assert(c@[a] == c0[a]);
                        }
                    }
                },
            }
            proof {
                assert forall|k: int, m2: int|
                    0 <= k < i && 0 <= m2 < es@[k].context_tags@.len() implies listed(
                    c@,
                    (#[trigger] es@[k].context_tags@[m2])@,
                    es@[k].capsule_id@,
                ) by {
                    lemma_listed_kept(cb, c@, es@[k].context_tags@[m2]@, es@[k].capsule_id@);
                }
                assert forall|m2: int| 0 <= m2 < m + 1 implies listed(c@, (#[trigger] e.context_tags@[m2])@, e.capsule_id@) by {
                    if m2 == m {
                        assert(e.context_tags@[m2] == e.context_tags@[m as int]);
                    } else {
                        lemma_listed_kept(cb, c@, e.context_tags@[m2]@, e.capsule_id@);
                    }
                }
            }
            m += 1;
        }
        assert forall|k: int, m2: int|
            0 <= k < i + 1 && 0 <= m2 < es@[k].context_tags@.len() implies listed(
            c@,
            (#[trigger] es@[k].context_tags@[m2])@,
            es@[k].capsule_id@,
        ) by {
            if k == i {
                assert(e.context_tags@[m2] == es@[k].context_tags@[m2]);
            }
        }
        i += 1;
    }
    c
}

} // verus!

verus! {

/// The entry that storing `c` with padding noise `jitter` creates.
pub open spec fn entry_for(e: VectorEntry, c: MemoryCapsule, jitter: Seq<i64>) -> bool {
    &&& e.capsule_id@ == c.capsule_id@
    &&& e.embedding_vector@ == embedding_of(c, jitter)
    &&& e.metadata_vector@ == metadata_of(c)
    &&& e.context_tags.deep_view() == c.semantic_tags.deep_view()
    &&& e.timestamp == c.timestamp
    &&& e.quality_score == quality_of(c)
    &&& e.importance_score == c.importance_score
    &&& e.access_pattern.total_accesses == 0
    &&& e.access_pattern.recent_accesses@.len() == 0
    &&& e.compression_ratio == compression_ratio_of(c)
    &&& e.original_size == c.compressed_data@.len()
}

/// `es2` is `es` with `e` stored: replacing the entry of the same id, or
/// appended when there is none.
pub open spec fn stored_as(es: Seq<VectorEntry>, es2: Seq<VectorEntry>, e: VectorEntry) -> bool {
    if has_entry(es, e.capsule_id@) {
        exists|i: int| 0 <= i < es.len() && (#[trigger] es[i]).capsule_id@ == e.capsule_id@ && es2 == es.update(i, e)
    } else {
        es2 == es.push(e)
    }
}

/// An entry is stale at `now` when it is more than thirty days old and was
/// accessed fewer than three times.
pub open spec fn is_stale(e: VectorEntry, now: u64) -> bool {
    &&& (e.timestamp as int) + (STALE_AFTER_MS as int) < (now as int)
    &&& e.access_pattern.total_accesses < KEEP_ACCESSES
}

pub open spec fn not_stale(now: u64) -> spec_fn(VectorEntry) -> bool {
    |e: VectorEntry| !is_stale(e, now)
}

fn total_size(es: &Vec<VectorEntry>) -> (r: u64)
    ensures
        r == min(size_sum(es@), u64::MAX as int),
{
    let mut s: u64 = 0;
    let mut i: usize = 0;
    while i < es.len()
        invariant
            0 <= i <= es@.len(),
            s == min(size_sum(es@.subrange(0, i as int)), u64::MAX as int),
        decreases es@.len() - i,
    {
        assert(es@.subrange(0, i as int + 1).drop_last() == es@.subrange(0, i as int));
        proof {
            lemma_size_sum_nonneg(es@.subrange(0, i as int));
        }
        let n = es[i].original_size as u64;
        if s > u64::MAX - n {
            s = u64::MAX;
        } else {
            s = s + n;
        }
        i += 1;
    }
    assert(es@.subrange(0, es@.len() as int) == es@);
    s
}

proof fn lemma_size_sum_nonneg(es: Seq<VectorEntry>)
    ensures
        size_sum(es) >= 0,
    decreases es.len(),
{
    if es.len() > 0 {
        lemma_size_sum_nonneg(es.drop_last());
    }
}

fn find_entry(es: &Vec<VectorEntry>, id: &String) -> (r: Option<usize>)
    ensures
        match r {
            Some(i) => i < es@.len() && es@[i as int].capsule_id@ == id@,
            None => forall|j: int| 0 <= j < es@.len() ==> (#[trigger] es@[j]).capsule_id@ != id@,
        },
{
    let mut i: usize = 0;
    while i < es.len()
        invariant
            0 <= i <= es@.len(),
            forall|j: int| 0 <= j < i ==> (#[trigger] es@[j]).capsule_id@ != id@,
        decreases es@.len() - i,
    {
        if es[i].capsule_id == *id {
            return Some(i);
        }
        i += 1;
    }
    None
}

fn find_hash(h: &Vec<(String, String)>, id: &String) -> (r: Option<usize>)
    ensures
        match r {
            Some(i) => i < h@.len() && h@[i as int].0@ == id@,
            None => forall|j: int| 0 <= j < h@.len() ==> (#[trigger] h@[j]).0@ != id@,
        },
{
    let mut i: usize = 0;
    while i < h.len()
        invariant
            0 <= i <= h@.len(),
            forall|j: int| 0 <= j < i ==> (#[trigger] h@[j]).0@ != id@,
        decreases h@.len() - i,
    {
        if h[i].0 == *id {
            return Some(i);
        }
        i += 1;
    }
    None
}

impl VectorMemoryDatabase {
    /// The store's invariant: entry ids are unique, every entry has a
    /// bounded 128-slot embedding and a quality in [0, 1], the three indices
    /// and the ledger references agree with the entries, and the total size
    /// is the (saturated) sum of payload sizes.
    pub closed spec fn wf(&self) -> bool {
        &&& unique_keys(self.vector_index@, entry_key())
        &&& forall|k: int| 0 <= k < self.vector_index@.len() ==> entry_ok(#[trigger] self.vector_index@[k])
        &&& temporal_ok(self.temporal_index@, self.vector_index@)
        &&& quality_ok(self.quality_rankings@, self.vector_index@)
        &&& clusters_ok(self.semantic_clusters@, self.vector_index@)
        &&& hashes_ok(self.blockchain_hashes@, self.vector_index@)
        &&& self.total_memory_size == min(size_sum(self.vector_index@), u64::MAX as int)
        &&& self.vector_index@.len() > 0 ==> self.average_vector_dimension == EMBEDDING_DIM
    }

    /// The entries, in order of first storage.
    pub closed spec fn entries(&self) -> Seq<VectorEntry> {
        self.vector_index@
    }

    pub closed spec fn entry(&self, id: Seq<char>) -> Option<VectorEntry> {
        lookup(self.vector_index@, entry_key(), id)
    }

    /// The ledger reference recorded for a capsule id.
    pub closed spec fn ledger_reference(&self, id: Seq<char>) -> Option<(String, String)> {
        lookup(self.blockchain_hashes@, hash_key(), id)
    }

    /// The recorded ledger references, as (capsule id, reference) pairs.
    pub closed spec fn references(&self) -> Seq<(String, String)> {
        self.blockchain_hashes@
    }

    /// The tag index, as (tag, capsule ids) pairs.
    pub closed spec fn clusters(&self) -> Seq<(String, Vec<String>)> {
        self.semantic_clusters@
    }

    pub closed spec fn total_size(&self) -> u64 {
        self.total_memory_size
    }

    pub closed spec fn temporal_len(&self) -> nat {
        self.temporal_index@.len()
    }

    /// The temporal index, as (time, capsule id) pairs ascending by time.
    pub closed spec fn temporal(&self) -> Seq<(u64, String)> {
        self.temporal_index@
    }

    /// The quality index, as (quality, capsule id) pairs descending by
    /// quality.
    pub closed spec fn quality_index(&self) -> Seq<(i64, String)> {
        self.quality_rankings@
    }

    /// What the store's invariant says of its indices, in terms a caller
    /// sees: entry ids are unique; the temporal and quality indices hold one
    /// sorted item per entry, each naming an entry; every tag list is
    /// non-empty and names entries that carry the tag; every ledger
    /// reference names an entry; the total size is the (saturated) sum of
    /// payload sizes.
    pub open spec fn indices_agree(&self) -> bool {
        &&& unique_keys(self.entries(), entry_key())
        &&& temporal_ok(self.temporal(), self.entries())
        &&& quality_ok(self.quality_index(), self.entries())
        &&& clusters_ok(self.clusters(), self.entries())
        &&& hashes_ok(self.references(), self.entries())
        &&& self.temporal_len() == self.entries().len()
        &&& self.cluster_count() == self.clusters().len()
        &&& self.total_size() == min(size_sum(self.entries()), u64::MAX as int)
    }

    pub closed spec fn cluster_count(&self) -> nat {
        self.semantic_clusters@.len()
    }

    pub closed spec fn average_dimension(&self) -> usize {
        self.average_vector_dimension
    }

    pub closed spec fn last_consolidation(&self) -> u64 {
        self.last_consolidation_time
    }

    pub fn new(now: u64) -> (r: Self)
        ensures
            r.wf(),
            r.indices_agree(),
            r.entries().len() == 0,
            r.total_size() == 0,
            r.temporal_len() == 0,
            r.cluster_count() == 0,
            r.average_dimension() == 0,
            r.last_consolidation() == now,
    {
        VectorMemoryDatabase {
            vector_index: Vec::new(),
            blockchain_hashes: Vec::new(),
            semantic_clusters: Vec::new(),
            temporal_index: Vec::new(),
            quality_rankings: Vec::new(),
            total_memory_size: 0,
            average_vector_dimension: 0,
            last_consolidation_time: now,
        }
    }

    /// Rebuilds the three indices and the total size from the entries.
    fn reindex(&mut self)
        requires
            unique_keys(old(self).vector_index@, entry_key()),
            forall|k: int|
                0 <= k < old(self).vector_index@.len() ==> entry_ok(#[trigger] old(self).vector_index@[k]),
            hashes_ok(old(self).blockchain_hashes@, old(self).vector_index@),
            old(self).vector_index@.len() > 0 ==> old(self).average_vector_dimension == EMBEDDING_DIM,
        ensures
            final(self).wf(),
            final(self).vector_index == old(self).vector_index,
            final(self).blockchain_hashes == old(self).blockchain_hashes,
            final(self).average_vector_dimension == old(self).average_vector_dimension,
            final(self).last_consolidation_time == old(self).last_consolidation_time,
    {
        self.temporal_index = build_temporal_index(&self.vector_index);
        self.quality_rankings = build_quality_index(&self.vector_index);
        self.semantic_clusters = build_clusters(&self.vector_index);
        self.total_memory_size = total_size(&self.vector_index);
    }

    /// Stores a capsule with the given padding noise and ledger reference,
    /// replacing any entry of the same id. A malformed capsule changes
    /// nothing and yields `false`.
    pub fn store_memory_capsule_with(
        &mut self,
        capsule: &MemoryCapsule,
        blockchain_hash: String,
        jitter: &Vec<i64>,
    ) -> (r: bool)
        requires
            old(self).wf(),
            jitter_ok(jitter@),
        ensures
            final(self).wf(),
            final(self).indices_agree(),
            r == capsule.in_range(),
            !r ==> *final(self) == *old(self),
            r ==> {
                &&& final(self).entry(capsule.capsule_id@) matches Some(e) && entry_for(
                    e,
                    *capsule,
                    jitter@,
                ) && stored_as(old(self).entries(), final(self).entries(), e)
                &&& forall|k: Seq<char>|
                    k != capsule.capsule_id@ ==> #[trigger] final(self).entry(k) == old(self).entry(k)
                &&& final(self).entries().len() == old(self).entries().len() + if old(self).entry(
                    capsule.capsule_id@,
                ) is Some {
                    0int
                } else {
                    1int
                }
                &&& final(self).ledger_reference(capsule.capsule_id@) matches Some(h) && h.1@
                    == blockchain_hash@
                &&& final(self).average_dimension() == EMBEDDING_DIM
                &&& final(self).last_consolidation() == old(self).last_consolidation()
            },
    {
        if !capsule.is_well_formed() {
            return false;
        }
        let embedding_vector = generate_semantic_embedding(capsule, jitter);
        let metadata_vector = generate_metadata_vector(capsule);
        let entry = VectorEntry {
            capsule_id: capsule.capsule_id.clone(),
            embedding_vector,
            metadata_vector,
            context_tags: capsule.semantic_tags.clone(),
            timestamp: capsule.timestamp,
            quality_score: calculate_enhanced_quality_score(capsule),
            importance_score: capsule.importance_score,
            access_pattern: AccessPattern {
                total_accesses: 0,
                recent_accesses: Vec::new(),
                access_contexts: Vec::new(),
                collaborative_filters: Vec::new(),
            },
            compression_ratio: calculate_compression_ratio(capsule),
            original_size: capsule.compressed_data.len(),
        };
        assert(entry_for(entry, *capsule, jitter@));
        let ghost es0 = self.vector_index@;
        match find_entry(&self.vector_index, &capsule.capsule_id) {
            Some(i) => {
                proof {
                    lemma_lookup_update(es0, entry_key(), i as int, entry);
                    lemma_lookup_at(es0, entry_key(), i as int);
                }
                self.vector_index.set(i, entry);
                assert(has_entry(es0, entry.capsule_id@));
                assert(stored_as(es0, self.vector_index@, entry));
            },
            None => {
                proof {
                    lemma_lookup_push(es0, entry_key(), entry);
                    lemma_lookup_absent(es0, entry_key(), capsule.capsule_id@);
                }
                self.vector_index.push(entry);
                assert(!has_entry(es0, entry.capsule_id@));
            },
        }
        let ghost es1 = self.vector_index@;
        assert(stored_as(es0, es1, entry));
        assert forall|k: int| 0 <= k < es1.len() implies entry_ok(#[trigger] es1[k]) by {
            if k < es0.len() && es1[k] != entry {
                assert(es1[k] == es0[k]);
            }
        }
        let pair = (capsule.capsule_id.clone(), blockchain_hash);
        let ghost h0 = self.blockchain_hashes@;
        match find_hash(&self.blockchain_hashes, &capsule.capsule_id) {
            Some(j) => {
                proof {
                    lemma_lookup_update(h0, hash_key(), j as int, pair);
                }
                self.blockchain_hashes.set(j, pair);
            },
            None => {
                proof {
                    lemma_lookup_push(h0, hash_key(), pair);
                }
                self.blockchain_hashes.push(pair);
            },
        }
        assert(has_entry(es1, capsule.capsule_id@)) by {
            lemma_lookup_at(es1, entry_key(), choose|k: int| 0 <= k < es1.len() && (#[trigger] es1[k]).capsule_id@ == capsule.capsule_id@);
        }
        assert forall|j: int| 0 <= j < self.blockchain_hashes@.len() implies has_entry(
            es1,
            (#[trigger] self.blockchain_hashes@[j]).0@,
        ) by {
            let hid = self.blockchain_hashes@[j].0@;
            if hid != capsule.capsule_id@ {
                let j0 = choose|j0: int| 0 <= j0 < h0.len() && h0[j0].0@ == hid;
                assert(h0[j0].0@ == hid);
                assert(has_entry(es0, hid));
                let k = choose|k: int| 0 <= k < es0.len() && (#[trigger] es0[k]).capsule_id@ == hid;
                if k < es1.len() && es1[k].capsule_id@ == hid {
                } else {
                    assert(es1[k] == entry);
                }
            }
        }
        self.average_vector_dimension = EMBEDDING_DIM;
        self.reindex();
        true
    }
}

} // verus!

verus! {

fn stale(e: &VectorEntry, now: u64) -> (r: bool)
    ensures
        r == is_stale(*e, now),
{
    (e.timestamp as u128) + (STALE_AFTER_MS as u128) < (now as u128)
        && e.access_pattern.total_accesses < KEEP_ACCESSES
}

/// Evicting twice at the same time removes nothing the second time: no
/// entry that survives an eviction at `now` is stale at `now`.
pub proof fn lemma_eviction_idempotent(entries: Seq<VectorEntry>, now: u64)
    ensures
        entries.filter(not_stale(now)).filter(not_stale(now)) == entries.filter(not_stale(now)),
    decreases entries.len(),
{
    let p = not_stale(now);
    if entries.len() > 0 {
        lemma_eviction_idempotent(entries.drop_last(), now);
        let f = entries.drop_last().filter(p);
        let x = entries.last();
        assert(entries == entries.drop_last().push(x));
        entries.drop_last().lemma_filter_push(x, p);
        if p(x) {
            f.lemma_filter_push(x, p);
        }
    }
}

impl VectorMemoryDatabase {
    /// Draws the padding noise and stores the capsule as
    /// `store_memory_capsule_with` does.
    pub fn store_memory_capsule(&mut self, capsule: &MemoryCapsule, blockchain_hash: String) -> (r:
        bool)
        requires
            old(self).wf(),
        ensures
            final(self).wf(),
            final(self).indices_agree(),
            r == capsule.in_range(),
            !r ==> *final(self) == *old(self),
            r ==> {
                &&& final(self).entry(capsule.capsule_id@) matches Some(e) && {
                    &&& exists|j: Seq<i64>| jitter_ok(j) && entry_for(e, *capsule, j)
                    &&& stored_as(old(self).entries(), final(self).entries(), e)
                }
                &&& final(self).entries().len() == old(self).entries().len() + if old(self).entry(
                    capsule.capsule_id@,
                ) is Some {
                    0int
                } else {
                    1int
                }
                &&& final(self).average_dimension() == EMBEDDING_DIM
                &&& forall|k: Seq<char>|
                    k != capsule.capsule_id@ ==> #[trigger] final(self).entry(k) == old(self).entry(k)
                &&& final(self).ledger_reference(capsule.capsule_id@) matches Some(h) && h.1@
                    == blockchain_hash@
            },
    {
        let mut jitter: Vec<i64> = Vec::new();
        let mut i: usize = 0;
        while i < JITTER_SLOTS
            invariant
                0 <= i <= JITTER_SLOTS,
                jitter@.len() == i,
                bounded_by(jitter@, SCALE as int),
            decreases JITTER_SLOTS - i,
        {
            jitter.push(crate::entropy::random_jitter());
            i += 1;
        }
        self.store_memory_capsule_with(capsule, blockchain_hash, &jitter)
    }

    /// Evicts every entry older than thirty days at `now` that was accessed
    /// fewer than three times, from the entries, the ledger references and
    /// all three indices at once; then rebuilds the tag index and the total
    /// size from what remains.
    pub fn consolidate_memory(&mut self, now: u64) -> (r: bool)
        requires
            old(self).wf(),
        ensures
            r,
            final(self).wf(),
            final(self).indices_agree(),
            final(self).entries() == old(self).entries().filter(not_stale(now)),
            final(self).total_size() == min(size_sum(final(self).entries()), u64::MAX as int),
            final(self).last_consolidation() == now,
            final(self).average_dimension() == old(self).average_dimension(),
    {
        let mut pool: Vec<VectorEntry> = Vec::new();
        std::mem::swap(&mut pool, &mut self.vector_index);
        let ghost s0 = pool@;
        let ghost p = not_stale(now);
        let mut kept: Vec<VectorEntry> = Vec::new();
        let mut i: usize = 0;
        let n = pool.len();
        while i < n
            invariant
                0 <= i <= n,
                n == s0.len(),
                pool@ == s0.subrange(i as int, n as int),
                kept@ == s0.subrange(0, i as int).filter(p),
                p == not_stale(now),
                unique_keys(s0, entry_key()),
                unique_keys(kept@, entry_key()),
                forall|j: int|
                    0 <= j < kept@.len() ==> exists|k: int|
                        0 <= k < i && (#[trigger] kept@[j]) == #[trigger] s0[k],
            decreases n - i,
        {
            let e = pool.remove(0);
            assert(e == s0[i as int]);
            assert(s0.subrange(0, i as int + 1).drop_last() == s0.subrange(0, i as int));
            assert(s0.subrange(0, i as int + 1).last() == s0[i as int]);
            assert(pool@ == s0.subrange(i as int + 1, n as int));
            assert(s0.subrange(0, i as int + 1) == s0.subrange(0, i as int).push(s0[i as int]));
            proof {
                s0.subrange(0, i as int).lemma_filter_push(s0[i as int], p);
            }
            assert(s0.subrange(0, i as int + 1).filter(p) == if p(s0[i as int]) {
                s0.subrange(0, i as int).filter(p).push(s0[i as int])
            } else {
                s0.subrange(0, i as int).filter(p)
            });
            if !stale(&e, now) {
                let ghost k0 = kept@;
                assert forall|j: int| 0 <= j < k0.len() implies (#[trigger] k0[j]).capsule_id@
                    != e.capsule_id@ by {
                    let k = choose|k: int| 0 <= k < i && (#[trigger] k0[j]) == #[trigger] s0[k];
                    assert(k0[j] == s0[k]);
                }
                kept.push(e);
                assert forall|a: int, b: int|
                    0 <= a < kept@.len() && 0 <= b < kept@.len() && a != b implies (entry_key())(
                    #[trigger] kept@[a],
                ) != (entry_key())(#[trigger] kept@[b]) by {
                    if a < k0.len() && b < k0.len() {
                        assert(kept@[a] == k0[a] && kept@[b] == k0[b]);
                    } else if a < k0.len() {
                        assert(kept@[a] == k0[a]);
                    } else {
                        assert(kept@[b] == k0[b]);
                    }
                }
                assert forall|j: int| 0 <= j < kept@.len() implies exists|k: int|
                    0 <= k < i + 1 && (#[trigger] kept@[j]) == #[trigger] s0[k] by {
                    if j < k0.len() {
                        assert(kept@[j] == k0[j]);
                        let k = choose|k: int| 0 <= k < i && (#[trigger] k0[j]) == #[trigger] s0[k];
                        assert(kept@[j] == s0[k]);
                    } else {
                        assert(kept@[j] == s0[i as int]);
                    }
                }
            }
            i += 1;
        }
        assert(s0.subrange(0, n as int) == s0);
        assert forall|k: int| 0 <= k < kept@.len() implies entry_ok(#[trigger] kept@[k]) by {
            let k2 = choose|k2: int| 0 <= k2 < n && (#[trigger] kept@[k]) == #[trigger] s0[k2];
            assert(entry_ok(s0[k2]));
        }
        let mut refs: Vec<(String, String)> = Vec::new();
        std::mem::swap(&mut refs, &mut self.blockchain_hashes);
        let ghost h0 = refs@;
        let mut kept_refs: Vec<(String, String)> = Vec::new();
        let m = refs.len();
        let mut j: usize = 0;
        while j < m
            invariant
                0 <= j <= m,
                m == h0.len(),
                refs@ == h0.subrange(j as int, m as int),
                unique_keys(h0, hash_key()),
                unique_keys(kept_refs@, hash_key()),
                forall|a: int|
                    0 <= a < kept_refs@.len() ==> exists|k: int|
                        0 <= k < j && (#[trigger] kept_refs@[a]) == #[trigger] h0[k],
                forall|a: int| 0 <= a < kept_refs@.len() ==> has_entry(kept@, (#[trigger] kept_refs@[a]).0@),
            decreases m - j,
        {
            let pr = refs.remove(0);
            assert(pr == h0[j as int]);
            assert(refs@ == h0.subrange(j as int + 1, m as int));
            match find_entry(&kept, &pr.0) {
                Some(idx) => {
                    let ghost r0 = kept_refs@;
                    assert forall|a: int| 0 <= a < r0.len() implies (#[trigger] r0[a]).0@ != pr.0@ by {
                        let k = choose|k: int| 0 <= k < j && (#[trigger] r0[a]) == #[trigger] h0[k];
                        assert(r0[a] == h0[k]);
                    }
                    assert(has_entry(kept@, pr.0@)) by {
                        assert(kept@[idx as int].capsule_id@ == pr.0@);
                    }
                    kept_refs.push(pr);
                    assert forall|a: int, b: int|
                        0 <= a < kept_refs@.len() && 0 <= b < kept_refs@.len() && a != b implies (hash_key())(
                        #[trigger] kept_refs@[a],
                    ) != (hash_key())(#[trigger] kept_refs@[b]) by {
                        if a < r0.len() && b < r0.len() {
                            assert(kept_refs@[a] == r0[a] && kept_refs@[b] == r0[b]);
                        } else if a < r0.len() {
                            assert(kept_refs@[a] == r0[a]);
                        } else {
                            assert(kept_refs@[b] == r0[b]);
                        }
                    }
                    assert forall|a: int| 0 <= a < kept_refs@.len() implies exists|k: int|
                        0 <= k < j + 1 && (#[trigger] kept_refs@[a]) == #[trigger] h0[k] by {
                        if a < r0.len() {
                            assert(kept_refs@[a] == r0[a]);
                            let k = choose|k: int| 0 <= k < j && (#[trigger] r0[a]) == #[trigger] h0[k];
                            assert(kept_refs@[a] == h0[k]);
                        } else {
                            assert(kept_refs@[a] == h0[j as int]);
                        }
                    }
                    assert forall|a: int| 0 <= a < kept_refs@.len() implies has_entry(kept@, (#[trigger] kept_refs@[a]).0@) by {
                        if a < r0.len() {
                            assert(kept_refs@[a] == r0[a]);
                        }
                    }
                },
                None => {},
            }
            j += 1;
        }
        self.vector_index = kept;
        self.blockchain_hashes = kept_refs;
        self.last_consolidation_time = now;
        self.reindex();
        true
    }
}

} // verus!

verus! {

#[derive(Clone, Copy, Debug, PartialEq, Eq, Structural)]
pub enum SearchAlgorithm {
    CosineSimilarity,
    EuclideanDistance,
    DotProduct,
    Hybrid,
}

/// A similarity query: a probe vector, an optional tag filter, an optional
/// inclusive time range, a quality floor, a result cap and a similarity
/// function.
#[derive(Clone, Debug)]
pub struct VectorSearchQuery {
    pub query_vector: Vec<i64>,
    pub context_filter: Vec<String>,
    pub time_range: Option<(u64, u64)>,
    pub quality_threshold: i64,
    pub max_results: usize,
    pub search_algorithm: SearchAlgorithm,
}

/// An entry that passed a query's filters, with its scores and its age at
/// the time of the query; the recency weight is computed from the age.
#[derive(Clone, Debug)]
pub struct SearchCandidate {
    pub capsule_id: String,
    pub similarity_score: i64,
    pub quality_score: i64,
    pub context_match: i64,
    pub age_ms: u64,
    pub blockchain_verified: bool,
}

#[derive(Clone, Debug)]
pub struct SearchResult {
    pub capsule_id: String,
    pub similarity_score: i64,
    pub quality_score: i64,
    pub relevance_score: i64,
    pub context_match: i64,
    pub blockchain_verified: bool,
}

/// Largest similarity magnitude a candidate can carry.
pub const MAX_SIMILARITY: i64 = 0x1000_0000_0000_0000;

/// Tag overlap below which a filtered query skips an entry (0.3).
pub const MIN_CONTEXT_MATCH: i64 = 300_000;

impl VectorSearchQuery {
    /// A query is well formed when its probe has at most `MAX_DIM`
    /// components, each within `QUERY_LIMIT`.
    pub open spec fn in_range(&self) -> bool {
        &&& self.query_vector@.len() <= MAX_DIM
        &&& self.context_filter@.len() <= MAX_DIM
        &&& bounded_by(self.query_vector@, crate::vector_math::QUERY_LIMIT as int)
    }
}

/// How many filter tags the entry carries.
pub open spec fn match_count(filter: Seq<String>, tags: Seq<String>) -> int
    decreases filter.len(),
{
    if filter.len() == 0 {
        0
    } else {
        match_count(filter.drop_last(), tags) + if has_tag(tags, filter.last()@) {
            1int
        } else {
            0int
        }
    }
}

/// The share of the filter's tags that the entry carries; one when there
/// is no filter.
pub open spec fn context_match_of(filter: Seq<String>, tags: Seq<String>) -> int {
    if filter.len() == 0 {
        SCALE as int
    } else {
        match_count(filter, tags) * SCALE / (filter.len() as int)
    }
}

/// An entry survives a query's filters.
pub open spec fn passes(e: VectorEntry, q: VectorSearchQuery) -> bool {
    &&& (q.context_filter@.len() == 0 || context_match_of(q.context_filter@, e.context_tags@)
        >= MIN_CONTEXT_MATCH)
    &&& match q.time_range {
        Some((start, end)) => start <= e.timestamp <= end,
        None => true,
    }
    &&& e.quality_score >= q.quality_threshold
}

/// Inverse Euclidean similarity `1 / (1 + d)` in millionths.
pub open spec fn inverse_distance(d: int) -> int {
    SCALE * SCALE / (SCALE + d)
}

pub open spec fn similarity_of(alg: SearchAlgorithm, q: Seq<i64>, e: Seq<i64>) -> int {
    match alg {
        SearchAlgorithm::CosineSimilarity => crate::vector_math::cosine_spec(q, e),
        SearchAlgorithm::EuclideanDistance => inverse_distance(
            crate::vector_math::distance_spec(q, e),
        ),
        SearchAlgorithm::DotProduct => div_trunc(crate::vector_math::dot(q, e), SCALE as int),
        SearchAlgorithm::Hybrid => div_trunc(
            7 * crate::vector_math::cosine_spec(q, e) + 3 * inverse_distance(
                crate::vector_math::distance_spec(q, e),
            ),
            10,
        ),
    }
}

pub open spec fn age_of(e: VectorEntry, now: u64) -> u64 {
    if now >= e.timestamp {
        (now - e.timestamp) as u64
    } else {
        0
    }
}

pub open spec fn candidate_is(
    c: SearchCandidate,
    e: VectorEntry,
    q: VectorSearchQuery,
    verified: bool,
    now: u64,
) -> bool {
    &&& c.capsule_id == e.capsule_id
    &&& c.similarity_score == similarity_of(q.search_algorithm, q.query_vector@, e.embedding_vector@)
    &&& c.quality_score == e.quality_score
    &&& c.context_match == (if q.context_filter@.len() == 0 {
        SCALE as int
    } else {
        context_match_of(q.context_filter@, e.context_tags@)
    })
    &&& c.age_ms == age_of(e, now)
    &&& c.blockchain_verified == verified
}

pub open spec fn candidate_bounded(c: SearchCandidate) -> bool {
    &&& -MAX_SIMILARITY <= c.similarity_score <= MAX_SIMILARITY
    &&& 0 <= c.quality_score <= SCALE
    &&& 0 <= c.context_match <= SCALE
}

fn tag_present(tags: &Vec<String>, t: &String) -> (r: bool)
    ensures
        r == has_tag(tags@, t@),
{
    let mut i: usize = 0;
    while i < tags.len()
        invariant
            0 <= i <= tags@.len(),
            forall|j: int| 0 <= j < i ==> (#[trigger] tags@[j])@ != t@,
        decreases tags@.len() - i,
    {
        if tags[i] == *t {
            return true;
        }
        i += 1;
    }
    false
}

proof fn lemma_match_count_bounds(filter: Seq<String>, tags: Seq<String>)
    ensures
        0 <= match_count(filter, tags) <= filter.len(),
    decreases filter.len(),
{
    if filter.len() > 0 {
        lemma_match_count_bounds(filter.drop_last(), tags);
    }
}

pub fn calculate_context_match(filter: &Vec<String>, tags: &Vec<String>) -> (r: i64)
    requires
        filter@.len() <= MAX_DIM,
        tags@.len() <= MAX_DIM,
    ensures
        r == context_match_of(filter@, tags@),
        0 <= r <= SCALE,
{
    if filter.len() == 0 {
        return SCALE;
    }
    let mut count: usize = 0;
    let mut i: usize = 0;
    while i < filter.len()
        invariant
            0 <= i <= filter@.len(),
            filter@.len() <= MAX_DIM,
            count == match_count(filter@.subrange(0, i as int), tags@),
            count <= i,
        decreases filter@.len() - i,
    {
        assert(filter@.subrange(0, i as int + 1).drop_last() == filter@.subrange(0, i as int));
        if tag_present(tags, &filter[i]) {
            count += 1;
        }
        i += 1;
    }
    assert(filter@.subrange(0, filter@.len() as int) == filter@);
    let den: i64 = filter.len() as i64;
    proof {
        lemma_match_count_bounds(filter@, tags@);
    }
    let r = (count as i64) * SCALE;
    assert(0 <= r / den <= SCALE) by (nonlinear_arith)
        requires
            0 <= count <= filter@.len(),
            filter@.len() <= den,
            den >= 1,
            r == count * SCALE,
    ;
    r / den
}

} // verus!

verus! {

/// The similarity of a probe to an embedding under the chosen function.
pub fn similarity(alg: SearchAlgorithm, q: &Vec<i64>, e: &Vec<i64>) -> (r: i64)
    requires
        q@.len() <= MAX_DIM,
        bounded_by(q@, crate::vector_math::QUERY_LIMIT as int),
        e@.len() == EMBEDDING_DIM,
        bounded_by(e@, SCALE as int),
    ensures
        r == similarity_of(alg, q@, e@),
        -MAX_SIMILARITY <= r <= MAX_SIMILARITY,
{
    match alg {
        SearchAlgorithm::CosineSimilarity => crate::vector_math::cosine_similarity(q, e),
        SearchAlgorithm::EuclideanDistance => {
            let d = crate::vector_math::euclidean_distance(q, e);
            let r = (SCALE as i128 * SCALE as i128) / (SCALE as i128 + d as i128);
            assert(0 <= r <= SCALE) by (nonlinear_arith)
                requires
                    d >= 0,
                    r == (SCALE * SCALE) / (SCALE + d),
            ;
            r as i64
        },
        SearchAlgorithm::DotProduct => {
            let d = crate::vector_math::dot_product(q, e);
            proof {
                crate::vector_math::lemma_dot_bound(
                    q@,
                    e@,
                    min(q@.len() as int, e@.len() as int),
                    crate::vector_math::QUERY_LIMIT as int,
                    SCALE as int,
                );
                assert(min(q@.len() as int, e@.len() as int) * (crate::vector_math::QUERY_LIMIT
                    * SCALE) <= 128 * (crate::vector_math::QUERY_LIMIT * SCALE)) by (nonlinear_arith)
                    requires
                        0 <= min(q@.len() as int, e@.len() as int) <= 128,
                ;
            }
            (d / (SCALE as i128)) as i64
        },
        SearchAlgorithm::Hybrid => {
            let c = crate::vector_math::cosine_similarity(q, e);
            let d = crate::vector_math::euclidean_distance(q, e);
            let inv = (SCALE as i128 * SCALE as i128) / (SCALE as i128 + d as i128);
            assert(0 <= inv <= SCALE) by (nonlinear_arith)
                requires
                    d >= 0,
                    inv == (SCALE * SCALE) / (SCALE + d),
            ;
            ((7 * (c as i128) + 3 * inv) / 10) as i64
        },
    }
}

impl VectorMemoryDatabase {
    /// Whether a ledger reference is recorded for `id`.
    fn is_verified(&self, id: &String) -> (r: bool)
        ensures
            r == has_key(self.blockchain_hashes@, hash_key(), id@),
    {
        match find_hash(&self.blockchain_hashes, id) {
            Some(j) => true,
            None => false,
        }
    }

    /// The candidates of a query among the first `n` entries, in entry
    /// order.
    pub open spec fn candidates_upto(&self, q: VectorSearchQuery, now: u64, n: int) -> Seq<
        SearchCandidate,
    >
        decreases n,
    {
        if n <= 0 {
            Seq::empty()
        } else {
            let rest = self.candidates_upto(q, now, n - 1);
            let e = self.entries()[n - 1];
            if passes(e, q) {
                rest.push(
                    SearchCandidate {
                        capsule_id: e.capsule_id,
                        similarity_score: similarity_of(
                            q.search_algorithm,
                            q.query_vector@,
                            e.embedding_vector@,
                        ) as i64,
                        quality_score: e.quality_score,
                        context_match: (if q.context_filter@.len() == 0 {
                            SCALE as int
                        } else {
                            context_match_of(q.context_filter@, e.context_tags@)
                        }) as i64,
                        age_ms: age_of(e, now),
                        blockchain_verified: has_key(
                            self.references(),
                            hash_key(),
                            e.capsule_id@,
                        ),
                    },
                )
            } else {
                rest
            }
        }
    }

    /// The entries that survive a query's filters, in entry order, each
    /// with its similarity, quality, context match, age and ledger status.
    pub open spec fn candidates(&self, q: VectorSearchQuery, now: u64) -> Seq<SearchCandidate> {
        self.candidates_upto(q, now, self.entries().len() as int)
    }

    /// Scores every entry against a query: an entry is skipped when a tag
    /// filter is given and it carries under 0.3 of it, when it lies outside
    /// the time range, or when its quality is under the floor. A malformed
    /// query yields no candidates.
    pub fn search_candidates(&self, query: &VectorSearchQuery, now: u64) -> (r: Vec<SearchCandidate>)
        requires
            self.wf(),
        ensures
            query.in_range() ==> r@ == self.candidates(*query, now),
            !query.in_range() ==> r@.len() == 0,
            forall|j: int| 0 <= j < r@.len() ==> candidate_bounded(#[trigger] r@[j]),
            forall|j: int| 0 <= j < r@.len() ==> has_entry(self.entries(), (#[trigger] r@[j]).capsule_id@),
            forall|a: int, b: int|
                0 <= a < b < r@.len() ==> (#[trigger] r@[a]).capsule_id@ != (#[trigger] r@[b]).capsule_id@,
    {
        let mut out: Vec<SearchCandidate> = Vec::new();
        if query.query_vector.len() > MAX_DIM || query.context_filter.len() > MAX_DIM
            || !crate::vector_math::all_within(&query.query_vector, crate::vector_math::QUERY_LIMIT) {
            return out;
        }
        let mut i: usize = 0;
        while i < self.vector_index.len()
            invariant
                0 <= i <= self.vector_index@.len(),
                self.wf(),
                query.in_range(),
                out@ == self.candidates_upto(*query, now, i as int),
                forall|j: int| 0 <= j < out@.len() ==> candidate_bounded(#[trigger] out@[j]),
                forall|j: int|
                    0 <= j < out@.len() ==> exists|k: int|
                        0 <= k < i && (#[trigger] self.vector_index@[k]).capsule_id@ == (#[trigger] out@[j]).capsule_id@,
                forall|a: int, b: int|
                    0 <= a < b < out@.len() ==> (#[trigger] out@[a]).capsule_id@ != (#[trigger] out@[b]).capsule_id@,
            decreases self.vector_index@.len() - i,
        {
            let e = &self.vector_index[i];
            assert(entry_ok(self.vector_index@[i as int]));
            let filtered = query.context_filter.len() > 0;
            let cm = calculate_context_match(&query.context_filter, &e.context_tags);
            let mut keep = !filtered || cm >= MIN_CONTEXT_MATCH;
            match query.time_range {
                Some((start, end)) => {
                    if e.timestamp < start || e.timestamp > end {
                        keep = false;
                    }
                },
                None => {},
            }
            if e.quality_score < query.quality_threshold {
                keep = false;
            }
            if keep {
                let sim = similarity(query.search_algorithm, &query.query_vector, &e.embedding_vector);
                let age = if now >= e.timestamp {
                    now - e.timestamp
                } else {
                    0
                };
                let c = SearchCandidate {
                    capsule_id: e.capsule_id.clone(),
                    similarity_score: sim,
                    quality_score: e.quality_score,
                    context_match: if filtered {
                        cm
                    } else {
                        SCALE
                    },
                    age_ms: age,
                    blockchain_verified: self.is_verified(&e.capsule_id),
                };
                let ghost o0 = out@;
                assert forall|j: int| 0 <= j < o0.len() implies (#[trigger] o0[j]).capsule_id@ != c.capsule_id@ by {
                    let k = choose|k: int|
                        0 <= k < i && (#[trigger] self.vector_index@[k]).capsule_id@ == (#[trigger] o0[j]).capsule_id@;
                    assert((entry_key())(self.vector_index@[k]) != (entry_key())(self.vector_index@[i as int]));
                }
                out.push(c);
                assert forall|j: int| 0 <= j < out@.len() implies exists|k: int|
                    0 <= k < i + 1 && (#[trigger] self.vector_index@[k]).capsule_id@ == (#[trigger] out@[j]).capsule_id@ by {
                    if j < o0.len() {
                        assert(out@[j] == o0[j]);
                    } else {
                        assert(self.vector_index@[i as int].capsule_id@ == out@[j].capsule_id@);
                    }
                }
                assert forall|a: int, b: int|
                    0 <= a < b < out@.len() implies (#[trigger] out@[a]).capsule_id@ != (#[trigger] out@[b]).capsule_id@ by {
                    if b < o0.len() {
                        assert(out@[a] == o0[a] && out@[b] == o0[b]);
                    } else {
                        assert(out@[a] == o0[a]);
                    }
                }
            }
            i += 1;
        }
        assert forall|j: int| 0 <= j < out@.len() implies has_entry(self.entries(), (#[trigger] out@[j]).capsule_id@) by {
            let k = choose|k: int|
                0 <= k < i && (#[trigger] self.vector_index@[k]).capsule_id@ == (#[trigger] out@[j]).capsule_id@;
            assert(self.entries()[k] == self.vector_index@[k]);
        }
        out
    }
}

} // verus!

verus! {

broadcast use vstd::seq_lib::group_to_multiset_ensures;

/// Relevance in millionths: 0.5 similarity + 0.3 quality + 0.1 context
/// match + 0.1 recency.
pub open spec fn relevance_of(c: SearchCandidate, recency: i64) -> int {
    div_trunc(
        5 * c.similarity_score + 3 * c.quality_score + c.context_match + recency,
        10,
    )
}

pub open spec fn result_is(r: SearchResult, c: SearchCandidate, recency: i64) -> bool {
    &&& r.capsule_id == c.capsule_id
    &&& r.similarity_score == c.similarity_score
    &&& r.quality_score == c.quality_score
    &&& r.relevance_score == relevance_of(c, recency)
    &&& r.context_match == c.context_match
    &&& r.blockchain_verified == c.blockchain_verified
}

pub open spec fn by_relevance(r: Seq<SearchResult>) -> bool {
    forall|i: int, j: int|
        0 <= i < j < r.len() ==> (#[trigger] r[i]).relevance_score >= (#[trigger] r[j]).relevance_score
}

/// Recent accesses are those of the last day before `now`.
pub open spec fn recent_at(now: u64) -> spec_fn(u64) -> bool {
    |t: u64| (now as int) - (t as int) < DAY_MS as int
}

/// `e2` is `e` after one more access at `now`.
pub open spec fn touched(e: VectorEntry, e2: VectorEntry, now: u64) -> bool {
    &&& same_shape(e, e2)
    &&& e2.access_pattern.total_accesses == min(
        e.access_pattern.total_accesses + 1,
        u32::MAX as int,
    )
    &&& e2.access_pattern.recent_accesses@ == e.access_pattern.recent_accesses@.push(now).filter(
        recent_at(now),
    )
}

/// The two entries agree on everything the indices depend on.
pub open spec fn same_shape(e: VectorEntry, e2: VectorEntry) -> bool {
    &&& e2.capsule_id == e.capsule_id
    &&& e2.embedding_vector == e.embedding_vector
    &&& e2.metadata_vector == e.metadata_vector
    &&& e2.context_tags == e.context_tags
    &&& e2.timestamp == e.timestamp
    &&& e2.quality_score == e.quality_score
    &&& e2.importance_score == e.importance_score
    &&& e2.compression_ratio == e.compression_ratio
    &&& e2.original_size == e.original_size
}

pub open spec fn returned(r: Seq<SearchResult>, id: Seq<char>) -> bool {
    exists|j: int| 0 <= j < r.len() && (#[trigger] r[j]).capsule_id@ == id
}

proof fn lemma_same_shape_size(es: Seq<VectorEntry>, es2: Seq<VectorEntry>)
    requires
        es.len() == es2.len(),
        forall|k: int| 0 <= k < es.len() ==> same_shape(#[trigger] es[k], es2[k]),
    ensures
        size_sum(es) == size_sum(es2),
    decreases es.len(),
{
    if es.len() > 0 {
        assert forall|k: int| 0 <= k < es.drop_last().len() implies same_shape(
            #[trigger] es.drop_last()[k],
            es2.drop_last()[k],
        ) by {
            assert(same_shape(es[k], es2[k]));
        }
        lemma_same_shape_size(es.drop_last(), es2.drop_last());
        assert(same_shape(es[es.len() - 1], es2[es.len() - 1]));
    }
}

/// Entries changed only in their access patterns keep every index valid.
proof fn lemma_same_shape_indices(
    es: Seq<VectorEntry>,
    es2: Seq<VectorEntry>,
    t: Seq<(u64, String)>,
    q: Seq<(i64, String)>,
    c: Seq<(String, Vec<String>)>,
    h: Seq<(String, String)>,
)
    requires
        es.len() == es2.len(),
        forall|k: int| 0 <= k < es.len() ==> same_shape(#[trigger] es[k], es2[k]),
        unique_keys(es, entry_key()),
        forall|k: int| 0 <= k < es.len() ==> entry_ok(#[trigger] es[k]),
        temporal_ok(t, es),
        quality_ok(q, es),
        clusters_ok(c, es),
        hashes_ok(h, es),
    ensures
        unique_keys(es2, entry_key()),
        forall|k: int| 0 <= k < es2.len() ==> entry_ok(#[trigger] es2[k]),
        temporal_ok(t, es2),
        quality_ok(q, es2),
        clusters_ok(c, es2),
        hashes_ok(h, es2),
        size_sum(es) == size_sum(es2),
{
    assert forall|a: int, b: int|
        0 <= a < es2.len() && 0 <= b < es2.len() && a != b implies (entry_key())(
        #[trigger] es2[a],
    ) != (entry_key())(#[trigger] es2[b]) by {
        assert(same_shape(es[a], es2[a]) && same_shape(es[b], es2[b]));
    }
    assert forall|k: int| 0 <= k < es2.len() implies entry_ok(#[trigger] es2[k]) by {
        assert(same_shape(es[k], es2[k]) && entry_ok(es[k]));
    }
    assert forall|j: int| 0 <= j < t.len() implies has_entry_at(es2, (#[trigger] t[j]).1@, t[j].0) by {
        let k = choose|k: int|
            0 <= k < es.len() && (#[trigger] es[k]).capsule_id@ == t[j].1@ && es[k].timestamp == t[j].0;
        assert(same_shape(es[k], es2[k]));
    }
    assert forall|j: int| 0 <= j < q.len() implies has_entry_scored(es2, (#[trigger] q[j]).1@, q[j].0) by {
        let k = choose|k: int|
            0 <= k < es.len() && (#[trigger] es[k]).capsule_id@ == q[j].1@ && es[k].quality_score == q[j].0;
        assert(same_shape(es[k], es2[k]));
    }
    assert forall|i: int, m: int|
        0 <= i < c.len() && 0 <= m < c[i].1@.len() implies has_entry_tagged(
        es2,
        (#[trigger] c[i].1@[m])@,
        c[i].0@,
    ) by {
        let k = choose|k: int|
            0 <= k < es.len() && (#[trigger] es[k]).capsule_id@ == c[i].1@[m]@ && has_tag(
                es[k].context_tags@,
                c[i].0@,
            );
        assert(same_shape(es[k], es2[k]));
    }
    assert forall|k: int, m: int|
        0 <= k < es2.len() && 0 <= m < es2[k].context_tags@.len() implies listed(
        c,
        (#[trigger] es2[k].context_tags@[m])@,
        es2[k].capsule_id@,
    ) by {
        assert(same_shape(es[k], es2[k]));
        assert(es[k].context_tags@[m] == es2[k].context_tags@[m]);
    }
    assert forall|j: int| 0 <= j < h.len() implies has_entry(es2, (#[trigger] h[j]).0@) by {
        let k = choose|k: int| 0 <= k < es.len() && (#[trigger] es[k]).capsule_id@ == h[j].0@;
        assert(same_shape(es[k], es2[k]));
    }
    lemma_same_shape_size(es, es2);
}

fn id_returned(r: &Vec<SearchResult>, id: &String) -> (b: bool)
    ensures
        b == returned(r@, id@),
{
    let mut j: usize = 0;
    while j < r.len()
        invariant
            0 <= j <= r@.len(),
            forall|a: int| 0 <= a < j ==> (#[trigger] r@[a]).capsule_id@ != id@,
        decreases r@.len() - j,
    {
        if r[j].capsule_id == *id {
            return true;
        }
        j += 1;
    }
    false
}

/// Records one access at `now` on an entry: the counter rises by one
/// (saturating), `now` joins the recent log, and log items a day old or
/// more are dropped.
fn touch(e: VectorEntry, now: u64) -> (e2: VectorEntry)
    ensures
        touched(e, e2, now),
{
    let ghost keep = recent_at(now);
    let ghost src = e.access_pattern.recent_accesses@.push(now);
    let mut log: Vec<u64> = Vec::new();
    let mut i: usize = 0;
    let n = e.access_pattern.recent_accesses.len();
    while i < n
        invariant
            0 <= i <= n,
            n == e.access_pattern.recent_accesses@.len(),
            src == e.access_pattern.recent_accesses@.push(now),
            keep == recent_at(now),
            log@ == src.subrange(0, i as int).filter(keep),
        decreases n - i,
    {
        let t = e.access_pattern.recent_accesses[i];
        assert(t == src[i as int]);
        assert(src.subrange(0, i as int + 1) == src.subrange(0, i as int).push(t));
        proof {
            src.subrange(0, i as int).lemma_filter_push(t, keep);
        }
        if (now as i128) - (t as i128) < (DAY_MS as i128) {
            log.push(t);
        }
        i += 1;
    }
    assert(src.subrange(0, n as int) == e.access_pattern.recent_accesses@);
    assert(src == src.subrange(0, n as int).push(now));
    proof {
        src.subrange(0, n as int).lemma_filter_push(now, keep);
    }
    log.push(now);
    let total = if e.access_pattern.total_accesses < u32::MAX {
        e.access_pattern.total_accesses + 1
    } else {
        u32::MAX
    };
    VectorEntry {
        capsule_id: e.capsule_id,
        embedding_vector: e.embedding_vector,
        metadata_vector: e.metadata_vector,
        context_tags: e.context_tags,
        timestamp: e.timestamp,
        quality_score: e.quality_score,
        importance_score: e.importance_score,
        access_pattern: AccessPattern {
            total_accesses: total,
            recent_accesses: log,
            access_contexts: e.access_pattern.access_contexts,
            collaborative_filters: e.access_pattern.collaborative_filters,
        },
        compression_ratio: e.compression_ratio,
        original_size: e.original_size,
    }
}

} // verus!

verus! {

/// The results that the candidates yield, in candidate order.
pub open spec fn scored(cands: Seq<SearchCandidate>, recency: Seq<i64>) -> Seq<SearchResult> {
    Seq::new(
        cands.len(),
        |i: int|
            SearchResult {
                capsule_id: cands[i].capsule_id,
                similarity_score: cands[i].similarity_score,
                quality_score: cands[i].quality_score,
                relevance_score: relevance_of(cands[i], recency[i]) as i64,
                context_match: cands[i].context_match,
                blockchain_verified: cands[i].blockchain_verified,
            },
    )
}

/// `x` ranks ahead of `y`: higher relevance, or equal relevance and a
/// capsule id earlier in byte order.
pub open spec fn goes_before(x: SearchResult, y: SearchResult) -> bool {
    ||| x.relevance_score > y.relevance_score
    ||| (x.relevance_score == y.relevance_score && crate::text::lex_lt(
        bytes_of(x.capsule_id@),
        bytes_of(y.capsule_id@),
    ))
}

/// `x` placed before the first result it ranks ahead of.
pub open spec fn place(s: Seq<SearchResult>, x: SearchResult) -> Seq<SearchResult>
    decreases s.len(),
{
    if s.len() == 0 {
        seq![x]
    } else if goes_before(x, s[0]) {
        seq![x] + s
    } else {
        seq![s[0]] + place(s.drop_first(), x)
    }
}

/// The results ordered by descending relevance, equal relevance by
/// ascending capsule id (equal ids keeping their order).
pub open spec fn ranked(s: Seq<SearchResult>) -> Seq<SearchResult>
    decreases s.len(),
{
    if s.len() == 0 {
        s
    } else {
        place(ranked(s.drop_last()), s.last())
    }
}

proof fn lemma_place_at(s: Seq<SearchResult>, x: SearchResult, p: int)
    requires
        0 <= p <= s.len(),
        forall|j: int| 0 <= j < p ==> !goes_before(x, #[trigger] s[j]),
        p == s.len() || goes_before(x, s[p]),
    ensures
        place(s, x) == s.insert(p, x),
    decreases s.len(),
{
    if s.len() == 0 {
        assert(s.insert(p, x) == seq![x]);
    } else if p == 0 {
        assert(s.insert(0, x) == seq![x] + s);
    } else {
        let t = s.drop_first();
        assert forall|j: int| 0 <= j < p - 1 implies !goes_before(x, #[trigger] t[j]) by {
            assert(t[j] == s[j + 1]);
        }
        lemma_place_at(t, x, p - 1);
        assert(s.insert(p, x) == seq![s[0]] + t.insert(p - 1, x));
    }
}

fn ahead(x: &SearchResult, y: &SearchResult) -> (r: bool)
    ensures
        r == goes_before(*x, *y),
{
    x.relevance_score > y.relevance_score || (x.relevance_score == y.relevance_score
        && crate::text::bytes_less(x.capsule_id.as_str().as_bytes(), y.capsule_id.as_str().as_bytes()))
}

fn insert_by_relevance(v: &mut Vec<SearchResult>, x: SearchResult)
    requires
        by_relevance(old(v)@),
    ensures
        final(v)@ == place(old(v)@, x),
        by_relevance(final(v)@),
        final(v)@.to_multiset() == old(v)@.to_multiset().insert(x),
        final(v)@.len() == old(v)@.len() + 1,
{
    let mut p: usize = 0;
    while p < v.len() && !ahead(&x, &v[p])
        invariant
            0 <= p <= v@.len(),
            v@ == old(v)@,
            forall|j: int| 0 <= j < p ==> !goes_before(x, #[trigger] v@[j]),
        decreases v@.len() - p,
    {
        p += 1;
    }
    proof {
        lemma_place_at(v@, x, p as int);
    }
    v.insert(p, x);
}

impl VectorMemoryDatabase {
    /// Ranks scored candidates: each gets relevance 0.5 similarity + 0.3
    /// quality + 0.1 context match + 0.1 recency (the recency weight of
    /// candidate `i` is `recency[i]`); they are ordered by descending
    /// relevance (equal relevance by capsule id) and cut to
    /// `max_results`. Only after ranking, each entry returned is touched:
    /// one more access, `now` logged, log items a day old dropped.
    pub fn rank_search_results(
        &mut self,
        candidates: &Vec<SearchCandidate>,
        recency: &Vec<i64>,
        max_results: usize,
        now: u64,
    ) -> (r: Vec<SearchResult>)
        requires
            old(self).wf(),
            recency@.len() == candidates@.len(),
            forall|j: int| 0 <= j < candidates@.len() ==> candidate_bounded(#[trigger] candidates@[j]),
            bounded_by(recency@, SCALE as int),
        ensures
            final(self).wf(),
            final(self).indices_agree(),
            r@.len() == min(candidates@.len() as int, max_results as int),
            by_relevance(r@),
            r@ == ranked(scored(candidates@, recency@)).take(r@.len() as int),
            exists|all: Seq<SearchResult>|
                {
                    &&& by_relevance(all)
                    &&& all.to_multiset() == scored(candidates@, recency@).to_multiset()
                    &&& r@ == all.take(r@.len() as int)
                },
            final(self).entries().len() == old(self).entries().len(),
            forall|k: int|
                0 <= k < old(self).entries().len() ==> {
                    let e = #[trigger] old(self).entries()[k];
                    if returned(r@, e.capsule_id@) {
                        touched(e, final(self).entries()[k], now)
                    } else {
                        final(self).entries()[k] == e
                    }
                },
            final(self).average_dimension() == old(self).average_dimension(),
            final(self).last_consolidation() == old(self).last_consolidation(),
    {
        let ghost target = scored(candidates@, recency@);
        let mut sorted: Vec<SearchResult> = Vec::new();
        let mut i: usize = 0;
        while i < candidates.len()
            invariant
                0 <= i <= candidates@.len(),
                recency@.len() == candidates@.len(),
                forall|j: int| 0 <= j < candidates@.len() ==> candidate_bounded(#[trigger] candidates@[j]),
                bounded_by(recency@, SCALE as int),
                target == scored(candidates@, recency@),
                by_relevance(sorted@),
                sorted@.len() == i,
                sorted@.to_multiset() == target.take(i as int).to_multiset(),
                sorted@ == ranked(target.take(i as int)),
            decreases candidates@.len() - i,
        {
            let c = &candidates[i];
            assert(candidate_bounded(candidates@[i as int]));
            let rel = (5 * (c.similarity_score as i128) + 3 * (c.quality_score as i128) + (
            c.context_match as i128) + (recency[i] as i128)) / 10;
            let res = SearchResult {
                capsule_id: c.capsule_id.clone(),
                similarity_score: c.similarity_score,
                quality_score: c.quality_score,
                relevance_score: rel as i64,
                context_match: c.context_match,
                blockchain_verified: c.blockchain_verified,
            };
            assert(res == target[i as int]);
            assert(target.take(i as int + 1) == target.take(i as int).push(res));
            assert(target.take(i as int + 1).drop_last() == target.take(i as int));
            insert_by_relevance(&mut sorted, res);
            i += 1;
        }
        assert(target.take(candidates@.len() as int) == target);
        let ghost all = sorted@;
        sorted.truncate(max_results);
        assert(sorted@ == all.take(sorted@.len() as int));
        assert(by_relevance(sorted@));
        let mut pool: Vec<VectorEntry> = Vec::new();
        std::mem::swap(&mut pool, &mut self.vector_index);
        let ghost s0 = pool@;
        let n = pool.len();
        let mut out: Vec<VectorEntry> = Vec::new();
        let mut k: usize = 0;
        while k < n
            invariant
                0 <= k <= n,
                n == s0.len(),
                pool@ == s0.subrange(k as int, n as int),
                out@.len() == k,
                forall|a: int|
                    0 <= a < k ==> {
                        let e = #[trigger] s0[a];
                        if returned(sorted@, e.capsule_id@) {
                            touched(e, out@[a], now)
                        } else {
                            out@[a] == e
                        }
                    },
            decreases n - k,
        {
            let e = pool.remove(0);
            assert(e == s0[k as int]);
            assert(pool@ == s0.subrange(k as int + 1, n as int));
            if id_returned(&sorted, &e.capsule_id) {
                let e2 = touch(e, now);
                out.push(e2);
            } else {
                out.push(e);
            }
            k += 1;
        }
        proof {
            assert forall|a: int| 0 <= a < s0.len() implies same_shape(#[trigger] s0[a], out@[a]) by {
                if !returned(sorted@, s0[a].capsule_id@) {
                    assert(out@[a] == s0[a]);
                }
            }
            lemma_same_shape_indices(
                s0,
                out@,
                self.temporal_index@,
                self.quality_rankings@,
                self.semantic_clusters@,
                self.blockchain_hashes@,
            );
        }
        self.vector_index = out;
        sorted
    }
}

} // verus!

verus! {

/// Read-only statistics of the store. Scores are millionths; the temporal
/// distribution counts entries per day number (days since the epoch).
#[derive(Clone, Debug)]
pub struct MemoryTrends {
    pub total_capsules: usize,
    pub total_memory_size: u64,
    pub average_quality: i64,
    pub most_accessed_capsules: Vec<(String, u32)>,
    pub semantic_cluster_distribution: Vec<(String, usize)>,
    pub temporal_distribution: Vec<(u64, usize)>,
    pub quality_distribution: Vec<usize>,
    pub blockchain_verification_rate: i64,
}

pub open spec fn quality_sum(es: Seq<VectorEntry>) -> int
    decreases es.len(),
{
    if es.len() == 0 {
        0
    } else {
        quality_sum(es.drop_last()) + es.last().quality_score
    }
}

/// The histogram bin of a quality: tenths of a unit, bin 10 (a perfect
/// score) being left out of the ten bins.
pub open spec fn quality_bin(q: i64) -> int {
    q as int * 10 / SCALE as int
}

pub open spec fn bin_count(es: Seq<VectorEntry>, b: int) -> int
    decreases es.len(),
{
    if es.len() == 0 {
        0
    } else {
        bin_count(es.drop_last(), b) + if quality_bin(es.last().quality_score) == b {
            1int
        } else {
            0int
        }
    }
}

/// Some item of the distribution is for day `d`.
pub open spec fn day_listed(r: Seq<(u64, usize)>, d: u64) -> bool {
    exists|a: int| 0 <= a < r.len() && (#[trigger] r[a]).0 == d
}

pub open spec fn day_count(t: Seq<(u64, String)>, d: u64) -> int
    decreases t.len(),
{
    if t.len() == 0 {
        0
    } else {
        day_count(t.drop_last(), d) + if t.last().0 / DAY_MS == d {
            1int
        } else {
            0int
        }
    }
}

pub open spec fn verified_count(es: Seq<VectorEntry>, h: Seq<(String, String)>) -> int
    decreases es.len(),
{
    if es.len() == 0 {
        0
    } else {
        verified_count(es.drop_last(), h) + if has_key(h, hash_key(), es.last().capsule_id@) {
            1int
        } else {
            0int
        }
    }
}

proof fn lemma_count_le_len(es: Seq<VectorEntry>, h: Seq<(String, String)>)
    ensures
        0 <= verified_count(es, h) <= es.len(),
    decreases es.len(),
{
    if es.len() > 0 {
        lemma_count_le_len(es.drop_last(), h);
    }
}

proof fn lemma_quality_sum_bounds(es: Seq<VectorEntry>)
    requires
        forall|k: int| 0 <= k < es.len() ==> entry_ok(#[trigger] es[k]),
    ensures
        0 <= quality_sum(es) <= es.len() * SCALE,
    decreases es.len(),
{
    if es.len() > 0 {
        assert forall|k: int| 0 <= k < es.drop_last().len() implies entry_ok(#[trigger] es.drop_last()[k]) by {
            assert(entry_ok(es[k]));
        }
        lemma_quality_sum_bounds(es.drop_last());
        assert(entry_ok(es[es.len() - 1]));
    }
}

impl VectorMemoryDatabase {
    pub fn get_vector_count(&self) -> (r: usize)
        ensures
            r == self.entries().len(),
    {
        self.vector_index.len()
    }

    pub fn get_total_memory_size(&self) -> (r: u64)
        ensures
            r == self.total_size(),
    {
        self.total_memory_size
    }

    pub fn get_average_vector_dimension(&self) -> (r: usize)
        ensures
            r == self.average_dimension(),
    {
        self.average_vector_dimension
    }

    pub fn get_semantic_cluster_count(&self) -> (r: usize)
        ensures
            r == self.cluster_count(),
    {
        self.semantic_clusters.len()
    }

    pub fn get_temporal_entry_count(&self) -> (r: usize)
        ensures
            r == self.temporal_len(),
    {
        self.temporal_index.len()
    }

    /// The entry stored under a capsule id.
    pub fn get_entry(&self, capsule_id: &String) -> (r: Option<&VectorEntry>)
        requires
            self.wf(),
        ensures
            match r {
                Some(e) => self.entry(capsule_id@) == Some(*e),
                None => self.entry(capsule_id@) is None,
            },
    {
        match find_entry(&self.vector_index, capsule_id) {
            Some(i) => {
                proof {
                    lemma_lookup_at(self.vector_index@, entry_key(), i as int);
                }
                Some(&self.vector_index[i])
            },
            None => {
                proof {
                    lemma_lookup_absent(self.vector_index@, entry_key(), capsule_id@);
                }
                None
            },
        }
    }

    /// The share of entries with a ledger reference, in millionths; zero
    /// for an empty store.
    pub fn calculate_blockchain_verification_rate(&self) -> (r: i64)
        requires
            self.wf(),
        ensures
            self.entries().len() == 0 ==> r == 0,
            self.entries().len() > 0 ==> r == verified_count(self.entries(), self.references())
                * SCALE / self.entries().len() as int,
            0 <= r <= SCALE,
    {
        let n = self.vector_index.len();
        if n == 0 {
            return 0;
        }
        let mut count: usize = 0;
        let mut i: usize = 0;
        while i < n
            invariant
                0 <= i <= n,
                n == self.vector_index@.len(),
                count == verified_count(self.vector_index@.subrange(0, i as int), self.blockchain_hashes@),
                count <= i,
            decreases n - i,
        {
            assert(self.vector_index@.subrange(0, i as int + 1).drop_last() == self.vector_index@.subrange(0, i as int));
            if self.is_verified(&self.vector_index[i].capsule_id) {
                count += 1;
            }
            i += 1;
        }
        assert(self.vector_index@.subrange(0, n as int) == self.vector_index@);
        let num = (count as u128) * (SCALE as u128);
        let r = num / (n as u128);
        assert(r <= SCALE) by (nonlinear_arith)
            requires
                count <= n,
                n >= 1,
                num == count * SCALE,
                r == num as int / n as int,
        ;
        r as i64
    }

    /// The mean quality in millionths (rounded down); zero for an empty
    /// store.
    pub fn calculate_average_quality(&self) -> (r: i64)
        requires
            self.wf(),
        ensures
            self.entries().len() == 0 ==> r == 0,
            self.entries().len() > 0 ==> r == quality_sum(self.entries()) / self.entries().len() as int,
    {
        let n = self.vector_index.len();
        if n == 0 {
            return 0;
        }
        let mut s: u128 = 0;
        let mut i: usize = 0;
        while i < n
            invariant
                0 <= i <= n,
                n == self.vector_index@.len(),
                self.wf(),
                s == quality_sum(self.vector_index@.subrange(0, i as int)),
            decreases n - i,
        {
            let ghost sub = self.vector_index@.subrange(0, i as int + 1);
            assert(sub.drop_last() == self.vector_index@.subrange(0, i as int));
            assert(entry_ok(self.vector_index@[i as int]));
            proof {
                assert forall|k: int| 0 <= k < sub.len() implies entry_ok(#[trigger] sub[k]) by {
                    assert(sub[k] == self.vector_index@[k]);
                }
                lemma_quality_sum_bounds(sub);
                assert(sub.len() * SCALE <= 0x1_0000_0000_0000_0000 * SCALE) by (nonlinear_arith)
                    requires
                        sub.len() <= 0x1_0000_0000_0000_0000,
                ;
            }
            s = s + self.vector_index[i].quality_score as u128;
            i += 1;
        }
        assert(self.vector_index@.subrange(0, n as int) == self.vector_index@);
        proof {
            lemma_quality_sum_bounds(self.vector_index@);
        }
        let r = s / (n as u128);
        assert(r <= SCALE) by (nonlinear_arith)
            requires
                s <= n * SCALE,
                n >= 1,
                r == s as int / n as int,
        ;
        r as i64
    }

    /// The number of entries in each tenth of the quality range.
    pub fn get_quality_distribution(&self) -> (r: Vec<usize>)
        requires
            self.wf(),
        ensures
            r@.len() == 10,
            forall|b: int| 0 <= b < 10 ==> #[trigger] r@[b] == bin_count(self.entries(), b),
    {
        let mut bins: Vec<usize> = Vec::new();
        let mut b: usize = 0;
        while b < 10
            invariant
                0 <= b <= 10,
                bins@.len() == b,
                forall|a: int| 0 <= a < b ==> #[trigger] bins@[a] == 0,
            decreases 10 - b,
        {
            bins.push(0);
            b += 1;
        }
        let n = self.vector_index.len();
        let mut i: usize = 0;
        while i < n
            invariant
                0 <= i <= n,
                n == self.vector_index@.len(),
                self.wf(),
                bins@.len() == 10,
                forall|a: int|
                    0 <= a < 10 ==> #[trigger] bins@[a] == bin_count(self.vector_index@.subrange(0, i as int), a),
                forall|a: int| 0 <= a < 10 ==> #[trigger] bins@[a] <= i,
            decreases n - i,
        {
            let ghost prev = bins@;
            assert(self.vector_index@.subrange(0, i as int + 1).drop_last() == self.vector_index@.subrange(0, i as int));
            assert(entry_ok(self.vector_index@[i as int]));
            let q = self.vector_index[i].quality_score;
            let bin = (q * 10 / SCALE) as usize;
            if bin < 10 {
                let c = bins[bin];
                bins.set(bin, c + 1);
            }
            assert forall|a: int| 0 <= a < 10 implies #[trigger] bins@[a] == bin_count(
                self.vector_index@.subrange(0, i as int + 1),
                a,
            ) by {
                if a != bin {
                    assert(bins@[a] == prev[a]);
                }
            }
            i += 1;
        }
        assert(self.vector_index@.subrange(0, n as int) == self.vector_index@);
        bins
    }

    /// The size of each tag's list in the tag index, in index order.
    pub fn get_cluster_distribution(&self) -> (r: Vec<(String, usize)>)
        ensures
            r@.len() == self.clusters().len(),
            forall|j: int|
                0 <= j < r@.len() ==> (#[trigger] r@[j]).0 == self.clusters()[j].0 && r@[j].1
                    == self.clusters()[j].1@.len(),
    {
        let mut out: Vec<(String, usize)> = Vec::new();
        let mut i: usize = 0;
        while i < self.semantic_clusters.len()
            invariant
                0 <= i <= self.semantic_clusters@.len(),
                out@.len() == i,
                forall|j: int|
                    0 <= j < i ==> (#[trigger] out@[j]).0 == self.semantic_clusters@[j].0 && out@[j].1
                        == self.semantic_clusters@[j].1@.len(),
            decreases self.semantic_clusters@.len() - i,
        {
            out.push((self.semantic_clusters[i].0.clone(), self.semantic_clusters[i].1.len()));
            i += 1;
        }
        out
    }
}

} // verus!

verus! {

pub open spec fn by_count(r: Seq<(String, u32)>) -> bool {
    forall|i: int, j: int| 0 <= i < j < r.len() ==> (#[trigger] r[i]).1 >= (#[trigger] r[j]).1
}

pub open spec fn usage_pairs(es: Seq<VectorEntry>) -> Seq<(String, u32)> {
    Seq::new(es.len(), |k: int| (es[k].capsule_id, es[k].access_pattern.total_accesses))
}

fn insert_by_count(v: &mut Vec<(String, u32)>, x: (String, u32))
    requires
        by_count(old(v)@),
    ensures
        by_count(final(v)@),
        final(v)@.to_multiset() == old(v)@.to_multiset().insert(x),
        final(v)@.len() == old(v)@.len() + 1,
{
    let mut p: usize = 0;
    while p < v.len() && v[p].1 >= x.1
        invariant
            0 <= p <= v@.len(),
            v@ == old(v)@,
            forall|j: int| 0 <= j < p ==> (#[trigger] v@[j]).1 >= x.1,
        decreases v@.len() - p,
    {
        p += 1;
    }
    v.insert(p, x);
}

impl VectorMemoryDatabase {
    /// The `limit` most accessed entries with their access counts, most
    /// accessed first.
    pub fn get_most_accessed_capsules(&self, limit: usize) -> (r: Vec<(String, u32)>)
        ensures
            r@.len() == min(self.entries().len() as int, limit as int),
            by_count(r@),
            exists|all: Seq<(String, u32)>|
                {
                    &&& by_count(all)
                    &&& all.to_multiset() == usage_pairs(self.entries()).to_multiset()
                    &&& r@ == all.take(r@.len() as int)
                },
    {
        let ghost target = usage_pairs(self.vector_index@);
        let mut sorted: Vec<(String, u32)> = Vec::new();
        let mut i: usize = 0;
        while i < self.vector_index.len()
            invariant
                0 <= i <= self.vector_index@.len(),
                target == usage_pairs(self.vector_index@),
                by_count(sorted@),
                sorted@.len() == i,
                sorted@.to_multiset() == target.take(i as int).to_multiset(),
            decreases self.vector_index@.len() - i,
        {
            let e = &self.vector_index[i];
            let x = (e.capsule_id.clone(), e.access_pattern.total_accesses);
            assert(x == target[i as int]);
            assert(target.take(i as int + 1) == target.take(i as int).push(x));
            insert_by_count(&mut sorted, x);
            i += 1;
        }
        assert(target.take(self.vector_index@.len() as int) == target);
        let ghost all = sorted@;
        sorted.truncate(limit);
        assert(sorted@ == all.take(sorted@.len() as int));
        sorted
    }

    /// The number of temporal index items per day (days since the epoch),
    /// each day listed once, in order of first appearance.
    pub fn get_temporal_distribution(&self) -> (r: Vec<(u64, usize)>)
        ensures
            forall|a: int, b: int|
                0 <= a < b < r@.len() ==> (#[trigger] r@[a]).0 != (#[trigger] r@[b]).0,
            forall|a: int|
                0 <= a < r@.len() ==> (#[trigger] r@[a]).1 == day_count(
                    self.temporal(),
                    r@[a].0,
                ),
            forall|j: int|
                0 <= j < self.temporal().len() ==> day_listed(r@, (#[trigger] self.temporal()[j]).0 / DAY_MS),
    {
        let t = &self.temporal_index;
        let mut out: Vec<(u64, usize)> = Vec::new();
        let mut i: usize = 0;
        while i < t.len()
            invariant
                0 <= i <= t@.len(),
                forall|a: int, b: int|
                    0 <= a < b < out@.len() ==> (#[trigger] out@[a]).0 != (#[trigger] out@[b]).0,
                forall|a: int|
                    0 <= a < out@.len() ==> (#[trigger] out@[a]).1 == day_count(
                        t@.subrange(0, i as int),
                        out@[a].0,
                    ),
                forall|a: int| 0 <= a < out@.len() ==> (#[trigger] out@[a]).1 <= i,
                forall|j: int| 0 <= j < i ==> day_listed(out@, (#[trigger] t@[j]).0 / DAY_MS),
            decreases t@.len() - i,
        {
            let day = t[i].0 / DAY_MS;
            let ghost prev = out@;
            let ghost sub = t@.subrange(0, i as int + 1);
            assert(sub.drop_last() == t@.subrange(0, i as int));
            let mut p: usize = 0;
            while p < out.len() && out[p].0 != day
                invariant
                    0 <= p <= out@.len(),
                    out@ == prev,
                    forall|a: int| 0 <= a < p ==> (#[trigger] out@[a]).0 != day,
                decreases out@.len() - p,
            {
                p += 1;
            }
            if p < out.len() {
                let c = out[p].1;
                out.set(p, (day, c + 1));
                assert forall|a: int| 0 <= a < out@.len() implies (#[trigger] out@[a]).1 == day_count(
                    sub,
                    out@[a].0,
                ) by {
                    if a != p {
                        assert(out@[a] == prev[a]);
                    }
                }
                assert forall|j: int| 0 <= j < i + 1 implies day_listed(out@, (#[trigger] t@[j]).0 / DAY_MS) by {
                    if j < i {
                        let a = choose|a: int| 0 <= a < prev.len() && (#[trigger] prev[a]).0 == t@[j].0 / DAY_MS;
                        assert(out@[a].0 == prev[a].0);
                    } else {
                        assert(out@[p as int].0 == day);
                    }
                }
            } else {
                assert(day_count(t@.subrange(0, i as int), day) == 0) by {
                    lemma_day_count_absent(t@.subrange(0, i as int), day);
                    assert forall|j: int| 0 <= j < i implies (#[trigger] t@.subrange(0, i as int)[j]).0 / DAY_MS != day by {
                        assert(t@.subrange(0, i as int)[j] == t@[j]);
                        let a = choose|a: int| 0 <= a < prev.len() && (#[trigger] prev[a]).0 == t@[j].0 / DAY_MS;
                    }
                }
                out.push((day, 1));
                assert forall|a: int| 0 <= a < out@.len() implies (#[trigger] out@[a]).1 == day_count(
                    sub,
                    out@[a].0,
                ) by {
                    if a < prev.len() {
                        assert(out@[a] == prev[a]);
                    }
                }
                assert forall|j: int| 0 <= j < i + 1 implies day_listed(out@, (#[trigger] t@[j]).0 / DAY_MS) by {
                    if j < i {
                        let a = choose|a: int| 0 <= a < prev.len() && (#[trigger] prev[a]).0 == t@[j].0 / DAY_MS;
                        assert(out@[a] == prev[a]);
                    } else {
                        assert(out@[prev.len() as int].0 == day);
                    }
                }
            }
            i += 1;
        }
        assert(t@.subrange(0, t@.len() as int) == t@);
        assert forall|j: int| 0 <= j < self.temporal().len() implies day_listed(out@, (#[trigger] self.temporal()[j]).0 / DAY_MS) by {
            assert(self.temporal()[j] == t@[j]);
        }
        out
    }

    /// The store's statistics.
    pub fn get_memory_trends(&self) -> (r: MemoryTrends)
        requires
            self.wf(),
        ensures
            r.total_capsules == self.entries().len(),
            r.total_memory_size == self.total_size(),
            self.entries().len() > 0 ==> r.average_quality == quality_sum(self.entries())
                / self.entries().len() as int,
            r.most_accessed_capsules@.len() == min(self.entries().len() as int, 5),
            by_count(r.most_accessed_capsules@),
            r.quality_distribution@.len() == 10,
            forall|b: int|
                0 <= b < 10 ==> #[trigger] r.quality_distribution@[b] == bin_count(self.entries(), b),
            r.semantic_cluster_distribution@.len() == self.cluster_count(),
            self.entries().len() > 0 ==> r.blockchain_verification_rate == verified_count(
                self.entries(),
                self.references(),
            ) * SCALE / self.entries().len() as int,
    {
        MemoryTrends {
            total_capsules: self.vector_index.len(),
            total_memory_size: self.total_memory_size,
            average_quality: self.calculate_average_quality(),
            most_accessed_capsules: self.get_most_accessed_capsules(5),
            semantic_cluster_distribution: self.get_cluster_distribution(),
            temporal_distribution: self.get_temporal_distribution(),
            quality_distribution: self.get_quality_distribution(),
            blockchain_verification_rate: self.calculate_blockchain_verification_rate(),
        }
    }
}

proof fn lemma_day_count_absent(t: Seq<(u64, String)>, d: u64)
    requires
        forall|j: int| 0 <= j < t.len() ==> (#[trigger] t[j]).0 / DAY_MS != d,
    ensures
        day_count(t, d) == 0,
    decreases t.len(),
{
    if t.len() > 0 {
        assert forall|j: int| 0 <= j < t.drop_last().len() implies (#[trigger] t.drop_last()[j]).0 / DAY_MS != d by {
            assert(t.drop_last()[j] == t[j]);
        }
        lemma_day_count_absent(t.drop_last(), d);
    }
}

} // verus!
