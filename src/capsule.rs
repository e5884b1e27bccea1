//! The memory capsule: a distilled, scored snapshot of a telemetry window.
use vstd::prelude::*;
use crate::numeric::{LIMIT, SCALE};

verus! {

#[derive(Clone, Copy, Debug, PartialEq, Eq, Structural)]
pub enum PrivacyLevel {
    Personal,
    Behavioral,
    Public,
}

/// Counts and magnitudes describing the telemetry window of a capsule.
/// Magnitudes are fixed-point millionths.
#[derive(Clone, Debug)]
pub struct AdaptationSummary {
    pub threshold_adaptations: u32,
    pub timer_adaptations: u32,
    pub weight_changes: i64,
    pub error_magnitude: i64,
    pub learning_rate_changes: i64,
}

/// A capsule. Scores and vector components are fixed-point millionths,
/// `timestamp` is in milliseconds.
#[derive(Clone, Debug)]
pub struct MemoryCapsule {
    pub capsule_id: String,
    pub timestamp: u64,
    pub cluster_id: String,
    pub privacy_level: PrivacyLevel,
    pub context_vector: Vec<i64>,
    pub semantic_tags: Vec<String>,
    pub adaptation_summary: AdaptationSummary,
    pub compressed_data: Vec<u8>,
    pub novelty_score: i64,
    pub importance_score: i64,
}

/// Largest payload a capsule may carry, in bytes.
pub const MAX_PAYLOAD: usize = 0x4000_0000;

pub open spec fn in_limit(x: i64) -> bool {
    -LIMIT <= x <= LIMIT
}

pub open spec fn components_in_limit(v: Seq<i64>) -> bool {
    forall|i: int| 0 <= i < v.len() ==> in_limit(#[trigger] v[i])
}

impl AdaptationSummary {
    pub open spec fn in_range(&self) -> bool {
        &&& in_limit(self.weight_changes)
        &&& 0 <= self.error_magnitude <= LIMIT
        &&& in_limit(self.learning_rate_changes)
    }
}

impl MemoryCapsule {
    /// A capsule is well formed when its scores lie in their declared ranges
    /// (novelty in [0, 1], importance non-negative) and every magnitude fits
    /// the fixed-point limit. A capsule that is not is malformed input.
    pub open spec fn in_range(&self) -> bool {
        &&& 0 <= self.novelty_score <= SCALE
        &&& 0 <= self.importance_score <= LIMIT
        &&& self.context_vector@.len() <= crate::numeric::MAX_DIM
        &&& self.semantic_tags@.len() <= crate::numeric::MAX_DIM
        &&& self.compressed_data@.len() <= MAX_PAYLOAD
        &&& components_in_limit(self.context_vector@)
        &&& self.adaptation_summary.in_range()
    }

    pub fn is_well_formed(&self) -> (r: bool)
        ensures
            r == self.in_range(),
    {
        if !(0 <= self.novelty_score && self.novelty_score <= SCALE) {
            return false;
        }
        if !(0 <= self.importance_score && self.importance_score <= LIMIT) {
            return false;
        }
        if self.context_vector.len() > crate::numeric::MAX_DIM {
            return false;
        }
        if self.semantic_tags.len() > crate::numeric::MAX_DIM {
            return false;
        }
        if self.compressed_data.len() > MAX_PAYLOAD {
            return false;
        }
        let a = &self.adaptation_summary;
        if !(-LIMIT <= a.weight_changes && a.weight_changes <= LIMIT) {
            return false;
        }
        if !(0 <= a.error_magnitude && a.error_magnitude <= LIMIT) {
            return false;
        }
        if !(-LIMIT <= a.learning_rate_changes && a.learning_rate_changes <= LIMIT) {
            return false;
        }
        all_in_limit(&self.context_vector)
    }
}

pub fn all_in_limit(v: &Vec<i64>) -> (r: bool)
    ensures
        r == components_in_limit(v@),
{
    let mut i: usize = 0;
    while i < v.len()
        invariant
            0 <= i <= v@.len(),
            forall|j: int| 0 <= j < i ==> in_limit(#[trigger] v@[j]),
        decreases v@.len() - i,
    {
        if !(-LIMIT <= v[i] && v[i] <= LIMIT) {
            return false;
        }
        i += 1;
    }
    true
}

} // verus!

verus! {

/// Packs a payload. The packing is the identity: it carries no size or
/// confidentiality guarantee.
pub fn compress_data(data: &Vec<u8>) -> (r: Vec<u8>)
    ensures
        r@ == data@,
{
    data.clone()
}

/// Unpacks a payload packed by `compress_data`.
pub fn decompress_data(compressed: &Vec<u8>) -> (r: Vec<u8>)
    ensures
        r@ == compressed@,
{
    compressed.clone()
}

} // verus!
