//! The network-wide capsule index: capsules by id, capsule ids by tag, and
//! per-cluster contribution counts and incentive scores.
use vstd::prelude::*;
use crate::capsule::MemoryCapsule;
use crate::numeric::{SCALE, LIMIT, min};
use crate::keyed::{unique_keys, lookup, lemma_lookup_at, lemma_lookup_update, lemma_lookup_push, lemma_lookup_absent};

verus! {

pub open spec fn capsule_key() -> spec_fn(MemoryCapsule) -> Seq<char> {
    |c: MemoryCapsule| c.capsule_id@
}

pub open spec fn count_key() -> spec_fn((String, u32)) -> Seq<char> {
    |p: (String, u32)| p.0@
}

pub open spec fn score_key() -> spec_fn((String, i64)) -> Seq<char> {
    |p: (String, i64)| p.0@
}

pub open spec fn tag_key() -> spec_fn((String, Vec<String>)) -> Seq<char> {
    |p: (String, Vec<String>)| p.0@
}

pub open spec fn count_of(m: Seq<(String, u32)>, k: Seq<char>) -> int {
    match lookup(m, count_key(), k) {
        Some(p) => p.1 as int,
        None => 0,
    }
}

pub open spec fn score_of(m: Seq<(String, i64)>, k: Seq<char>) -> int {
    match lookup(m, score_key(), k) {
        Some(p) => p.1 as int,
        None => 0,
    }
}

/// The incentive a capsule earns its cluster: novelty times importance.
pub open spec fn capsule_score(c: MemoryCapsule) -> int {
    c.novelty_score * c.importance_score / SCALE as int
}

pub struct GlobalMemory {
    capsules: Vec<MemoryCapsule>,
    semantic_index: Vec<(String, Vec<String>)>,
    device_contributions: Vec<(String, u32)>,
    incentive_scores: Vec<(String, i64)>,
}

fn find_count(m: &Vec<(String, u32)>, k: &String) -> (r: Option<usize>)
    ensures
        match r {
            Some(i) => i < m@.len() && m@[i as int].0@ == k@,
            None => forall|j: int| 0 <= j < m@.len() ==> (#[trigger] m@[j]).0@ != k@,
        },
{
    let mut i: usize = 0;
    while i < m.len()
        invariant
            0 <= i <= m@.len(),
            forall|j: int| 0 <= j < i ==> (#[trigger] m@[j]).0@ != k@,
        decreases m@.len() - i,
    {
        if m[i].0 == *k {
            return Some(i);
        }
        i += 1;
    }
    None
}

fn find_score(m: &Vec<(String, i64)>, k: &String) -> (r: Option<usize>)
    ensures
        match r {
            Some(i) => i < m@.len() && m@[i as int].0@ == k@,
            None => forall|j: int| 0 <= j < m@.len() ==> (#[trigger] m@[j]).0@ != k@,
        },
{
    let mut i: usize = 0;
    while i < m.len()
        invariant
            0 <= i <= m@.len(),
            forall|j: int| 0 <= j < i ==> (#[trigger] m@[j]).0@ != k@,
        decreases m@.len() - i,
    {
        if m[i].0 == *k {
            return Some(i);
        }
        i += 1;
    }
    None
}

fn find_tag(m: &Vec<(String, Vec<String>)>, k: &String) -> (r: Option<usize>)
    ensures
        match r {
            Some(i) => i < m@.len() && m@[i as int].0@ == k@,
            None => forall|j: int| 0 <= j < m@.len() ==> (#[trigger] m@[j]).0@ != k@,
        },
{
    let mut i: usize = 0;
    while i < m.len()
        invariant
            0 <= i <= m@.len(),
            forall|j: int| 0 <= j < i ==> (#[trigger] m@[j]).0@ != k@,
        decreases m@.len() - i,
    {
        if m[i].0 == *k {
            return Some(i);
        }
        i += 1;
    }
    None
}

fn find_capsule(m: &Vec<MemoryCapsule>, k: &String) -> (r: Option<usize>)
    ensures
        match r {
            Some(i) => i < m@.len() && m@[i as int].capsule_id@ == k@,
            None => forall|j: int| 0 <= j < m@.len() ==> (#[trigger] m@[j]).capsule_id@ != k@,
        },
{
    let mut i: usize = 0;
    while i < m.len()
        invariant
            0 <= i <= m@.len(),
            forall|j: int| 0 <= j < i ==> (#[trigger] m@[j]).capsule_id@ != k@,
        decreases m@.len() - i,
    {
        if m[i].capsule_id == *k {
            return Some(i);
        }
        i += 1;
    }
    None
}

impl GlobalMemory {
    pub closed spec fn wf(&self) -> bool {
        &&& unique_keys(self.capsules@, capsule_key())
        &&& unique_keys(self.semantic_index@, tag_key())
        &&& unique_keys(self.device_contributions@, count_key())
        &&& unique_keys(self.incentive_scores@, score_key())
    }

    pub closed spec fn capsule(&self, id: Seq<char>) -> Option<MemoryCapsule> {
        lookup(self.capsules@, capsule_key(), id)
    }

    pub closed spec fn capsule_count(&self) -> nat {
        self.capsules@.len()
    }

    /// Capsules contributed by a cluster.
    pub closed spec fn contributions(&self, cluster: Seq<char>) -> int {
        count_of(self.device_contributions@, cluster)
    }

    /// Incentive score accumulated by a cluster.
    pub closed spec fn incentive(&self, cluster: Seq<char>) -> int {
        score_of(self.incentive_scores@, cluster)
    }

    /// Ids listed under a tag.
    pub closed spec fn tagged(&self, tag: Seq<char>) -> Seq<String> {
        match lookup(self.semantic_index@, tag_key(), tag) {
            Some(p) => p.1@,
            None => Seq::empty(),
        }
    }

    pub fn new() -> (r: Self)
        ensures
            r.wf(),
            r.capsule_count() == 0,
            forall|k: Seq<char>| r.incentive(k) == 0 && r.contributions(k) == 0 && r.tagged(k).len() == 0,
    {
        let r = GlobalMemory {
            capsules: Vec::new(),
            semantic_index: Vec::new(),
            device_contributions: Vec::new(),
            incentive_scores: Vec::new(),
        };
        assert forall|k: Seq<char>| r.incentive(k) == 0 && r.contributions(k) == 0 && r.tagged(k).len() == 0 by {
            lemma_lookup_absent(r.incentive_scores@, score_key(), k);
            lemma_lookup_absent(r.device_contributions@, count_key(), k);
            lemma_lookup_absent(r.semantic_index@, tag_key(), k);
        }
        r
    }

    fn bump_contribution(&mut self, cluster: &String)
        requires
            old(self).wf(),
        ensures
            final(self).wf(),
            final(self).contributions(cluster@) == min(old(self).contributions(cluster@) + 1, u32::MAX as int),
            forall|k: Seq<char>| k != cluster@ ==> #[trigger] final(self).contributions(k) == old(self).contributions(k),
            final(self).capsules == old(self).capsules,
            final(self).semantic_index == old(self).semantic_index,
            final(self).incentive_scores == old(self).incentive_scores,
    {
        let ghost m0 = self.device_contributions@;
        match find_count(&self.device_contributions, cluster) {
            Some(i) => {
                proof { lemma_lookup_at(m0, count_key(), i as int); }
                let c = self.device_contributions[i].1;
                let n = if c < u32::MAX { c + 1 } else { c };
                let p = (self.device_contributions[i].0.clone(), n);
                proof { lemma_lookup_update(m0, count_key(), i as int, p); }
                self.device_contributions.set(i, p);
            },
            None => {
                proof { lemma_lookup_absent(m0, count_key(), cluster@); }
                let p = (cluster.clone(), 1u32);
                proof { lemma_lookup_push(m0, count_key(), p); }
                self.device_contributions.push(p);
            },
        }
    }

    fn add_incentive(&mut self, cluster: &String, x: i64)
        requires
            old(self).wf(),
            0 <= x <= LIMIT,
        ensures
            final(self).wf(),
            final(self).incentive(cluster@) == min(old(self).incentive(cluster@) + x, i64::MAX as int),
            forall|k: Seq<char>| k != cluster@ ==> #[trigger] final(self).incentive(k) == old(self).incentive(k),
            final(self).capsules == old(self).capsules,
            final(self).semantic_index == old(self).semantic_index,
            final(self).device_contributions == old(self).device_contributions,
    {
        let ghost m0 = self.incentive_scores@;
        match find_score(&self.incentive_scores, cluster) {
            Some(i) => {
                proof { lemma_lookup_at(m0, score_key(), i as int); }
                let c = self.incentive_scores[i].1;
                let n = if c > i64::MAX - x { i64::MAX } else { c + x };
                let p = (self.incentive_scores[i].0.clone(), n);
                proof { lemma_lookup_update(m0, score_key(), i as int, p); }
                self.incentive_scores.set(i, p);
            },
            None => {
                proof { lemma_lookup_absent(m0, score_key(), cluster@); }
                let p = (cluster.clone(), x);
                proof { lemma_lookup_push(m0, score_key(), p); }
                self.incentive_scores.push(p);
            },
        }
    }

    fn index_tag(&mut self, tag: &String, id: &String)
        requires
            old(self).wf(),
        ensures
            final(self).wf(),
            final(self).tagged(tag@) == old(self).tagged(tag@).push(*id),
            forall|k: Seq<char>| k != tag@ ==> #[trigger] final(self).tagged(k) == old(self).tagged(k),
            final(self).capsules == old(self).capsules,
            final(self).incentive_scores == old(self).incentive_scores,
            final(self).device_contributions == old(self).device_contributions,
    {
        let ghost m0 = self.semantic_index@;
        let copy = id.clone();
        match find_tag(&self.semantic_index, tag) {
            Some(i) => {
                proof { lemma_lookup_at(m0, tag_key(), i as int); }
                let mut ids = self.semantic_index[i].1.clone();
                ids.push(copy);
                let p = (self.semantic_index[i].0.clone(), ids);
                proof { lemma_lookup_update(m0, tag_key(), i as int, p); }
                self.semantic_index.set(i, p);
                assert(final(self).tagged(tag@) =~= old(self).tagged(tag@).push(copy));
            },
            None => {
                proof { lemma_lookup_absent(m0, tag_key(), tag@); }
                let mut ids: Vec<String> = Vec::new();
                ids.push(copy);
                let p = (tag.clone(), ids);
                proof { lemma_lookup_push(m0, tag_key(), p); }
                self.semantic_index.push(p);
                assert(final(self).tagged(tag@) =~= old(self).tagged(tag@).push(copy));
            },
        }
    }
}

} // verus!

verus! {

impl GlobalMemory {
    /// Indexes a capsule: its id is listed under each of its tags, its
    /// cluster's contribution count rises by one and its cluster's
    /// incentive by novelty times importance; the capsule replaces any of
    /// the same id. A malformed capsule changes nothing and yields `false`.
    pub fn store_capsule(&mut self, capsule: MemoryCapsule) -> (r: bool)
        requires
            old(self).wf(),
        ensures
            final(self).wf(),
            r == capsule.in_range(),
            !r ==> *final(self) == *old(self),
            r ==> {
                &&& final(self).capsule(capsule.capsule_id@) == Some(capsule)
                &&& forall|k: Seq<char>| k != capsule.capsule_id@ ==> #[trigger] final(self).capsule(k) == old(self).capsule(k)
                &&& final(self).contributions(capsule.cluster_id@) == min(
                    old(self).contributions(capsule.cluster_id@) + 1,
                    u32::MAX as int,
                )
                &&& forall|k: Seq<char>| k != capsule.cluster_id@ ==> #[trigger] final(self).contributions(k) == old(self).contributions(k)
                &&& final(self).incentive(capsule.cluster_id@) == min(
                    old(self).incentive(capsule.cluster_id@) + capsule_score(capsule),
                    i64::MAX as int,
                )
                &&& forall|k: Seq<char>| k != capsule.cluster_id@ ==> #[trigger] final(self).incentive(k) == old(self).incentive(k)
            },
    {
        if !capsule.is_well_formed() {
            return false;
        }
        let ghost c = capsule;
        let id = capsule.capsule_id.clone();
        let cluster = capsule.cluster_id.clone();
        let tags = capsule.semantic_tags.clone();
        let novelty = capsule.novelty_score;
        let importance = capsule.importance_score;
        let ghost c0 = self.capsules@;
        match find_capsule(&self.capsules, &id) {
            Some(i) => {
                proof { lemma_lookup_update(c0, capsule_key(), i as int, c); }
                self.capsules.set(i, capsule);
            },
            None => {
                proof { lemma_lookup_push(c0, capsule_key(), c); }
                self.capsules.push(capsule);
            },
        }
        let ghost mid = *self;
        let mut m: usize = 0;
        while m < tags.len()
            invariant
                0 <= m <= tags@.len(),
                self.wf(),
                self.capsules == mid.capsules,
                self.incentive_scores == old(self).incentive_scores,
                self.device_contributions == old(self).device_contributions,
            decreases tags@.len() - m,
        {
            self.index_tag(&tags[m], &id);
            m += 1;
        }
        let ghost before_bump = *self;
        self.bump_contribution(&cluster);
        let ghost after_bump = *self;
        assert(0 <= novelty * importance <= SCALE * LIMIT) by (nonlinear_arith)
            requires
                0 <= novelty <= SCALE,
                0 <= importance <= LIMIT,
        ;
        let score = ((novelty as i128) * (importance as i128) / (SCALE as i128)) as i64;
        assert(score <= LIMIT) by (nonlinear_arith)
            requires
                score == novelty * importance / SCALE as int,
                0 <= novelty * importance <= SCALE * LIMIT,
        ;
        self.add_incentive(&cluster, score);
        assert(self.capsule(c.capsule_id@) == Some(c));
        assert(forall|k: Seq<char>| k != c.capsule_id@ ==> #[trigger] self.capsule(k) == old(self).capsule(k));
        assert(self.contributions(c.cluster_id@) == min(old(self).contributions(c.cluster_id@) + 1, u32::MAX as int));
        assert(score == capsule_score(c));
        assert(self.incentive(c.cluster_id@) == min(old(self).incentive(c.cluster_id@) + score, i64::MAX as int));
        assert forall|k: Seq<char>| k != c.cluster_id@ implies #[trigger] self.contributions(k) == old(self).contributions(k) by {
            assert(self.device_contributions == after_bump.device_contributions);
            assert(after_bump.contributions(k) == before_bump.contributions(k));
        }
        assert forall|k: Seq<char>| k != c.cluster_id@ implies #[trigger] self.incentive(k) == old(self).incentive(k) by {
            assert(after_bump.incentive_scores == old(self).incentive_scores);
        }
        true
    }

    /// The listed ids whose capsule is held, in order.
    pub open spec fn held(&self, ids: Seq<String>) -> Seq<String> {
        ids.filter(|s: String| self.capsule(s@) is Some)
    }

    /// The ids that a tag query yields: for each tag in turn, the ids
    /// listed under it whose capsule is held.
    pub open spec fn tag_query(&self, tags: Seq<String>) -> Seq<String>
        decreases tags.len(),
    {
        if tags.len() == 0 {
            Seq::empty()
        } else {
            self.tag_query(tags.drop_last()) + self.held(self.tagged(tags.last()@))
        }
    }

    /// The ids listed under each of the given tags, tag by tag, keeping only
    /// those whose capsule is held.
    pub fn query_capsules_by_tags(&self, tags: &Vec<String>) -> (r: Vec<String>)
        requires
            self.wf(),
        ensures
            r@ == self.tag_query(tags@),
            forall|j: int| 0 <= j < r@.len() ==> #[trigger] self.capsule(r@[j]@) is Some,
    {
        let mut out: Vec<String> = Vec::new();
        let mut t: usize = 0;
        assert(out@ == self.tag_query(tags@.subrange(0, 0)));
        while t < tags.len()
            invariant
                0 <= t <= tags@.len(),
                self.wf(),
                out@ == self.tag_query(tags@.subrange(0, t as int)),
                forall|j: int| 0 <= j < out@.len() ==> #[trigger] self.capsule(out@[j]@) is Some,
            decreases tags@.len() - t,
        {
            let ghost sub = tags@.subrange(0, t as int + 1);
            assert(sub.drop_last() == tags@.subrange(0, t as int));
            assert(sub.last() == tags@[t as int]);
            let ghost base = out@;
            let ghost pred = |s: String| self.capsule(s@) is Some;
            match find_tag(&self.semantic_index, &tags[t]) {
                Some(i) => {
                    proof { lemma_lookup_at(self.semantic_index@, tag_key(), i as int); }
                    let ids = &self.semantic_index[i].1;
                    assert(ids@ == self.tagged(tags@[t as int]@));
                    let mut k: usize = 0;
                    while k < ids.len()
                        invariant
                            0 <= k <= ids@.len(),
                            self.wf(),
                            pred == (|s: String| self.capsule(s@) is Some),
                            out@ == base + ids@.take(k as int).filter(pred),
                            forall|j: int| 0 <= j < out@.len() ==> #[trigger] self.capsule(out@[j]@) is Some,
                        decreases ids@.len() - k,
                    {
                        assert(ids@.take(k as int + 1) == ids@.take(k as int).push(ids@[k as int]));
                        proof { ids@.take(k as int).lemma_filter_push(ids@[k as int], pred); }
                        match find_capsule(&self.capsules, &ids[k]) {
                            Some(c) => {
                                proof { lemma_lookup_at(self.capsules@, capsule_key(), c as int); }
                                out.push(ids[k].clone());
                            },
                            None => {
                                proof { lemma_lookup_absent(self.capsules@, capsule_key(), ids@[k as int]@); }
                            },
                        }
                        k += 1;
                    }
                    assert(ids@.take(ids@.len() as int) == ids@);
                },
                None => {
                    proof { lemma_lookup_absent(self.semantic_index@, tag_key(), tags@[t as int]@); }
                    assert(self.tagged(tags@[t as int]@) == Seq::<String>::empty());
                    assert(self.held(Seq::<String>::empty()) == Seq::<String>::empty()) by {
                        reveal(Seq::filter);
                    }
                    assert(out@ == base + Seq::<String>::empty());
                },
            }
            t += 1;
        }
        assert(tags@.subrange(0, tags@.len() as int) == tags@);
        out
    }

    /// A held capsule by id.
    pub fn get_capsule(&self, capsule_id: &String) -> (r: Option<&MemoryCapsule>)
        requires
            self.wf(),
        ensures
            match r {
                Some(c) => self.capsule(capsule_id@) == Some(*c),
                None => self.capsule(capsule_id@) is None,
            },
    {
        match find_capsule(&self.capsules, capsule_id) {
            Some(i) => {
                proof { lemma_lookup_at(self.capsules@, capsule_key(), i as int); }
                Some(&self.capsules[i])
            },
            None => {
                proof { lemma_lookup_absent(self.capsules@, capsule_key(), capsule_id@); }
                None
            },
        }
    }

    /// The incentive score accumulated by a cluster; zero if none.
    pub fn get_device_incentive_score(&self, device_id: &String) -> (r: i64)
        requires
            self.wf(),
        ensures
            r == self.incentive(device_id@),
    {
        match find_score(&self.incentive_scores, device_id) {
            Some(i) => {
                proof { lemma_lookup_at(self.incentive_scores@, score_key(), i as int); }
                self.incentive_scores[i].1
            },
            None => {
                proof { lemma_lookup_absent(self.incentive_scores@, score_key(), device_id@); }
                0
            },
        }
    }

    pub fn get_total_capsules(&self) -> (r: usize)
        ensures
            r == self.capsule_count(),
    {
        self.capsules.len()
    }
}

} // verus!
