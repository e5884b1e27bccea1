//! Per-unit telemetry: a bounded history of activation, error, eligibility
//! and threshold samples (fixed-point millionths), timer events and
//! free-text tags.
use vstd::prelude::*;

verus! {

#[derive(Clone, Debug)]
pub struct NodeMemory {
    pub node_id: String,
    pub activations: Vec<i64>,
    pub errors: Vec<i64>,
    pub eligibility_history: Vec<i64>,
    pub threshold_history: Vec<i64>,
    pub timer_events: Vec<(u64, String)>,
    pub context_tags: Vec<String>,
    pub max_size: usize,
}

/// `h` after appending `x`, dropping the oldest sample when `trim` holds.
pub open spec fn pushed<T>(h: Seq<T>, x: T, trim: bool) -> Seq<T> {
    if trim {
        h.push(x).drop_first()
    } else {
        h.push(x)
    }
}

fn push_trim<T>(h: &mut Vec<T>, x: T, trim: bool)
    ensures
        final(h)@ == pushed(old(h)@, x, trim),
{
    h.push(x);
    if trim {
        h.remove(0);
        assert(final(h)@ == old(h)@.push(x).drop_first());
    }
}

impl NodeMemory {
    pub fn new(node_id: String, max_size: usize) -> (r: Self)
        ensures
            r.node_id@ == node_id@,
            r.max_size == max_size,
            r.activations@.len() == 0,
            r.errors@.len() == 0,
            r.eligibility_history@.len() == 0,
            r.threshold_history@.len() == 0,
            r.timer_events@.len() == 0,
            r.context_tags@.len() == 0,
    {
        NodeMemory {
            node_id,
            activations: Vec::new(),
            errors: Vec::new(),
            eligibility_history: Vec::new(),
            threshold_history: Vec::new(),
            timer_events: Vec::new(),
            context_tags: Vec::new(),
            max_size,
        }
    }

    /// Appends one sample to each history; when the activation history
    /// then exceeds `max_size`, the oldest sample of each history is
    /// dropped.
    pub fn store_activation(&mut self, activation: i64, error: i64, eligibility: i64, threshold: i64)
        ensures
            ({
                let trim = old(self).activations@.len() + 1 > old(self).max_size;
                &&& final(self).activations@ == pushed(old(self).activations@, activation, trim)
                &&& final(self).errors@ == pushed(old(self).errors@, error, trim)
                &&& final(self).eligibility_history@ == pushed(
                    old(self).eligibility_history@,
                    eligibility,
                    trim,
                )
                &&& final(self).threshold_history@ == pushed(
                    old(self).threshold_history@,
                    threshold,
                    trim,
                )
            }),
            final(self).node_id == old(self).node_id,
            final(self).context_tags == old(self).context_tags,
            final(self).timer_events == old(self).timer_events,
            final(self).max_size == old(self).max_size,
    {
        let trim = self.activations.len() >= self.max_size;
        push_trim(&mut self.activations, activation, trim);
        push_trim(&mut self.errors, error, trim);
        push_trim(&mut self.eligibility_history, eligibility, trim);
        push_trim(&mut self.threshold_history, threshold, trim);
    }

    /// Appends a timer event, dropping the oldest past `max_size`.
    pub fn add_event(&mut self, time: u64, event_type: String)
        ensures
            final(self).timer_events@ == pushed(
                old(self).timer_events@,
                (time, event_type),
                old(self).timer_events@.len() + 1 > old(self).max_size,
            ),
            final(self).activations == old(self).activations,
            final(self).errors == old(self).errors,
            final(self).eligibility_history == old(self).eligibility_history,
            final(self).threshold_history == old(self).threshold_history,
            final(self).context_tags == old(self).context_tags,
            final(self).node_id == old(self).node_id,
            final(self).max_size == old(self).max_size,
    {
        let trim = self.timer_events.len() >= self.max_size;
        push_trim(&mut self.timer_events, (time, event_type), trim);
    }

    /// Adds a tag unless an equal one is present.
    pub fn add_context_tag(&mut self, tag: String)
        ensures
            (exists|m: int| 0 <= m < old(self).context_tags@.len() && (#[trigger] old(self).context_tags@[m])@ == tag@)
                ==> final(self).context_tags@ == old(self).context_tags@,
            !(exists|m: int| 0 <= m < old(self).context_tags@.len() && (#[trigger] old(self).context_tags@[m])@ == tag@)
                ==> final(self).context_tags@ == old(self).context_tags@.push(tag),
            final(self).activations == old(self).activations,
            final(self).errors == old(self).errors,
            final(self).eligibility_history == old(self).eligibility_history,
            final(self).threshold_history == old(self).threshold_history,
            final(self).timer_events == old(self).timer_events,
            final(self).node_id == old(self).node_id,
            final(self).max_size == old(self).max_size,
    {
        let mut i: usize = 0;
        while i < self.context_tags.len()
            invariant
                0 <= i <= self.context_tags@.len(),
                forall|j: int| 0 <= j < i ==> (#[trigger] self.context_tags@[j])@ != tag@,
            decreases self.context_tags@.len() - i,
        {
            if self.context_tags[i] == tag {
                return;
            }
            i += 1;
        }
        self.context_tags.push(tag);
    }
}

} // verus!
