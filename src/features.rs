//! Summary features of telemetry histories and pattern novelty.
use vstd::prelude::*;
use crate::consolidator::{seq_sum, mean, clamp_limit};
use crate::numeric::{SCALE, LIMIT, MAX_DIM, div_trunc, min};
use crate::vector_math::{bounded_by, distance_spec, euclidean_distance, normalized, normalize_vector};

verus! {

pub open spec fn seq_max(v: Seq<i64>) -> int
    decreases v.len(),
{
    if v.len() <= 1 {
        v[0] as int
    } else if seq_max(v.drop_last()) >= v.last() {
        seq_max(v.drop_last())
    } else {
        v.last() as int
    }
}

pub open spec fn seq_min(v: Seq<i64>) -> int
    decreases v.len(),
{
    if v.len() <= 1 {
        v[0] as int
    } else if seq_min(v.drop_last()) <= v.last() {
        seq_min(v.drop_last())
    } else {
        v.last() as int
    }
}

/// `sum (v[i] - m)^2`.
pub open spec fn sq_dev(v: Seq<i64>, m: int) -> int
    decreases v.len(),
{
    if v.len() == 0 {
        0
    } else {
        sq_dev(v.drop_last(), m) + (v.last() - m) * (v.last() - m)
    }
}

/// The variance of a history in millionths: mean squared deviation from
/// the (rounded) mean.
pub open spec fn variance(v: Seq<i64>) -> int {
    sq_dev(v, mean(v)) / (SCALE * v.len())
}

/// Gaps between successive timestamps.
pub open spec fn gaps(t: Seq<i64>) -> Seq<i64> {
    Seq::new((t.len() - 1) as nat, |i: int| (t[i + 1] - t[i]) as i64)
}

pub open spec fn gaps_fit(t: Seq<i64>) -> bool {
    forall|i: int| 0 <= i < t.len() - 1 ==> -LIMIT <= #[trigger] t[i + 1] - t[i] <= LIMIT
}

/// Slot `k` of a context vector before normalization: activation mean,
/// maximum, minimum and variance; error mean, maximum and minimum; mean,
/// maximum and minimum gap between timestamps; the rest zero.
pub open spec fn context_slot(a: Seq<i64>, e: Seq<i64>, t: Seq<i64>, k: int) -> int {
    if k < 4 {
        if a.len() == 0 {
            0
        } else if k == 0 {
            mean(a)
        } else if k == 1 {
            seq_max(a)
        } else if k == 2 {
            seq_min(a)
        } else {
            variance(a)
        }
    } else if k < 7 {
        if e.len() == 0 {
            0
        } else if k == 4 {
            mean(e)
        } else if k == 5 {
            seq_max(e)
        } else {
            seq_min(e)
        }
    } else if k < 10 {
        if t.len() <= 1 {
            0
        } else if k == 7 {
            mean(gaps(t))
        } else if k == 8 {
            seq_max(gaps(t))
        } else {
            seq_min(gaps(t))
        }
    } else {
        0
    }
}

fn extreme(v: &Vec<i64>, largest: bool) -> (r: i64)
    requires
        v@.len() > 0,
    ensures
        largest ==> r == seq_max(v@),
        !largest ==> r == seq_min(v@),
{
    let mut best = v[0];
    let mut i: usize = 1;
    while i < v.len()
        invariant
            1 <= i <= v@.len(),
            largest ==> best == seq_max(v@.subrange(0, i as int)),
            !largest ==> best == seq_min(v@.subrange(0, i as int)),
        decreases v@.len() - i,
    {
        assert(v@.subrange(0, i as int + 1).drop_last() == v@.subrange(0, i as int));
        if largest && v[i] > best {
            best = v[i];
        }
        if !largest && v[i] < best {
            best = v[i];
        }
        i += 1;
    }
    assert(v@.subrange(0, v@.len() as int) == v@);
    best
}

proof fn lemma_sum_within(v: Seq<i64>)
    requires
        bounded_by(v, LIMIT as int),
    ensures
        -(v.len() * LIMIT) <= seq_sum(v) <= v.len() * LIMIT,
    decreases v.len(),
{
    if v.len() > 0 {
        assert(bounded_by(v.drop_last(), LIMIT as int)) by {
            assert forall|i: int| 0 <= i < v.drop_last().len() implies -LIMIT <= #[trigger] v.drop_last()[i] <= LIMIT by {
                assert(v.drop_last()[i] == v[i]);
            }
        }
        lemma_sum_within(v.drop_last());
        assert(v.len() * LIMIT == (v.len() - 1) * LIMIT + LIMIT) by (nonlinear_arith);
        assert(-LIMIT <= v[v.len() - 1] <= LIMIT);
    }
}

fn bounded_mean(v: &Vec<i64>) -> (r: i64)
    requires
        v@.len() > 0,
        v@.len() <= MAX_DIM,
        bounded_by(v@, LIMIT as int),
    ensures
        r == mean(v@),
        -LIMIT <= r <= LIMIT,
{
    let n = v.len();
    let mut s: i128 = 0;
    let mut i: usize = 0;
    while i < n
        invariant
            0 <= i <= n,
            n == v@.len(),
            n <= MAX_DIM,
            bounded_by(v@, LIMIT as int),
            s == seq_sum(v@.subrange(0, i as int)),
            -(i * LIMIT) <= s <= i * LIMIT,
        decreases n - i,
    {
        assert(v@.subrange(0, i as int + 1).drop_last() == v@.subrange(0, i as int));
        assert((i + 1) * LIMIT == i * LIMIT + LIMIT) by (nonlinear_arith);
        assert((i + 1) * LIMIT <= 65536 * LIMIT) by (nonlinear_arith)
            requires
                i + 1 <= 65536,
        ;
        s = s + v[i] as i128;
        i += 1;
    }
    assert(v@.subrange(0, n as int) == v@);
    let r = s / (n as i128);
    assert(-LIMIT <= r <= LIMIT) by (nonlinear_arith)
        requires
            -(n * LIMIT) <= s <= n * LIMIT,
            n >= 1,
            r == div_trunc(s as int, n as int),
    ;
    r as i64
}

fn bounded_variance(v: &Vec<i64>, m: i64) -> (r: i128)
    requires
        v@.len() > 0,
        v@.len() <= MAX_DIM,
        bounded_by(v@, LIMIT as int),
        -LIMIT <= m <= LIMIT,
    ensures
        r == sq_dev(v@, m as int) / (SCALE * v@.len()),
        r >= 0,
{
    let n = v.len();
    let mut s: i128 = 0;
    let mut i: usize = 0;
    while i < n
        invariant
            0 <= i <= n,
            n == v@.len(),
            n <= MAX_DIM,
            bounded_by(v@, LIMIT as int),
            -LIMIT <= m <= LIMIT,
            s == sq_dev(v@.subrange(0, i as int), m as int),
            0 <= s <= i * (4 * LIMIT * LIMIT),
        decreases n - i,
    {
        assert(v@.subrange(0, i as int + 1).drop_last() == v@.subrange(0, i as int));
        let d = (v[i] as i128) - (m as i128);
        assert(0 <= d * d <= 4 * LIMIT * LIMIT) by (nonlinear_arith)
            requires
                -2 * LIMIT <= d <= 2 * LIMIT,
        ;
        assert((i + 1) * (4 * LIMIT * LIMIT) == i * (4 * LIMIT * LIMIT) + 4 * LIMIT * LIMIT) by (nonlinear_arith);
        assert((i + 1) * (4 * LIMIT * LIMIT) <= 65536 * (4 * LIMIT * LIMIT)) by (nonlinear_arith)
            requires
                i + 1 <= 65536,
        ;
        s = s + d * d;
        i += 1;
    }
    assert(v@.subrange(0, n as int) == v@);
    assert(n * (4 * LIMIT * LIMIT) <= 65536 * (4 * LIMIT * LIMIT)) by (nonlinear_arith)
        requires
            n <= 65536,
    ;
    let den = (SCALE as i128) * (n as i128);
    let r = s / den;
    assert(0 <= r <= s) by (nonlinear_arith)
        requires
            s >= 0,
            den >= 1,
            r == s / den,
    ;
    r
}

} // verus!

verus! {

fn clamp_to_limit(a: i128) -> (r: i64)
    ensures
        r == clamp_limit(a as int),
{
    if a > LIMIT as i128 {
        LIMIT
    } else if a < -(LIMIT as i128) {
        -LIMIT
    } else {
        a as i64
    }
}

fn timestamp_gaps(t: &Vec<i64>) -> (r: Vec<i64>)
    requires
        t@.len() > 1,
        gaps_fit(t@),
    ensures
        r@ == gaps(t@),
        bounded_by(r@, LIMIT as int),
{
    let mut g: Vec<i64> = Vec::new();
    let mut i: usize = 1;
    while i < t.len()
        invariant
            1 <= i <= t@.len(),
            gaps_fit(t@),
            g@.len() == i - 1,
            forall|j: int| 0 <= j < i - 1 ==> #[trigger] g@[j] == t@[j + 1] - t@[j],
            bounded_by(g@, LIMIT as int),
        decreases t@.len() - i,
    {
        assert(-LIMIT <= t@[(i - 1) as int + 1] - t@[(i - 1) as int] <= LIMIT);
        g.push(t[i] - t[i - 1]);
        i += 1;
    }
    assert(g@ == gaps(t@));
    g
}

/// The sixteen-slot context vector of one unit's histories: activation
/// mean, maximum, minimum and variance, error mean, maximum and minimum,
/// and mean, maximum and minimum gap between timestamps, each held to
/// `LIMIT`, scaled to unit length.
pub fn generate_context_vector(activation_history: &Vec<i64>, error_history: &Vec<i64>, timestamps: &Vec<i64>) -> (r: Vec<i64>)
    requires
        activation_history@.len() <= MAX_DIM,
        error_history@.len() <= MAX_DIM,
        timestamps@.len() <= MAX_DIM + 1,
        bounded_by(activation_history@, LIMIT as int),
        bounded_by(error_history@, LIMIT as int),
        gaps_fit(timestamps@),
    ensures
        r@ == normalized(Seq::new(16, |k: int| clamp_limit(context_slot(activation_history@, error_history@, timestamps@, k)) as i64)),
{
    let a = activation_history;
    let e = error_history;
    let t = timestamps;
    let mut raw: Vec<i64> = Vec::new();
    let mut k: usize = 0;
    while k < 16
        invariant
            0 <= k <= 16,
            a == activation_history,
            e == error_history,
            t == timestamps,
            a@.len() <= MAX_DIM,
            e@.len() <= MAX_DIM,
            t@.len() <= MAX_DIM + 1,
            bounded_by(a@, LIMIT as int),
            bounded_by(e@, LIMIT as int),
            gaps_fit(t@),
            raw@.len() == k,
            forall|j: int| 0 <= j < k ==> #[trigger] raw@[j] == clamp_limit(context_slot(a@, e@, t@, j)) as i64,
            bounded_by(raw@, LIMIT as int),
        decreases 16 - k,
    {
        let x: i128 = if k < 4 {
            if a.len() == 0 {
                0
            } else if k == 0 {
                bounded_mean(a) as i128
            } else if k == 1 {
                extreme(a, true) as i128
            } else if k == 2 {
                extreme(a, false) as i128
            } else {
                let m = bounded_mean(a);
                bounded_variance(a, m)
            }
        } else if k < 7 {
            if e.len() == 0 {
                0
            } else if k == 4 {
                bounded_mean(e) as i128
            } else if k == 5 {
                extreme(e, true) as i128
            } else {
                extreme(e, false) as i128
            }
        } else if k < 10 {
            if t.len() <= 1 {
                0
            } else {
                let g = timestamp_gaps(t);
                if k == 7 {
                    bounded_mean(&g) as i128
                } else if k == 8 {
                    extreme(&g, true) as i128
                } else {
                    extreme(&g, false) as i128
                }
            }
        } else {
            0
        };
        raw.push(clamp_to_limit(x));
        k += 1;
    }
    let ghost want = Seq::new(16, |j: int| clamp_limit(context_slot(a@, e@, t@, j)) as i64);
    assert(raw@ == want);
    normalize_vector(&mut raw);
    raw
}

/// Novelty of a pattern against past patterns, in millionths: one when
/// there are none, else the distance to the nearest over `threshold`, at
/// most one.
pub open spec fn pattern_novelty(p: Seq<i64>, hist: Seq<Vec<i64>>, threshold: int) -> int
    decreases hist.len(),
{
    if hist.len() == 0 {
        SCALE as int
    } else {
        min(nearest(p, hist) * SCALE / threshold, SCALE as int)
    }
}

pub open spec fn nearest(p: Seq<i64>, hist: Seq<Vec<i64>>) -> int
    decreases hist.len(),
{
    if hist.len() <= 1 {
        distance_spec(p, hist[0]@)
    } else {
        min(nearest(p, hist.drop_last()), distance_spec(p, hist.last()@))
    }
}

pub fn calculate_novelty_score(new_pattern: &Vec<i64>, historical_patterns: &Vec<Vec<i64>>, threshold: i64) -> (r: i64)
    requires
        threshold > 0,
        new_pattern@.len() <= MAX_DIM,
        bounded_by(new_pattern@, LIMIT as int),
        forall|i: int| 0 <= i < historical_patterns@.len() ==> bounded_by((#[trigger] historical_patterns@[i])@, LIMIT as int),
    ensures
        r == pattern_novelty(new_pattern@, historical_patterns@, threshold as int),
{
    let n = historical_patterns.len();
    if n == 0 {
        return SCALE;
    }
    let mut best = euclidean_distance(new_pattern, &historical_patterns[0]);
    let mut i: usize = 1;
    while i < n
        invariant
            1 <= i <= n,
            n == historical_patterns@.len(),
            new_pattern@.len() <= MAX_DIM,
            bounded_by(new_pattern@, LIMIT as int),
            forall|j: int| 0 <= j < historical_patterns@.len() ==> bounded_by((#[trigger] historical_patterns@[j])@, LIMIT as int),
            best == nearest(new_pattern@, historical_patterns@.subrange(0, i as int)),
            0 <= best,
        decreases n - i,
    {
        assert(historical_patterns@.subrange(0, i as int + 1).drop_last() == historical_patterns@.subrange(0, i as int));
        let d = euclidean_distance(new_pattern, &historical_patterns[i]);
        if d < best {
            best = d;
        }
        i += 1;
    }
    assert(historical_patterns@.subrange(0, n as int) == historical_patterns@);
    let q = (best as i128) * (SCALE as i128) / (threshold as i128);
    if q > SCALE as i128 {
        SCALE
    } else {
        q as i64
    }
}

} // verus!
