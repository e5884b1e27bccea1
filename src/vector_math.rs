//! Fixed-point vector arithmetic: dot products, integer square roots,
//! cosine similarity, Euclidean distance and unit normalization.
use vstd::prelude::*;
use crate::numeric::{SCALE, LIMIT, MAX_DIM, div_trunc, min, abs};

verus! {

/// Largest magnitude accepted for a probe vector component (about 4295
/// units).
pub const QUERY_LIMIT: i64 = 4_294_967_296;

pub open spec fn bounded_by(v: Seq<i64>, bound: int) -> bool {
    forall|i: int| 0 <= i < v.len() ==> -bound <= #[trigger] v[i] <= bound
}

/// `sum_{i < n} a[i] * b[i]`.
pub open spec fn dot_upto(a: Seq<i64>, b: Seq<i64>, n: int) -> int
    decreases n,
{
    if n <= 0 {
        0
    } else {
        dot_upto(a, b, n - 1) + a[n - 1] * b[n - 1]
    }
}

/// `sum_{i < n} (a[i] - b[i])^2`.
pub open spec fn sq_dist_upto(a: Seq<i64>, b: Seq<i64>, n: int) -> int
    decreases n,
{
    if n <= 0 {
        0
    } else {
        sq_dist_upto(a, b, n - 1) + (a[n - 1] - b[n - 1]) * (a[n - 1] - b[n - 1])
    }
}

/// The dot product over the common prefix of two vectors.
pub open spec fn dot(a: Seq<i64>, b: Seq<i64>) -> int {
    dot_upto(a, b, min(a.len() as int, b.len() as int))
}

pub open spec fn norm_sq(a: Seq<i64>) -> int {
    dot_upto(a, a, a.len() as int)
}

pub open spec fn is_root(n: int, r: int) -> bool {
    r >= 0 && r * r <= n && n < (r + 1) * (r + 1)
}

/// The integer square root: the largest `r` with `r * r <= n`.
pub open spec fn isqrt(n: int) -> int {
    choose|r: int| is_root(n, r)
}

pub proof fn lemma_root_unique(n: int, r1: int, r2: int)
    requires
        is_root(n, r1),
        is_root(n, r2),
    ensures
        r1 == r2,
{
    if r1 < r2 {
        assert((r1 + 1) * (r1 + 1) <= r2 * r2) by (nonlinear_arith)
            requires
                0 <= r1 + 1 <= r2,
        ;
    } else if r2 < r1 {
        assert((r2 + 1) * (r2 + 1) <= r1 * r1) by (nonlinear_arith)
            requires
                0 <= r2 + 1 <= r1,
        ;
    }
}

/// Integer square root by bisection.
pub fn int_sqrt(n: u128) -> (r: u128)
    requires
        n < 0x4000_0000_0000_0000_0000_0000_0000,
    ensures
        r == isqrt(n as int),
        is_root(n as int, r as int),
{
    let mut lo: u128 = 0;
    let mut hi: u128 = 0x80_0000_0000_0000;
    assert(hi * hi > n) by (nonlinear_arith)
        requires
            hi == 0x80_0000_0000_0000u128,
            n < 0x4000_0000_0000_0000_0000_0000_0000,
    ;
    while lo + 1 < hi
        invariant
            lo < hi <= 0x80_0000_0000_0000,
            lo * lo <= n,
            n < hi * hi,
        decreases hi - lo,
    {
        let mid = lo + (hi - lo) / 2;
        assert(mid * mid <= 0x80_0000_0000_0000 * 0x80_0000_0000_0000) by (nonlinear_arith)
            requires
                mid <= 0x80_0000_0000_0000u128,
        ;
        if mid * mid <= n {
            lo = mid;
        } else {
            hi = mid;
        }
    }
    assert(hi == lo + 1);
    assert(is_root(n as int, lo as int));
    proof {
        lemma_root_unique(n as int, lo as int, isqrt(n as int));
    }
    lo
}

proof fn lemma_step_bound(i: int, b: int)
    requires
        0 <= i < 65536,
        b >= 0,
    ensures
        (i + 1) * b == i * b + b,
        0 <= i * b,
        (i + 1) * b <= 65536 * b,
{
    assert((i + 1) * b == i * b + b) by (nonlinear_arith);
    assert(0 <= i * b) by (nonlinear_arith)
        requires
            0 <= i,
            b >= 0,
    ;
    assert((i + 1) * b <= 65536 * b) by (nonlinear_arith)
        requires
            i + 1 <= 65536,
            b >= 0,
    ;
}

proof fn lemma_mul_le(i: int, b: int)
    requires
        0 <= i <= 65536,
        b >= 0,
    ensures
        0 <= i * b <= 65536 * b,
{
    assert(0 <= i * b <= 65536 * b) by (nonlinear_arith)
        requires
            0 <= i <= 65536,
            b >= 0,
    ;
}

proof fn lemma_prod_bound(x: int, y: int, bx: int, by_: int)
    requires
        -bx <= x <= bx,
        -by_ <= y <= by_,
        bx >= 0,
        by_ >= 0,
    ensures
        -(bx * by_) <= x * y <= bx * by_,
{
    assert(-(bx * by_) <= x * y <= bx * by_) by (nonlinear_arith)
        requires
            -bx <= x <= bx,
            -by_ <= y <= by_,
            bx >= 0,
            by_ >= 0,
    ;
}

/// Dot product of the common prefix of two vectors whose components are
/// within `LIMIT`.
pub fn dot_product(a: &Vec<i64>, b: &Vec<i64>) -> (r: i128)
    requires
        bounded_by(a@, LIMIT as int),
        bounded_by(b@, LIMIT as int),
        a@.len() <= MAX_DIM || b@.len() <= MAX_DIM,
    ensures
        r == dot(a@, b@),
        -(65536 * (LIMIT * LIMIT)) <= r <= 65536 * (LIMIT * LIMIT),
{
    let n = if a.len() < b.len() {
        a.len()
    } else {
        b.len()
    };
    let mut s: i128 = 0;
    let mut i: usize = 0;
    while i < n
        invariant
            0 <= i <= n,
            n == min(a@.len() as int, b@.len() as int),
            n <= MAX_DIM,
            bounded_by(a@, LIMIT as int),
            bounded_by(b@, LIMIT as int),
            s == dot_upto(a@, b@, i as int),
            -((i as int) * (LIMIT * LIMIT)) <= s <= (i as int) * (LIMIT * LIMIT),
        decreases n - i,
    {
        proof {
            lemma_prod_bound(a@[i as int] as int, b@[i as int] as int, LIMIT as int, LIMIT as int);
        }
        proof {
            lemma_step_bound(i as int, LIMIT * LIMIT);
        }
        let p = (a[i] as i128) * (b[i] as i128);
        s = s + p;
        i += 1;
    }
    proof {
        lemma_mul_le(i as int, LIMIT * LIMIT);
    }
    s
}

/// Squared Euclidean distance over the common prefix.
pub fn squared_distance(a: &Vec<i64>, b: &Vec<i64>) -> (r: i128)
    requires
        bounded_by(a@, LIMIT as int),
        bounded_by(b@, LIMIT as int),
        a@.len() <= MAX_DIM || b@.len() <= MAX_DIM,
    ensures
        r == sq_dist_upto(a@, b@, min(a@.len() as int, b@.len() as int)),
        0 <= r <= 65536 * (4 * LIMIT * LIMIT),
{
    let n = if a.len() < b.len() {
        a.len()
    } else {
        b.len()
    };
    let mut s: i128 = 0;
    let mut i: usize = 0;
    while i < n
        invariant
            0 <= i <= n,
            n == min(a@.len() as int, b@.len() as int),
            n <= MAX_DIM,
            bounded_by(a@, LIMIT as int),
            bounded_by(b@, LIMIT as int),
            s == sq_dist_upto(a@, b@, i as int),
            0 <= s <= (i as int) * (4 * LIMIT * LIMIT),
        decreases n - i,
    {
        let d = (a[i] as i128) - (b[i] as i128);
        proof {
            lemma_prod_bound(d as int, d as int, 2 * LIMIT as int, 2 * LIMIT as int);
        }
        assert(d * d >= 0) by (nonlinear_arith);
        proof {
            lemma_step_bound(i as int, 4 * LIMIT * LIMIT);
        }
        s = s + d * d;
        i += 1;
    }
    proof {
        lemma_mul_le(i as int, 4 * LIMIT * LIMIT);
    }
    s
}

proof fn lemma_norm_sq_nonneg(a: Seq<i64>, n: int)
    ensures
        dot_upto(a, a, n) >= 0,
    decreases n,
{
    if n > 0 {
        lemma_norm_sq_nonneg(a, n - 1);
        assert(a[n - 1] * a[n - 1] >= 0) by (nonlinear_arith);
    }
}

/// A dot product is bounded by the length times the component bounds.
pub proof fn lemma_dot_bound(a: Seq<i64>, b: Seq<i64>, n: int, ba: int, bb: int)
    requires
        0 <= n <= a.len(),
        n <= b.len(),
        ba >= 0,
        bb >= 0,
        bounded_by(a, ba),
        bounded_by(b, bb),
    ensures
        -(n * (ba * bb)) <= dot_upto(a, b, n) <= n * (ba * bb),
    decreases n,
{
    if n > 0 {
        lemma_dot_bound(a, b, n - 1, ba, bb);
        lemma_prod_bound(a[n - 1] as int, b[n - 1] as int, ba, bb);
        assert(n * (ba * bb) == (n - 1) * (ba * bb) + ba * bb) by (nonlinear_arith);
    }
}

/// Each squared component is at most the squared norm.
pub proof fn lemma_component_le_norm(a: Seq<i64>, n: int, i: int)
    requires
        0 <= i < n <= a.len(),
    ensures
        a[i] * a[i] <= dot_upto(a, a, n),
    decreases n,
{
    lemma_norm_sq_nonneg(a, n - 1);
    assert(a[n - 1] * a[n - 1] >= 0) by (nonlinear_arith);
    if i < n - 1 {
        lemma_component_le_norm(a, n - 1, i);
    }
}

/// A component is at most the integer root of the squared norm.
pub proof fn lemma_component_le_root(x: int, s: int, r: int)
    requires
        x * x <= s,
        is_root(s, r),
    ensures
        -r <= x <= r,
{
    if abs(x) > r {
        assert((r + 1) * (r + 1) <= abs(x) * abs(x)) by (nonlinear_arith)
            requires
                abs(x) >= r + 1,
                r >= 0,
        ;
        assert(abs(x) * abs(x) == x * x) by (nonlinear_arith);
    }
}

/// The cosine similarity of two vectors in millionths: the dot product of
/// the common prefix over the product of the (integer-rooted) norms, held
/// to [-1, 1]; zero when either vector is zero.
pub open spec fn cosine_spec(a: Seq<i64>, b: Seq<i64>) -> int {
    let na = norm_sq(a);
    let nb = norm_sq(b);
    if na == 0 || nb == 0 {
        0
    } else {
        let c = div_trunc(dot(a, b) * SCALE, isqrt(na) * isqrt(nb));
        if c > SCALE {
            SCALE as int
        } else if c < -SCALE {
            -SCALE
        } else {
            c
        }
    }
}

/// The Euclidean distance in millionths (integer root of the squared
/// distance of the common prefix).
pub open spec fn distance_spec(a: Seq<i64>, b: Seq<i64>) -> int {
    isqrt(sq_dist_upto(a, b, min(a.len() as int, b.len() as int)))
}

pub fn euclidean_distance(a: &Vec<i64>, b: &Vec<i64>) -> (r: i64)
    requires
        bounded_by(a@, LIMIT as int),
        bounded_by(b@, LIMIT as int),
        a@.len() <= MAX_DIM || b@.len() <= MAX_DIM,
    ensures
        r == distance_spec(a@, b@),
        r >= 0,
{
    let s = squared_distance(a, b);
    assert(s <= 65536 * (4 * LIMIT * LIMIT));
    let r = int_sqrt(s as u128);
    assert(r <= 0x100_0000_0000_0000) by (nonlinear_arith)
        requires
            r * r <= s,
            s <= 65536 * (4 * LIMIT * LIMIT),
    ;
    r as i64
}

fn norm_root(a: &Vec<i64>) -> (r: i128)
    requires
        bounded_by(a@, LIMIT as int),
        a@.len() <= MAX_DIM,
    ensures
        r == isqrt(norm_sq(a@)),
        is_root(norm_sq(a@), r as int),
        0 <= r <= 0x100_0000_0000_0000,
{
    let s = dot_product(a, a);
    proof {
        lemma_norm_sq_nonneg(a@, a@.len() as int);
    }
    assert(s == norm_sq(a@));
    let r = int_sqrt(s as u128);
    assert(r <= 0x100_0000_0000_0000) by (nonlinear_arith)
        requires
            r * r <= s,
            s <= 65536 * (LIMIT * LIMIT),
    ;
    r as i128
}

pub fn cosine_similarity(a: &Vec<i64>, b: &Vec<i64>) -> (r: i64)
    requires
        bounded_by(a@, LIMIT as int),
        bounded_by(b@, LIMIT as int),
        a@.len() <= MAX_DIM,
        b@.len() <= MAX_DIM,
    ensures
        r == cosine_spec(a@, b@),
        -SCALE <= r <= SCALE,
{
    let d = dot_product(a, b);
    let ra = norm_root(a);
    let rb = norm_root(b);
    let na = dot_product(a, a);
    let nb = dot_product(b, b);
    assert(na == norm_sq(a@) && nb == norm_sq(b@));
    if na == 0 || nb == 0 {
        return 0;
    }
    proof {
        lemma_norm_sq_nonneg(a@, a@.len() as int);
        lemma_norm_sq_nonneg(b@, b@.len() as int);
    }
    assert(ra >= 1) by {
        if ra == 0 {
            assert((ra + 1) * (ra + 1) == 1) by (nonlinear_arith)
                requires
                    ra == 0,
            ;
        }
    }
    assert(rb >= 1) by {
        if rb == 0 {
            assert((rb + 1) * (rb + 1) == 1) by (nonlinear_arith)
                requires
                    rb == 0,
            ;
        }
    }
    let num = d * (SCALE as i128);
    assert(1 <= ra * rb <= 0x100_0000_0000_0000 * 0x100_0000_0000_0000) by (nonlinear_arith)
        requires
            1 <= ra <= 0x100_0000_0000_0000,
            1 <= rb <= 0x100_0000_0000_0000,
    ;
    let den = ra * rb;
    let c = num / den;
    if c > SCALE as i128 {
        SCALE
    } else if c < -(SCALE as i128) {
        -SCALE
    } else {
        c as i64
    }
}

/// A vector scaled to unit length in millionths: each component times one
/// unit over the integer root of the squared norm, rounded toward zero.
/// The zero vector is left as it is.
pub open spec fn normalized(v: Seq<i64>) -> Seq<i64> {
    let n = norm_sq(v);
    if n == 0 {
        v
    } else {
        Seq::new(v.len(), |i: int| div_trunc(v[i] * SCALE, isqrt(n)) as i64)
    }
}

/// Scales `v` to unit length in place (no change for the zero vector).
/// Every component of the result lies within one unit.
pub fn normalize_vector(v: &mut Vec<i64>)
    requires
        bounded_by(old(v)@, LIMIT as int),
        old(v)@.len() <= MAX_DIM,
    ensures
        final(v)@ == normalized(old(v)@),
        norm_sq(old(v)@) != 0 ==> bounded_by(final(v)@, SCALE as int),
{
    let n = dot_product(v, v);
    assert(n == norm_sq(v@));
    if n == 0 {
        return;
    }
    let r = norm_root(v);
    let ghost v0 = v@;
    let ghost nn = norm_sq(v0);
    let mut i: usize = 0;
    while i < v.len()
        invariant
            0 <= i <= v@.len(),
            v@.len() == v0.len(),
            v0.len() <= MAX_DIM,
            bounded_by(v0, LIMIT as int),
            is_root(nn, r as int),
            r == isqrt(nn),
            nn == norm_sq(v0),
            nn != 0,
            forall|j: int| i <= j < v@.len() ==> v@[j] == v0[j],
            forall|j: int|
                0 <= j < i ==> #[trigger] v@[j] == div_trunc(v0[j] * SCALE, isqrt(nn)) as i64,
            forall|j: int| 0 <= j < i ==> -SCALE <= #[trigger] v@[j] <= SCALE,
        decreases v@.len() - i,
    {
        let x = v[i];
        proof {
            lemma_component_le_norm(v0, v0.len() as int, i as int);
            lemma_component_le_root(x as int, nn, r as int);
        }
        proof {
            lemma_norm_sq_nonneg(v0, v0.len() as int);
        }
        assert(r >= 1) by {
            if r == 0 {
                assert((r + 1) * (r + 1) == 1) by (nonlinear_arith)
                requires
                    r == 0,
            ;
            }
        }
        let num = (x as i128) * (SCALE as i128);
        let q = num / r;
        assert(-SCALE <= q <= SCALE) by (nonlinear_arith)
            requires
                -r <= x <= r,
                r >= 1,
                num == x * SCALE,
                q == div_trunc(num as int, r as int),
        ;
        v.set(i, q as i64);
        i += 1;
    }
    assert(v@ == normalized(v0));
}

} // verus!

verus! {

pub fn all_within(v: &Vec<i64>, bound: i64) -> (r: bool)
    requires
        bound >= 0,
    ensures
        r == bounded_by(v@, bound as int),
{
    let mut i: usize = 0;
    while i < v.len()
        invariant
            0 <= i <= v@.len(),
            bound >= 0,
            forall|j: int| 0 <= j < i ==> -bound <= #[trigger] v@[j] <= bound,
        decreases v@.len() - i,
    {
        if v[i] < -bound || v[i] > bound {
            return false;
        }
        i += 1;
    }
    true
}

} // verus!

verus! {

/// Under cosine similarity a nonzero vector is at least as similar to
/// itself (exactly one unit) as to any other vector.
pub proof fn lemma_self_similarity_maximal(v: Seq<i64>, w: Seq<i64>)
    requires
        norm_sq(v) != 0,
    ensures
        cosine_spec(v, v) == SCALE,
        cosine_spec(v, w) <= cosine_spec(v, v),
{
    let n = norm_sq(v);
    let r = isqrt(n);
    lemma_norm_sq_nonneg(v, v.len() as int);
    lemma_isqrt_exists(n);
    assert(dot(v, v) == n);
    assert(r >= 1) by {
        if r == 0 {
            assert((r + 1) * (r + 1) == 1) by (nonlinear_arith)
                requires
                    r == 0,
            ;
        }
    }
    assert(n * SCALE / (r * r) >= SCALE) by (nonlinear_arith)
        requires
            r * r <= n,
            r >= 1,
    ;
}

/// Every non-negative integer has an integer square root.
pub proof fn lemma_isqrt_exists(n: int)
    requires
        n >= 0,
    ensures
        is_root(n, isqrt(n)),
    decreases n,
{
    if n == 0 {
        assert(is_root(0, 0));
    } else {
        lemma_isqrt_exists(n - 1);
        let r = isqrt(n - 1);
        if (r + 1) * (r + 1) <= n {
            assert(n < (r + 2) * (r + 2)) by (nonlinear_arith)
                requires
                    n - 1 < (r + 1) * (r + 1),
                    r >= 0,
            ;
            assert(is_root(n, r + 1));
        } else {
            assert(is_root(n, r));
        }
    }
}

} // verus!
