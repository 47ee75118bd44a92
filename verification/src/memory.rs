//! Vector memory: stored message embeddings, ranked for retrieval by
//! similarity combined with time decay and importance.
//!
//! Embeddings are held as fixed-point integers in micro units: a component
//! value of one whole unit is `SCALE`.  Similarity between two embeddings is
//! defined only when their dimensions match; mismatched or empty vectors
//! yield similarity zero, never an error.  Decay is exponential: each hour
//! multiplies the weight by a configured hourly factor, so a factor of one
//! whole unit disables decay.

use vstd::prelude::*;
use crate::SCALE;
use crate::debounce::elapsed_spec;

verus! {

/// Largest embedding dimension the store accepts.
pub const MAX_DIM: usize = 4096;

/// Largest magnitude of one embedding component, one whole unit.
pub const COMP_CAP: i64 = 1_000_000;

/// Largest importance weight, a thousand whole units.
pub const IMP_CAP: u64 = 1_000_000_000;

/// Largest possible squared norm: `MAX_DIM * COMP_CAP * COMP_CAP`.
pub const MAX_NORM_SQ: u64 = 4_096_000_000_000_000;

/// The dot product of two equally long vectors.
pub open spec fn dot_spec(a: Seq<i64>, b: Seq<i64>) -> int
    decreases a.len(),
{
    if a.len() == 0 || b.len() == 0 {
        0
    } else {
        a.last() * b.last() + dot_spec(a.drop_last(), b.drop_last())
    }
}

/// The dot product does not depend on the order of its arguments.
pub proof fn lemma_dot_symmetric(a: Seq<i64>, b: Seq<i64>)
    ensures
        dot_spec(a, b) == dot_spec(b, a),
    decreases a.len(),
{
    if a.len() > 0 && b.len() > 0 {
        lemma_dot_symmetric(a.drop_last(), b.drop_last());
        assert(a.last() * b.last() == b.last() * a.last()) by (nonlinear_arith);
    }
}

/// A vector's dot product with itself is never negative.
pub proof fn lemma_dot_self_nonneg(a: Seq<i64>)
    ensures
        dot_spec(a, a) >= 0,
    decreases a.len(),
{
    if a.len() > 0 {
        lemma_dot_self_nonneg(a.drop_last());
        assert(a.last() * a.last() >= 0) by (nonlinear_arith);
    }
}

/// Componentwise bounds give a linear bound on the dot product.
pub proof fn lemma_dot_bound(a: Seq<i64>, b: Seq<i64>)
    requires
        a.len() == b.len(),
        forall|i: int| 0 <= i < a.len() ==> -COMP_CAP <= #[trigger] a[i] <= COMP_CAP,
        forall|i: int| 0 <= i < b.len() ==> -COMP_CAP <= #[trigger] b[i] <= COMP_CAP,
    ensures
        -(a.len() * COMP_CAP * COMP_CAP) <= dot_spec(a, b) <= a.len() * COMP_CAP * COMP_CAP,
    decreases a.len(),
{
    if a.len() == 0 {
    } else {
        let x = a.last();
        let y = b.last();
        lemma_dot_bound(a.drop_last(), b.drop_last());
        assert(-(COMP_CAP * COMP_CAP) <= x * y <= COMP_CAP * COMP_CAP) by (nonlinear_arith)
            requires
                -COMP_CAP <= x <= COMP_CAP,
                -COMP_CAP <= y <= COMP_CAP,
        ;
        assert(a.len() * COMP_CAP * COMP_CAP == (a.len() - 1) * COMP_CAP * COMP_CAP + COMP_CAP
            * COMP_CAP) by (nonlinear_arith);
    }
}

/// The largest `r` with `r * r <= x`.
pub open spec fn isqrt_spec(x: nat) -> nat
    decreases x,
{
    if x == 0 {
        0
    } else {
        let r = isqrt_spec((x - 1) as nat);
        if (r + 1) * (r + 1) <= x {
            r + 1
        } else {
            r
        }
    }
}

/// `isqrt_spec` really is the floored square root.
pub proof fn lemma_isqrt_property(x: nat)
    ensures
        isqrt_spec(x) * isqrt_spec(x) <= x,
        x < (isqrt_spec(x) + 1) * (isqrt_spec(x) + 1),
    decreases x,
{
    if x > 0 {
        lemma_isqrt_property((x - 1) as nat);
        let r = isqrt_spec((x - 1) as nat);
        if (r + 1) * (r + 1) <= x {
            assert(isqrt_spec(x) == r + 1);
            assert(x < (r + 2) * (r + 2)) by (nonlinear_arith)
                requires
                    x - 1 < (r + 1) * (r + 1),
                    r >= 0,
            ;
            assert(x < (isqrt_spec(x) + 1) * (isqrt_spec(x) + 1)) by (nonlinear_arith)
                requires
                    isqrt_spec(x) == r + 1,
                    x < (r + 2) * (r + 2),
            ;
        } else {
            assert(isqrt_spec(x) == r);
        }
    } else {
        assert(isqrt_spec(x) == 0);
        assert(x < (isqrt_spec(x) + 1) * (isqrt_spec(x) + 1)) by (nonlinear_arith)
            requires
                x == 0,
                isqrt_spec(x) == 0,
        ;
    }
}

/// Only the floored square root has its defining property.
pub proof fn lemma_isqrt_unique(x: nat, s: nat)
    requires
        s * s <= x,
        x < (s + 1) * (s + 1),
    ensures
        s == isqrt_spec(x),
{
    lemma_isqrt_property(x);
    let r = isqrt_spec(x);
    if s < r {
        assert((s + 1) * (s + 1) <= r * r) by (nonlinear_arith)
            requires
                s + 1 <= r,
                s >= 0,
        ;
    }
    if r < s {
        assert((r + 1) * (r + 1) <= s * s) by (nonlinear_arith)
            requires
                r + 1 <= s,
                r >= 0,
        ;
    }
}

/// Floored square root by binary search, wide enough for the product of
/// two squared norms.
pub fn isqrt128(x: u128) -> (r: u128)
    requires
        x as int <= (MAX_NORM_SQ as int) * (MAX_NORM_SQ as int),
    ensures
        r as nat == isqrt_spec(x as nat),
        r <= 0x10000000000000,
{
    let mut lo: u128 = 0;
    let mut hi: u128 = 0x10000000000000;  // 2^52, whose square exceeds any norm product
    proof {
        assert((MAX_NORM_SQ as int) * (MAX_NORM_SQ as int) < (0x10000000000000 as int) * (
        0x10000000000000 as int)) by (nonlinear_arith);
    }
    while lo < hi
        invariant
            lo <= hi <= 0x10000000000000,
            lo * lo <= x,
            x < (hi + 1) * (hi + 1),
        decreases hi - lo,
    {
        let mid = lo + (hi - lo + 1) / 2;
        proof {
            assert(mid * mid <= 0x10000000000000u128 * 0x10000000000000u128)
                by (nonlinear_arith)
                requires
                    0 <= mid <= 0x10000000000000u128,
            ;
        }
        if mid * mid <= x {
            lo = mid;
        } else {
            hi = mid - 1;
        }
    }
    proof {
        lemma_isqrt_unique(x as nat, lo as nat);
    }
    lo
}

proof fn lemma_cross_term_nonneg(a: Seq<i64>, b: Seq<i64>, x: int, y: int)
    requires
        a.len() == b.len(),
    ensures
        dot_spec(a, a) * (y * y) - 2 * (dot_spec(a, b) * (x * y)) + dot_spec(b, b) * (x * x)
            >= 0,
    decreases a.len(),
{
    if a.len() > 0 {
        let u = a.last() as int;
        let v = b.last() as int;
        let a1 = a.drop_last();
        let b1 = b.drop_last();
        lemma_cross_term_nonneg(a1, b1, x, y);
        let pa = dot_spec(a1, a1);
        let pd = dot_spec(a1, b1);
        let pb = dot_spec(b1, b1);
        assert(dot_spec(a, a) == pa + u * u);
        assert(dot_spec(a, b) == pd + u * v);
        assert(dot_spec(b, b) == pb + v * v);
        assert((u * y - v * x) * (u * y - v * x) >= 0) by (nonlinear_arith);
        assert((pa + u * u) * (y * y) == pa * (y * y) + (u * u) * (y * y)) by (nonlinear_arith);
        assert((pd + u * v) * (x * y) == pd * (x * y) + (u * v) * (x * y)) by (nonlinear_arith);
        assert((pb + v * v) * (x * x) == pb * (x * x) + (v * v) * (x * x)) by (nonlinear_arith);
        let p = u * y;
        let q = v * x;
        assert((p - q) * (p - q) == p * p - 2 * (p * q) + q * q) by (nonlinear_arith);
        assert(p * p == (u * u) * (y * y)) by (nonlinear_arith)
            requires
                p == u * y,
        ;
        assert(p * q == (u * v) * (x * y)) by (nonlinear_arith)
            requires
                p == u * y,
                q == v * x,
        ;
        assert(q * q == (v * v) * (x * x)) by (nonlinear_arith)
            requires
                q == v * x,
        ;
        assert((u * y - v * x) * (u * y - v * x) == (u * u) * (y * y) - 2 * ((u * v) * (x * y))
            + (v * v) * (x * x));
        assert((pa + u * u) * (y * y) - 2 * ((pd + u * v) * (x * y)) + (pb + v * v) * (x * x)
            >= 0);
    }
}

/// The dot product is bounded by the norms: its square never exceeds the
/// product of the squared norms.
pub proof fn lemma_cauchy_schwarz(a: Seq<i64>, b: Seq<i64>)
    requires
        a.len() == b.len(),
    ensures
        dot_spec(a, b) * dot_spec(a, b) <= dot_spec(a, a) * dot_spec(b, b),
    decreases a.len(),
{
    if a.len() > 0 {
        let u = a.last() as int;
        let v = b.last() as int;
        let a1 = a.drop_last();
        let b1 = b.drop_last();
        lemma_cauchy_schwarz(a1, b1);
        lemma_cross_term_nonneg(a1, b1, u, v);
        let pa = dot_spec(a1, a1);
        let pd = dot_spec(a1, b1);
        let pb = dot_spec(b1, b1);
        assert(dot_spec(a, a) == pa + u * u);
        assert(dot_spec(a, b) == pd + u * v);
        assert(dot_spec(b, b) == pb + v * v);
        assert((pd + u * v) * (pd + u * v) == pd * pd + 2 * (pd * (u * v)) + (u * u) * (v * v))
            by (nonlinear_arith);
        assert((pa + u * u) * (pb + v * v) == pa * pb + pa * (v * v) + pb * (u * u) + (u * u) * (
        v * v)) by (nonlinear_arith);
        assert((pd + u * v) * (pd + u * v) <= (pa + u * u) * (pb + v * v));
    }
}

/// The similarity of two embeddings, in micro units: the dot product scaled
/// by one whole unit and divided by the floored square root of the product
/// of the squared norms.  Mismatched or empty vectors, and vectors with a
/// zero norm, yield zero.
pub open spec fn cosine_sim_spec(a: Seq<i64>, b: Seq<i64>) -> int {
    if a.len() != b.len() || a.len() == 0 {
        0
    } else {
        let n = isqrt_spec((dot_spec(a, a) * dot_spec(b, b)) as nat);
        if n == 0 {
            0
        } else {
            let d = dot_spec(a, b);
            if d >= 0 {
                (d * SCALE) / (n as int)
            } else {
                -(((-d) * SCALE) / (n as int))
            }
        }
    }
}

/// Similarity symmetry and the mismatch rule: the similarity of `a` and `b`
/// equals that of `b` and `a`, and vectors of different lengths always give
/// zero.
pub proof fn lemma_cosine_symmetry(a: Seq<i64>, b: Seq<i64>)
    ensures
        cosine_sim_spec(a, b) == cosine_sim_spec(b, a),
        a.len() != b.len() ==> cosine_sim_spec(a, b) == 0,
{
    lemma_dot_symmetric(a, b);
    if a.len() == b.len() && a.len() > 0 {
        assert(dot_spec(a, a) * dot_spec(b, b) == dot_spec(b, b) * dot_spec(a, a))
            by (nonlinear_arith);
    }
}

/// The similarity never leaves the unit range: its magnitude is at most one
/// whole unit.
pub proof fn lemma_cosine_bounded(a: Seq<i64>, b: Seq<i64>)
    ensures
        -(SCALE as int) <= cosine_sim_spec(a, b) <= SCALE as int,
{
    if a.len() == b.len() && a.len() > 0 {
        lemma_dot_self_nonneg(a);
        lemma_dot_self_nonneg(b);
        let da = dot_spec(a, a);
        let db = dot_spec(b, b);
        let prod = da * db;
        assert(prod >= 0) by (nonlinear_arith)
            requires
                prod == da * db,
                da >= 0,
                db >= 0,
        ;
        let n = isqrt_spec(prod as nat);
        if n > 0 {
            lemma_cauchy_schwarz(a, b);
            lemma_isqrt_property(prod as nat);
            let d = dot_spec(a, b);
            assert(-(n as int) <= d <= n as int) by (nonlinear_arith)
                requires
                    d * d <= prod,
                    prod < (n + 1) * (n + 1),
                    n >= 0,
            ;
            lemma_scaled_quotient_bounded(d, n as int);
        }
    }
}

/// With `|d| <= n`, the scaled quotient `d * SCALE / n` stays within one
/// whole unit either way.
proof fn lemma_scaled_quotient_bounded(d: int, n: int)
    requires
        n >= 1,
        -n <= d <= n,
    ensures
        d >= 0 ==> 0 <= (d * SCALE) / n <= SCALE as int,
        d < 0 ==> 0 <= ((-d) * SCALE) / n <= SCALE as int,
{
    let m = if d >= 0 {
        d
    } else {
        -d
    };
    assert(m * SCALE <= n * (SCALE as int)) by (nonlinear_arith)
        requires
            0 <= m <= n,
    ;
    vstd::arithmetic::div_mod::lemma_div_is_ordered(m * SCALE, n * (SCALE as int), n);
    assert(n * (SCALE as int) == (SCALE as int) * n) by (nonlinear_arith);
    vstd::arithmetic::div_mod::lemma_div_by_multiple(SCALE as int, n);
    vstd::arithmetic::div_mod::lemma_div_basics_4(m * SCALE, n);
}

/// The decay weight after `h` hours, in micro units: each hour multiplies
/// the weight by `q / SCALE`, starting from one whole unit.
pub open spec fn decay_spec(q: u64, h: nat) -> int
    decreases h,
{
    if h == 0 {
        SCALE as int
    } else {
        (decay_spec(q, (h - 1) as nat) * q) / (SCALE as int)
    }
}

/// The decay weight stays between zero and one whole unit, and never grows
/// from one hour to the next.
pub proof fn lemma_decay_bounds(q: u64, h: nat)
    requires
        q <= SCALE,
    ensures
        0 <= decay_spec(q, h) <= SCALE,
        h > 0 ==> decay_spec(q, h) <= decay_spec(q, (h - 1) as nat),
    decreases h,
{
    if h > 0 {
        lemma_decay_bounds(q, (h - 1) as nat);
        let x = decay_spec(q, (h - 1) as nat);
        assert(0 <= x * q <= x * (SCALE as int)) by (nonlinear_arith)
            requires
                0 <= x,
                0 <= q <= SCALE,
        ;
    }
}

/// Decay never increases with age.
pub proof fn lemma_decay_nonincreasing(q: u64, h1: nat, h2: nat)
    requires
        q <= SCALE,
        h1 <= h2,
    ensures
        decay_spec(q, h2) <= decay_spec(q, h1),
    decreases h2,
{
    if h1 < h2 {
        lemma_decay_bounds(q, h2);
        lemma_decay_nonincreasing(q, h1, (h2 - 1) as nat);
    }
}

/// Decay monotonicity: with a factor strictly below one whole unit, a
/// strictly older weight is strictly smaller as long as the younger one has
/// not reached zero; and the weight at age zero is exactly one whole unit.
pub proof fn lemma_decay_monotone(q: u64, h1: nat, h2: nat)
    requires
        q < SCALE,
        h1 < h2,
        decay_spec(q, h1) > 0,
    ensures
        decay_spec(q, h1) > decay_spec(q, h2),
        decay_spec(q, 0) == SCALE,
{
    let x = decay_spec(q, h1);
    lemma_decay_bounds(q, h1);
    assert(x * q <= x * ((SCALE - 1) as int)) by (nonlinear_arith)
        requires
            0 <= x,
            q <= SCALE - 1,
    ;
    assert(x * ((SCALE - 1) as int) == (x - 1) * (SCALE as int) + ((SCALE as int) - x))
        by (nonlinear_arith);
    assert(((x - 1) * (SCALE as int) + ((SCALE as int) - x)) / (SCALE as int) == x - 1) by {
        vstd::arithmetic::div_mod::lemma_fundamental_div_mod_converse(
            (x - 1) * (SCALE as int) + ((SCALE as int) - x),
            SCALE as int,
            x - 1,
            (SCALE as int) - x,
        );
    }
    assert(x * q / (SCALE as int) <= (x * ((SCALE - 1) as int)) / (SCALE as int)) by {
        vstd::arithmetic::div_mod::lemma_div_is_ordered(
            x * q,
            x * ((SCALE - 1) as int),
            SCALE as int,
        );
    }
    assert(decay_spec(q, h1 + 1) <= x - 1);
    lemma_decay_nonincreasing(q, h1 + 1, h2);
}

/// A factor of one whole unit disables decay entirely.
pub proof fn lemma_decay_disabled(h: nat)
    ensures
        decay_spec(SCALE, h) == SCALE,
    decreases h,
{
    if h > 0 {
        lemma_decay_disabled((h - 1) as nat);
    }
}

/// Once the weight reaches zero it stays there.
pub proof fn lemma_decay_zero_stays(q: u64, h1: nat, h2: nat)
    requires
        h1 <= h2,
        decay_spec(q, h1) == 0,
    ensures
        decay_spec(q, h2) == 0,
    decreases h2,
{
    if h1 < h2 {
        lemma_decay_zero_stays(q, h1, (h2 - 1) as nat);
    }
}

/// Computes the decay weight for an age in hours, as `decay_spec` describes
/// it.
pub fn decay(q: u64, hours: u64) -> (r: u64)
    requires
        q <= SCALE,
    ensures
        r as int == decay_spec(q, hours as nat),
        r <= SCALE,
{
    let mut x: u64 = SCALE;
    let mut i: u64 = 0;
    while i < hours
        invariant
            q <= SCALE,
            i <= hours,
            x as int == decay_spec(q, i as nat),
            x <= SCALE,
        decreases hours - i,
    {
        if x == 0 {
            proof {
                lemma_decay_zero_stays(q, i as nat, hours as nat);
            }
            i = hours;
        } else {
            proof {
                assert(x * q <= SCALE * SCALE) by (nonlinear_arith)
                    requires
                        0 <= x <= SCALE,
                        0 <= q <= SCALE,
                ;
                lemma_decay_bounds(q, (i + 1) as nat);
            }
            x = (x * q) / SCALE;
            i = i + 1;
        }
    }
    x
}

/// The age of a stamp in whole hours, clamped at zero.
pub open spec fn age_hours_spec(now: u64, created_at: u64) -> nat {
    (elapsed_spec(now, created_at) / 3600) as nat
}

/// Computes the age of a stamp in whole hours.
pub fn age_hours(now: u64, created_at: u64) -> (r: u64)
    ensures
        r as nat == age_hours_spec(now, created_at),
{
    let elapsed = if now >= created_at {
        now - created_at
    } else {
        0
    };
    elapsed / 3600
}

/// A message-text embedding in micro fixed point, bounded in dimension and
/// component magnitude so that every similarity computation stays in range.
#[derive(Clone, Debug)]
pub struct Embedding {
    components: Vec<i64>,
}

impl View for Embedding {
    type V = Seq<i64>;

    closed spec fn view(&self) -> Seq<i64> {
        self.components@
    }
}

impl Embedding {
    /// The bounds every stored embedding satisfies.
    pub open spec fn wf(self) -> bool {
        &&& self@.len() <= MAX_DIM
        &&& forall|i: int| 0 <= i < self@.len() ==> -COMP_CAP <= #[trigger] self@[i] <= COMP_CAP
    }

    /// Accepts a component vector exactly when it is within the dimension
    /// and magnitude bounds.
    pub fn new(components: Vec<i64>) -> (r: Option<Embedding>)
        ensures
            match r {
                Some(e) => e@ == components@ && e.wf(),
                None => components@.len() > MAX_DIM || exists|i: int|
                    0 <= i < components@.len() && !(-COMP_CAP <= #[trigger] components@[i]
                        <= COMP_CAP),
            },
    {
        if components.len() > MAX_DIM {
            return None;
        }
        let mut i: usize = 0;
        while i < components.len()
            invariant
                i <= components@.len(),
                forall|j: int| 0 <= j < i ==> -COMP_CAP <= #[trigger] components@[j] <= COMP_CAP,
            decreases components@.len() - i,
        {
            let c = components[i];
            if c > COMP_CAP || c < -COMP_CAP {
                return None;
            }
            i = i + 1;
        }
        Some(Embedding { components })
    }

    /// The embedding's dimension.
    pub fn dim(&self) -> (r: usize)
        ensures
            r == self@.len(),
    {
        self.components.len()
    }
}

fn dot_i128(a: &Vec<i64>, b: &Vec<i64>) -> (r: i128)
    requires
        a@.len() == b@.len(),
        a@.len() <= MAX_DIM,
        forall|i: int| 0 <= i < a@.len() ==> -COMP_CAP <= #[trigger] a@[i] <= COMP_CAP,
        forall|i: int| 0 <= i < b@.len() ==> -COMP_CAP <= #[trigger] b@[i] <= COMP_CAP,
    ensures
        r == dot_spec(a@, b@),
{
    let n = a.len();
    let mut sum: i128 = 0;
    let mut i: usize = 0;
    while i < n
        invariant
            i <= n,
            n == a@.len() == b@.len(),
            n <= MAX_DIM,
            forall|j: int| 0 <= j < a@.len() ==> -COMP_CAP <= #[trigger] a@[j] <= COMP_CAP,
            forall|j: int| 0 <= j < b@.len() ==> -COMP_CAP <= #[trigger] b@[j] <= COMP_CAP,
            sum == dot_spec(a@.take(i as int), b@.take(i as int)),
            -(i * COMP_CAP * COMP_CAP) <= sum <= i * COMP_CAP * COMP_CAP,
        decreases n - i,
    {
        let x = a[i];
        let y = b[i];
        proof {
            assert(-(COMP_CAP * COMP_CAP) <= x * y <= COMP_CAP * COMP_CAP) by (nonlinear_arith)
                requires
                    -COMP_CAP <= x <= COMP_CAP,
                    -COMP_CAP <= y <= COMP_CAP,
            ;
            assert((i + 1) * COMP_CAP * COMP_CAP == i * COMP_CAP * COMP_CAP + COMP_CAP * COMP_CAP)
                by (nonlinear_arith);
            assert(i * COMP_CAP * COMP_CAP <= MAX_DIM * COMP_CAP * COMP_CAP) by (nonlinear_arith)
                requires
                    0 <= i <= MAX_DIM,
            ;
            assert(a@.take(i + 1).drop_last() =~= a@.take(i as int));
            assert(b@.take(i + 1).drop_last() =~= b@.take(i as int));
            assert(a@.take(i + 1).last() == a@[i as int]);
            assert(b@.take(i + 1).last() == b@[i as int]);
        }
        sum = sum + (x as i128) * (y as i128);
        i = i + 1;
    }
    proof {
        assert(a@.take(n as int) =~= a@);
        assert(b@.take(n as int) =~= b@);
    }
    sum
}

/// Computes the similarity of two embeddings, as `cosine_sim_spec` describes
/// it: symmetric, zero on mismatched or empty vectors, never an error, and
/// never beyond one whole unit in magnitude.
pub fn cosine_similarity(a: &Embedding, b: &Embedding) -> (r: i128)
    requires
        a.wf(),
        b.wf(),
    ensures
        r == cosine_sim_spec(a@, b@),
        -((SCALE) as i128) <= r <= SCALE as i128,
{
    if a.components.len() != b.components.len() || a.components.len() == 0 {
        return 0;
    }
    let d = dot_i128(&a.components, &b.components);
    let nsa = dot_i128(&a.components, &a.components);
    let nsb = dot_i128(&b.components, &b.components);
    proof {
        lemma_dot_self_nonneg(a@);
        lemma_dot_self_nonneg(b@);
        lemma_dot_bound(a@, a@);
        lemma_dot_bound(b@, b@);
        lemma_dot_bound(a@, b@);
        assert(a@.len() * COMP_CAP * COMP_CAP <= MAX_DIM * COMP_CAP * COMP_CAP)
            by (nonlinear_arith)
            requires
                0 <= a@.len() <= MAX_DIM,
        ;
        assert(b@.len() * COMP_CAP * COMP_CAP <= MAX_DIM * COMP_CAP * COMP_CAP)
            by (nonlinear_arith)
            requires
                0 <= b@.len() <= MAX_DIM,
        ;
        assert(0 <= (nsa as int) * (nsb as int) <= (MAX_NORM_SQ as int) * (
        MAX_NORM_SQ as int)) by (nonlinear_arith)
            requires
                0 <= nsa <= MAX_NORM_SQ,
                0 <= nsb <= MAX_NORM_SQ,
        ;
    }
    let prod: u128 = (nsa as u128) * (nsb as u128);
    let n = isqrt128(prod);
    if n == 0 {
        return 0;
    }
    proof {
        lemma_cauchy_schwarz(a@, b@);
        lemma_isqrt_property(prod as nat);
        assert(-(n as int) <= d <= n as int) by (nonlinear_arith)
            requires
                (d as int) * (d as int) <= prod,
                prod < ((n as int) + 1) * ((n as int) + 1),
                n >= 0,
        ;
        lemma_scaled_quotient_bounded(d as int, n as int);
    }
    if d >= 0 {
        let q = ((d as u128) * (SCALE as u128)) / n;
        q as i128
    } else {
        let mag = (-d) as u128;
        let q = (mag * (SCALE as u128)) / n;
        -(q as i128)
    }
}

/// One stored memory: a message text with its embedding, creation stamp and
/// importance weight.
#[derive(Debug)]
pub struct MemoryChunk {
    pub conversation_id: i64,
    pub text: String,
    pub embedding: Embedding,
    pub created_at: u64,
    /// Importance weight in micro units; one whole unit by default.
    pub importance: u64,
}

/// The mathematical content of a stored chunk.
pub struct ChunkView {
    pub conversation_id: i64,
    pub text: Seq<char>,
    pub embedding: Seq<i64>,
    pub created_at: u64,
    pub importance: u64,
}

/// The view of one stored chunk.
pub open spec fn chunk_view(c: MemoryChunk) -> ChunkView {
    ChunkView {
        conversation_id: c.conversation_id,
        text: c.text@,
        embedding: c.embedding@,
        created_at: c.created_at,
        importance: c.importance,
    }
}

/// The bounds every stored chunk satisfies.
pub open spec fn chunk_view_wf(c: ChunkView) -> bool {
    &&& c.embedding.len() <= MAX_DIM
    &&& forall|i: int| 0 <= i < c.embedding.len() ==> -COMP_CAP <= #[trigger] c.embedding[i] <= COMP_CAP
    &&& c.importance <= IMP_CAP
}

/// The bounds on a chunk as handed to the store.
pub open spec fn chunk_wf(c: MemoryChunk) -> bool {
    c.embedding.wf() && c.importance <= IMP_CAP
}

/// A chunk's retrieval score: similarity to the query, scaled by time decay
/// and by the chunk's importance.
pub open spec fn score_spec(c: ChunkView, q: Seq<i64>, now: u64, hourly: u64) -> int {
    cosine_sim_spec(q, c.embedding) * decay_spec(hourly, age_hours_spec(now, c.created_at))
        * c.importance
}

/// The chunks of one conversation, in storage order.
pub open spec fn conv_filter(s: Seq<ChunkView>, c: i64) -> Seq<ChunkView> {
    s.filter(|ch: ChunkView| ch.conversation_id == c)
}

/// Each candidate chunk scored, paired with its text.
pub open spec fn scored_of(s: Seq<ChunkView>, q: Seq<i64>, now: u64, hourly: u64) -> Seq<
    (int, Seq<char>),
> {
    s.map_values(|ch: ChunkView| (score_spec(ch, q, now, hourly), ch.text))
}

/// Inserts a scored text behind every earlier entry whose score is at least
/// as high, so equal scores keep their arrival order.
pub open spec fn insert_desc(s: Seq<(int, Seq<char>)>, x: (int, Seq<char>)) -> Seq<
    (int, Seq<char>),
>
    decreases s.len(),
{
    if s.len() == 0 {
        seq![x]
    } else if s.first().0 >= x.0 {
        seq![s.first()] + insert_desc(s.drop_first(), x)
    } else {
        seq![x] + s
    }
}

/// Stable descending sort by score.
pub open spec fn sort_desc(s: Seq<(int, Seq<char>)>) -> Seq<(int, Seq<char>)>
    decreases s.len(),
{
    if s.len() == 0 {
        s
    } else {
        insert_desc(sort_desc(s.drop_last()), s.last())
    }
}

/// Inserting at the first position whose score is lower is exactly
/// `insert_desc`.
pub proof fn lemma_insert_desc_at(s: Seq<(int, Seq<char>)>, x: (int, Seq<char>), j: int)
    requires
        0 <= j <= s.len(),
        forall|k: int| 0 <= k < j ==> (#[trigger] s[k]).0 >= x.0,
        j < s.len() ==> s[j].0 < x.0,
    ensures
        insert_desc(s, x) == s.take(j) + seq![x] + s.skip(j),
    decreases j,
{
    if j == 0 {
        if s.len() == 0 {
            assert(insert_desc(s, x) =~= s.take(0) + seq![x] + s.skip(0));
        } else {
            assert(s.first().0 < x.0);
            assert(seq![x] + s =~= s.take(0) + seq![x] + s.skip(0));
        }
    } else {
        assert(s[0].0 >= x.0);
        let t = s.drop_first();
        assert(forall|k: int| 0 <= k < j - 1 ==> (#[trigger] t[k]).0 >= x.0) by {
            assert(forall|k: int| 0 <= k < j - 1 ==> t[k] == s[k + 1]);
        }
        lemma_insert_desc_at(t, x, j - 1);
        assert(seq![s.first()] + (t.take(j - 1) + seq![x] + t.skip(j - 1)) =~= s.take(j) + seq![x]
            + s.skip(j));
    }
}


/// Scores never increase along a ranked sequence.
pub open spec fn desc_sorted(s: Seq<(int, Seq<char>)>) -> bool {
    forall|i: int, j: int| 0 <= i < j < s.len() ==> (#[trigger] s[i]).0 >= (#[trigger] s[j]).0
}

proof fn lemma_insert_desc_sorted(s: Seq<(int, Seq<char>)>, x: (int, Seq<char>))
    requires
        desc_sorted(s),
    ensures
        desc_sorted(insert_desc(s, x)),
        insert_desc(s, x).len() == s.len() + 1,
        insert_desc(s, x).to_multiset() == s.to_multiset().insert(x),
    decreases s.len(),
{
    broadcast use vstd::seq_lib::group_to_multiset_ensures;

    if s.len() == 0 {
        assert(seq![x] =~= Seq::<(int, Seq<char>)>::empty().push(x));
        assert(seq![x].to_multiset() == Seq::<(int, Seq<char>)>::empty().to_multiset().insert(x));
        assert(s.to_multiset() == Seq::<(int, Seq<char>)>::empty().to_multiset());
    } else if s.first().0 >= x.0 {
        let rest = s.drop_first();
        assert(desc_sorted(rest)) by {
            assert(forall|i: int| 0 <= i < rest.len() ==> rest[i] == s[i + 1]);
        }
        lemma_insert_desc_sorted(rest, x);
        let inner = insert_desc(rest, x);
        let whole = seq![s.first()] + inner;
        assert(whole.len() == s.len() + 1);
        // the head still tops everything behind it
        assert forall|i: int, j: int| 0 <= i < j < whole.len() implies (#[trigger] whole[i]).0
            >= (#[trigger] whole[j]).0 by {
            if i == 0 {
                assert(whole[j] == inner[j - 1]);
                assert(inner.to_multiset().contains(inner[j - 1]));
                assert(rest.to_multiset().insert(x).contains(inner[j - 1]));
                if inner[j - 1] == x {
                    assert(whole[0].0 >= x.0);
                } else {
                    assert(rest.to_multiset().contains(inner[j - 1]));
                    let k = choose|k: int| 0 <= k < rest.len() && rest[k] == inner[j - 1];
                    assert(s[k + 1] == rest[k]);
                }
            } else {
                assert(whole[i] == inner[i - 1] && whole[j] == inner[j - 1]);
            }
        }
        assert(whole =~= seq![s.first()] + inner);
        assert(whole.to_multiset() == s.to_multiset().insert(x)) by {
            assert(whole.drop_first() =~= inner);
            assert(whole.to_multiset() == inner.to_multiset().insert(s.first())) by {
                lemma_multiset_prepend(whole, s.first(), inner);
            }
            assert(inner.to_multiset() == rest.to_multiset().insert(x));
            assert(s.to_multiset() == rest.to_multiset().insert(s.first())) by {
                lemma_multiset_prepend(s, s.first(), rest);
            }
            assert(rest.to_multiset().insert(x).insert(s.first()) =~= rest.to_multiset().insert(
                s.first(),
            ).insert(x));
        }
    } else {
        let whole = seq![x] + s;
        assert forall|i: int, j: int| 0 <= i < j < whole.len() implies (#[trigger] whole[i]).0
            >= (#[trigger] whole[j]).0 by {
            if i == 0 {
                assert(whole[j] == s[j - 1]);
                if j - 1 > 0 {
                    assert(s[0].0 >= s[j - 1].0);
                }
            } else {
                assert(whole[i] == s[i - 1] && whole[j] == s[j - 1]);
            }
        }
        assert(whole.to_multiset() == s.to_multiset().insert(x)) by {
            lemma_multiset_prepend(whole, x, s);
        }
    }
}

proof fn lemma_multiset_prepend(
    whole: Seq<(int, Seq<char>)>,
    head: (int, Seq<char>),
    tail: Seq<(int, Seq<char>)>,
)
    requires
        whole =~= seq![head] + tail,
    ensures
        whole.to_multiset() == tail.to_multiset().insert(head),
{
    broadcast use vstd::seq_lib::group_to_multiset_ensures;

    vstd::seq_lib::lemma_seq_union_to_multiset_commutative(seq![head], tail);
    assert(seq![head] =~= Seq::<(int, Seq<char>)>::empty().push(head));
    assert((tail + seq![head]) =~= tail.push(head));
    assert(whole.to_multiset() == (seq![head] + tail).to_multiset());
    assert((seq![head] + tail).to_multiset() == (tail + seq![head]).to_multiset());
    assert(tail.push(head).to_multiset() == tail.to_multiset().insert(head));
}

/// The ranking really ranks: the scored candidates come out largest score
/// first, none lost and none invented, with their count unchanged.
pub proof fn lemma_sort_desc_ranks(s: Seq<(int, Seq<char>)>)
    ensures
        desc_sorted(sort_desc(s)),
        sort_desc(s).len() == s.len(),
        sort_desc(s).to_multiset() == s.to_multiset(),
    decreases s.len(),
{
    broadcast use vstd::seq_lib::group_to_multiset_ensures;

    if s.len() > 0 {
        lemma_sort_desc_ranks(s.drop_last());
        lemma_insert_desc_sorted(sort_desc(s.drop_last()), s.last());
        assert(s =~= s.drop_last().push(s.last()));
        assert(s.drop_last().push(s.last()).to_multiset() == s.drop_last().to_multiset().insert(
            s.last(),
        ));
    }
}

/// The texts of the `top_n` best-scoring chunks of the conversation,
/// highest score first, ties kept in storage order.
pub open spec fn retrieve_spec(
    s: Seq<ChunkView>,
    c: i64,
    q: Seq<i64>,
    top_n: usize,
    now: u64,
    hourly: u64,
) -> Seq<Seq<char>> {
    let sorted = sort_desc(scored_of(conv_filter(s, c), q, now, hourly));
    if top_n <= sorted.len() {
        sorted.take(top_n as int).map_values(|p: (int, Seq<char>)| p.1)
    } else {
        sorted.map_values(|p: (int, Seq<char>)| p.1)
    }
}

/// How many chunks the conversation has in store.
pub open spec fn count_conv(s: Seq<ChunkView>, c: i64) -> nat {
    conv_filter(s, c).len()
}

/// Drops the `excess` oldest chunks of the conversation, keeping everything
/// else in order.
pub open spec fn drop_oldest(s: Seq<ChunkView>, c: i64, excess: nat) -> Seq<ChunkView>
    decreases s.len(),
{
    if s.len() == 0 {
        s
    } else if s.first().conversation_id == c && excess > 0 {
        drop_oldest(s.drop_first(), c, (excess - 1) as nat)
    } else {
        seq![s.first()] + drop_oldest(s.drop_first(), c, excess)
    }
}

/// What the retention job leaves: the most recent `keep` chunks of the
/// conversation, and every other conversation untouched.
pub open spec fn retention_spec(s: Seq<ChunkView>, c: i64, keep: usize) -> Seq<ChunkView> {
    if count_conv(s, c) <= keep {
        s
    } else {
        drop_oldest(s, c, (count_conv(s, c) - keep) as nat)
    }
}

spec fn pairs_view(s: Seq<(i128, String)>) -> Seq<(int, Seq<char>)> {
    s.map_values(|p: (i128, String)| (p.0 as int, p.1@))
}

/// Persists message-text embeddings keyed by conversation, with timestamp
/// and importance weight.
pub struct EmbeddingStore {
    chunks: Vec<MemoryChunk>,
}

impl EmbeddingStore {
    /// The stored chunks, in storage order.
    pub closed spec fn view(self) -> Seq<ChunkView> {
        self.chunks@.map_values(|c: MemoryChunk| chunk_view(c))
    }

    /// Every stored chunk is within bounds.
    pub closed spec fn wf(self) -> bool {
        forall|i: int| 0 <= i < self.view().len() ==> chunk_view_wf(#[trigger] self.view()[i])
    }

    /// An empty store.
    pub fn new() -> (r: Self)
        ensures
            r.wf(),
            r.view() == Seq::<ChunkView>::empty(),
    {
        let r = EmbeddingStore { chunks: Vec::new() };
        proof {
            assert(r.view() =~= Seq::<ChunkView>::empty());
        }
        r
    }

    /// How many chunks are stored.
    pub fn len(&self) -> (r: usize)
        ensures
            r == self.view().len(),
    {
        self.chunks.len()
    }

    /// Appends one chunk; never blocks and never reorders what is stored.
    pub fn store(&mut self, chunk: MemoryChunk)
        requires
            old(self).wf(),
            chunk_wf(chunk),
        ensures
            final(self).wf(),
            final(self).view() == old(self).view().push(chunk_view(chunk)),
    {
        let ghost before = self.chunks@;
        self.chunks.push(chunk);
        proof {
            assert(self.view() =~= old(self).view().push(chunk_view(chunk)));
            assert forall|i: int| 0 <= i < self.view().len() implies chunk_view_wf(
                #[trigger] self.view()[i],
            ) by {
                if i < old(self).view().len() {
                    assert(chunk_view_wf(old(self).view()[i]));
                }
            }
        }
    }

    /// Rewrites one chunk's importance weight; nothing else about the
    /// chunk or the store changes.
    pub fn update_chunk_importance(&mut self, index: usize, importance: u64)
        requires
            old(self).wf(),
            index < old(self).view().len(),
            importance <= IMP_CAP,
        ensures
            final(self).wf(),
            final(self).view() == old(self).view().update(
                index as int,
                ChunkView { importance, ..old(self).view()[index as int] },
            ),
    {
        let ghost before = self.chunks@;
        let mut chunk = self.chunks.remove(index);
        chunk.importance = importance;
        let ghost updated = chunk;
        self.chunks.insert(index, chunk);
        proof {
            assert(self.chunks@ =~= before.update(index as int, updated));
            assert(forall|i: int|
                0 <= i < self.chunks@.len() && i != index ==> self.chunks@[i] == before[i]);
            assert(self.chunks@[index as int] == updated);
            assert(chunk_view(updated) == (ChunkView {
                importance,
                ..old(self).view()[index as int]
            }));
            assert(self.view() =~= old(self).view().update(
                index as int,
                ChunkView { importance, ..old(self).view()[index as int] },
            ));
            assert forall|i: int| 0 <= i < self.view().len() implies chunk_view_wf(
                #[trigger] self.view()[i],
            ) by {
                assert(chunk_view_wf(old(self).view()[i]));
            }
        }
    }

    /// The retention job: caps the conversation at its most recent `keep`
    /// chunks, leaving every other conversation untouched.
    pub fn cleanup_old_memories(&mut self, conversation_id: i64, keep: usize)
        requires
            old(self).wf(),
        ensures
            final(self).wf(),
            final(self).view() == retention_spec(old(self).view(), conversation_id, keep),
    {
        proof {
            reveal(Seq::filter);
        }
        // count this conversation's chunks
        let mut cnt: usize = 0;
        let mut i: usize = 0;
        while i < self.chunks.len()
            invariant
                i <= self.view().len(),
                cnt == count_conv(self.view().take(i as int), conversation_id),
                cnt <= i,
            decreases self.view().len() - i,
        {
            proof {
                reveal(Seq::filter);
                assert(self.view().take(i + 1).drop_last() =~= self.view().take(i as int));
                assert(self.view().take(i + 1).last() == self.view()[i as int]);
            }
            if self.chunks[i].conversation_id == conversation_id {
                cnt = cnt + 1;
            }
            i = i + 1;
        }
        proof {
            assert(self.view().take(self.view().len() as int) =~= self.view());
        }
        if cnt <= keep {
            return ;
        }
        let mut excess: usize = cnt - keep;
        let ghost orig = self.view();
        let ghost excess0 = excess as nat;
        let mut j: usize = 0;
        proof {
            assert(self.view().skip(0) =~= self.view());
            assert(drop_oldest(orig, conversation_id, excess0) =~= self.view().take(0int)
                + drop_oldest(self.view().skip(0int), conversation_id, excess as nat));
        }
        while j < self.chunks.len()
            invariant
                j <= self.view().len(),
                forall|k: int|
                    0 <= k < self.view().len() ==> chunk_view_wf(#[trigger] self.view()[k]),
                drop_oldest(orig, conversation_id, excess0) =~= self.view().take(j as int)
                    + drop_oldest(self.view().skip(j as int), conversation_id, excess as nat),
            decreases self.view().len() - j,
        {
            let ghost v = self.view();
            if self.chunks[j].conversation_id == conversation_id && excess > 0 {
                let ghost before = self.chunks@;
                let _removed = self.chunks.remove(j);
                excess = excess - 1;
                proof {
                    assert(self.view() =~= v.remove(j as int));
                    assert(self.view().take(j as int) =~= v.take(j as int));
                    assert(self.view().skip(j as int) =~= v.skip(j + 1));
                    assert(drop_oldest(v.skip(j as int), conversation_id, (excess + 1) as nat)
                        == drop_oldest(v.skip(j + 1), conversation_id, excess as nat)) by {
                        assert(v.skip(j as int).first() == v[j as int]);
                        assert(v.skip(j as int).drop_first() =~= v.skip(j + 1));
                    }
                }
            } else {
                j = j + 1;
                proof {
                    assert(v.skip(j - 1).first() == v[j - 1]);
                    assert(v.skip(j - 1).drop_first() =~= v.skip(j as int));
                    assert(drop_oldest(v.skip(j - 1), conversation_id, excess as nat) == seq![
                        v[j - 1],
                    ] + drop_oldest(v.skip(j as int), conversation_id, excess as nat));
                    assert(v.take(j - 1) + (seq![v[j - 1]] + drop_oldest(
                        v.skip(j as int),
                        conversation_id,
                        excess as nat,
                    )) =~= v.take(j as int) + drop_oldest(
                        v.skip(j as int),
                        conversation_id,
                        excess as nat,
                    ));
                }
            }
        }
        proof {
            assert(self.view().skip(self.view().len() as int) =~= Seq::<ChunkView>::empty());
            assert(self.view().take(self.view().len() as int) =~= self.view());
        }
    }

    /// Ranks the conversation's chunks against the query and returns the
    /// texts of the `top_n` best, as `retrieve_spec` describes it.
    pub fn retrieve(
        &self,
        conversation_id: i64,
        query: &Embedding,
        top_n: usize,
        now: u64,
        hourly_decay: u64,
    ) -> (r: Vec<String>)
        requires
            self.wf(),
            query.wf(),
            hourly_decay <= SCALE,
        ensures
            r@.map_values(|t: String| t@) == retrieve_spec(
                self.view(),
                conversation_id,
                query@,
                top_n,
                now,
                hourly_decay,
            ),
    {
        let ghost q = query@;
        let mut sorted: Vec<(i128, String)> = Vec::new();
        let mut i: usize = 0;
        proof {
            reveal(Seq::filter);
            assert(pairs_view(sorted@) =~= sort_desc(
                scored_of(conv_filter(self.view().take(0int), conversation_id), q, now,
                hourly_decay),
            ));
        }
        while i < self.chunks.len()
            invariant
                i <= self.view().len(),
                self.wf(),
                query.wf(),
                hourly_decay <= SCALE,
                q == query@,
                pairs_view(sorted@) == sort_desc(
                    scored_of(
                        conv_filter(self.view().take(i as int), conversation_id),
                        q,
                        now,
                        hourly_decay,
                    ),
                ),
            decreases self.view().len() - i,
        {
            let ghost prefix = conv_filter(self.view().take(i as int), conversation_id);
            let ghost scored_prefix = scored_of(prefix, q, now, hourly_decay);
            proof {
                reveal(Seq::filter);
                assert(self.view().take(i + 1).drop_last() =~= self.view().take(i as int));
                assert(self.view().take(i + 1).last() == self.view()[i as int]);
            }
            let chunk = &self.chunks[i];
            if chunk.conversation_id == conversation_id {
                proof {
                    assert(chunk_view_wf(self.view()[i as int]));
                }
                let sim = cosine_similarity(query, &chunk.embedding);
                let hours = age_hours(now, chunk.created_at);
                let dec = decay(hourly_decay, hours);
                proof {
                    assert(-((SCALE as int) * (SCALE as int)) <= (sim as int) * (dec as int)
                        <= (SCALE as int) * (SCALE as int)) by (nonlinear_arith)
                        requires
                            -(SCALE as int) <= sim <= SCALE as int,
                            0 <= dec <= SCALE,
                    ;
                    assert(
                        -((SCALE as int) * (SCALE as int) * (IMP_CAP as int)) <= (sim as int) * (
                        dec as int) * (chunk.importance as int) <= (SCALE as int) * (
                        SCALE as int) * (IMP_CAP as int)) by (nonlinear_arith)
                        requires
                            -(SCALE as int) <= sim <= SCALE as int,
                            0 <= dec <= SCALE,
                            0 <= chunk.importance <= IMP_CAP,
                    ;
                }
                let score: i128 = sim * (dec as i128) * (chunk.importance as i128);
                let text = chunk.text.clone();
                let ghost pair = (score as int, text@);
                proof {
                    assert(pair == (score_spec(self.view()[i as int], q, now, hourly_decay),
                    self.view()[i as int].text));
                    assert(conv_filter(self.view().take(i + 1), conversation_id) =~= prefix.push(
                        self.view()[i as int],
                    ));
                    assert(scored_of(prefix.push(self.view()[i as int]), q, now, hourly_decay)
                        =~= scored_prefix.push(pair));
                    assert(scored_prefix.push(pair).drop_last() =~= scored_prefix);
                    assert(sort_desc(scored_prefix.push(pair)) == insert_desc(
                        sort_desc(scored_prefix),
                        pair,
                    ));
                }
                // find the first position whose score is lower
                let mut j: usize = 0;
                while j < sorted.len() && sorted[j].0 >= score
                    invariant
                        j <= sorted@.len(),
                        forall|k: int| 0 <= k < j ==> (#[trigger] sorted@[k]).0 >= score,
                    decreases sorted@.len() - j,
                {
                    j = j + 1;
                }
                let ghost sorted_before = sorted@;
                sorted.insert(j, (score, text));
                proof {
                    lemma_insert_desc_at(pairs_view(sorted_before), pair, j as int);
                    assert(forall|k: int|
                        0 <= k < sorted_before.len() ==> #[trigger] pairs_view(sorted_before)[k]
                            == ((sorted_before[k].0 as int, sorted_before[k].1@)));
                    assert(pairs_view(sorted@) =~= pairs_view(sorted_before).take(j as int) + seq![
                        pair,
                    ] + pairs_view(sorted_before).skip(j as int));
                }
            } else {
                proof {
                    assert(conv_filter(self.view().take(i + 1), conversation_id) =~= prefix);
                }
            }
            i = i + 1;
        }
        proof {
            assert(self.view().take(self.view().len() as int) =~= self.view());
        }
        // hand out the texts of the best `top_n`
        let limit = if top_n <= sorted.len() {
            top_n
        } else {
            sorted.len()
        };
        let mut out: Vec<String> = Vec::new();
        let mut k: usize = 0;
        while k < limit
            invariant
                k <= limit,
                limit <= sorted@.len(),
                out@.len() == k,
                forall|m: int| 0 <= m < k ==> #[trigger] out@[m]@ == pairs_view(sorted@)[m].1,
            decreases limit - k,
        {
            out.push(sorted[k].1.clone());
            k = k + 1;
        }
        proof {
            let full = sort_desc(
                scored_of(conv_filter(self.view(), conversation_id), q, now, hourly_decay),
            );
            assert(out@.map_values(|t: String| t@) =~= retrieve_spec(
                self.view(),
                conversation_id,
                q,
                top_n,
                now,
                hourly_decay,
            ));
        }
        out
    }
}

} // verus!
