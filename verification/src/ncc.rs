use vstd::prelude::*;

verus! {

/// Fixed-point scale for correlation scores: a score of `SCORE_SCALE` means a
/// perfect correlation of +1, `-SCORE_SCALE` a perfect anti-correlation of -1.
pub const SCORE_SCALE: i128 = 1_000_000;

/// Largest template pixel count the scorer accepts; keeps every intermediate
/// product of the correlation arithmetic inside 128 bits.
pub const MAX_TEMPLATE_AREA: usize = 0x100_0000;

/// Sum of the intensities of a pixel sample.
pub open spec fn sum_of(s: Seq<u8>) -> int
    decreases s.len(),
{
    if s.len() == 0 {
        0
    } else {
        sum_of(s.drop_last()) + s.last()
    }
}

/// Sum of the squared intensities of a pixel sample.
pub open spec fn sum_sq_of(s: Seq<u8>) -> int
    decreases s.len(),
{
    if s.len() == 0 {
        0
    } else {
        sum_sq_of(s.drop_last()) + s.last() * s.last()
    }
}

/// Sum of the elementwise products of two pixel samples of equal length.
pub open spec fn sum_prod_of(a: Seq<u8>, b: Seq<u8>) -> int
    recommends
        a.len() == b.len(),
    decreases a.len(),
{
    if a.len() == 0 {
        0
    } else {
        sum_prod_of(a.drop_last(), b.drop_last()) + a.last() * b.last()
    }
}

/// `n·Σs² − (Σs)²`: the population variance of `s` scaled by `n²`.
/// Zero exactly when the sample is flat (standard deviation zero).
pub open spec fn den_sq_of(s: Seq<u8>) -> int {
    s.len() * sum_sq_of(s) - sum_of(s) * sum_of(s)
}

/// `n·Σab − Σa·Σb`: the covariance of `a` and `b` scaled by `n²`.
pub open spec fn num_of(a: Seq<u8>, b: Seq<u8>) -> int {
    a.len() * sum_prod_of(a, b) - sum_of(a) * sum_of(b)
}

/// `r` is the integer square root of `x`, rounded down.
pub open spec fn is_sqrt_floor(x: int, r: int) -> bool {
    0 <= r && r * r <= x && x < (r + 1) * (r + 1)
}

/// The integer square root of `x`, rounded down.
pub open spec fn sqrt_floor(x: int) -> int {
    choose|r: int| is_sqrt_floor(x, r)
}

pub proof fn lemma_sqrt_floor_exists(x: int)
    requires
        0 <= x,
    ensures
        is_sqrt_floor(x, sqrt_floor(x)),
    decreases x,
{
    if x == 0 {
        assert(is_sqrt_floor(0, 0));
    } else {
        lemma_sqrt_floor_exists(x - 1);
        let r = sqrt_floor(x - 1);
        if (r + 1) * (r + 1) <= x {
            assert((r + 1) * (r + 1) == x);
            assert(x < (r + 2) * (r + 2)) by (nonlinear_arith)
                requires
                    (r + 1) * (r + 1) == x,
                    r >= 0,
            ;
            assert(is_sqrt_floor(x, r + 1));
        } else {
            assert(is_sqrt_floor(x, r));
        }
    }
}

pub proof fn lemma_sqrt_floor_unique(x: int, r: int)
    requires
        is_sqrt_floor(x, r),
    ensures
        r == sqrt_floor(x),
{
    assert(x >= 0) by (nonlinear_arith)
        requires
            0 <= r,
            r * r <= x,
    ;
    lemma_sqrt_floor_exists(x);
    let r2 = sqrt_floor(x);
    if r < r2 {
        assert((r + 1) * (r + 1) <= r2 * r2) by (nonlinear_arith)
            requires
                0 <= r + 1 <= r2,
        ;
    }
    if r2 < r {
        assert((r2 + 1) * (r2 + 1) <= r * r) by (nonlinear_arith)
            requires
                0 <= r2 + 1 <= r,
        ;
    }
}

/// The normalized cross-correlation of the sample `r` against the sample `t`,
/// in fixed-point form: `(n·Σrt − Σr·Σt) · SCORE_SCALE / √(den_r·den_t)`,
/// truncated toward zero, and 0 whenever either sample is flat.
pub open spec fn ncc_spec(r: Seq<u8>, t: Seq<u8>) -> int {
    let dr = den_sq_of(r);
    let dt = den_sq_of(t);
    if dr == 0 || dt == 0 {
        0
    } else {
        let n = num_of(r, t);
        let s = sqrt_floor(dr * dt);
        if n >= 0 {
            (n * (SCORE_SCALE as int)) / s
        } else {
            -((-n * (SCORE_SCALE as int)) / s)
        }
    }
}

proof fn lemma_sum_bounds(s: Seq<u8>)
    ensures
        0 <= sum_of(s) <= 255 * s.len(),
        0 <= sum_sq_of(s) <= 65025 * s.len(),
    decreases s.len(),
{
    if s.len() > 0 {
        lemma_sum_bounds(s.drop_last());
        assert(s.last() * s.last() <= 65025) by (nonlinear_arith)
            requires
                0 <= s.last() <= 255,
        ;
    }
}

proof fn lemma_sum_prod_bounds(a: Seq<u8>, b: Seq<u8>)
    requires
        a.len() == b.len(),
    ensures
        0 <= sum_prod_of(a, b) <= 65025 * a.len(),
    decreases a.len(),
{
    if a.len() > 0 {
        lemma_sum_prod_bounds(a.drop_last(), b.drop_last());
        assert(0 <= a.last() * b.last() <= 65025) by (nonlinear_arith)
            requires
                0 <= a.last() <= 255,
                0 <= b.last() <= 255,
        ;
    }
}

/// Sum of squared deviations of the elements of `s` from the value `v`.
spec fn dev_sq_of(s: Seq<u8>, v: int) -> int
    decreases s.len(),
{
    if s.len() == 0 {
        0
    } else {
        dev_sq_of(s.drop_last(), v) + (s.last() - v) * (s.last() - v)
    }
}

proof fn lemma_dev_sq_nonneg(s: Seq<u8>, v: int)
    ensures
        dev_sq_of(s, v) >= 0,
    decreases s.len(),
{
    if s.len() > 0 {
        lemma_dev_sq_nonneg(s.drop_last(), v);
        assert((s.last() - v) * (s.last() - v) >= 0) by (nonlinear_arith);
    }
}

proof fn lemma_dev_sq_expand(s: Seq<u8>, v: int)
    ensures
        dev_sq_of(s, v) == sum_sq_of(s) + s.len() * (v * v) - 2 * v * sum_of(s),
    decreases s.len(),
{
    if s.len() > 0 {
        let s0 = s.drop_last();
        lemma_dev_sq_expand(s0, v);
        let x = s.last() as int;
        assert(dev_sq_of(s0, v) + (x - v) * (x - v) == (sum_sq_of(s0) + x * x) + s.len() * (v * v)
            - 2 * v * (sum_of(s0) + x)) by (nonlinear_arith)
            requires
                dev_sq_of(s0, v) == sum_sq_of(s0) + s0.len() * (v * v) - 2 * v * sum_of(s0),
                s0.len() + 1 == s.len(),
        ;
    }
}

/// The spread term is never negative: `n·Σs² ≥ (Σs)²`.
pub proof fn lemma_den_sq_nonneg(s: Seq<u8>)
    ensures
        den_sq_of(s) >= 0,
    decreases s.len(),
{
    if s.len() > 0 {
        let s0 = s.drop_last();
        let v = s.last() as int;
        lemma_den_sq_nonneg(s0);
        lemma_dev_sq_expand(s0, v);
        lemma_dev_sq_nonneg(s0, v);
        let n0 = s0.len() as int;
        let q0 = sum_sq_of(s0);
        let t0 = sum_of(s0);
        assert((n0 + 1) * (q0 + v * v) - (t0 + v) * (t0 + v) == (n0 * q0 - t0 * t0) + (q0 + n0
            * (v * v) - 2 * v * t0)) by (nonlinear_arith);
        assert(den_sq_of(s) == den_sq_of(s0) + dev_sq_of(s0, v));
    }
}

/// The spread term grows at most quadratically: `den_sq_of(s) ≤ 65025·n²`.
proof fn lemma_den_sq_upper(s: Seq<u8>)
    ensures
        den_sq_of(s) <= 65025 * s.len() * s.len(),
{
    lemma_sum_bounds(s);
    let n = s.len() as int;
    assert(n * sum_sq_of(s) - sum_of(s) * sum_of(s) <= 65025 * n * n) by (nonlinear_arith)
        requires
            0 <= sum_of(s),
            0 <= sum_sq_of(s) <= 65025 * n,
            n >= 0,
    ;
}

/// The covariance term is bounded by `65025·n²` in magnitude.
proof fn lemma_num_bounds(a: Seq<u8>, b: Seq<u8>)
    requires
        a.len() == b.len(),
    ensures
        -(65025 * a.len() * a.len()) <= num_of(a, b) <= 65025 * a.len() * a.len(),
{
    lemma_sum_bounds(a);
    lemma_sum_bounds(b);
    lemma_sum_prod_bounds(a, b);
    let n = a.len() as int;
    assert(-(65025 * n * n) <= n * sum_prod_of(a, b) - sum_of(a) * sum_of(b) <= 65025 * n
        * n) by (nonlinear_arith)
        requires
            0 <= sum_prod_of(a, b) <= 65025 * n,
            0 <= sum_of(a) <= 255 * n,
            0 <= sum_of(b) <= 255 * n,
            n >= 0,
    ;
}

/// Matching a sample against itself: products coincide with squares.
proof fn lemma_sum_prod_self(s: Seq<u8>)
    ensures
        sum_prod_of(s, s) == sum_sq_of(s),
    decreases s.len(),
{
    if s.len() > 0 {
        lemma_sum_prod_self(s.drop_last());
    }
}

/// A sample identical to the template correlates perfectly: the score is
/// exactly `SCORE_SCALE` whenever the template is not flat.
pub proof fn lemma_ncc_self(t: Seq<u8>)
    requires
        den_sq_of(t) != 0,
    ensures
        ncc_spec(t, t) == SCORE_SCALE,
{
    lemma_den_sq_nonneg(t);
    lemma_sum_prod_self(t);
    let d = den_sq_of(t);
    assert(num_of(t, t) == d);
    assert(is_sqrt_floor(d * d, d)) by (nonlinear_arith)
        requires
            d >= 1,
    ;
    lemma_sqrt_floor_unique(d * d, d);
    assert(d * (SCORE_SCALE as int) == (SCORE_SCALE as int) * d) by (nonlinear_arith);
    vstd::arithmetic::div_mod::lemma_div_multiples_vanish(SCORE_SCALE as int, d);
}

/// A flat sample has zero spread.
pub proof fn lemma_flat_den_sq_zero(s: Seq<u8>)
    requires
        forall|i: int, j: int| 0 <= i < s.len() && 0 <= j < s.len() ==> s[i] == s[j],
    ensures
        den_sq_of(s) == 0,
    decreases s.len(),
{
    if s.len() > 0 {
        let s0 = s.drop_last();
        assert(forall|i: int, j: int|
            0 <= i < s0.len() && 0 <= j < s0.len() ==> s0[i] == s0[j]) by {
            assert(forall|i: int| 0 <= i < s0.len() ==> s0[i] == s[i]);
        }
        let v = s.last() as int;
        let n0 = s0.len() as int;
        lemma_flat_sums(s0);
        if s0.len() > 0 {
            assert(s0[0] == s[0] && s[0] == s.last());
        }
        assert(sum_of(s0) == n0 * v);
        assert(sum_sq_of(s0) == n0 * (v * v));
        assert((n0 + 1) * (n0 * (v * v) + v * v) - (n0 * v + v) * (n0 * v + v)
            == 0) by (nonlinear_arith);
        assert(den_sq_of(s) == (n0 + 1) * (sum_sq_of(s0) + v * v) - (sum_of(s0) + v) * (sum_of(s0)
            + v));
    }
}

/// A flat sample's sums are the common value times the length.
proof fn lemma_flat_sums(s: Seq<u8>)
    requires
        forall|i: int, j: int| 0 <= i < s.len() && 0 <= j < s.len() ==> s[i] == s[j],
    ensures
        s.len() == 0 ==> sum_of(s) == 0 && sum_sq_of(s) == 0,
        s.len() > 0 ==> sum_of(s) == s.len() * (s[0] as int) && sum_sq_of(s) == s.len() * ((
        s[0] as int) * (s[0] as int)),
    decreases s.len(),
{
    if s.len() > 0 {
        let s0 = s.drop_last();
        assert(forall|i: int| 0 <= i < s0.len() ==> s0[i] == s[i]);
        lemma_flat_sums(s0);
        let v = s[0] as int;
        if s0.len() > 0 {
            assert(s0[0] == s[0]);
            assert(s.last() == s[s.len() - 1]);
            assert(s.last() as int == v);
            assert(s0.len() * v + v == s.len() * v) by (nonlinear_arith)
                requires
                    s0.len() + 1 == s.len(),
            ;
            assert(s0.len() * (v * v) + v * v == s.len() * (v * v)) by (nonlinear_arith)
                requires
                    s0.len() + 1 == s.len(),
            ;
        } else {
            assert(s.last() as int == v);
        }
    }
}

/// Sum of the squared centered values `n·s[i] − c` of a sample.
spec fn centered_sq(s: Seq<u8>, n: int, c: int) -> int
    decreases s.len(),
{
    if s.len() == 0 {
        0
    } else {
        centered_sq(s.drop_last(), n, c) + (n * s.last() - c) * (n * s.last() - c)
    }
}

/// Sum of the products of the centered values of two samples.
spec fn centered_prod(a: Seq<u8>, b: Seq<u8>, n: int, ca: int, cb: int) -> int
    recommends
        a.len() == b.len(),
    decreases a.len(),
{
    if a.len() == 0 {
        0
    } else {
        centered_prod(a.drop_last(), b.drop_last(), n, ca, cb) + (n * a.last() - ca) * (n
            * b.last() - cb)
    }
}

/// Sum of the squares of the combination `p·(n·a[i] − ca) − q·(n·b[i] − cb)`.
spec fn centered_comb(a: Seq<u8>, b: Seq<u8>, p: int, q: int, n: int, ca: int, cb: int) -> int
    recommends
        a.len() == b.len(),
    decreases a.len(),
{
    if a.len() == 0 {
        0
    } else {
        let u = n * a.last() - ca;
        let v = n * b.last() - cb;
        centered_comb(a.drop_last(), b.drop_last(), p, q, n, ca, cb) + (p * u - q * v) * (p * u
            - q * v)
    }
}

proof fn lemma_comb_sq_step(p: int, q: int, u: int, v: int)
    ensures
        (p * u - q * v) * (p * u - q * v) == p * p * (u * u) - 2 * p * q * (u * v) + q * q * (v
            * v),
{
    broadcast use vstd::arithmetic::mul::group_mul_properties;

}

proof fn lemma_prod_step(n: int, ca: int, cb: int, x: int, y: int)
    ensures
        (n * x - ca) * (n * y - cb) == n * n * (x * y) - n * ca * y - n * cb * x + ca * cb,
{
    broadcast use vstd::arithmetic::mul::group_mul_properties;

}

#[verifier::rlimit(100)]
proof fn lemma_cs_combine(n: int, da: int, db: int, nm: int)
    by (nonlinear_arith)
    requires
        n >= 1,
        db >= 1,
        db * db * (n * da) - 2 * db * nm * (n * nm) + nm * nm * (n * db) >= 0,
    ensures
        da * db - nm * nm >= 0,
{
}

proof fn lemma_centered_comb_nonneg(a: Seq<u8>, b: Seq<u8>, p: int, q: int, n: int, ca: int, cb: int)
    requires
        a.len() == b.len(),
    ensures
        centered_comb(a, b, p, q, n, ca, cb) >= 0,
    decreases a.len(),
{
    if a.len() > 0 {
        lemma_centered_comb_nonneg(a.drop_last(), b.drop_last(), p, q, n, ca, cb);
        let u = n * a.last() - ca;
        let v = n * b.last() - cb;
        assert((p * u - q * v) * (p * u - q * v) >= 0) by (nonlinear_arith);
    }
}

proof fn lemma_centered_comb_expand(a: Seq<u8>, b: Seq<u8>, p: int, q: int, n: int, ca: int, cb: int)
    requires
        a.len() == b.len(),
    ensures
        centered_comb(a, b, p, q, n, ca, cb) == p * p * centered_sq(a, n, ca) - 2 * p * q
            * centered_prod(a, b, n, ca, cb) + q * q * centered_sq(b, n, cb),
    decreases a.len(),
{
    if a.len() > 0 {
        lemma_centered_comb_expand(a.drop_last(), b.drop_last(), p, q, n, ca, cb);
        let u = n * a.last() - ca;
        let v = n * b.last() - cb;
        let x0 = centered_sq(a.drop_last(), n, ca);
        let y0 = centered_prod(a.drop_last(), b.drop_last(), n, ca, cb);
        let z0 = centered_sq(b.drop_last(), n, cb);
        lemma_comb_sq_step(p, q, u, v);
        assert(p * p * (x0 + u * u) - 2 * p * q * (y0 + u * v) + q * q * (z0 + v * v) == (p * p
            * x0 - 2 * p * q * y0 + q * q * z0) + (p * p * (u * u) - 2 * p * q * (u * v) + q * q
            * (v * v))) by (nonlinear_arith);
    }
}

proof fn lemma_centered_sq_expand(s: Seq<u8>, n: int, c: int)
    ensures
        centered_sq(s, n, c) == n * n * sum_sq_of(s) - 2 * n * c * sum_of(s) + s.len() * (c * c),
    decreases s.len(),
{
    if s.len() > 0 {
        lemma_centered_sq_expand(s.drop_last(), n, c);
        let x = s.last() as int;
        let q0 = sum_sq_of(s.drop_last());
        let s0 = sum_of(s.drop_last());
        let l0 = s.drop_last().len() as int;
        assert((n * x - c) * (n * x - c) == n * n * (x * x) - 2 * n * c * x + c * c)
            by (nonlinear_arith);
        assert(n * n * (q0 + x * x) - 2 * n * c * (s0 + x) + (l0 + 1) * (c * c) == (n * n * q0 - 2
            * n * c * s0 + l0 * (c * c)) + (n * n * (x * x) - 2 * n * c * x + c * c))
            by (nonlinear_arith);
    }
}

proof fn lemma_centered_prod_expand(a: Seq<u8>, b: Seq<u8>, n: int, ca: int, cb: int)
    requires
        a.len() == b.len(),
    ensures
        centered_prod(a, b, n, ca, cb) == n * n * sum_prod_of(a, b) - n * ca * sum_of(b) - n * cb
            * sum_of(a) + a.len() * (ca * cb),
    decreases a.len(),
{
    if a.len() > 0 {
        lemma_centered_prod_expand(a.drop_last(), b.drop_last(), n, ca, cb);
        let x = a.last() as int;
        let y = b.last() as int;
        let p0 = sum_prod_of(a.drop_last(), b.drop_last());
        let sa0 = sum_of(a.drop_last());
        let sb0 = sum_of(b.drop_last());
        let l0 = a.drop_last().len() as int;
        lemma_prod_step(n, ca, cb, x, y);
        assert(n * n * (p0 + x * y) - n * ca * (sb0 + y) - n * cb * (sa0 + x) + (l0 + 1) * (ca
            * cb) == (n * n * p0 - n * ca * sb0 - n * cb * sa0 + l0 * (ca * cb)) + (n * n * (x * y)
            - n * ca * y - n * cb * x + ca * cb)) by (nonlinear_arith);
    }
}

proof fn lemma_centered_sq_zero_prod(a: Seq<u8>, b: Seq<u8>, n: int, ca: int, cb: int)
    requires
        a.len() == b.len(),
        centered_sq(b, n, cb) == 0,
    ensures
        centered_prod(a, b, n, ca, cb) == 0,
    decreases a.len(),
{
    if a.len() > 0 {
        let b0 = b.drop_last();
        let v = n * b.last() - cb;
        lemma_centered_sq_b_nonneg(b0, n, cb);
        assert(v * v >= 0) by (nonlinear_arith);
        assert(centered_sq(b0, n, cb) == 0 && v * v == 0);
        assert(v == 0) by (nonlinear_arith)
            requires
                v * v == 0,
        ;
        lemma_centered_sq_zero_prod(a.drop_last(), b0, n, ca, cb);
        let u = n * a.last() - ca;
        assert(u * v == 0) by (nonlinear_arith)
            requires
                v == 0,
        ;
    }
}

proof fn lemma_centered_sq_b_nonneg(s: Seq<u8>, n: int, c: int)
    ensures
        centered_sq(s, n, c) >= 0,
    decreases s.len(),
{
    if s.len() > 0 {
        lemma_centered_sq_b_nonneg(s.drop_last(), n, c);
        let v = n * s.last() - c;
        assert(v * v >= 0) by (nonlinear_arith);
    }
}

/// Centering a sample by `n` times its mean turns the spread term into
/// `n · den_sq_of(s)`.
proof fn lemma_centered_sq_is_den(s: Seq<u8>)
    ensures
        centered_sq(s, s.len() as int, sum_of(s)) == s.len() * den_sq_of(s),
{
    lemma_centered_sq_expand(s, s.len() as int, sum_of(s));
    let n = s.len() as int;
    let sa = sum_of(s);
    assert(n * n * sum_sq_of(s) - 2 * n * sa * sa + n * (sa * sa) == n * (n * sum_sq_of(s) - sa
        * sa)) by (nonlinear_arith);
}

/// Centering both samples turns the covariance term into `n · num_of(a, b)`.
proof fn lemma_centered_prod_is_num(a: Seq<u8>, b: Seq<u8>)
    requires
        a.len() == b.len(),
    ensures
        centered_prod(a, b, a.len() as int, sum_of(a), sum_of(b)) == a.len() * num_of(a, b),
{
    lemma_centered_prod_expand(a, b, a.len() as int, sum_of(a), sum_of(b));
    let n = a.len() as int;
    let sa = sum_of(a);
    let sb = sum_of(b);
    assert(n * n * sum_prod_of(a, b) - n * sa * sb - n * sb * sa + n * (sa * sb) == n * (n
        * sum_prod_of(a, b) - sa * sb)) by (nonlinear_arith);
}

/// The Cauchy-Schwarz inequality for the correlation's terms: the squared
/// covariance never exceeds the product of the two spreads. This is what
/// keeps every correlation score inside the unit range.
pub proof fn lemma_cauchy_schwarz(a: Seq<u8>, b: Seq<u8>)
    requires
        a.len() == b.len(),
    ensures
        num_of(a, b) * num_of(a, b) <= den_sq_of(a) * den_sq_of(b),
{
    let n = a.len() as int;
    let da = den_sq_of(a);
    let db = den_sq_of(b);
    let nm = num_of(a, b);
    lemma_den_sq_nonneg(a);
    lemma_den_sq_nonneg(b);
    if n == 0 {
        assert(nm * nm <= da * db) by (nonlinear_arith)
            requires
                nm == 0,
                da == 0,
                db == 0,
        ;
    } else {
        let sa = sum_of(a);
        let sb = sum_of(b);
        lemma_centered_sq_is_den(a);
        lemma_centered_sq_is_den(b);
        lemma_centered_prod_is_num(a, b);
        if db == 0 {
            assert(centered_sq(b, n, sb) == 0) by (nonlinear_arith)
                requires
                    centered_sq(b, n, sb) == n * db,
                    db == 0,
            ;
            lemma_centered_sq_zero_prod(a, b, n, sa, sb);
            assert(n * nm == 0);
            assert(nm == 0) by (nonlinear_arith)
                requires
                    n * nm == 0,
                    n >= 1,
            ;
            assert(nm * nm <= da * db) by (nonlinear_arith)
                requires
                    nm == 0,
                    da >= 0,
                    db == 0,
            ;
        } else {
            lemma_centered_comb_nonneg(a, b, db, nm, n, sa, sb);
            lemma_centered_comb_expand(a, b, db, nm, n, sa, sb);
            lemma_cs_combine(n, da, db, nm);
        }
    }
}

/// Every correlation score lies in the unit range, scaled: the fixed-point
/// score is between `-SCORE_SCALE` and `SCORE_SCALE`.
pub proof fn lemma_ncc_spec_range(r: Seq<u8>, t: Seq<u8>)
    requires
        r.len() == t.len(),
    ensures
        -(SCORE_SCALE as int) <= ncc_spec(r, t) <= SCORE_SCALE as int,
{
    let dr = den_sq_of(r);
    let dt = den_sq_of(t);
    if dr == 0 || dt == 0 {
    } else {
        lemma_den_sq_nonneg(r);
        lemma_den_sq_nonneg(t);
        lemma_cauchy_schwarz(r, t);
        let nm = num_of(r, t);
        let d = dr * dt;
        assert(d >= 1) by (nonlinear_arith)
            requires
                dr >= 1,
                dt >= 1,
                d == dr * dt,
        ;
        lemma_sqrt_floor_exists(d);
        let s = sqrt_floor(d);
        if s == 0 {
            assert(d < 1) by (nonlinear_arith)
                requires
                    s == 0,
                    d < (s + 1) * (s + 1),
            ;
            assert(false);
        }
        if nm >= s + 1 {
            assert(nm * nm >= (s + 1) * (s + 1)) by (nonlinear_arith)
                requires
                    nm >= s + 1,
                    s + 1 >= 1,
            ;
            assert(false);
        }
        if nm <= -(s + 1) {
            assert(nm * nm >= (s + 1) * (s + 1)) by (nonlinear_arith)
                requires
                    nm <= -(s + 1),
                    s + 1 >= 1,
            ;
            assert(false);
        }
        let scale = SCORE_SCALE as int;
        vstd::arithmetic::div_mod::lemma_div_multiples_vanish(scale, s);
        vstd::arithmetic::div_mod::lemma_div_multiples_vanish(0, s);
        if nm >= 0 {
            assert(nm * scale <= s * scale) by (nonlinear_arith)
                requires
                    nm <= s,
                    scale >= 0,
            ;
            vstd::arithmetic::div_mod::lemma_div_is_ordered(nm * scale, s * scale, s);
            assert(s * 0 == 0) by (nonlinear_arith);
            vstd::arithmetic::div_mod::lemma_div_is_ordered(0, nm * scale, s);
        } else {
            let mg = -nm;
            assert(mg * scale <= s * scale) by (nonlinear_arith)
                requires
                    mg <= s,
                    scale >= 0,
            ;
            assert(-nm * scale == mg * scale);
            vstd::arithmetic::div_mod::lemma_div_is_ordered(mg * scale, s * scale, s);
            assert(s * 0 == 0) by (nonlinear_arith);
            vstd::arithmetic::div_mod::lemma_div_is_ordered(0, mg * scale, s);
        }
    }
}

/// Precomputed sums of a template's pixel data. They are invariant across all
/// candidate offsets of one search, so they are computed once per search.
pub struct TemplateStats {
    pub sum: u64,
    pub sum_sq: u64,
}

impl TemplateStats {
    /// The stats hold the true sums of the sample `t`.
    pub open spec fn matches(&self, t: Seq<u8>) -> bool {
        self.sum == sum_of(t) && self.sum_sq == sum_sq_of(t)
    }
}

/// Sum and sum of squares of a pixel sample, accumulated exactly.
pub fn template_stats(data: &Vec<u8>) -> (r: TemplateStats)
    requires
        data@.len() <= MAX_TEMPLATE_AREA,
    ensures
        r.matches(data@),
{
    let mut sum: u64 = 0;
    let mut sum_sq: u64 = 0;
    let n = data.len();
    let mut i: usize = 0;
    while i < n
        invariant
            i <= n,
            n == data@.len(),
            n <= MAX_TEMPLATE_AREA,
            sum == sum_of(data@.take(i as int)),
            sum_sq == sum_sq_of(data@.take(i as int)),
        decreases n - i,
    {
        proof {
            lemma_sum_bounds(data@.take(i as int));
            assert(data@.take(i as int + 1).drop_last() =~= data@.take(i as int));
            assert(data@.take(i as int + 1).last() == data@[i as int]);
        }
        let v = data[i] as u64;
        proof {
            assert((v as int) * (v as int) <= 65025) by (nonlinear_arith)
                requires
                    0 <= (v as int) <= 255,
            ;
        }
        sum = sum + v;
        sum_sq = sum_sq + v * v;
        i = i + 1;
    }
    proof {
        assert(data@.take(n as int) =~= data@);
    }
    TemplateStats { sum, sum_sq }
}

/// Sum of the elementwise products of two equally long pixel samples.
pub fn sum_prod(a: &Vec<u8>, b: &Vec<u8>) -> (r: u64)
    requires
        a@.len() == b@.len(),
        a@.len() <= MAX_TEMPLATE_AREA,
    ensures
        r == sum_prod_of(a@, b@),
{
    let mut acc: u64 = 0;
    let n = a.len();
    let mut i: usize = 0;
    while i < n
        invariant
            i <= n,
            n == a@.len(),
            a@.len() == b@.len(),
            n <= MAX_TEMPLATE_AREA,
            acc == sum_prod_of(a@.take(i as int), b@.take(i as int)),
        decreases n - i,
    {
        proof {
            lemma_sum_prod_bounds(a@.take(i as int), b@.take(i as int));
            assert(a@.take(i as int + 1).drop_last() =~= a@.take(i as int));
            assert(b@.take(i as int + 1).drop_last() =~= b@.take(i as int));
            assert(a@.take(i as int + 1).last() == a@[i as int]);
            assert(b@.take(i as int + 1).last() == b@[i as int]);
        }
        let va = a[i] as u64;
        let vb = b[i] as u64;
        proof {
            assert((va as int) * (vb as int) <= 65025) by (nonlinear_arith)
                requires
                    0 <= (va as int) <= 255,
                    0 <= (vb as int) <= 255,
            ;
        }
        acc = acc + va * vb;
        i = i + 1;
    }
    proof {
        assert(a@.take(n as int) =~= a@);
        assert(b@.take(n as int) =~= b@);
    }
    acc
}

/// Integer square root, rounded down, by binary search over the 64-bit range.
pub fn isqrt(x: u128) -> (r: u128)
    ensures
        is_sqrt_floor(x as int, r as int),
{
    let mut lo: u128 = 0;
    let mut hi: u128 = 0x1_0000_0000_0000_0000;
    proof {
        assert((x as int) < (0x1_0000_0000_0000_0000 as int) * (
        0x1_0000_0000_0000_0000 as int)) by (nonlinear_arith)
            requires
                x <= u128::MAX,
        ;
    }
    while lo + 1 < hi
        invariant
            lo < hi,
            hi <= 0x1_0000_0000_0000_0000,
            (lo as int) * (lo as int) <= x as int,
            (x as int) < (hi as int) * (hi as int),
        decreases hi - lo,
    {
        let mid = lo + (hi - lo) / 2;
        proof {
            assert((mid as int) * (mid as int) <= u128::MAX as int) by (nonlinear_arith)
                requires
                    0 <= (mid as int) < 0x1_0000_0000_0000_0000,
            ;
        }
        if mid * mid <= x {
            lo = mid;
        } else {
            hi = mid;
        }
    }
    lo
}

/// The NCC score of `region` against `template` in exact integer arithmetic;
/// `stats` must hold the template's true sums.
pub fn normalized_cross_correlation(region: &Vec<u8>, template: &Vec<u8>, stats: &TemplateStats) -> (score:
    i128)
    requires
        region@.len() == template@.len(),
        1 <= template@.len() <= MAX_TEMPLATE_AREA,
        stats.matches(template@),
    ensures
        score == ncc_spec(region@, template@),
        -SCORE_SCALE <= score <= SCORE_SCALE,
{
    let n = region.len();
    let rstats = template_stats(region);
    proof {
        lemma_ncc_spec_range(region@, template@);
        lemma_sum_bounds(region@);
        lemma_sum_bounds(template@);
        lemma_den_sq_nonneg(region@);
        lemma_den_sq_nonneg(template@);
        lemma_den_sq_upper(region@);
        lemma_den_sq_upper(template@);
        lemma_num_bounds(region@, template@);
        assert(65025 * (n as int) * (n as int) < 0x1_0000_0000_0000_0000) by (nonlinear_arith)
            requires
                0 <= (n as int) <= 0x100_0000,
        ;
        assert((n as int) * sum_sq_of(region@) <= 65025 * (n as int) * (n as int))
            by (nonlinear_arith)
            requires
                0 <= sum_sq_of(region@) <= 65025 * (n as int),
        ;
        assert((n as int) * sum_sq_of(template@) <= 65025 * (n as int) * (n as int))
            by (nonlinear_arith)
            requires
                0 <= sum_sq_of(template@) <= 65025 * (n as int),
        ;
        assert(sum_of(region@) * sum_of(region@) <= 65025 * (n as int) * (n as int))
            by (nonlinear_arith)
            requires
                0 <= sum_of(region@) <= 255 * (n as int),
        ;
        assert(sum_of(template@) * sum_of(template@) <= 65025 * (n as int) * (n as int))
            by (nonlinear_arith)
            requires
                0 <= sum_of(template@) <= 255 * (n as int),
        ;
    }
    let n128 = n as u128;
    let r_nq = n128 * (rstats.sum_sq as u128);
    let r_ss = (rstats.sum as u128) * (rstats.sum as u128);
    let dr = r_nq - r_ss;
    let t_nq = n128 * (stats.sum_sq as u128);
    let t_ss = (stats.sum as u128) * (stats.sum as u128);
    let dt = t_nq - t_ss;
    if dr == 0 || dt == 0 {
        return 0;
    }
    proof {
        assert((dr as int) * (dt as int) <= u128::MAX as int) by (nonlinear_arith)
            requires
                1 <= (dr as int) < 0x1_0000_0000_0000_0000,
                1 <= (dt as int) < 0x1_0000_0000_0000_0000,
        ;
    }
    let prod_d = dr * dt;
    let s = isqrt(prod_d);
    proof {
        lemma_sqrt_floor_unique(prod_d as int, s as int);
        assert((prod_d as int) >= 1) by (nonlinear_arith)
            requires
                (dr as int) >= 1,
                (dt as int) >= 1,
                prod_d as int == (dr as int) * (dt as int),
        ;
        if s == 0 {
            assert((prod_d as int) < 1) by (nonlinear_arith)
                requires
                    s as int == 0,
                    (prod_d as int) < (s as int + 1) * (s as int + 1),
            ;
            assert(false);
        }
    }
    let p = sum_prod(region, template);
    proof {
        lemma_sum_prod_bounds(region@, template@);
        assert((n as int) * sum_prod_of(region@, template@) <= 65025 * (n as int) * (n as int))
            by (nonlinear_arith)
            requires
                0 <= sum_prod_of(region@, template@) <= 65025 * (n as int),
        ;
    }
    let np = n128 * (p as u128);
    let st = (rstats.sum as u128) * (stats.sum as u128);
    let num: i128 = (np as i128) - (st as i128);
    if num >= 0 {
        let mag = num as u128;
        proof {
            assert(mag * 1_000_000 <= u128::MAX) by (nonlinear_arith)
                requires
                    0 <= (mag as int) < 0x1_0000_0000_0000_0000,
            ;
            assert((mag as int) * 1_000_000 / (s as int) <= (mag as int) * 1_000_000)
                by (nonlinear_arith)
                requires
                    (s as int) >= 1,
                    (mag as int) >= 0,
            ;
        }
        let q = (mag * 1_000_000) / s;
        q as i128
    } else {
        let mag = (-num) as u128;
        proof {
            assert(mag * 1_000_000 <= u128::MAX) by (nonlinear_arith)
                requires
                    0 <= (mag as int) < 0x1_0000_0000_0000_0000,
            ;
            assert((mag as int) * 1_000_000 / (s as int) <= (mag as int) * 1_000_000)
                by (nonlinear_arith)
                requires
                    (s as int) >= 1,
                    (mag as int) >= 0,
        ;
        }
        let q = (mag * 1_000_000) / s;
        -(q as i128)
    }
}

} // verus!
