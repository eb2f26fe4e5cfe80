//! Sums and sums of products over integer sequences, with the algebra that the
//! statistics rest on.

use vstd::prelude::*;

verus! {

/// The values of a sample read as mathematical integers.
pub open spec fn ints(s: Seq<i64>) -> Seq<int> {
    Seq::new(s.len(), |i: int| s[i] as int)
}

/// Sum of the first `k` values of `s`.
pub open spec fn prefix_sum(s: Seq<int>, k: nat) -> int
    decreases k,
{
    if k == 0 {
        0
    } else {
        prefix_sum(s, (k - 1) as nat) + s[k - 1]
    }
}

/// Sum of all values of `s`.
pub open spec fn total(s: Seq<int>) -> int {
    prefix_sum(s, s.len())
}

/// Sum of the products `a[i] * b[i]` over the first `k` positions.
pub open spec fn prefix_dot(a: Seq<int>, b: Seq<int>, k: nat) -> int
    decreases k,
{
    if k == 0 {
        0
    } else {
        prefix_dot(a, b, (k - 1) as nat) + a[k - 1] * b[k - 1]
    }
}

/// Sum of the products `a[i] * b[i]` over every position of `a`.
pub open spec fn dot(a: Seq<int>, b: Seq<int>) -> int {
    prefix_dot(a, b, a.len())
}

/// Deviations from the mean, each multiplied by the length so that it stays an
/// integer: position `i` holds `n * s[i] - total(s)`, which is `n * (s[i] - mean)`.
pub open spec fn centered(s: Seq<int>) -> Seq<int> {
    Seq::new(s.len(), |i: int| s.len() * s[i] - total(s))
}

/// `n * sum(x[i] * y[i]) - sum(x) * sum(y)`, which equals
/// `n * sum((x[i] - mean_x) * (y[i] - mean_y))`: see [`lemma_co_moment_centered`].
pub open spec fn co_moment(x: Seq<int>, y: Seq<int>) -> int {
    x.len() * dot(x, y) - total(x) * total(y)
}

/// Every value of `s` is the same.
pub open spec fn is_constant(s: Seq<int>) -> bool {
    forall|i: int, j: int| 0 <= i < s.len() && 0 <= j < s.len() ==> s[i] == s[j]
}

/// Bounds on a prefix sum of values that lie between `lo` and `hi`.
pub proof fn lemma_prefix_sum_bounds(s: Seq<int>, k: nat, lo: int, hi: int)
    requires
        k <= s.len(),
        forall|i: int| 0 <= i < k ==> lo <= #[trigger] s[i] && s[i] <= hi,
    ensures
        k * lo <= prefix_sum(s, k) <= k * hi,
    decreases k,
{
    if k > 0 {
        let j = (k - 1) as nat;
        lemma_prefix_sum_bounds(s, j, lo, hi);
        assert(j * lo + lo == k * lo && j * hi + hi == k * hi) by (nonlinear_arith)
            requires
                j + 1 == k,
        ;
    } else {
        assert(k * lo == 0 && k * hi == 0) by (nonlinear_arith)
            requires
                k == 0,
        ;
    }
}

/// The sum of a constant sequence is its length times the value.
pub proof fn lemma_prefix_sum_constant(s: Seq<int>, k: nat, v: int)
    requires
        k <= s.len(),
        forall|i: int| 0 <= i < k ==> s[i] == v,
    ensures
        prefix_sum(s, k) == k * v,
    decreases k,
{
    if k > 0 {
        let j = (k - 1) as nat;
        lemma_prefix_sum_constant(s, j, v);
        assert(j * v + v == k * v) by (nonlinear_arith)
            requires
                j + 1 == k,
        ;
    } else {
        assert(k * v == 0) by (nonlinear_arith)
            requires
                k == 0,
        ;
    }
}

/// A sum of squares is never negative.
pub proof fn lemma_prefix_square_nonnegative(a: Seq<int>, k: nat)
    requires
        k <= a.len(),
    ensures
        prefix_dot(a, a, k) >= 0,
    decreases k,
{
    if k > 0 {
        lemma_prefix_square_nonnegative(a, (k - 1) as nat);
        let p = a[k - 1];
        assert(p * p >= 0) by (nonlinear_arith);
    }
}

/// A sum of squares is zero only where every term is zero.
pub proof fn lemma_prefix_square_zero(a: Seq<int>, k: nat)
    requires
        k <= a.len(),
        prefix_dot(a, a, k) == 0,
    ensures
        forall|i: int| 0 <= i < k ==> a[i] == 0,
    decreases k,
{
    if k > 0 {
        lemma_prefix_square_nonnegative(a, (k - 1) as nat);
        let p = a[k - 1];
        assert(p * p >= 0 && (p * p == 0 ==> p == 0)) by (nonlinear_arith);
        lemma_prefix_square_zero(a, (k - 1) as nat);
    }
}

/// A sum of products against an all-zero sequence is zero.
pub proof fn lemma_prefix_dot_zero(a: Seq<int>, b: Seq<int>, k: nat)
    requires
        k <= a.len(),
        k <= b.len(),
        forall|i: int| 0 <= i < k ==> b[i] == 0,
    ensures
        prefix_dot(a, b, k) == 0,
        prefix_dot(b, a, k) == 0,
    decreases k,
{
    if k > 0 {
        lemma_prefix_dot_zero(a, b, (k - 1) as nat);
        let p = a[k - 1];
        let q = b[k - 1];
        assert(p * q == 0 && q * p == 0) by (nonlinear_arith)
            requires
                q == 0,
        ;
    }
}

/// Regrouping the factors of a product of three.
proof fn lemma_regroup3(a: int, b: int, c: int)
    ensures
        (a * b) * c == (a * c) * b,
        (a * b) * c == a * (b * c),
{
    assert((a * b) * c == (a * c) * b) by (nonlinear_arith);
    assert((a * b) * c == a * (b * c)) by (nonlinear_arith);
}

/// Regrouping the factors of a product of four.
proof fn lemma_regroup4(a: int, b: int, c: int, d: int)
    ensures
        (a * b) * (c * d) == (a * c) * (b * d),
{
    let cd = c * d;
    let bd = b * d;
    lemma_regroup3(a, b, cd);
    assert(b * cd == c * bd) by {
        lemma_regroup3(b, c, d);
        lemma_regroup3(c, b, d);
        assert(b * c == c * b) by (nonlinear_arith);
    }
    lemma_regroup3(a, c, bd);
}

/// The products of centered values, summed over the first `k` positions, in
/// terms of the plain sums over those positions.
proof fn lemma_centered_prefix(x: Seq<int>, y: Seq<int>, k: nat)
    requires
        x.len() == y.len(),
        k <= x.len(),
    ensures
        prefix_dot(centered(x), centered(y), k) == x.len() * x.len() * prefix_dot(x, y, k)
            - x.len() * total(y) * prefix_sum(x, k) - x.len() * total(x) * prefix_sum(y, k) + k
            * total(x) * total(y),
    decreases k,
{
    let n = x.len() as int;
    let sx = total(x);
    let sy = total(y);
    if k > 0 {
        let j = (k - 1) as nat;
        lemma_centered_prefix(x, y, j);
        let p = x[k - 1];
        let q = y[k - 1];
        let dj = prefix_dot(x, y, j);
        let xj = prefix_sum(x, j);
        let yj = prefix_sum(y, j);
        assert(centered(x)[k - 1] == n * p - sx);
        assert(centered(y)[k - 1] == n * q - sy);
        let nn = n * n;
        let nsy = n * sy;
        let nsx = n * sx;
        let ss = sx * sy;
        let pq = p * q;
        let u = n * p;
        let w = n * q;
        assert((u - sx) * (w - sy) == u * w - u * sy - sx * w + ss) by (nonlinear_arith)
            requires
                ss == sx * sy,
        ;
        assert(u * w == nn * pq) by {
            lemma_regroup4(n, p, n, q);
        }
        assert(u * sy == nsy * p) by {
            lemma_regroup3(n, p, sy);
        }
        assert(sx * w == nsx * q) by {
            lemma_regroup3(n, sx, q);
            assert(sx * w == w * sx) by (nonlinear_arith);
            lemma_regroup3(n, q, sx);
        }
        assert(nn * (dj + pq) == nn * dj + nn * pq) by (nonlinear_arith);
        assert(nsy * (xj + p) == nsy * xj + nsy * p) by (nonlinear_arith);
        assert(nsx * (yj + q) == nsx * yj + nsx * q) by (nonlinear_arith);
        assert(k * sx * sy == j * sx * sy + ss) by (nonlinear_arith)
            requires
                j + 1 == k,
                ss == sx * sy,
        ;
    } else {
        assert(n * n * 0 - n * sy * 0 - n * sx * 0 + k * sx * sy == 0) by (nonlinear_arith)
            requires
                k == 0,
        ;
    }
}

/// Summing the products of deviations from the means gives the co-moment:
/// `sum((n*x[i] - sum(x)) * (n*y[i] - sum(y))) == n * co_moment(x, y)`.
pub proof fn lemma_co_moment_centered(x: Seq<int>, y: Seq<int>)
    requires
        x.len() == y.len(),
    ensures
        dot(centered(x), centered(y)) == x.len() * co_moment(x, y),
{
    let n = x.len() as int;
    let sx = total(x);
    let sy = total(y);
    let d = dot(x, y);
    lemma_centered_prefix(x, y, x.len());
    assert(n * n * d - n * sy * sx - n * sx * sy + n * sx * sy == n * (n * d - sx * sy))
        by (nonlinear_arith);
}

/// The sequence `s * a[i] - t * b[i]`.
spec fn combined(a: Seq<int>, b: Seq<int>, s: int, t: int) -> Seq<int> {
    Seq::new(a.len(), |i: int| s * a[i] - t * b[i])
}

proof fn lemma_combined_square(a: Seq<int>, b: Seq<int>, s: int, t: int, k: nat)
    requires
        a.len() == b.len(),
        k <= a.len(),
    ensures
        prefix_dot(combined(a, b, s, t), combined(a, b, s, t), k) == s * s * prefix_dot(a, a, k)
            - 2 * s * t * prefix_dot(a, b, k) + t * t * prefix_dot(b, b, k),
    decreases k,
{
    if k > 0 {
        let j = (k - 1) as nat;
        lemma_combined_square(a, b, s, t, j);
        let p = a[k - 1];
        let q = b[k - 1];
        let aa = prefix_dot(a, a, j);
        let ab = prefix_dot(a, b, j);
        let bb = prefix_dot(b, b, j);
        assert(combined(a, b, s, t)[k - 1] == s * p - t * q);
        let ss = s * s;
        let st = 2 * s * t;
        let tt = t * t;
        let pp = p * p;
        let pq = p * q;
        let qq = q * q;
        let u = s * p;
        let w = t * q;
        assert((u - w) * (u - w) == u * u - 2 * (u * w) + w * w) by (nonlinear_arith);
        assert(u * u == ss * pp) by {
            lemma_regroup4(s, p, s, p);
        }
        assert(w * w == tt * qq) by {
            lemma_regroup4(t, q, t, q);
        }
        assert(2 * (u * w) == st * pq) by {
            lemma_regroup4(s, p, t, q);
            let m = s * t;
            assert(2 * (m * pq) == (2 * m) * pq) by (nonlinear_arith);
            assert(2 * s * t == 2 * m) by (nonlinear_arith)
                requires
                    m == s * t,
            ;
        }
        assert(ss * (aa + pp) == ss * aa + ss * pp) by (nonlinear_arith);
        assert(st * (ab + pq) == st * ab + st * pq) by (nonlinear_arith);
        assert(tt * (bb + qq) == tt * bb + tt * qq) by (nonlinear_arith);
    } else {
        assert(s * s * 0 - 2 * s * t * 0 + t * t * 0 == 0) by (nonlinear_arith);
    }
}

/// The Cauchy-Schwarz inequality: `(sum a[i]*b[i])^2 <= (sum a[i]^2) * (sum b[i]^2)`.
pub proof fn lemma_cauchy_schwarz(a: Seq<int>, b: Seq<int>)
    requires
        a.len() == b.len(),
    ensures
        dot(a, b) * dot(a, b) <= dot(a, a) * dot(b, b),
{
    let n = a.len();
    let p = dot(a, a);
    let q = dot(b, b);
    let r = dot(a, b);
    lemma_prefix_square_nonnegative(a, n);
    lemma_prefix_square_nonnegative(b, n);
    if q == 0 {
        lemma_prefix_square_zero(b, n);
        lemma_prefix_dot_zero(a, b, n);
        assert(r * r == 0 && p * q == 0) by (nonlinear_arith)
            requires
                r == 0,
                q == 0,
        ;
    } else {
        let c = combined(a, b, q, r);
        lemma_combined_square(a, b, q, r, n);
        lemma_prefix_square_nonnegative(c, n);
        assert(r * r <= p * q) by (nonlinear_arith)
            requires
                q > 0,
                q * q * p - 2 * q * r * r + r * r * q >= 0,
        ;
    }
}

/// The co-moment of a sequence with itself is zero exactly where the sequence
/// is constant.
pub proof fn lemma_co_moment_zero_iff_constant(x: Seq<int>)
    ensures
        co_moment(x, x) >= 0,
        co_moment(x, x) == 0 <==> is_constant(x),
{
    let n = x.len();
    let c = centered(x);
    let m = co_moment(x, x);
    lemma_co_moment_centered(x, x);
    lemma_prefix_square_nonnegative(c, n);
    if n == 0 {
        assert(m == 0) by (nonlinear_arith)
            requires
                m == n * dot(x, x) - total(x) * total(x),
                n == 0,
                total(x) == 0,
        ;
    } else {
        assert(m >= 0) by (nonlinear_arith)
            requires
                n > 0,
                n * m >= 0,
        ;
        if m == 0 {
            assert(n * m == 0) by (nonlinear_arith)
                requires
                    m == 0,
            ;
            lemma_prefix_square_zero(c, n);
            assert forall|i: int, j: int| 0 <= i < n && 0 <= j < n implies x[i] == x[j] by {
                assert(c[i] == 0 && c[j] == 0);
                assert(x[i] == x[j]) by (nonlinear_arith)
                    requires
                        n > 0,
                        n * x[i] - total(x) == 0,
                        n * x[j] - total(x) == 0,
                ;
            }
        }
        if is_constant(x) {
            let v = x[0];
            lemma_prefix_sum_constant(x, n, v);
            assert forall|i: int| 0 <= i < n implies c[i] == 0 by {
                assert(x[i] == v);
            }
            lemma_prefix_dot_zero(c, c, n);
            assert(m == 0) by (nonlinear_arith)
                requires
                    n > 0,
                    n * m == 0,
            ;
        }
    }
}

/// Every value of `s` increased by `c`.
pub open spec fn shifted(s: Seq<int>, c: int) -> Seq<int> {
    Seq::new(s.len(), |i: int| s[i] + c)
}

/// Every value of `s` multiplied by `k`.
pub open spec fn scaled(s: Seq<int>, k: int) -> Seq<int> {
    Seq::new(s.len(), |i: int| k * s[i])
}

/// Shifting every value by `c` adds `c` to the sum once for each value.
pub proof fn lemma_prefix_sum_shifted(s: Seq<int>, c: int, j: nat)
    requires
        j <= s.len(),
    ensures
        prefix_sum(shifted(s, c), j) == prefix_sum(s, j) + j * c,
    decreases j,
{
    if j > 0 {
        let i = (j - 1) as nat;
        lemma_prefix_sum_shifted(s, c, i);
        assert(i * c + c == j * c) by (nonlinear_arith)
            requires
                i + 1 == j,
        ;
    } else {
        assert(j * c == 0) by (nonlinear_arith)
            requires
                j == 0,
        ;
    }
}

/// Scaling every value by `k` scales the sum by `k`.
pub proof fn lemma_prefix_sum_scaled(s: Seq<int>, k: int, j: nat)
    requires
        j <= s.len(),
    ensures
        prefix_sum(scaled(s, k), j) == k * prefix_sum(s, j),
    decreases j,
{
    if j > 0 {
        let i = (j - 1) as nat;
        lemma_prefix_sum_scaled(s, k, i);
        let p = prefix_sum(s, i);
        let v = s[j - 1];
        assert(k * p + k * v == k * (p + v)) by (nonlinear_arith);
    } else {
        assert(k * 0 == 0) by (nonlinear_arith);
    }
}

/// Scaling one sequence by `k` and the other by `m` scales the sum of products
/// by `k * m`.
pub proof fn lemma_prefix_dot_scaled(a: Seq<int>, b: Seq<int>, k: int, m: int, j: nat)
    requires
        j <= a.len(),
        j <= b.len(),
    ensures
        prefix_dot(scaled(a, k), scaled(b, m), j) == (k * m) * prefix_dot(a, b, j),
    decreases j,
{
    let km = k * m;
    if j > 0 {
        let i = (j - 1) as nat;
        lemma_prefix_dot_scaled(a, b, k, m, i);
        let d = prefix_dot(a, b, i);
        let p = a[j - 1];
        let q = b[j - 1];
        assert((k * p) * (m * q) == km * (p * q)) by {
            lemma_regroup4(k, p, m, q);
        }
        assert(km * d + km * (p * q) == km * (d + p * q)) by (nonlinear_arith);
    } else {
        assert(km * 0 == 0) by (nonlinear_arith);
    }
}

/// Shifting every value by the same amount leaves the centered values as they
/// were.
pub proof fn lemma_centered_shifted(s: Seq<int>, c: int)
    ensures
        centered(shifted(s, c)) == centered(s),
{
    let n = s.len();
    let t = shifted(s, c);
    lemma_prefix_sum_shifted(s, c, n);
    assert forall|i: int| 0 <= i < n implies centered(t)[i] == centered(s)[i] by {
        assert(n * (s[i] + c) == n * s[i] + n * c) by (nonlinear_arith);
    }
    assert(centered(t) =~= centered(s));
}

/// A sum of squares does not shrink when more terms are added.
pub proof fn lemma_prefix_square_monotone(a: Seq<int>, j: nat, k: nat)
    requires
        j <= k <= a.len(),
    ensures
        prefix_dot(a, a, j) <= prefix_dot(a, a, k),
    decreases k - j,
{
    if j < k {
        lemma_prefix_square_monotone(a, j, (k - 1) as nat);
        let p = a[k - 1];
        assert(p * p >= 0) by (nonlinear_arith);
    }
}

/// Twice a sum of products is at most the two sums of squares together.
pub proof fn lemma_prefix_dot_within_squares(a: Seq<int>, b: Seq<int>, k: nat)
    requires
        k <= a.len(),
        k <= b.len(),
    ensures
        -(prefix_dot(a, a, k) + prefix_dot(b, b, k)) <= 2 * prefix_dot(a, b, k),
        2 * prefix_dot(a, b, k) <= prefix_dot(a, a, k) + prefix_dot(b, b, k),
    decreases k,
{
    if k > 0 {
        lemma_prefix_dot_within_squares(a, b, (k - 1) as nat);
        let p = a[k - 1];
        let q = b[k - 1];
        assert(-(p * p + q * q) <= 2 * (p * q) <= p * p + q * q) by (nonlinear_arith);
    }
}

/// The Cauchy-Schwarz inequality for co-moments:
/// `co_moment(x, y)^2 <= co_moment(x, x) * co_moment(y, y)`.
pub proof fn lemma_co_moment_cauchy_schwarz(x: Seq<int>, y: Seq<int>)
    requires
        x.len() == y.len(),
    ensures
        co_moment(x, y) * co_moment(x, y) <= co_moment(x, x) * co_moment(y, y),
{
    let n = x.len() as int;
    let a = co_moment(x, x);
    let b = co_moment(y, y);
    let c = co_moment(x, y);
    if n == 0 {
        assert(a == 0 && b == 0 && c == 0) by (nonlinear_arith)
            requires
                a == n * dot(x, x) - total(x) * total(x),
                b == n * dot(y, y) - total(y) * total(y),
                c == n * dot(x, y) - total(x) * total(y),
                n == 0,
                total(x) == 0,
                total(y) == 0,
        ;
        assert(c * c <= a * b) by (nonlinear_arith)
            requires
                a == 0,
                b == 0,
                c == 0,
        ;
    } else {
        lemma_co_moment_centered(x, x);
        lemma_co_moment_centered(y, y);
        lemma_co_moment_centered(x, y);
        lemma_cauchy_schwarz(centered(x), centered(y));
        let nn = n * n;
        assert(nn > 0) by (nonlinear_arith)
            requires
                nn == n * n,
                n > 0,
        ;
        assert((n * c) * (n * c) == nn * (c * c)) by (nonlinear_arith)
            requires
                nn == n * n,
        ;
        assert((n * a) * (n * b) == nn * (a * b)) by (nonlinear_arith)
            requires
                nn == n * n,
        ;
        assert(c * c <= a * b) by (nonlinear_arith)
            requires
                nn * (c * c) <= nn * (a * b),
                nn > 0,
        ;
    }
}

} // verus!
