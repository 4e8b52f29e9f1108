//! Points on the grid and the Euclidean distance between them, with the laws
//! of distance.

use vstd::prelude::*;

verus! {

/// A position on the grid: one fixed-point coordinate per dimension. A
/// coordinate spans a little over 2147 units to either side of zero.
pub type Point = Vec<i32>;

/// The number of coordinates that two points share.
pub open spec fn common_dimension(a: Seq<i32>, b: Seq<i32>) -> nat {
    if a.len() <= b.len() {
        a.len()
    } else {
        b.len()
    }
}

/// The sum of the squared coordinate differences over the first `n`
/// dimensions.
pub open spec fn squared_distance_upto(a: Seq<i32>, b: Seq<i32>, n: nat) -> int
    decreases n,
{
    if n == 0 {
        0
    } else {
        squared_distance_upto(a, b, (n - 1) as nat) + (a[n - 1] - b[n - 1]) * (a[n - 1] - b[n
            - 1])
    }
}

/// The square of the Euclidean distance between `a` and `b`, taken over the
/// dimensions that both have.
pub open spec fn squared_distance(a: Seq<i32>, b: Seq<i32>) -> int {
    squared_distance_upto(a, b, common_dimension(a, b))
}

/// The sum of the products `(a[d] - b[d]) * (b[d] - c[d])` over the first `n`
/// dimensions.
pub open spec fn cross_upto(a: Seq<i32>, b: Seq<i32>, c: Seq<i32>, n: nat) -> int
    decreases n,
{
    if n == 0 {
        0
    } else {
        cross_upto(a, b, c, (n - 1) as nat) + (a[n - 1] - b[n - 1]) * (b[n - 1] - c[n - 1])
    }
}

/// For non-negative `s`, `p` and `q`: the square root of `s` is at most the
/// sum of the square roots of `p` and `q`, stated without roots.
pub open spec fn root_at_most_sum_of_roots(s: int, p: int, q: int) -> bool {
    s <= p + q || (s - p - q) * (s - p - q) <= 4 * p * q
}

proof fn lemma_upto_bounds(a: Seq<i32>, b: Seq<i32>, n: nat)
    requires
        n <= a.len(),
        n <= b.len(),
    ensures
        0 <= squared_distance_upto(a, b, n) <= n * 0xffff_fffe_0000_0001,
    decreases n,
{
    if n > 0 {
        lemma_upto_bounds(a, b, (n - 1) as nat);
        let d = a[n - 1] - b[n - 1];
        assert(0 <= d * d <= 0xffff_fffe_0000_0001) by (nonlinear_arith)
            requires
                -0xffff_ffff <= d <= 0xffff_ffff,
        ;
    }
}

proof fn lemma_upto_symmetric(a: Seq<i32>, b: Seq<i32>, n: nat)
    ensures
        squared_distance_upto(a, b, n) == squared_distance_upto(b, a, n),
    decreases n,
{
    if n > 0 {
        lemma_upto_symmetric(a, b, (n - 1) as nat);
        let d = a[n - 1] - b[n - 1];
        let e = b[n - 1] - a[n - 1];
        assert(d * d == e * e) by (nonlinear_arith)
            requires
                e == -d,
        ;
    }
}

proof fn lemma_upto_zero(a: Seq<i32>, b: Seq<i32>, n: nat)
    requires
        n <= a.len(),
        n <= b.len(),
    ensures
        squared_distance_upto(a, b, n) == 0 <==> forall|d: int| 0 <= d < n ==> a[d] == b[d],
    decreases n,
{
    if n > 0 {
        lemma_upto_zero(a, b, (n - 1) as nat);
        lemma_upto_bounds(a, b, (n - 1) as nat);
        let d = a[n - 1] - b[n - 1];
        assert(d * d >= 0 && (d * d == 0 <==> d == 0)) by (nonlinear_arith);
    }
}

proof fn lemma_upto_split(a: Seq<i32>, b: Seq<i32>, c: Seq<i32>, n: nat)
    ensures
        squared_distance_upto(a, c, n) == squared_distance_upto(a, b, n) + squared_distance_upto(
            b,
            c,
            n,
        ) + 2 * cross_upto(a, b, c, n),
    decreases n,
{
    if n > 0 {
        lemma_upto_split(a, b, c, (n - 1) as nat);
        let u = a[n - 1] - b[n - 1];
        let v = b[n - 1] - c[n - 1];
        let w = a[n - 1] - c[n - 1];
        assert(w * w == u * u + v * v + 2 * (u * v)) by (nonlinear_arith)
            requires
                w == u + v,
        ;
    }
}

proof fn lemma_cross_step(p: int, q: int, c: int, u: int, v: int)
    requires
        p >= 0,
        q >= 0,
        c * c <= p * q,
    ensures
        (c + u * v) * (c + u * v) <= (p + u * u) * (q + v * v),
{
    let w = u * v;
    let a = p * (v * v);
    let b = q * (u * u);
    let x = a + b;
    let y = 2 * (c * w);
    assert(w * w >= 0) by (nonlinear_arith);
    assert(a >= 0 && b >= 0) by (nonlinear_arith)
        requires
            p >= 0,
            q >= 0,
            a == p * (v * v),
            b == q * (u * u),
    ;
    assert(a * b == (p * q) * (w * w)) by (nonlinear_arith)
        requires
            a == p * (v * v),
            b == q * (u * u),
            w == u * v,
    ;
    assert((p * q) * (w * w) >= (c * c) * (w * w)) by (nonlinear_arith)
        requires
            c * c <= p * q,
            w * w >= 0,
    ;
    assert(x * x >= 4 * (a * b)) by (nonlinear_arith)
        requires
            x == a + b,
    ;
    assert(y * y == 4 * ((c * c) * (w * w))) by (nonlinear_arith)
        requires
            y == 2 * (c * w),
    ;
    assert(y <= x) by (nonlinear_arith)
        requires
            x >= 0,
            y * y <= x * x,
    ;
    assert((c + u * v) * (c + u * v) == c * c + y + w * w) by (nonlinear_arith)
        requires
            w == u * v,
            y == 2 * (c * w),
    ;
    assert((p + u * u) * (q + v * v) == p * q + x + w * w) by (nonlinear_arith)
        requires
            w == u * v,
            x == a + b,
            a == p * (v * v),
            b == q * (u * u),
    ;
}

proof fn lemma_cross_bound(a: Seq<i32>, b: Seq<i32>, c: Seq<i32>, n: nat)
    requires
        n <= a.len(),
        n <= b.len(),
        n <= c.len(),
    ensures
        cross_upto(a, b, c, n) * cross_upto(a, b, c, n) <= squared_distance_upto(a, b, n)
            * squared_distance_upto(b, c, n),
    decreases n,
{
    if n > 0 {
        let m = (n - 1) as nat;
        lemma_cross_bound(a, b, c, m);
        lemma_upto_bounds(a, b, m);
        lemma_upto_bounds(b, c, m);
        lemma_cross_step(
            squared_distance_upto(a, b, m),
            squared_distance_upto(b, c, m),
            cross_upto(a, b, c, m),
            a[n - 1] - b[n - 1],
            b[n - 1] - c[n - 1],
        );
    }
}

/// The distance from `a` to `b` is the distance from `b` to `a`.
pub proof fn lemma_distance_symmetric(a: Seq<i32>, b: Seq<i32>)
    ensures
        squared_distance(a, b) == squared_distance(b, a),
{
    lemma_upto_symmetric(a, b, common_dimension(a, b));
}

/// A distance is never negative.
pub proof fn lemma_distance_nonnegative(a: Seq<i32>, b: Seq<i32>)
    ensures
        squared_distance(a, b) >= 0,
{
    lemma_upto_bounds(a, b, common_dimension(a, b));
}

/// The distance from a point to itself is zero.
pub proof fn lemma_distance_to_self(a: Seq<i32>)
    ensures
        squared_distance(a, a) == 0,
{
    lemma_upto_zero(a, a, a.len());
}

/// Two points of one dimension are at distance zero exactly when they are
/// the same point.
pub proof fn lemma_distance_zero_iff_equal(a: Seq<i32>, b: Seq<i32>)
    requires
        a.len() == b.len(),
    ensures
        squared_distance(a, b) == 0 <==> a == b,
{
    lemma_upto_zero(a, b, a.len());
    if squared_distance(a, b) == 0 {
        assert(a =~= b);
    }
}

/// The triangle inequality: for points of one dimension, the distance from
/// `a` to `c` is at most the distance from `a` to `b` plus the distance from
/// `b` to `c`.
pub proof fn lemma_triangle_inequality(a: Seq<i32>, b: Seq<i32>, c: Seq<i32>)
    requires
        a.len() == b.len(),
        b.len() == c.len(),
    ensures
        root_at_most_sum_of_roots(
            squared_distance(a, c),
            squared_distance(a, b),
            squared_distance(b, c),
        ),
{
    let n = a.len();
    let s = squared_distance(a, c);
    let p = squared_distance(a, b);
    let q = squared_distance(b, c);
    let x = cross_upto(a, b, c, n);
    lemma_upto_split(a, b, c, n);
    lemma_cross_bound(a, b, c, n);
    assert((s - p - q) * (s - p - q) == 4 * (x * x)) by (nonlinear_arith)
        requires
            s - p - q == 2 * x,
    ;
    assert(4 * p * q == 4 * (p * q)) by (nonlinear_arith);
}

/// The triangle inequality over bounds: if `a` is within `x` of `b` and `b`
/// is within `y` of `c`, then `a` is within `x + y` of `c`.
pub proof fn lemma_triangle_inequality_bounds(
    a: Seq<i32>,
    b: Seq<i32>,
    c: Seq<i32>,
    x: nat,
    y: nat,
)
    requires
        a.len() == b.len(),
        b.len() == c.len(),
        squared_distance(a, b) <= x * x,
        squared_distance(b, c) <= y * y,
    ensures
        squared_distance(a, c) <= (x + y) * (x + y),
{
    let n = a.len();
    let s = squared_distance(a, c);
    let p = squared_distance(a, b);
    let q = squared_distance(b, c);
    let k = cross_upto(a, b, c, n);
    lemma_upto_split(a, b, c, n);
    lemma_cross_bound(a, b, c, n);
    lemma_upto_bounds(a, b, n);
    lemma_upto_bounds(b, c, n);
    let xy = x * y;
    assert(p * q <= xy * xy) by (nonlinear_arith)
        requires
            0 <= p <= x * x,
            0 <= q <= y * y,
            xy == x * y,
    ;
    assert(k <= xy) by (nonlinear_arith)
        requires
            k * k <= xy * xy,
            xy >= 0,
    ;
    assert((x + y) * (x + y) == x * x + y * y + 2 * xy) by (nonlinear_arith)
        requires
            xy == x * y,
    ;
}

/// The strict triangle inequality over bounds: if `a` is nearer than `x` to
/// `b` and `b` is nearer than `y` to `c`, then `a` is nearer than `x + y` to
/// `c`.
pub proof fn lemma_triangle_inequality_strict_bounds(
    a: Seq<i32>,
    b: Seq<i32>,
    c: Seq<i32>,
    x: nat,
    y: nat,
)
    requires
        a.len() == b.len(),
        b.len() == c.len(),
        squared_distance(a, b) < x * x,
        squared_distance(b, c) < y * y,
    ensures
        squared_distance(a, c) < (x + y) * (x + y),
{
    let n = a.len();
    let s = squared_distance(a, c);
    let p = squared_distance(a, b);
    let q = squared_distance(b, c);
    let k = cross_upto(a, b, c, n);
    lemma_upto_split(a, b, c, n);
    lemma_cross_bound(a, b, c, n);
    lemma_upto_bounds(a, b, n);
    lemma_upto_bounds(b, c, n);
    let xy = x * y;
    assert(p * q < xy * xy) by (nonlinear_arith)
        requires
            0 <= p < x * x,
            0 <= q < y * y,
            xy == x * y,
    ;
    assert(k < xy) by (nonlinear_arith)
        requires
            k * k < xy * xy,
            xy >= 0,
    ;
    assert((x + y) * (x + y) == x * x + y * y + 2 * xy) by (nonlinear_arith)
        requires
            xy == x * y,
    ;
}

/// `root` is the square root of `square`, rounded down.
pub open spec fn is_floor_root(root: int, square: int) -> bool {
    0 <= root && root * root <= square < (root + 1) * (root + 1)
}

/// A number has one square root rounded down.
pub proof fn lemma_floor_root_unique(first: int, second: int, square: int)
    by (nonlinear_arith)
    requires
        is_floor_root(first, square),
        is_floor_root(second, square),
    ensures
        first == second,
{
}

/// The laws of distance for distances rounded down: the distance from `a` to
/// `b` is that from `b` to `a`, the distance from a point to itself is zero,
/// and the distance from `a` to `c` exceeds the sum of the distances from
/// `a` to `b` and from `b` to `c` by at most the rounding, which is 1.
pub proof fn lemma_rounded_distance_laws(
    a: Seq<i32>,
    b: Seq<i32>,
    c: Seq<i32>,
    ab: int,
    ba: int,
    bc: int,
    ac: int,
    aa: int,
)
    requires
        a.len() == b.len(),
        b.len() == c.len(),
        is_floor_root(ab, squared_distance(a, b)),
        is_floor_root(ba, squared_distance(b, a)),
        is_floor_root(bc, squared_distance(b, c)),
        is_floor_root(ac, squared_distance(a, c)),
        is_floor_root(aa, squared_distance(a, a)),
    ensures
        ab == ba,
        aa == 0,
        ac <= ab + bc + 1,
{
    lemma_distance_symmetric(a, b);
    lemma_floor_root_unique(ab, ba, squared_distance(a, b));
    lemma_distance_to_self(a);
    lemma_floor_root_unique(aa, 0, 0);
    lemma_triangle_inequality_strict_bounds(a, b, c, (ab + 1) as nat, (bc + 1) as nat);
    let reach = ab + bc + 2;
    assert(ac < reach) by (nonlinear_arith)
        requires
            ac * ac < reach * reach,
            reach >= 0,
            ac >= 0,
    ;
}

/// `a` and `b` are no further apart than `range`: the comparison is
/// inclusive, so a point exactly `range` away is within range.
pub open spec fn within_range(a: Seq<i32>, b: Seq<i32>, range: u32) -> bool {
    squared_distance(a, b) <= range * range
}

/// The positions that a vector of points holds, in order.
pub open spec fn positions(points: &Vec<Point>) -> Seq<Seq<i32>> {
    Seq::new(points@.len(), |i: int| points@[i]@)
}

/// The square of the Euclidean distance between two points.
pub fn distance_squared(a: &Point, b: &Point) -> (r: u128)
    ensures
        r == squared_distance(a@, b@),
{
    let n = if a.len() <= b.len() {
        a.len()
    } else {
        b.len()
    };
    let mut sum: u128 = 0;
    let mut d: usize = 0;
    while d < n
        invariant
            d <= n,
            n == common_dimension(a@, b@),
            sum == squared_distance_upto(a@, b@, d as nat),
        decreases n - d,
    {
        let gap: i64 = a[d] as i64 - b[d] as i64;
        let magnitude: u64 = if gap >= 0 {
            gap as u64
        } else {
            (0 - gap) as u64
        };
        assert(magnitude * magnitude == gap * gap && magnitude * magnitude
            <= 0xffff_fffe_0000_0001) by (nonlinear_arith)
            requires
                magnitude == gap || magnitude == -gap,
                0 <= magnitude <= 0xffff_ffff,
        ;
        let square: u128 = (magnitude as u128) * (magnitude as u128);
        proof {
            lemma_upto_bounds(a@, b@, d as nat);
            assert((d + 1) * 0xffff_fffe_0000_0001 <= u128::MAX) by (nonlinear_arith)
                requires
                    d + 1 <= 0xffff_ffff_ffff_ffff,
            ;
            assert(d * 0xffff_fffe_0000_0001 + 0xffff_fffe_0000_0001 == (d + 1)
                * 0xffff_fffe_0000_0001) by (nonlinear_arith);
        }
        sum = sum + square;
        d += 1;
    }
    sum
}

/// The square root of `square`, rounded down.
pub fn floor_root(square: u128) -> (root: u64)
    ensures
        is_floor_root(root as int, square as int),
{
    let mut low: u128 = 0;
    let mut high: u128 = 0x1_0000_0000_0000_0000;
    while high - low > 1
        invariant
            low < high <= 0x1_0000_0000_0000_0000,
            low * low <= square < high * high,
        decreases high - low,
    {
        let middle: u128 = low + (high - low) / 2;
        assert(middle * middle <= 0xffff_ffff_ffff_ffff * 0xffff_ffff_ffff_ffff)
            by (nonlinear_arith)
            requires
                0 <= middle <= 0xffff_ffff_ffff_ffff,
        ;
        if middle * middle <= square {
            low = middle;
        } else {
            high = middle;
        }
    }
    low as u64
}

/// The Euclidean distance between two points, rounded down to the grid.
pub fn distance(a: &Point, b: &Point) -> (r: u64)
    ensures
        is_floor_root(r as int, squared_distance(a@, b@)),
{
    floor_root(distance_squared(a, b))
}

/// Whether `a` and `b` are no further apart than `range`.
pub fn in_range(a: &Point, b: &Point, range: u32) -> (r: bool)
    ensures
        r == within_range(a@, b@, range),
{
    assert(range * range <= 0xffff_ffff * 0xffff_ffff) by (nonlinear_arith)
        requires
            range <= 0xffff_ffff,
    ;
    let limit: u64 = (range as u64) * (range as u64);
    distance_squared(a, b) <= limit as u128
}

} // verus!
