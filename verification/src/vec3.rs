//! Fixed-point 3-vectors and the integer geometry the steering rules need.
//!
//! A coordinate is an `i64` counting ticks of `1 / UNIT` spatial units, so
//! all vector arithmetic is exact. The mathematical counterpart of a vector
//! is `V3`, a triple of unbounded integers; every executable operation is
//! specified exactly in terms of `V3`.

use vstd::prelude::*;
use vstd::math::abs;

verus! {

/// Number of fixed-point ticks in one spatial unit.
pub const UNIT: i64 = 1_000_000;

/// Largest coordinate magnitude any vector handled by this library may have.
/// Squared norms of vectors within this bound fit comfortably in an `i128`.
pub const COORD_LIMIT: i64 = 1_000_000_000_000_000_000;

/// Mathematical (unbounded) counterpart of `Vec3`.
pub ghost struct V3 {
    pub x: int,
    pub y: int,
    pub z: int,
}

impl V3 {
    pub open spec fn zero() -> V3 {
        V3 { x: 0, y: 0, z: 0 }
    }

    pub open spec fn add(self, o: V3) -> V3 {
        V3 { x: self.x + o.x, y: self.y + o.y, z: self.z + o.z }
    }

    pub open spec fn sub(self, o: V3) -> V3 {
        V3 { x: self.x - o.x, y: self.y - o.y, z: self.z - o.z }
    }

    pub open spec fn norm_sq(self) -> int {
        self.x * self.x + self.y * self.y + self.z * self.z
    }

    /// Dot product; its sign tells whether two directions agree.
    pub open spec fn dot(self, o: V3) -> int {
        self.x * o.x + self.y * o.y + self.z * o.z
    }

    /// Every component has magnitude at most `b`.
    pub open spec fn in_bounds(self, b: int) -> bool {
        &&& -b <= self.x <= b
        &&& -b <= self.y <= b
        &&& -b <= self.z <= b
    }

    /// Componentwise `c * num / den` with truncating division.
    pub open spec fn scaled(self, num: int, den: int) -> V3 {
        V3 {
            x: tdiv(self.x * num, den),
            y: tdiv(self.y * num, den),
            z: tdiv(self.z * num, den),
        }
    }

    /// The zero vector stays zero; any other vector is rescaled so that its
    /// norm is at most (and close to) `len`.
    pub open spec fn renormed(self, len: int) -> V3 {
        if self.norm_sq() == 0 {
            V3::zero()
        } else {
            self.scaled(len, sqrt_ceil(self.norm_sq()))
        }
    }

    /// Unchanged when the norm is within `max`; rescaled to `max` otherwise.
    pub open spec fn clamped(self, max: int) -> V3 {
        if self.norm_sq() <= max * max {
            self
        } else {
            self.renormed(max)
        }
    }

    /// The componentwise products `c * num` all fit within `den * b`.
    pub open spec fn scale_in_bounds(self, num: int, den: int, b: int) -> bool {
        &&& -(den * b) <= self.x * num <= den * b
        &&& -(den * b) <= self.y * num <= den * b
        &&& -(den * b) <= self.z * num <= den * b
    }
}

/// A fixed-point 3-vector: each component counts ticks of `1 / UNIT` units.
#[derive(Clone, Copy, Debug, PartialEq, Eq, Structural)]
pub struct Vec3 {
    pub x: i64,
    pub y: i64,
    pub z: i64,
}

impl View for Vec3 {
    type V = V3;

    open spec fn view(&self) -> V3 {
        V3 { x: self.x as int, y: self.y as int, z: self.z as int }
    }
}

/// `0 <= a * a <= b * b` whenever `-b <= a <= b`.
pub proof fn lemma_square_bounds(a: int, b: int)
    by (nonlinear_arith)
    requires
        -b <= a <= b,
    ensures
        0 <= a * a <= b * b,
{
}

/// Division that truncates toward zero, the semantics of Rust's `/` on
/// machine integers. (Spec-mode `/` on `int` is Euclidean, which differs
/// on negative dividends.)
pub open spec fn tdiv(a: int, d: int) -> int {
    if a >= 0 {
        a / d
    } else {
        -((-a) / d)
    }
}

/// Truncating division shrinks magnitude, keeps sign, and loses less than
/// one multiple of the divisor.
pub proof fn lemma_tdiv_basics(a: int, d: int)
    requires
        d > 0,
    ensures
        abs(tdiv(a, d)) <= abs(a),
        d * abs(tdiv(a, d)) <= abs(a),
        a >= 0 ==> tdiv(a, d) >= 0,
        a <= 0 ==> tdiv(a, d) <= 0,
        abs(tdiv(a, d)) == (abs(a) as int) / d,
{
    let n = abs(a) as int;
    let q = n / d;
    assert(q >= 0 && d * q <= n && q <= n) by (nonlinear_arith)
        requires
            n >= 0 && d > 0 && q == n / d,
    ;
    if a >= 0 {
        assert(tdiv(a, d) == q);
    } else {
        assert(tdiv(a, d) == -q);
    }
}

/// `a / d >= k` as soon as `a >= k * d` (nonnegative truncating division).
pub proof fn lemma_tdiv_lower(a: int, d: int, k: int)
    by (nonlinear_arith)
    requires
        d > 0,
        a >= 0,
        k >= 0,
        a >= k * d,
    ensures
        tdiv(a, d) >= k,
{
}

/// `r` is the least nonnegative integer whose square reaches `n`.
pub open spec fn is_sqrt_ceil(n: int, r: int) -> bool {
    &&& r >= 0
    &&& r * r >= n
    &&& r > 0 ==> (r - 1) * (r - 1) < n
}

/// The least nonnegative integer whose square reaches `n` (for `n >= 0`).
pub open spec fn sqrt_ceil(n: int) -> int {
    choose|r: int| is_sqrt_ceil(n, r)
}

proof fn lemma_sqrt_ceil_exists(n: nat)
    ensures
        exists|r: int| is_sqrt_ceil(n as int, r),
    decreases n,
{
    if n == 0 {
        assert(is_sqrt_ceil(0, 0));
    } else {
        lemma_sqrt_ceil_exists((n - 1) as nat);
        let r = choose|r: int| #[trigger] is_sqrt_ceil(n - 1, r);
        if r * r >= n {
            assert(is_sqrt_ceil(n as int, r));
        } else {
            assert((r + 1) * (r + 1) == r * r + 2 * r + 1) by (nonlinear_arith);
            assert(is_sqrt_ceil(n as int, r + 1));
        }
    }
}

/// At most one integer satisfies `is_sqrt_ceil(n, _)`.
pub proof fn lemma_sqrt_ceil_unique(n: int, a: int, b: int)
    requires
        is_sqrt_ceil(n, a),
        is_sqrt_ceil(n, b),
    ensures
        a == b,
{
    if a < b {
        assert(false) by (nonlinear_arith)
            requires
                0 <= a <= b - 1 && (b - 1) * (b - 1) < n && a * a >= n,
        ;
    }
    if b < a {
        assert(false) by (nonlinear_arith)
            requires
                0 <= b <= a - 1 && (a - 1) * (a - 1) < n && b * b >= n,
        ;
    }
}

/// `sqrt_ceil(n)` indeed satisfies its defining property when `n >= 0`.
pub proof fn lemma_sqrt_ceil(n: int)
    requires
        n >= 0,
    ensures
        is_sqrt_ceil(n, sqrt_ceil(n)),
{
    lemma_sqrt_ceil_exists(n as nat);
}

/// Squaring ignores sign: `x * x == abs(x) * abs(x)`.
pub proof fn lemma_abs_sq(x: int)
    ensures
        x * x == (abs(x) as int) * (abs(x) as int),
{
    if x < 0 {
        assert(x * x == (-x) * (-x)) by (nonlinear_arith);
    }
}

/// One component of the rescaling bound: `d * d * tdiv(a, d)^2 <= a * a`.
pub proof fn lemma_sq_div_bound(a: int, d: int)
    requires
        d >= 1,
    ensures
        d * d * (tdiv(a, d) * tdiv(a, d)) <= a * a,
{
    lemma_tdiv_basics(a, d);
    lemma_abs_sq(a);
    lemma_abs_sq(tdiv(a, d));
    let t = tdiv(a, d);
    let at = abs(t) as int;
    let aa = abs(a) as int;
    assert(d * d * (at * at) <= aa * aa) by (nonlinear_arith)
        requires
            d >= 1 && at >= 0 && aa >= 0 && d * at <= aa,
    ;
}

/// Rescaling by `len / d` with `d * d` covering the squared norm keeps the
/// squared norm within `len * len`.
pub proof fn lemma_scaled_norm(v: V3, len: int, d: int)
    requires
        len >= 0,
        d >= 1,
        v.norm_sq() <= d * d,
    ensures
        v.scaled(len, d).norm_sq() <= len * len,
{
    let t = v.scaled(len, d);
    lemma_sq_div_bound(v.x * len, d);
    lemma_sq_div_bound(v.y * len, d);
    lemma_sq_div_bound(v.z * len, d);
    assert((v.x * len) * (v.x * len) == (v.x * v.x) * (len * len)) by (nonlinear_arith);
    assert((v.y * len) * (v.y * len) == (v.y * v.y) * (len * len)) by (nonlinear_arith);
    assert((v.z * len) * (v.z * len) == (v.z * v.z) * (len * len)) by (nonlinear_arith);
    assert(t.x * t.x >= 0) by (nonlinear_arith);
    assert(t.y * t.y >= 0) by (nonlinear_arith);
    assert(t.z * t.z >= 0) by (nonlinear_arith);
    assert(len * len >= 0) by (nonlinear_arith);
    let txx = t.x * t.x;
    let tyy = t.y * t.y;
    let tzz = t.z * t.z;
    let ll = len * len;
    assert(txx + tyy + tzz <= ll) by (nonlinear_arith)
        requires
            d >= 1 && ll >= 0 && txx >= 0 && tyy >= 0 && tzz >= 0 && d * d * txx <= (v.x * v.x)
                * ll && d * d * tyy <= (v.y * v.y) * ll && d * d * tzz <= (v.z * v.z) * ll && v.x
                * v.x + v.y * v.y + v.z * v.z <= d * d,
    ;
}

/// A bound on the squared norm bounds every component.
pub proof fn lemma_norm_comp_bound(v: V3, m: int)
    requires
        v.norm_sq() <= m * m,
        m >= 0,
    ensures
        v.in_bounds(m),
{
    assert(-m <= v.x <= m && -m <= v.y <= m && -m <= v.z <= m) by (nonlinear_arith)
        requires
            m >= 0 && v.x * v.x + v.y * v.y + v.z * v.z <= m * m,
    ;
}

/// `tdiv(a, 1)` is `a`.
pub proof fn lemma_tdiv_by_one(a: int)
    ensures
        tdiv(a, 1) == a,
{
    assert(a >= 0 ==> a / 1 == a) by (nonlinear_arith);
    assert(a < 0 ==> (-a) / 1 == -a) by (nonlinear_arith);
}

/// One rescaled component keeps the sign of the original (and zero stays
/// zero).
proof fn lemma_scale_comp_sign(c: int, len: int, d: int)
    requires
        len >= 0,
        d >= 1,
    ensures
        tdiv(c * len, d) * c >= 0,
        c == 0 ==> tdiv(c * len, d) == 0,
{
    lemma_tdiv_basics(c * len, d);
    let t = tdiv(c * len, d);
    if c == 0 {
        assert(c * len == 0) by (nonlinear_arith)
            requires
                c == 0,
        ;
        assert(t == 0);
        assert(t * c >= 0) by (nonlinear_arith)
            requires
                t == 0,
        ;
    } else if c > 0 {
        assert(c * len >= 0) by (nonlinear_arith)
            requires
                c > 0 && len >= 0,
        ;
        assert(t >= 0);
        assert(t * c >= 0) by (nonlinear_arith)
            requires
                t >= 0 && c > 0,
        ;
    } else {
        assert(c * len <= 0) by (nonlinear_arith)
            requires
                c < 0 && len >= 0,
        ;
        assert(t <= 0);
        assert(t * c >= 0) by (nonlinear_arith)
            requires
                t <= 0 && c < 0,
        ;
    }
}

/// Rescaling a nonzero vector keeps its direction: every component keeps
/// its sign, zero components stay zero, and at least one component stays
/// strictly aligned, so the dot product with the original is positive.
pub proof fn lemma_renorm_direction(v: V3, len: int)
    requires
        v.norm_sq() > 0,
        len >= 2,
    ensures
        v.renormed(len).x * v.x >= 0,
        v.renormed(len).y * v.y >= 0,
        v.renormed(len).z * v.z >= 0,
        v.x == 0 ==> v.renormed(len).x == 0,
        v.y == 0 ==> v.renormed(len).y == 0,
        v.z == 0 ==> v.renormed(len).z == 0,
        v.renormed(len).x * v.x > 0 || v.renormed(len).y * v.y > 0 || v.renormed(len).z * v.z > 0,
        v.renormed(len).dot(v) > 0,
{
    let ns = v.norm_sq();
    lemma_sqrt_ceil(ns);
    let d = sqrt_ceil(ns);
    assert(d >= 1) by (nonlinear_arith)
        requires
            d >= 0 && d * d >= ns && ns >= 1,
    ;
    let r = v.renormed(len);
    assert(r == v.scaled(len, d));
    lemma_scale_comp_sign(v.x, len, d);
    lemma_scale_comp_sign(v.y, len, d);
    lemma_scale_comp_sign(v.z, len, d);
    // The component of largest magnitude stays strictly aligned.
    let ax = abs(v.x) as int;
    let ay = abs(v.y) as int;
    let az = abs(v.z) as int;
    lemma_abs_sq(v.x);
    lemma_abs_sq(v.y);
    lemma_abs_sq(v.z);
    if ax >= ay && ax >= az {
        assert(ns <= 3 * ax * ax) by (nonlinear_arith)
            requires
                ax >= ay >= 0 && ax >= az >= 0 && ns == ax * ax + ay * ay + az * az,
        ;
        lemma_scale_comp_strict(v.x, len, d, ns);
    } else if ay >= az {
        assert(ns <= 3 * ay * ay) by (nonlinear_arith)
            requires
                ay >= ax >= 0 && ay >= az >= 0 && ns == ax * ax + ay * ay + az * az,
        ;
        lemma_scale_comp_strict(v.y, len, d, ns);
    } else {
        assert(ns <= 3 * az * az) by (nonlinear_arith)
            requires
                az >= ax >= 0 && az >= ay >= 0 && ns == ax * ax + ay * ay + az * az,
        ;
        lemma_scale_comp_strict(v.z, len, d, ns);
    }
}

/// A vector whose dot product with anything is positive is itself nonzero.
pub proof fn lemma_pos_dot_nonzero(a: V3, b: V3)
    requires
        a.dot(b) > 0,
    ensures
        a.norm_sq() > 0,
{
    if a.norm_sq() <= 0 {
        assert(a.x == 0 && a.y == 0 && a.z == 0) by (nonlinear_arith)
            requires
                a.x * a.x + a.y * a.y + a.z * a.z <= 0,
        ;
        assert(a.dot(b) == 0) by (nonlinear_arith)
            requires
                a.x == 0 && a.y == 0 && a.z == 0,
        ;
    }
}

/// Rescaling twice still keeps the original direction: the dot product of
/// the doubly rescaled vector with the original stays positive.
pub proof fn lemma_renorm_twice_direction(v: V3, len1: int, len2: int)
    requires
        v.norm_sq() > 0,
        len1 >= 2,
        len2 >= 2,
    ensures
        v.renormed(len1).renormed(len2).dot(v) > 0,
{
    let w = v.renormed(len1);
    lemma_renorm_direction(v, len1);
    lemma_pos_dot_nonzero(w, v);
    lemma_renorm_direction(w, len2);
    let f = w.renormed(len2);
    assert(f.x * v.x >= 0) by (nonlinear_arith)
        requires
            f.x * w.x >= 0 && w.x * v.x >= 0 && (w.x == 0 ==> f.x == 0),
    ;
    assert(f.y * v.y >= 0) by (nonlinear_arith)
        requires
            f.y * w.y >= 0 && w.y * v.y >= 0 && (w.y == 0 ==> f.y == 0),
    ;
    assert(f.z * v.z >= 0) by (nonlinear_arith)
        requires
            f.z * w.z >= 0 && w.z * v.z >= 0 && (w.z == 0 ==> f.z == 0),
    ;
    if f.x * w.x > 0 {
        assert(f.x * v.x > 0) by (nonlinear_arith)
            requires
                f.x * w.x > 0 && w.x * v.x >= 0 && (v.x == 0 ==> w.x == 0),
        ;
    } else if f.y * w.y > 0 {
        assert(f.y * v.y > 0) by (nonlinear_arith)
            requires
                f.y * w.y > 0 && w.y * v.y >= 0 && (v.y == 0 ==> w.y == 0),
        ;
    } else {
        assert(f.z * w.z > 0);
        assert(f.z * v.z > 0) by (nonlinear_arith)
            requires
                f.z * w.z > 0 && w.z * v.z >= 0 && (v.z == 0 ==> w.z == 0),
        ;
    }
}

/// A component carrying at least a third of the squared norm stays
/// strictly aligned after rescaling: the divisor is at most twice its
/// magnitude, so at least `len / 2 >= 1` survives the division.
proof fn lemma_scale_comp_strict(c: int, len: int, d: int, ns: int)
    requires
        len >= 2,
        ns >= 1,
        d >= 1,
        is_sqrt_ceil(ns, d),
        ns <= 3 * (abs(c) as int) * (abs(c) as int),
    ensures
        tdiv(c * len, d) * c > 0,
{
    let m = abs(c) as int;
    assert(m >= 1) by (nonlinear_arith)
        requires
            ns >= 1 && ns <= 3 * m * m && m >= 0,
    ;
    assert(d <= 2 * m) by (nonlinear_arith)
        requires
            d >= 1 && m >= 1 && (d - 1) * (d - 1) < ns && ns <= 3 * m * m,
    ;
    if c > 0 {
        assert(c * len >= 1 * d) by (nonlinear_arith)
            requires
                c == m && m >= 1 && len >= 2 && d <= 2 * m,
        ;
        lemma_tdiv_lower(c * len, d, 1);
        let t = tdiv(c * len, d);
        assert(t * c > 0) by (nonlinear_arith)
            requires
                t >= 1 && c >= 1,
        ;
    } else {
        assert(c < 0);
        let a = -(c * len);
        assert(a == m * len && a >= 1 * d) by (nonlinear_arith)
            requires
                c == -m && len >= 2 && d <= 2 * m && a == -(c * len) && m >= 1,
        ;
        lemma_tdiv_lower(a, d, 1);
        assert(tdiv(c * len, d) == -tdiv(a, d)) by {
            assert(c * len < 0) by (nonlinear_arith)
                requires
                    c <= -1 && len >= 2,
            ;
        }
        let t = tdiv(c * len, d);
        assert(t * c > 0) by (nonlinear_arith)
            requires
                t <= -1 && c <= -1,
        ;
    }
}
/// `c * num` fits within `den * b`, each rescaled component fits within `b`.
pub proof fn lemma_scaled_in_bounds(v: V3, num: int, den: int, b: int)
    requires
        num >= 0,
        den >= 1,
        b >= 0,
        v.scale_in_bounds(num, den, b),
    ensures
        v.scaled(num, den).in_bounds(b),
{
    lemma_tdiv_basics(v.x * num, den);
    lemma_tdiv_basics(v.y * num, den);
    lemma_tdiv_basics(v.z * num, den);
    let tx = tdiv(v.x * num, den);
    let ty = tdiv(v.y * num, den);
    let tz = tdiv(v.z * num, den);
    assert(-b <= tx <= b && -b <= ty <= b && -b <= tz <= b) by (nonlinear_arith)
        requires
            den >= 1 && b >= 0 && den * abs(tx) <= abs(v.x * num) && den * abs(ty) <= abs(
                v.y * num,
            ) && den * abs(tz) <= abs(v.z * num) && abs(v.x * num) <= den * b && abs(v.y * num)
                <= den * b && abs(v.z * num) <= den * b,
    ;
}

/// Truncating division of an `i64`, exact against `tdiv`.
pub fn div_trunc(a: i64, d: i64) -> (q: i64)
    requires
        d > 0,
        a > i64::MIN,
    ensures
        q == tdiv(a as int, d as int),
{
    proof {
        lemma_tdiv_basics(a as int, d as int);
    }
    if a >= 0 {
        a / d
    } else {
        -((-a) / d)
    }
}

/// Truncating division of an `i128`, exact against `tdiv`.
pub fn div_trunc_i128(a: i128, d: i128) -> (q: i128)
    requires
        d >= 1,
        a > i128::MIN,
    ensures
        q == tdiv(a as int, d as int),
{
    if a >= 0 {
        a / d
    } else {
        -((-a) / d)
    }
}

/// Integer square root, rounded up: the least `r` with `r * r >= n`.
pub fn isqrt_ceil(n: i128) -> (r: i64)
    requires
        0 <= n <= 4_000_000_000_000_000_000_000_000_000_000_000_000int,
    ensures
        is_sqrt_ceil(n as int, r as int),
        r as int == sqrt_ceil(n as int),
        r >= 0,
{
    let mut lo: i64 = 0;
    let mut hi: i64 = 2_000_000_000_000_000_000;
    proof {
        assert((hi as int) * (hi as int) >= n) by (nonlinear_arith)
            requires
                hi == 2_000_000_000_000_000_000i64 && n
                    <= 4_000_000_000_000_000_000_000_000_000_000_000_000int,
        ;
    }
    while lo < hi
        invariant
            0 <= lo <= hi <= 2_000_000_000_000_000_000,
            (hi as int) * (hi as int) >= n,
            lo > 0 ==> (lo - 1) * (lo - 1) < n,
        decreases hi - lo,
    {
        let mid = lo + (hi - lo) / 2;
        proof {
            assert((mid as int) * (mid as int)
                <= 4_000_000_000_000_000_000_000_000_000_000_000_000int) by (nonlinear_arith)
                requires
                    0 <= mid <= 2_000_000_000_000_000_000i64,
            ;
        }
        let sq = (mid as i128) * (mid as i128);
        if sq >= n {
            hi = mid;
        } else {
            lo = mid + 1;
        }
    }
    proof {
        assert(is_sqrt_ceil(n as int, lo as int));
        lemma_sqrt_ceil(n as int);
        lemma_sqrt_ceil_unique(n as int, lo as int, sqrt_ceil(n as int));
    }
    lo
}

impl Vec3 {
    pub fn new(x: i64, y: i64, z: i64) -> (r: Vec3)
        ensures
            r@ == (V3 { x: x as int, y: y as int, z: z as int }),
    {
        Vec3 { x, y, z }
    }

    pub fn zero() -> (r: Vec3)
        ensures
            r@ == V3::zero(),
    {
        Vec3 { x: 0, y: 0, z: 0 }
    }

    pub fn add(&self, o: &Vec3) -> (r: Vec3)
        requires
            i64::MIN <= self@.x + o@.x <= i64::MAX,
            i64::MIN <= self@.y + o@.y <= i64::MAX,
            i64::MIN <= self@.z + o@.z <= i64::MAX,
        ensures
            r@ == self@.add(o@),
    {
        Vec3 { x: self.x + o.x, y: self.y + o.y, z: self.z + o.z }
    }

    pub fn sub(&self, o: &Vec3) -> (r: Vec3)
        requires
            i64::MIN <= self@.x - o@.x <= i64::MAX,
            i64::MIN <= self@.y - o@.y <= i64::MAX,
            i64::MIN <= self@.z - o@.z <= i64::MAX,
        ensures
            r@ == self@.sub(o@),
    {
        Vec3 { x: self.x - o.x, y: self.y - o.y, z: self.z - o.z }
    }

    /// One component of `mul_div`: `c * num / den`, truncating.
    fn comp_mul_div(c: i64, num: i64, den: i64) -> (r: i64)
        requires
            num >= 0,
            den >= 1,
            -(den * (COORD_LIMIT as int)) <= c * num <= den * (COORD_LIMIT as int),
        ensures
            r == tdiv(c as int * num as int, den as int),
            -COORD_LIMIT <= r <= COORD_LIMIT,
    {
        proof {
            assert(-170_141_183_460_469_231_731_687_303_715_884_105_727int <= (c as int) * (
            num as int) <= 170_141_183_460_469_231_731_687_303_715_884_105_727int)
                by (nonlinear_arith)
                requires
                    -(den * (COORD_LIMIT as int)) <= c * num <= den * (COORD_LIMIT as int) && 1
                        <= den <= 0x7fff_ffff_ffff_ffffi64 && COORD_LIMIT
                        == 1_000_000_000_000_000_000i64,
            ;
            lemma_tdiv_basics(c as int * num as int, den as int);
        }
        let p = (c as i128) * (num as i128);
        let q: i128 = if p >= 0 {
            p / (den as i128)
        } else {
            -((-p) / (den as i128))
        };
        proof {
            let t = tdiv(c as int * num as int, den as int);
            assert(q == t);
            assert(-COORD_LIMIT <= t <= COORD_LIMIT) by (nonlinear_arith)
                requires
                    den >= 1 && den * abs(t) <= abs(c as int * num as int) && abs(
                        c as int * num as int,
                    ) <= den * (COORD_LIMIT as int) && COORD_LIMIT == 1_000_000_000_000_000_000i64,
            ;
        }
        q as i64
    }

    /// Componentwise `c * num / den`, exact against `V3::scaled`.
    pub fn mul_div(&self, num: i64, den: i64) -> (r: Vec3)
        requires
            num >= 0,
            den >= 1,
            self@.scale_in_bounds(num as int, den as int, COORD_LIMIT as int),
        ensures
            r@ == self@.scaled(num as int, den as int),
            r@.in_bounds(COORD_LIMIT as int),
    {
        Vec3 {
            x: Self::comp_mul_div(self.x, num, den),
            y: Self::comp_mul_div(self.y, num, den),
            z: Self::comp_mul_div(self.z, num, den),
        }
    }

    /// Squared Euclidean norm, exact in an `i128`.
    pub fn norm_sq(&self) -> (n: i128)
        requires
            self@.in_bounds(COORD_LIMIT as int),
        ensures
            n == self@.norm_sq(),
            n >= 0,
    {
        proof {
            lemma_square_bounds(self@.x, COORD_LIMIT as int);
            lemma_square_bounds(self@.y, COORD_LIMIT as int);
            lemma_square_bounds(self@.z, COORD_LIMIT as int);
        }
        let x = self.x as i128;
        let y = self.y as i128;
        let z = self.z as i128;
        x * x + y * y + z * z
    }

    /// Rescale to norm (at most) `len`, or stay zero: the fixed-point
    /// analogue of normalizing and multiplying by `len`.
    pub fn renorm(&self, len: i64) -> (r: Vec3)
        requires
            self@.in_bounds(COORD_LIMIT as int),
            0 <= len <= COORD_LIMIT,
        ensures
            r@ == self@.renormed(len as int),
            r@.norm_sq() <= len * len,
            r@.in_bounds(COORD_LIMIT as int),
    {
        let n = self.norm_sq();
        if n == 0 {
            proof {
                lemma_square_bounds(0, len as int);
            }
            Vec3::zero()
        } else {
            proof {
                assert(n <= 4_000_000_000_000_000_000_000_000_000_000_000_000int)
                    by (nonlinear_arith)
                    requires
                        self@.in_bounds(COORD_LIMIT as int) && n == self@.norm_sq() && COORD_LIMIT
                            == 1_000_000_000_000_000_000i64,
                ;
            }
            let d = isqrt_ceil(n);
            proof {
                let dd = d as int;
                assert(dd >= 1) by (nonlinear_arith)
                    requires
                        dd >= 0 && dd * dd >= n && n >= 1,
                ;
                assert(self@.scale_in_bounds(len as int, dd, COORD_LIMIT as int))
                    by (nonlinear_arith)
                    requires
                        dd >= 1 && 0 <= len <= COORD_LIMIT && dd * dd >= self@.norm_sq() && self@.x
                            * self@.x + self@.y * self@.y + self@.z * self@.z == self@.norm_sq()
                            && COORD_LIMIT == 1_000_000_000_000_000_000i64,
                ;
                lemma_scaled_norm(self@, len as int, dd);
            }
            self.mul_div(len, d)
        }
    }

    /// `clamp_length_max`: unchanged while the norm is within `max`,
    /// rescaled down to `max` otherwise.
    pub fn clamp_norm(&self, max: i64) -> (r: Vec3)
        requires
            self@.in_bounds(COORD_LIMIT as int),
            0 <= max <= COORD_LIMIT,
        ensures
            r@ == self@.clamped(max as int),
            r@.norm_sq() <= max * max,
            r@.in_bounds(COORD_LIMIT as int),
            self@.norm_sq() <= max * max ==> r@ == self@,
    {
        let n = self.norm_sq();
        proof {
            lemma_square_bounds(max as int, COORD_LIMIT as int);
        }
        let mm = (max as i128) * (max as i128);
        if n <= mm {
            *self
        } else {
            self.renorm(max)
        }
    }
}

} // verus!
