use vstd::prelude::*;

verus! {

/// One world unit, in the fixed-point scale used for positions.
pub const UNIT: i64 = 1000;

/// Largest absolute coordinate a position may hold.
pub const COORD_LIMIT: i64 = 1_000_000_000;

/// π in microradians (rounded).
pub const PI_MICRO: i64 = 3_141_593;

/// π/2 in microradians (rounded).
pub const HALF_PI_MICRO: i64 = 1_570_796;

/// π/4 in microradians (rounded).
pub const QUARTER_PI_MICRO: i64 = 785_398;

/// 2π in microradians (rounded).
pub const TWO_PI_MICRO: i64 = 6_283_185;

/// 1.5π in microradians (rounded).
pub const ONE_AND_HALF_PI_MICRO: i64 = 4_712_389;

/// A point on the ground plane: `x` and `z` in thousandths of a world unit.
#[derive(Clone, Copy, Debug, PartialEq, Eq, Structural)]
pub struct Point {
    pub x: i64,
    pub z: i64,
}

pub open spec fn coord_ok(c: int) -> bool {
    -COORD_LIMIT <= c <= COORD_LIMIT
}

impl Point {
    /// Both coordinates lie within `COORD_LIMIT`.
    pub open spec fn in_bounds(&self) -> bool {
        coord_ok(self.x as int) && coord_ok(self.z as int)
    }

    pub fn new(x: i64, z: i64) -> (r: Point)
        ensures
            r.x == x,
            r.z == z,
    {
        Point { x, z }
    }
}

/// Square of the euclidean distance between two points.
pub open spec fn dist_sq(a: Point, b: Point) -> int {
    (b.x - a.x) * (b.x - a.x) + (b.z - a.z) * (b.z - a.z)
}

/// `r` is the integer square root of `n`: the largest `r` with `r * r <= n`.
pub open spec fn is_floor_sqrt(n: int, r: int) -> bool {
    0 <= r && r * r <= n && n < (r + 1) * (r + 1)
}

proof fn lemma_square_bound(d: int)
    requires
        -2 * COORD_LIMIT <= d <= 2 * COORD_LIMIT,
    ensures
        0 <= d * d <= 4 * COORD_LIMIT * COORD_LIMIT,
{
    assert(0 <= d * d <= 4 * COORD_LIMIT * COORD_LIMIT) by (nonlinear_arith)
        requires
            -2 * COORD_LIMIT <= d <= 2 * COORD_LIMIT,
    ;
}

/// `d * num / den` lies within `[0, d]` for a progress `num / den` within `[0, 1]`.
pub proof fn lemma_scaled_le(d: int, num: int, den: int)
    requires
        0 <= d,
        0 <= num <= den,
        0 < den,
    ensures
        0 <= d * num / den <= d,
{
    assert(0 <= d * num <= d * den) by (nonlinear_arith)
        requires
            0 <= d,
            0 <= num <= den,
    ;
    vstd::arithmetic::div_mod::lemma_div_is_ordered(d * num, d * den, den);
    vstd::arithmetic::div_mod::lemma_div_multiples_vanish(d, den);
    assert(d * den == den * d) by (nonlinear_arith);
    vstd::arithmetic::div_mod::lemma_div_pos_is_pos(d * num, den);
}

/// Exact squared distance between two in-bounds points.
pub fn distance_squared(a: Point, b: Point) -> (r: u64)
    requires
        a.in_bounds(),
        b.in_bounds(),
    ensures
        r as int == dist_sq(a, b),
        r <= 8 * COORD_LIMIT * COORD_LIMIT,
{
    let dx: i64 = b.x - a.x;
    let dz: i64 = b.z - a.z;
    proof {
        lemma_square_bound(dx as int);
        lemma_square_bound(dz as int);
    }
    let sx: u64 = (dx as i128 * dx as i128) as u64;
    let sz: u64 = (dz as i128 * dz as i128) as u64;
    sx + sz
}

/// Integer square root, rounded down.
pub fn isqrt(n: u64) -> (r: u64)
    requires
        n <= 8 * COORD_LIMIT * COORD_LIMIT,
    ensures
        is_floor_sqrt(n as int, r as int),
        r <= 3_000_000_000,
{
    let mut lo: u64 = 0;
    let mut hi: u64 = 3_000_000_000;
    assert(hi * hi > n) by (nonlinear_arith)
        requires
            hi == 3_000_000_000,
            n <= 8 * COORD_LIMIT * COORD_LIMIT,
    ;
    while lo + 1 < hi
        invariant
            lo < hi <= 3_000_000_000,
            lo * lo <= n,
            n < hi * hi,
        decreases hi - lo,
    {
        let mid: u64 = lo + (hi - lo) / 2;
        assert(mid * mid <= 9_000_000_000_000_000_000) by (nonlinear_arith)
            requires
                mid <= 3_000_000_000,
        ;
        if mid * mid <= n {
            lo = mid;
        } else {
            hi = mid;
        }
    }
    assert(hi == lo + 1);
    lo
}

/// The floor square root of `n`.
pub open spec fn floor_sqrt(n: int) -> int {
    choose|r: int| is_floor_sqrt(n, r)
}

/// There is only one floor square root.
pub proof fn lemma_floor_sqrt_unique(n: int, r1: int, r2: int)
    requires
        is_floor_sqrt(n, r1),
        is_floor_sqrt(n, r2),
    ensures
        r1 == r2,
{
    if r1 < r2 {
        assert((r1 + 1) * (r1 + 1) <= r2 * r2) by (nonlinear_arith)
            requires
                0 <= r1 < r2,
        ;
    } else if r2 < r1 {
        assert((r2 + 1) * (r2 + 1) <= r1 * r1) by (nonlinear_arith)
            requires
                0 <= r2 < r1,
        ;
    }
}

/// Scale of the ratio handed to `atan_unit`: one million stands for 1.
pub const RATIO_SCALE: i64 = 1_000_000;

/// Arc tangent of `x / RATIO_SCALE` for `0 <= x <= RATIO_SCALE`, in
/// microradians, by the rational approximation
/// `atan(t) = t·π/4 + t·(1 − t)·(0.2447 + 0.0663·t)` (error below 0.0015 rad).
pub open spec fn atan_unit(x: int) -> int {
    let s = RATIO_SCALE as int;
    (QUARTER_PI_MICRO as int) * x / s + (x * (s - x) / s) * (244_700 + 66_300 * x / s) / s
}

/// Arc tangent of `small / large` (a ratio within `[0, 1]`), in microradians.
pub open spec fn atan_ratio(small: int, large: int) -> int {
    atan_unit(small * (RATIO_SCALE as int) / large)
}

/// Arc tangent of `|mz| / |mx|` in `[0, π/2]`, folded through the octant so
/// that the ratio handed to `atan_ratio` never exceeds 1.
pub open spec fn abs_atan(mx: int, mz: int) -> int {
    let a = if mx < 0 { -mx } else { mx };
    let b = if mz < 0 { -mz } else { mz };
    if b <= a {
        atan_ratio(b, a)
    } else {
        HALF_PI_MICRO - atan_ratio(a, b)
    }
}

/// Heading of the movement `(mx, mz)`: `atan(mz / mx)`, less π when `mx < 0`.
/// For `mx == 0` the quotient is an infinity of the sign of `mz`.
pub open spec fn heading_of(mx: int, mz: int) -> int {
    let base = abs_atan(mx, mz);
    let t = if (mx > 0 && mz >= 0) || (mx < 0 && mz <= 0) || (mx == 0 && mz > 0) {
        base
    } else {
        -base
    };
    if mx < 0 {
        t - PI_MICRO
    } else {
        t
    }
}

proof fn lemma_atan_unit_range(x: int)
    requires
        0 <= x <= RATIO_SCALE,
    ensures
        0 <= atan_unit(x) <= QUARTER_PI_MICRO + 77_750,
{
    let s = RATIO_SCALE as int;
    let p = x * (s - x);
    assert(0 <= p <= 250_000_000_000) by (nonlinear_arith)
        requires
            0 <= x <= s,
            s == 1_000_000,
            p == x * (s - x),
    ;
    let q = p / s;
    assert(0 <= q <= 250_000);
    let w = 66_300 * x / s;
    assert(0 <= w <= 66_300);
    let m = q * (244_700 + w);
    assert(0 <= m <= 250_000 * 311_000) by (nonlinear_arith)
        requires
            0 <= q <= 250_000,
            0 <= w <= 66_300,
            m == q * (244_700 + w),
    ;
    assert(0 <= QUARTER_PI_MICRO * x / s <= QUARTER_PI_MICRO);
}

/// Arc tangent of `small / large` for `0 <= small <= large`, `large > 0`.
fn atan_ratio_exec(small: u64, large: u64) -> (r: i64)
    requires
        small <= large,
        0 < large <= 4 * COORD_LIMIT,
    ensures
        r == atan_ratio(small as int, large as int),
        0 <= r <= QUARTER_PI_MICRO + 77_750,
{
    let s: u64 = 1_000_000;
    assert(small * s <= large * s) by (nonlinear_arith)
        requires
            small <= large,
    ;
    let x: u64 = small * s / large;
    assert(x <= s) by (nonlinear_arith)
        requires
            small <= large,
            0 < large,
            x as int == (small as int) * (s as int) / (large as int),
            s == 1_000_000,
    ;
    proof {
        lemma_atan_unit_range(x as int);
    }
    let first: u64 = 785_398 * x / s;
    assert(x * (s - x) <= 250_000_000_000) by (nonlinear_arith)
        requires
            x <= s,
            s == 1_000_000,
    ;
    let q: u64 = x * (s - x) / s;
    let w: u64 = 66_300 * x / s;
    assert(q * (244_700 + w) <= 250_000 * 311_000) by (nonlinear_arith)
        requires
            q <= 250_000,
            w <= 66_300,
    ;
    let second: u64 = q * (244_700 + w) / s;
    (first + second) as i64
}

/// Heading of a non-zero movement `(mx, mz)` in microradians, as
/// `heading_of` states; the result lies in `[-3π/2, π/2]` up to the
/// approximation error.
pub fn heading(mx: i64, mz: i64) -> (r: i64)
    requires
        mx != 0 || mz != 0,
        -4 * COORD_LIMIT <= mx <= 4 * COORD_LIMIT,
        -4 * COORD_LIMIT <= mz <= 4 * COORD_LIMIT,
    ensures
        r == heading_of(mx as int, mz as int),
        -PI_MICRO - HALF_PI_MICRO <= r <= HALF_PI_MICRO,
{
    let a: u64 = if mx < 0 { (-mx) as u64 } else { mx as u64 };
    let b: u64 = if mz < 0 { (-mz) as u64 } else { mz as u64 };
    let base: i64 = if b <= a {
        atan_ratio_exec(b, a)
    } else {
        1_570_796 - atan_ratio_exec(a, b)
    };
    assert(0 <= base <= HALF_PI_MICRO);
    let t: i64 = if (mx > 0 && mz >= 0) || (mx < 0 && mz <= 0) || (mx == 0 && mz > 0) {
        base
    } else {
        -base
    };
    if mx < 0 {
        t - 3_141_593
    } else {
        t
    }
}

} // verus!
