//! Points and vectors on an integer grid, and the distance tests built on them.
use vstd::prelude::*;

verus! {

/// Largest absolute value a coordinate of the playing field may take.
pub const WORLD_LIMIT: i64 = 1_048_576;

/// A point or a vector, in centimetres.
#[derive(Clone, Copy, Debug, PartialEq, Eq, Structural)]
pub struct Vec3i {
    pub x: i64,
    pub y: i64,
    pub z: i64,
}

pub open spec fn coord_ok(c: i64) -> bool {
    -WORLD_LIMIT <= c <= WORLD_LIMIT
}

pub open spec fn dist_sq_spec(a: Vec3i, b: Vec3i) -> int {
    let dx = b.x - a.x;
    let dy = b.y - a.y;
    let dz = b.z - a.z;
    dx * dx + dy * dy + dz * dz
}

/// Square of the straight-line distance between two points.
pub open spec fn norm_sq_spec(v: Vec3i) -> int {
    v.x * v.x + v.y * v.y + v.z * v.z
}

pub open spec fn dot_spec(a: Vec3i, b: Vec3i) -> int {
    a.x * b.x + a.y * b.y + a.z * b.z
}

/// The point is within `range` of `center` (on the sphere counts as inside).
pub open spec fn in_range_spec(center: Vec3i, p: Vec3i, range: u32) -> bool {
    dist_sq_spec(center, p) <= range * range
}

/// The point `p` moved up by `dy`.
pub open spec fn raise_spec(p: Vec3i, dy: int) -> Vec3i {
    Vec3i { x: p.x, y: (p.y + dy) as i64, z: p.z }
}

/// The vector from `a` to `b`.
pub open spec fn diff_spec(a: Vec3i, b: Vec3i) -> Vec3i {
    Vec3i { x: (b.x - a.x) as i64, y: (b.y - a.y) as i64, z: (b.z - a.z) as i64 }
}

proof fn lemma_mul_bound(a: int, b: int, ma: int, mb: int)
    requires
        -ma <= a <= ma,
        -mb <= b <= mb,
    ensures
        -(ma * mb) <= a * b <= ma * mb,
        0 <= a * a <= ma * ma,
{
    assert(-(ma * mb) <= a * b <= ma * mb) by (nonlinear_arith)
        requires -ma <= a <= ma, -mb <= b <= mb;
    assert(0 <= a * a <= ma * ma) by (nonlinear_arith)
        requires -ma <= a <= ma;
}

/// The facing is within the firing cone around the direction `d`: the cosine
/// of the angle between them is at least nine tenths.
pub open spec fn aligned_spec(f: Vec3i, d: Vec3i) -> bool {
    let dot = dot_spec(f, d);
    dot > 0 && 100 * (dot * dot) >= 81 * (norm_sq_spec(f) * norm_sq_spec(d))
}

/// Whether the facing `f` points at the direction `d` closely enough to fire;
/// a zero direction never qualifies.
pub fn is_facing(f: &Vec3i, d: &Vec3i) -> (r: bool)
    requires
        bounded(*f, WORLD_LIMIT as int),
        bounded(*d, 4 * WORLD_LIMIT),
    ensures
        r == aligned_spec(*f, *d),
{
    proof {
        lemma_mul_bound(f.x as int, d.x as int, 1048576, 4194304);
        lemma_mul_bound(f.y as int, d.y as int, 1048576, 4194304);
        lemma_mul_bound(f.z as int, d.z as int, 1048576, 4194304);
        lemma_mul_bound(d.x as int, d.x as int, 4194304, 4194304);
        lemma_mul_bound(d.y as int, d.y as int, 4194304, 4194304);
        lemma_mul_bound(d.z as int, d.z as int, 4194304, 4194304);
    }
    let dot: i128 = (f.x as i128) * (d.x as i128) + (f.y as i128) * (d.y as i128) + (f.z as i128) * (d.z as i128);
    let nf: i128 = (f.x as i128) * (f.x as i128) + (f.y as i128) * (f.y as i128) + (f.z as i128) * (f.z as i128);
    let nd: i128 = (d.x as i128) * (d.x as i128) + (d.y as i128) * (d.y as i128) + (d.z as i128) * (d.z as i128);
    proof {
        lemma_mul_bound(dot as int, dot as int, 13194139533312, 13194139533312);
        lemma_mul_bound(nf as int, nd as int, 3298534883328, 52776558133248);
    }
    if dot <= 0 {
        return false;
    }
    100 * (dot * dot) >= 81 * (nf * nd)
}

impl Vec3i {
    /// Every coordinate lies on the playing field.
    pub open spec fn wf(self) -> bool {
        coord_ok(self.x) && coord_ok(self.y) && coord_ok(self.z)
    }

    pub fn new(x: i64, y: i64, z: i64) -> (r: Vec3i)
        ensures
            r == (Vec3i { x, y, z }),
    {
        Vec3i { x, y, z }
    }

    /// The vector from `self` to `to`.
    pub fn to(&self, to: &Vec3i) -> (r: Vec3i)
        requires
            bounded(*self, 2 * WORLD_LIMIT),
            bounded(*to, 2 * WORLD_LIMIT),
        ensures
            r == diff_spec(*self, *to),
    {
        Vec3i { x: to.x - self.x, y: to.y - self.y, z: to.z - self.z }
    }

    /// The point moved up by `dy`.
    pub fn raised(&self, dy: i64) -> (r: Vec3i)
        requires
            self.y + dy <= i64::MAX,
            self.y + dy >= i64::MIN,
        ensures
            r == raise_spec(*self, dy as int),
    {
        Vec3i { x: self.x, y: self.y + dy, z: self.z }
    }
}

/// Every coordinate of `v` has absolute value at most `m`.
pub open spec fn bounded(v: Vec3i, m: int) -> bool {
    -m <= v.x <= m && -m <= v.y <= m && -m <= v.z <= m
}

/// The floor of the square root of `n`.
pub open spec fn is_isqrt(n: int, r: int) -> bool {
    0 <= r && r * r <= n && n < (r + 1) * (r + 1)
}

pub open spec fn isqrt_spec(n: int) -> int {
    choose|r: int| is_isqrt(n, r)
}

/// A number has one integer square root, rounded down.
pub proof fn lemma_isqrt_unique(n: int, r1: int, r2: int)
    requires
        is_isqrt(n, r1),
        is_isqrt(n, r2),
    ensures
        r1 == r2,
{
    if r1 < r2 {
        assert((r1 + 1) * (r1 + 1) <= r2 * r2) by (nonlinear_arith)
            requires 0 <= r1 && r1 + 1 <= r2;
    } else if r2 < r1 {
        assert((r2 + 1) * (r2 + 1) <= r1 * r1) by (nonlinear_arith)
            requires 0 <= r2 && r2 + 1 <= r1;
    }
}

/// Integer square root, rounded down, of a number below 2^48.
pub fn isqrt(n: u64) -> (r: u64)
    requires
        n < 0x1_0000_0000_0000,
    ensures
        is_isqrt(n as int, r as int),
        r == isqrt_spec(n as int),
{
    let mut lo: u64 = 0;
    let mut hi: u64 = 0x100_0000;
    assert(n < hi * hi);
    while hi - lo > 1
        invariant
            lo < hi <= 0x100_0000,
            lo * lo <= n,
            n < hi * hi,
        decreases hi - lo,
    {
        let mid = lo + (hi - lo) / 2;
        assert(mid * mid <= 0x1_0000_0000_0000) by (nonlinear_arith)
            requires mid <= 0x100_0000;
        if mid * mid <= n {
            lo = mid;
        } else {
            hi = mid;
        }
    }
    assert(hi == lo + 1);
    proof {
        let r = lo as int;
        assert(is_isqrt(n as int, r));
        lemma_isqrt_unique(n as int, r, isqrt_spec(n as int));
    }
    lo
}

/// `c * k / d`, rounded toward zero.
pub open spec fn scaled_spec(c: int, k: int, d: int) -> int {
    if c >= 0 {
        (c * k) / d
    } else {
        -(((-c) * k) / d)
    }
}

/// `c * k / d`, rounded toward zero, for a result that fits in an `i64`.
pub fn scale_div(c: i64, k: u32, d: u64) -> (r: i64)
    requires
        d > 0,
        c > i64::MIN,
        (if c >= 0 { c as int } else { -c }) * k / (d as int) <= i64::MAX,
    ensures
        r == scaled_spec(c as int, k as int, d as int),
{
    let mag: u64 = if c >= 0 { c as u64 } else { (-c) as u64 };
    assert(mag as int * k as int <= u128::MAX) by (nonlinear_arith)
        requires mag <= u64::MAX, k <= u32::MAX;
    let q: u128 = (mag as u128) * (k as u128) / (d as u128);
    if c >= 0 {
        q as i64
    } else {
        -(q as i64)
    }
}

/// Square of the distance between two points of the playing field.
pub fn distance_sq(a: &Vec3i, b: &Vec3i) -> (r: u64)
    requires
        a.wf(),
        b.wf(),
    ensures
        r == dist_sq_spec(*a, *b),
{
    let dx = b.x - a.x;
    let dy = b.y - a.y;
    let dz = b.z - a.z;
    assert(dx * dx <= 4 * WORLD_LIMIT * WORLD_LIMIT) by (nonlinear_arith)
        requires -2 * WORLD_LIMIT <= dx <= 2 * WORLD_LIMIT;
    assert(dy * dy <= 4 * WORLD_LIMIT * WORLD_LIMIT) by (nonlinear_arith)
        requires -2 * WORLD_LIMIT <= dy <= 2 * WORLD_LIMIT;
    assert(dz * dz <= 4 * WORLD_LIMIT * WORLD_LIMIT) by (nonlinear_arith)
        requires -2 * WORLD_LIMIT <= dz <= 2 * WORLD_LIMIT;
    assert(0 <= dx * dx && 0 <= dy * dy && 0 <= dz * dz) by (nonlinear_arith);
    (dx * dx + dy * dy + dz * dz) as u64
}

/// Whether `p` lies within `range` of `center`.
pub fn in_range(center: &Vec3i, p: &Vec3i, range: u32) -> (r: bool)
    requires
        center.wf(),
        p.wf(),
    ensures
        r == in_range_spec(*center, *p, range),
{
    let d = distance_sq(center, p);
    assert((range as int) * (range as int) <= u64::MAX) by (nonlinear_arith)
        requires range <= u32::MAX;
    let rr: u64 = (range as u64) * (range as u64);
    d <= rr
}

} // verus!
