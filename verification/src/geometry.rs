use vstd::prelude::*;

verus! {

/// A point of the map's integer 3-space. Coordinates are non-negative and
/// equality is component-wise.
#[derive(Clone, Copy, Debug, PartialEq, Eq, Hash, Structural)]
pub struct Vec3 {
    pub x: u32,
    pub y: u32,
    pub z: u32,
}

/// |a - b| over mathematical integers.
pub open spec fn abs_diff_spec(a: int, b: int) -> int {
    if a >= b {
        a - b
    } else {
        b - a
    }
}

/// Squared Euclidean distance between two points.
pub open spec fn dist_sq(a: Vec3, b: Vec3) -> int {
    let dx = abs_diff_spec(a.x as int, b.x as int);
    let dy = abs_diff_spec(a.y as int, b.y as int);
    let dz = abs_diff_spec(a.z as int, b.z as int);
    dx * dx + dy * dy + dz * dz
}

/// Per-axis (Manhattan) distance between two points; it bounds both the turn
/// count and the energy of the travel simulation.
pub open spec fn manhattan(a: Vec3, b: Vec3) -> int {
    abs_diff_spec(a.x as int, b.x as int) + abs_diff_spec(a.y as int, b.y as int) + abs_diff_spec(
        a.z as int,
        b.z as int,
    )
}

/// floor(sqrt(n)): the greatest r >= 0 with r * r <= n.
pub open spec fn spec_sqrt(n: int) -> int
    decreases n,
{
    if n < 1 {
        0
    } else {
        let r = spec_sqrt(n - 1);
        if (r + 1) * (r + 1) <= n {
            r + 1
        } else {
            r
        }
    }
}

/// Euclidean distance between two points, floored to an integer.
pub open spec fn spec_distance(a: Vec3, b: Vec3) -> int {
    spec_sqrt(dist_sq(a, b))
}

/// `spec_sqrt(n)` really is the floor of the square root of `n`.
pub proof fn lemma_sqrt_bounds(n: int)
    requires
        n >= 0,
    ensures
        0 <= spec_sqrt(n),
        spec_sqrt(n) * spec_sqrt(n) <= n,
        n < (spec_sqrt(n) + 1) * (spec_sqrt(n) + 1),
    decreases n,
{
    if n >= 1 {
        lemma_sqrt_bounds(n - 1);
        let r = spec_sqrt(n - 1);
        if (r + 1) * (r + 1) <= n {
            assert((r + 2) * (r + 2) > n) by (nonlinear_arith)
                requires
                    r >= 0,
                    n - 1 < (r + 1) * (r + 1),
            ;
        }
    }
}

/// The floor square root is the only r >= 0 with r * r <= n < (r + 1)^2.
pub proof fn lemma_sqrt_unique(n: int, r: int)
    requires
        n >= 0,
        r >= 0,
        r * r <= n,
        n < (r + 1) * (r + 1),
    ensures
        spec_sqrt(n) == r,
{
    let s = spec_sqrt(n);
    lemma_sqrt_bounds(n);
    if s < r {
        assert((s + 1) * (s + 1) <= r * r) by (nonlinear_arith)
            requires
                0 <= s + 1 <= r,
        ;
        assert(false);
    }
    if r < s {
        assert((r + 1) * (r + 1) <= s * s) by (nonlinear_arith)
            requires
                0 <= r + 1 <= s,
        ;
        assert(false);
    }
}

/// The floor square root is monotone.
pub proof fn lemma_sqrt_monotone(m: int, n: int)
    requires
        0 <= m <= n,
    ensures
        spec_sqrt(m) <= spec_sqrt(n),
{
    let a = spec_sqrt(m);
    let b = spec_sqrt(n);
    lemma_sqrt_bounds(m);
    lemma_sqrt_bounds(n);
    if b < a {
        assert((b + 1) * (b + 1) <= a * a) by (nonlinear_arith)
            requires
                0 <= b + 1 <= a,
        ;
        assert(false);
    }
}

/// Distance is symmetric and non-negative.
pub proof fn lemma_distance_symmetric(a: Vec3, b: Vec3)
    ensures
        spec_distance(a, b) == spec_distance(b, a),
        spec_distance(a, b) >= 0,
{
    assert(dist_sq(a, b) == dist_sq(b, a));
    assert(dist_sq(a, b) >= 0) by (nonlinear_arith)
        requires
            dist_sq(a, b) == ({
                let dx = abs_diff_spec(a.x as int, b.x as int);
                let dy = abs_diff_spec(a.y as int, b.y as int);
                let dz = abs_diff_spec(a.z as int, b.z as int);
                dx * dx + dy * dy + dz * dz
            }),
            abs_diff_spec(a.x as int, b.x as int) >= 0,
            abs_diff_spec(a.y as int, b.y as int) >= 0,
            abs_diff_spec(a.z as int, b.z as int) >= 0,
    ;
    lemma_sqrt_bounds(dist_sq(a, b));
}

/// The distance from a point to itself is zero.
pub proof fn lemma_distance_self(a: Vec3)
    ensures
        spec_distance(a, a) == 0,
{
    assert(dist_sq(a, a) == 0);
}

/// Squared distance is zero exactly between equal points.
pub proof fn lemma_dist_sq_zero(a: Vec3, b: Vec3)
    ensures
        dist_sq(a, b) == 0 <==> a == b,
        dist_sq(a, b) >= 0,
{
    let dx = abs_diff_spec(a.x as int, b.x as int);
    let dy = abs_diff_spec(a.y as int, b.y as int);
    let dz = abs_diff_spec(a.z as int, b.z as int);
    assert(dx * dx >= 0 && (dx * dx == 0 <==> dx == 0)) by (nonlinear_arith);
    assert(dy * dy >= 0 && (dy * dy == 0 <==> dy == 0)) by (nonlinear_arith);
    assert(dz * dz >= 0 && (dz * dz == 0 <==> dz == 0)) by (nonlinear_arith);
}

/// The squared distance never exceeds the square of the Manhattan distance,
/// so the floored distance never exceeds the Manhattan distance.
pub proof fn lemma_distance_le_manhattan(a: Vec3, b: Vec3)
    ensures
        dist_sq(a, b) <= manhattan(a, b) * manhattan(a, b),
        spec_distance(a, b) <= manhattan(a, b),
{
    let dx = abs_diff_spec(a.x as int, b.x as int);
    let dy = abs_diff_spec(a.y as int, b.y as int);
    let dz = abs_diff_spec(a.z as int, b.z as int);
    let m = manhattan(a, b);
    assert(dx * dx + dy * dy + dz * dz <= m * m) by (nonlinear_arith)
        requires
            dx >= 0,
            dy >= 0,
            dz >= 0,
            m == dx + dy + dz,
    ;
    lemma_dist_sq_zero(a, b);
    lemma_sqrt_monotone(dist_sq(a, b), m * m);
    assert(m * m >= 0 && m * m < (m + 1) * (m + 1)) by (nonlinear_arith)
        requires
            m >= 0,
    ;
    lemma_sqrt_unique(m * m, m);
}

/// Relies on num_integer::sqrt: the truncated principal square root, whose
/// result satisfies r * r <= n < (r + 1) * (r + 1).
#[verifier::external_body]
fn isqrt_u128(n: u128) -> (r: u64)
    ensures
        r * r <= n,
        n < (r + 1) * (r + 1),
{
    num_integer::sqrt(n) as u64
}

impl Vec3 {
    pub fn new(x: u32, y: u32, z: u32) -> (r: Self)
        ensures
            r == (Vec3 { x, y, z }),
    {
        Vec3 { x, y, z }
    }

    /// Squared Euclidean distance, computed in a widened domain so that it
    /// cannot overflow for any pair of points.
    fn distance_squared(self, other: Self) -> (r: u128)
        ensures
            r == dist_sq(self, other),
    {
        let dx = (if self.x >= other.x {
            self.x - other.x
        } else {
            other.x - self.x
        }) as u128;
        let dy = (if self.y >= other.y {
            self.y - other.y
        } else {
            other.y - self.y
        }) as u128;
        let dz = (if self.z >= other.z {
            self.z - other.z
        } else {
            other.z - self.z
        }) as u128;
        proof {
            assert(dx * dx + dy * dy + dz * dz <= 3 * (0xffff_ffff * 0xffff_ffff)) by (nonlinear_arith)
                requires
                    0 <= dx <= 0xffff_ffff,
                    0 <= dy <= 0xffff_ffff,
                    0 <= dz <= 0xffff_ffff,
            ;
        }
        dx * dx + dy * dy + dz * dz
    }

    /// Euclidean distance, floored to an integer. The precondition only rules
    /// out pairs so far apart that the result would not fit the return type.
    pub fn distance(self, other: Self) -> (r: u32)
        requires
            dist_sq(self, other) <= u32::MAX * u32::MAX,
        ensures
            r == spec_distance(self, other),
    {
        let sq = self.distance_squared(other);
        let root = isqrt_u128(sq);
        proof {
            lemma_dist_sq_zero(self, other);
            lemma_sqrt_unique(sq as int, root as int);
            if root as int > u32::MAX {
                assert((u32::MAX + 1) * (u32::MAX + 1) <= root * root) by (nonlinear_arith)
                    requires
                        0 <= u32::MAX + 1 <= root as int,
                ;
                assert(false);
            }
        }
        root as u32
    }
}

} // verus!
