//! Arithmetic on the wraparound cube.
//!
//! Every length is a fixed-point integer: [`SCALE`] steps make one world unit.
//! The playing field is a cube of side [`SPACE_SIZE`] whose opposite faces are
//! identified, so a coordinate `c` and `c + k * SPACE_SIZE` name the same place.
//! The representative in `[0, SPACE_SIZE)` is the canonical one.

use vstd::prelude::*;
use vstd::arithmetic::div_mod::lemma_fundamental_div_mod;
use vstd::arithmetic::div_mod::lemma_fundamental_div_mod_converse;
use vstd::arithmetic::div_mod::lemma_mod_equivalence;
use vstd::arithmetic::div_mod::lemma_mod_multiples_vanish;
use vstd::arithmetic::div_mod::lemma_mod_twice;

verus! {

/// Fixed-point steps per world unit.
pub const SCALE: i64 = 1000;

/// Side length of the cube, in fixed-point steps (100 world units).
pub const SPACE_SIZE: i64 = 100_000;

/// A position or a direction, one fixed-point coordinate per axis.
#[derive(Clone, Copy, Debug, PartialEq, Eq, Structural)]
pub struct Vector3 {
    pub x: i64,
    pub y: i64,
    pub z: i64,
}

impl Vector3 {
    /// Every coordinate lies in `[0, m)`.
    pub open spec fn is_canonical(self, m: int) -> bool {
        &&& 0 <= self.x < m
        &&& 0 <= self.y < m
        &&& 0 <= self.z < m
    }

    /// No coordinate is longer than `limit`.
    pub open spec fn within(self, limit: int) -> bool {
        &&& -limit <= self.x <= limit
        &&& -limit <= self.y <= limit
        &&& -limit <= self.z <= limit
    }

    /// The squared Euclidean length.
    pub open spec fn norm_squared(self) -> int {
        self.x * self.x + self.y * self.y + self.z * self.z
    }
}

/// Builds a vector from its coordinates.
pub fn vec3(x: i64, y: i64, z: i64) -> (v: Vector3)
    ensures
        v == (Vector3 { x, y, z }),
{
    Vector3 { x, y, z }
}

/// The remainder of `value` modulo `m`, never negative.
pub open spec fn spec_modulus(value: int, m: int) -> int {
    value % m
}

/// The canonical representative of `v` in a cube of side `m`.
pub open spec fn spec_modulus_vec3(v: Vector3, m: int) -> Vector3 {
    Vector3 {
        x: spec_modulus(v.x as int, m) as i64,
        y: spec_modulus(v.y as int, m) as i64,
        z: spec_modulus(v.z as int, m) as i64,
    }
}

/// Division that rounds toward zero, for a positive divisor.
pub open spec fn trunc_div(a: int, b: int) -> int {
    if a >= 0 {
        a / b
    } else {
        -((-a) / b)
    }
}

/// `r` is the integer square root of `n`, rounded down.
pub open spec fn is_floor_sqrt(n: int, r: int) -> bool {
    &&& 0 <= r
    &&& r * r <= n
    &&& n < (r + 1) * (r + 1)
}

/// The integer square root of `n`, rounded down (meaningful for `n >= 0`).
pub open spec fn floor_sqrt(n: int) -> int {
    choose|r: int| is_floor_sqrt(n, r)
}

/// The shorter way round between two coordinates on a circle of length `m`.
pub open spec fn axis_distance(a: int, b: int, m: int) -> int {
    let gap = (if a >= b {
        a - b
    } else {
        b - a
    }) % m;
    if gap <= m - gap {
        gap
    } else {
        m - gap
    }
}

/// The squared wraparound distance between two points of the cube.
pub open spec fn spec_mod_distance_squared(v1: Vector3, v2: Vector3) -> int {
    let dx = axis_distance(v1.x as int, v2.x as int, SPACE_SIZE as int);
    let dy = axis_distance(v1.y as int, v2.y as int, SPACE_SIZE as int);
    let dz = axis_distance(v1.z as int, v2.z as int, SPACE_SIZE as int);
    dx * dx + dy * dy + dz * dz
}

/// The wraparound distance between two points of the cube, rounded down to a
/// whole fixed-point step.
pub open spec fn spec_mod_distance(v1: Vector3, v2: Vector3) -> int {
    floor_sqrt(spec_mod_distance_squared(v1, v2))
}

/// Two numbers that both qualify as the rounded-down square root of `n` are equal.
pub proof fn lemma_floor_sqrt_unique(n: int, r1: int, r2: int)
    requires
        is_floor_sqrt(n, r1),
        is_floor_sqrt(n, r2),
    ensures
        r1 == r2,
{
    if r1 < r2 {
        assert((r1 + 1) * (r1 + 1) <= r2 * r2) by (nonlinear_arith)
            requires
                0 <= r1,
                r1 + 1 <= r2,
        ;
    }
    if r2 < r1 {
        assert((r2 + 1) * (r2 + 1) <= r1 * r1) by (nonlinear_arith)
            requires
                0 <= r2,
                r2 + 1 <= r1,
        ;
    }
}

/// A number that qualifies as the rounded-down square root of `n` is `floor_sqrt(n)`.
pub proof fn lemma_floor_sqrt_is(n: int, r: int)
    requires
        is_floor_sqrt(n, r),
    ensures
        floor_sqrt(n) == r,
{
    lemma_floor_sqrt_unique(n, r, floor_sqrt(n));
}

/// The remainder of a negated number: zero stays zero, anything else is mirrored.
pub proof fn lemma_mod_of_negation(a: int, m: int)
    requires
        m > 0,
    ensures
        (-a) % m == if a % m == 0 {
            0
        } else {
            m - a % m
        },
{
    let q = a / m;
    let r = a % m;
    lemma_fundamental_div_mod(a, m);
    if r == 0 {
        assert(-a == (-q) * m + 0) by (nonlinear_arith)
            requires
                a == m * q + r,
                r == 0,
        ;
        lemma_fundamental_div_mod_converse(-a, m, -q, 0);
    } else {
        assert(-a == (-q - 1) * m + (m - r)) by (nonlinear_arith)
            requires
                a == m * q + r,
        ;
        lemma_fundamental_div_mod_converse(-a, m, -q - 1, m - r);
    }
}

/// The integer square root of `n`, rounded down.
pub fn isqrt(n: u128) -> (r: u64)
    ensures
        is_floor_sqrt(n as int, r as int),
        r == floor_sqrt(n as int),
{
    let mut low: u128 = 0;
    let mut high: u128 = 0x1_0000_0000_0000_0000;
    assert(n < high * high) by (nonlinear_arith)
        requires
            high == 0x1_0000_0000_0000_0000u128,
            n <= u128::MAX,
    ;
    while high - low > 1
        invariant
            low < high <= 0x1_0000_0000_0000_0000,
            low * low <= n < high * high,
        decreases high - low,
    {
        let mid: u128 = low + (high - low) / 2;
        assert(mid * mid < 0x1_0000_0000_0000_0000_0000_0000_0000_0000) by (nonlinear_arith)
            requires
                0 <= mid < 0x1_0000_0000_0000_0000,
        ;
        if mid * mid <= n {
            low = mid;
        } else {
            high = mid;
        }
    }
    proof {
        lemma_floor_sqrt_is(n as int, low as int);
    }
    low as u64
}

/// Reduces `value` into `[0, m)`.
pub fn modulus(value: i64, m: i64) -> (result: i64)
    requires
        m > 0,
    ensures
        result == spec_modulus(value as int, m as int),
        0 <= result < m,
{
    let mut result: i64 = value % m;
    proof {
        if value < 0 {
            lemma_mod_of_negation(-(value as int), m as int);
        }
    }
    if result < 0 {
        result += m;
    }
    result
}

/// Reduces a wide intermediate `value` into `[0, m)`.
pub fn modulus_wide(value: i128, m: i64) -> (result: i64)
    requires
        m > 0,
    ensures
        result == spec_modulus(value as int, m as int),
        0 <= result < m,
{
    let mut result: i128 = value % (m as i128);
    proof {
        if value < 0 {
            lemma_mod_of_negation(-(value as int), m as int);
        }
    }
    if result < 0 {
        result += m as i128;
    }
    result as i64
}

/// Reduces every coordinate of `value` into `[0, m)`.
pub fn modulus_vec3(value: Vector3, m: i64) -> (result: Vector3)
    requires
        m > 0,
    ensures
        result == spec_modulus_vec3(value, m as int),
        result.is_canonical(m as int),
{
    vec3(modulus(value.x, m), modulus(value.y, m), modulus(value.z, m))
}

/// The shorter way round between two coordinates on a circle of length `m`.
pub fn mod_dist(x1: i64, x2: i64, m: i64) -> (d: i64)
    requires
        m > 0,
    ensures
        d == axis_distance(x1 as int, x2 as int, m as int),
        0 <= d,
        2 * d <= m,
{
    let a: i128 = x1 as i128;
    let b: i128 = x2 as i128;
    let gap: i128 = if a >= b {
        a - b
    } else {
        b - a
    };
    let diff: i64 = (gap % (m as i128)) as i64;
    if diff <= m - diff {
        diff
    } else {
        m - diff
    }
}

/// The wraparound distance between two points of the cube, rounded down to a
/// whole fixed-point step.
pub fn mod_distance(v1: Vector3, v2: Vector3) -> (d: i64)
    ensures
        d == spec_mod_distance(v1, v2),
        is_floor_sqrt(spec_mod_distance_squared(v1, v2), d as int),
{
    let dx: i64 = mod_dist(v1.x, v2.x, SPACE_SIZE);
    let dy: i64 = mod_dist(v1.y, v2.y, SPACE_SIZE);
    let dz: i64 = mod_dist(v1.z, v2.z, SPACE_SIZE);
    assert(dx * dx <= 2_500_000_000 && dy * dy <= 2_500_000_000 && dz * dz <= 2_500_000_000)
        by (nonlinear_arith)
        requires
            0 <= dx <= 50_000,
            0 <= dy <= 50_000,
            0 <= dz <= 50_000,
    ;
    let sum: i64 = dx * dx + dy * dy + dz * dz;
    let root: u64 = isqrt(sum as u128);
    assert(root < 100_000) by (nonlinear_arith)
        requires
            root * root <= sum,
            sum <= 7_500_000_000,
    ;
    root as i64
}

/// The magnitude of `value`, widened so that it always fits.
fn magnitude(value: i64) -> (m: u128)
    ensures
        m == if value >= 0 {
            value as int
        } else {
            -(value as int)
        },
        m <= 0x8000_0000_0000_0000,
{
    let wide: i128 = value as i128;
    if wide >= 0 {
        wide as u128
    } else {
        (-wide) as u128
    }
}

/// `value * numerator / denominator`, rounded toward zero.
pub open spec fn spec_rescale(value: int, numerator: int, denominator: int) -> int {
    trunc_div(value * numerator, denominator)
}

/// `value * numerator / denominator`, rounded toward zero, in wide arithmetic.
fn rescale(value: i64, numerator: i64, denominator: i128) -> (r: i128)
    requires
        denominator > 0,
    ensures
        r == spec_rescale(value as int, numerator as int, denominator as int),
{
    assert(-0x4000_0000_0000_0000_0000_0000_0000_0000 <= value * numerator
        <= 0x4000_0000_0000_0000_0000_0000_0000_0000) by (nonlinear_arith)
        requires
            -0x8000_0000_0000_0000 <= value <= 0x8000_0000_0000_0000,
            -0x8000_0000_0000_0000 <= numerator <= 0x8000_0000_0000_0000,
    ;
    let product: i128 = (value as i128) * (numerator as i128);
    product / denominator
}

/// The vector of length [`SCALE`] (one world unit) that points the way `v`
/// does; the zero vector has no direction and stays zero. Each coordinate is
/// rounded toward zero.
pub open spec fn spec_normalize(v: Vector3) -> Vector3 {
    let length = floor_sqrt(v.norm_squared());
    if length == 0 {
        Vector3 { x: 0, y: 0, z: 0 }
    } else {
        Vector3 {
            x: spec_rescale(v.x as int, SCALE as int, length) as i64,
            y: spec_rescale(v.y as int, SCALE as int, length) as i64,
            z: spec_rescale(v.z as int, SCALE as int, length) as i64,
        }
    }
}

/// `v` stretched by `factor / SCALE`, each coordinate rounded toward zero.
pub open spec fn spec_scaled(v: Vector3, factor: int) -> Vector3 {
    Vector3 {
        x: spec_rescale(v.x as int, factor, SCALE as int) as i64,
        y: spec_rescale(v.y as int, factor, SCALE as int) as i64,
        z: spec_rescale(v.z as int, factor, SCALE as int) as i64,
    }
}

/// Where a point at `position` ends up after `distance` steps along
/// `direction`, wrapped back into the cube.
pub open spec fn spec_advance(position: Vector3, direction: Vector3, distance: int) -> Vector3 {
    Vector3 {
        x: spec_modulus(
            position.x + spec_rescale(direction.x as int, distance, SCALE as int),
            SPACE_SIZE as int,
        ) as i64,
        y: spec_modulus(
            position.y + spec_rescale(direction.y as int, distance, SCALE as int),
            SPACE_SIZE as int,
        ) as i64,
        z: spec_modulus(
            position.z + spec_rescale(direction.z as int, distance, SCALE as int),
            SPACE_SIZE as int,
        ) as i64,
    }
}

/// A quotient rounded toward zero is no longer than the dividend's share of
/// the divisor.
pub proof fn lemma_rescale_bound(value: int, numerator: int, denominator: int, limit: int)
    requires
        numerator >= 0,
        denominator > 0,
        -limit <= value <= limit,
        limit <= denominator,
    ensures
        -numerator <= spec_rescale(value, numerator, denominator) <= numerator,
{
    let product = value * numerator;
    assert(-(denominator * numerator) <= product <= denominator * numerator) by (nonlinear_arith)
        requires
            product == value * numerator,
            numerator >= 0,
            -denominator <= value <= denominator,
    ;
    if product >= 0 {
        assert(product / denominator <= numerator) by (nonlinear_arith)
            requires
                0 <= product <= denominator * numerator,
                denominator > 0,
        ;
        assert(0 <= product / denominator) by (nonlinear_arith)
            requires
                0 <= product,
                denominator > 0,
        ;
    } else {
        assert((-product) / denominator <= numerator) by (nonlinear_arith)
            requires
                0 <= -product <= denominator * numerator,
                denominator > 0,
        ;
        assert(0 <= (-product) / denominator) by (nonlinear_arith)
            requires
                0 <= -product,
                denominator > 0,
        ;
    }
}

/// A normalized vector has no coordinate longer than one world unit.
pub proof fn lemma_normalize_within(v: Vector3)
    ensures
        spec_normalize(v).within(SCALE as int),
{
    let n = v.norm_squared();
    assert(n >= 0 && n >= v.x * v.x && n >= v.y * v.y && n >= v.z * v.z) by (nonlinear_arith)
        requires
            n == v.x * v.x + v.y * v.y + v.z * v.z,
    ;
    lemma_floor_sqrt_exists(n);
    let length = floor_sqrt(n);
    if length != 0 {
        lemma_root_dominates(v.x as int, n, length);
        lemma_root_dominates(v.y as int, n, length);
        lemma_root_dominates(v.z as int, n, length);
        lemma_rescale_bound(v.x as int, SCALE as int, length, length);
        lemma_rescale_bound(v.y as int, SCALE as int, length, length);
        lemma_rescale_bound(v.z as int, SCALE as int, length, length);
    }
}

/// Every number that is not negative has a rounded-down square root.
pub proof fn lemma_floor_sqrt_exists(n: int)
    requires
        n >= 0,
    ensures
        is_floor_sqrt(n, floor_sqrt(n)),
    decreases n,
{
    if n == 0 {
        assert(is_floor_sqrt(0, 0));
    } else {
        lemma_floor_sqrt_exists(n - 1);
        let r = floor_sqrt(n - 1);
        if (r + 1) * (r + 1) <= n {
            assert(n < (r + 2) * (r + 2)) by (nonlinear_arith)
                requires
                    n - 1 < (r + 1) * (r + 1),
                    r >= 0,
            ;
            assert(is_floor_sqrt(n, r + 1));
        } else {
            assert(is_floor_sqrt(n, r));
        }
    }
}

/// A number whose square does not exceed `n` does not exceed the root of `n`.
pub proof fn lemma_root_dominates(value: int, n: int, root: int)
    requires
        value * value <= n,
        is_floor_sqrt(n, root),
    ensures
        -root <= value <= root,
{
    if value > root {
        assert((root + 1) * (root + 1) <= value * value) by (nonlinear_arith)
            requires
                0 <= root,
                root + 1 <= value,
        ;
    }
    if value < -root {
        assert((root + 1) * (root + 1) <= value * value) by (nonlinear_arith)
            requires
                0 <= root,
                value <= -(root + 1),
        ;
    }
}

/// The vector of length [`SCALE`] that points the way `v` does.
pub fn normalize(v: Vector3) -> (n: Vector3)
    ensures
        n == spec_normalize(v),
        n.within(SCALE as int),
{
    let ax: u128 = magnitude(v.x);
    let ay: u128 = magnitude(v.y);
    let az: u128 = magnitude(v.z);
    assert(ax * ax <= 0x4000_0000_0000_0000_0000_0000_0000_0000 && ax * ax == v.x * v.x)
        by (nonlinear_arith)
        requires
            ax <= 0x8000_0000_0000_0000,
            ax == v.x || ax == -v.x,
    ;
    assert(ay * ay <= 0x4000_0000_0000_0000_0000_0000_0000_0000 && ay * ay == v.y * v.y)
        by (nonlinear_arith)
        requires
            ay <= 0x8000_0000_0000_0000,
            ay == v.y || ay == -v.y,
    ;
    assert(az * az <= 0x4000_0000_0000_0000_0000_0000_0000_0000 && az * az == v.z * v.z)
        by (nonlinear_arith)
        requires
            az <= 0x8000_0000_0000_0000,
            az == v.z || az == -v.z,
    ;
    let length: u64 = isqrt(ax * ax + ay * ay + az * az);
    proof {
        lemma_normalize_within(v);
    }
    if length == 0 {
        vec3(0, 0, 0)
    } else {
        let x: i128 = rescale(v.x, SCALE, length as i128);
        let y: i128 = rescale(v.y, SCALE, length as i128);
        let z: i128 = rescale(v.z, SCALE, length as i128);
        vec3(x as i64, y as i64, z as i64)
    }
}

/// `v` stretched by `factor / SCALE`.
pub fn scaled(v: Vector3, factor: i64) -> (r: Vector3)
    requires
        v.within(SCALE as int),
        factor >= 0,
    ensures
        r == spec_scaled(v, factor as int),
        r.within(factor as int),
{
    proof {
        lemma_rescale_bound(v.x as int, factor as int, SCALE as int, SCALE as int);
        lemma_rescale_bound(v.y as int, factor as int, SCALE as int, SCALE as int);
        lemma_rescale_bound(v.z as int, factor as int, SCALE as int, SCALE as int);
    }
    let x: i128 = rescale(v.x, factor, SCALE as i128);
    let y: i128 = rescale(v.y, factor, SCALE as i128);
    let z: i128 = rescale(v.z, factor, SCALE as i128);
    vec3(x as i64, y as i64, z as i64)
}

/// Moves `position` by `distance` steps along `direction` and wraps the
/// result back into the cube.
pub fn advance(position: Vector3, direction: Vector3, distance: i64) -> (r: Vector3)
    ensures
        r == spec_advance(position, direction, distance as int),
        r.is_canonical(SPACE_SIZE as int),
{
    let dx: i128 = rescale(direction.x, distance, SCALE as i128);
    let dy: i128 = rescale(direction.y, distance, SCALE as i128);
    let dz: i128 = rescale(direction.z, distance, SCALE as i128);
    proof {
        lemma_rescale_wide(direction.x as int, distance as int);
        lemma_rescale_wide(direction.y as int, distance as int);
        lemma_rescale_wide(direction.z as int, distance as int);
    }
    vec3(
        modulus_wide(position.x as i128 + dx, SPACE_SIZE),
        modulus_wide(position.y as i128 + dy, SPACE_SIZE),
        modulus_wide(position.z as i128 + dz, SPACE_SIZE),
    )
}

/// The product of two 64-bit numbers, divided by [`SCALE`], leaves room to add
/// a third 64-bit number in 128 bits.
proof fn lemma_rescale_wide(value: int, factor: int)
    requires
        -0x8000_0000_0000_0000 <= value <= 0x8000_0000_0000_0000,
        -0x8000_0000_0000_0000 <= factor <= 0x8000_0000_0000_0000,
    ensures
        -0x4000_0000_0000_0000_0000_0000_0000_0000 <= spec_rescale(value, factor, SCALE as int)
            <= 0x4000_0000_0000_0000_0000_0000_0000_0000,
{
    let product = value * factor;
    assert(-0x4000_0000_0000_0000_0000_0000_0000_0000 <= product
        <= 0x4000_0000_0000_0000_0000_0000_0000_0000) by (nonlinear_arith)
        requires
            product == value * factor,
            -0x8000_0000_0000_0000 <= value <= 0x8000_0000_0000_0000,
            -0x8000_0000_0000_0000 <= factor <= 0x8000_0000_0000_0000,
    ;
}

/// `a + b`, wrapped back into the cube.
pub open spec fn spec_wrapped_sum(a: Vector3, b: Vector3) -> Vector3 {
    Vector3 {
        x: spec_modulus(a.x + b.x, SPACE_SIZE as int) as i64,
        y: spec_modulus(a.y + b.y, SPACE_SIZE as int) as i64,
        z: spec_modulus(a.z + b.z, SPACE_SIZE as int) as i64,
    }
}

/// Whether `value` can be held in 64 bits.
pub open spec fn fits(value: int) -> bool {
    i64::MIN <= value <= i64::MAX
}

/// The point `offset` away from `position`. It is not wrapped: the result
/// may lie outside the cube. Only where a coordinate would leave the range
/// of 64 bits, the point of the cube that names the same place stands for it.
pub open spec fn spec_displaced(position: Vector3, offset: Vector3) -> Vector3 {
    if fits(position.x + offset.x) && fits(position.y + offset.y) && fits(position.z + offset.z) {
        Vector3 {
            x: (position.x + offset.x) as i64,
            y: (position.y + offset.y) as i64,
            z: (position.z + offset.z) as i64,
        }
    } else {
        spec_wrapped_sum(position, offset)
    }
}

/// The signed shorter way round from `b` to `a` on a circle of length `m`:
/// the representative of `a - b` in `(-m / 2, m / 2]`.
pub open spec fn signed_axis_difference(a: int, b: int, m: int) -> int {
    let turn = (a - b) % m;
    if 2 * turn <= m {
        turn
    } else {
        turn - m
    }
}

/// The shortest displacement that leads from `b` to `a` in the cube.
pub open spec fn spec_shortest_difference(a: Vector3, b: Vector3) -> Vector3 {
    Vector3 {
        x: signed_axis_difference(a.x as int, b.x as int, SPACE_SIZE as int) as i64,
        y: signed_axis_difference(a.y as int, b.y as int, SPACE_SIZE as int) as i64,
        z: signed_axis_difference(a.z as int, b.z as int, SPACE_SIZE as int) as i64,
    }
}

/// `v` turned the other way.
pub open spec fn spec_negated(v: Vector3) -> Vector3 {
    Vector3 { x: (-v.x) as i64, y: (-v.y) as i64, z: (-v.z) as i64 }
}

/// `a + b`, wrapped back into the cube.
pub fn wrapped_sum(a: Vector3, b: Vector3) -> (r: Vector3)
    ensures
        r == spec_wrapped_sum(a, b),
        r.is_canonical(SPACE_SIZE as int),
{
    vec3(
        modulus_wide(a.x as i128 + b.x as i128, SPACE_SIZE),
        modulus_wide(a.y as i128 + b.y as i128, SPACE_SIZE),
        modulus_wide(a.z as i128 + b.z as i128, SPACE_SIZE),
    )
}

/// The point `offset` away from `position`, not wrapped.
pub fn displaced(position: Vector3, offset: Vector3) -> (r: Vector3)
    ensures
        r == spec_displaced(position, offset),
{
    let x: i128 = position.x as i128 + offset.x as i128;
    let y: i128 = position.y as i128 + offset.y as i128;
    let z: i128 = position.z as i128 + offset.z as i128;
    let low: i128 = i64::MIN as i128;
    let high: i128 = i64::MAX as i128;
    if low <= x && x <= high && low <= y && y <= high && low <= z && z <= high {
        vec3(x as i64, y as i64, z as i64)
    } else {
        wrapped_sum(position, offset)
    }
}

/// The signed shorter way round from `x2` to `x1` on a circle of length `m`.
pub fn signed_mod_dist(x1: i64, x2: i64, m: i64) -> (d: i64)
    requires
        m > 0,
    ensures
        d == signed_axis_difference(x1 as int, x2 as int, m as int),
        -m < 2 * d <= m,
{
    let turn: i64 = modulus_wide(x1 as i128 - x2 as i128, m);
    if turn <= m - turn {
        turn
    } else {
        turn - m
    }
}

/// The shortest displacement that leads from `b` to `a` in the cube.
pub fn shortest_difference(a: Vector3, b: Vector3) -> (r: Vector3)
    ensures
        r == spec_shortest_difference(a, b),
        r.within(SPACE_SIZE as int),
{
    vec3(
        signed_mod_dist(a.x, b.x, SPACE_SIZE),
        signed_mod_dist(a.y, b.y, SPACE_SIZE),
        signed_mod_dist(a.z, b.z, SPACE_SIZE),
    )
}

/// `v` turned the other way.
pub fn negated(v: Vector3) -> (r: Vector3)
    requires
        v.x > i64::MIN,
        v.y > i64::MIN,
        v.z > i64::MIN,
    ensures
        r == spec_negated(v),
{
    vec3(-v.x, -v.y, -v.z)
}

/// Shifting a value by whole turns does not change its remainder, and the
/// remainder always lies in `[0, m)`.
pub proof fn lemma_modulus_periodic(value: int, m: int, k: int)
    requires
        m > 0,
    ensures
        0 <= spec_modulus(value, m) < m,
        spec_modulus(value + k * m, m) == spec_modulus(value, m),
{
    lemma_mod_multiples_vanish(k, value, m);
    assert(m * k + value == value + k * m) by (nonlinear_arith);
}

/// A displacement that stays within 64 bits is the plain sum, coordinate by
/// coordinate.
pub proof fn lemma_displaced_plain(position: Vector3, offset: Vector3, reach: int)
    requires
        0 <= reach,
        offset.within(reach),
        position.within(i64::MAX - reach),
    ensures
        spec_displaced(position, offset).x == position.x + offset.x,
        spec_displaced(position, offset).y == position.y + offset.y,
        spec_displaced(position, offset).z == position.z + offset.z,
{
}

/// A displaced point names the place that the wrapped sum names.
pub proof fn lemma_displaced_same_place(position: Vector3, offset: Vector3)
    ensures
        spec_modulus_vec3(spec_displaced(position, offset), SPACE_SIZE as int) == spec_wrapped_sum(
            position,
            offset,
        ),
{
    let m = SPACE_SIZE as int;
    lemma_modulus_periodic(position.x + offset.x, m, 0);
    lemma_modulus_periodic(position.y + offset.y, m, 0);
    lemma_modulus_periodic(position.z + offset.z, m, 0);
    lemma_mod_twice(position.x + offset.x, m);
    lemma_mod_twice(position.y + offset.y, m);
    lemma_mod_twice(position.z + offset.z, m);
}

/// Adding whole turns to any coordinate of a point leaves its canonical
/// representative as it was.
pub proof fn lemma_wrap_round_trip(p: Vector3, q: Vector3, m: int, kx: int, ky: int, kz: int)
    requires
        m > 0,
        q.x == p.x + kx * m,
        q.y == p.y + ky * m,
        q.z == p.z + kz * m,
    ensures
        spec_modulus_vec3(q, m) == spec_modulus_vec3(p, m),
{
    lemma_modulus_periodic(p.x as int, m, kx);
    lemma_modulus_periodic(p.y as int, m, ky);
    lemma_modulus_periodic(p.z as int, m, kz);
}

/// The way round between two coordinates depends only on the remainder of
/// their difference.
pub proof fn lemma_axis_distance_by_remainder(a: int, b: int, m: int)
    requires
        m > 0,
    ensures
        axis_distance(a, b, m) == if (a - b) % m <= m - (a - b) % m {
            (a - b) % m
        } else {
            m - (a - b) % m
        },
        0 <= axis_distance(a, b, m),
        2 * axis_distance(a, b, m) <= m,
{
    if a < b {
        lemma_mod_of_negation(a - b, m);
    }
}

/// The signed shorter way round is as long as the way round.
pub proof fn lemma_signed_difference_length(a: int, b: int, m: int)
    requires
        m > 0,
    ensures
        axis_distance(a, b, m) == if signed_axis_difference(a, b, m) >= 0 {
            signed_axis_difference(a, b, m)
        } else {
            -signed_axis_difference(a, b, m)
        },
{
    lemma_axis_distance_by_remainder(a, b, m);
}

/// The way round between two coordinates does not change when either is
/// shifted by whole turns.
pub proof fn lemma_axis_distance_periodic(a: int, b: int, m: int, ka: int, kb: int)
    requires
        m > 0,
    ensures
        axis_distance(a + ka * m, b + kb * m, m) == axis_distance(a, b, m),
{
    lemma_axis_distance_by_remainder(a, b, m);
    lemma_axis_distance_by_remainder(a + ka * m, b + kb * m, m);
    assert((a + ka * m) - (b + kb * m) == (a - b) + (ka - kb) * m) by (nonlinear_arith);
    lemma_modulus_periodic(a - b, m, ka - kb);
}

/// The way round between two coordinates is zero exactly if they name the
/// same place of the circle.
pub proof fn lemma_axis_distance_zero(a: int, b: int, m: int)
    requires
        m > 0,
    ensures
        axis_distance(a, b, m) == 0 <==> a % m == b % m,
{
    lemma_axis_distance_by_remainder(a, b, m);
    lemma_mod_equivalence(a, b, m);
}

/// The distance between two points is that between their canonical
/// representatives.
pub proof fn lemma_distance_of_representatives(a: Vector3, b: Vector3)
    ensures
        spec_mod_distance(
            spec_modulus_vec3(a, SPACE_SIZE as int),
            spec_modulus_vec3(b, SPACE_SIZE as int),
        ) == spec_mod_distance(a, b),
{
    let m = SPACE_SIZE as int;
    lemma_axis_distance_of_representatives(a.x as int, b.x as int, m);
    lemma_axis_distance_of_representatives(a.y as int, b.y as int, m);
    lemma_axis_distance_of_representatives(a.z as int, b.z as int, m);
}

/// The way round between two coordinates is that between their remainders.
pub proof fn lemma_axis_distance_of_representatives(a: int, b: int, m: int)
    requires
        m > 0,
    ensures
        axis_distance(a % m, b % m, m) == axis_distance(a, b, m),
{
    lemma_fundamental_div_mod(a, m);
    lemma_fundamental_div_mod(b, m);
    assert(a % m + (a / m) * m == a) by (nonlinear_arith)
        requires
            a == m * (a / m) + a % m,
    ;
    assert(b % m + (b / m) * m == b) by (nonlinear_arith)
        requires
            b == m * (b / m) + b % m,
    ;
    lemma_axis_distance_periodic(a % m, b % m, m, a / m, b / m);
}

/// A point is at distance zero from itself.
pub proof fn lemma_distance_to_self(a: Vector3)
    ensures
        spec_mod_distance(a, a) == 0,
{
    assert(spec_mod_distance_squared(a, a) == 0);
    lemma_floor_sqrt_is(0, 0);
}

/// The distance from `a` to `b` is the distance from `b` to `a`.
pub proof fn lemma_distance_symmetric(a: Vector3, b: Vector3)
    ensures
        spec_mod_distance_squared(a, b) == spec_mod_distance_squared(b, a),
        spec_mod_distance(a, b) == spec_mod_distance(b, a),
{
}

/// No two points of the cube are farther apart than half its space
/// diagonal: `distance <= side * sqrt(3) / 2`, stated without the root as
/// `4 * distance^2 <= 3 * side^2`.
pub proof fn lemma_distance_bounded(a: Vector3, b: Vector3)
    ensures
        0 <= spec_mod_distance(a, b),
        4 * spec_mod_distance_squared(a, b) <= 3 * SPACE_SIZE * SPACE_SIZE,
        4 * (spec_mod_distance(a, b) * spec_mod_distance(a, b)) <= 3 * SPACE_SIZE * SPACE_SIZE,
{
    let m = SPACE_SIZE as int;
    let dx = axis_distance(a.x as int, b.x as int, m);
    let dy = axis_distance(a.y as int, b.y as int, m);
    let dz = axis_distance(a.z as int, b.z as int, m);
    assert(0 <= 4 * (dx * dx) <= m * m) by (nonlinear_arith)
        requires
            0 <= dx,
            2 * dx <= m,
    ;
    assert(0 <= 4 * (dy * dy) <= m * m) by (nonlinear_arith)
        requires
            0 <= dy,
            2 * dy <= m,
    ;
    assert(0 <= 4 * (dz * dz) <= m * m) by (nonlinear_arith)
        requires
            0 <= dz,
            2 * dz <= m,
    ;
    lemma_floor_sqrt_exists(spec_mod_distance_squared(a, b));
}

/// Two points are at distance zero exactly if they name the same place of
/// the cube.
pub proof fn lemma_distance_zero(a: Vector3, b: Vector3)
    ensures
        spec_mod_distance(a, b) == 0 <==> spec_modulus_vec3(a, SPACE_SIZE as int)
            == spec_modulus_vec3(b, SPACE_SIZE as int),
{
    let m = SPACE_SIZE as int;
    let dx = axis_distance(a.x as int, b.x as int, m);
    let dy = axis_distance(a.y as int, b.y as int, m);
    let dz = axis_distance(a.z as int, b.z as int, m);
    let sum = spec_mod_distance_squared(a, b);
    lemma_axis_distance_zero(a.x as int, b.x as int, m);
    lemma_axis_distance_zero(a.y as int, b.y as int, m);
    lemma_axis_distance_zero(a.z as int, b.z as int, m);
    assert(dx * dx >= 0 && dy * dy >= 0 && dz * dz >= 0) by (nonlinear_arith);
    assert(dx != 0 ==> dx * dx >= 1) by (nonlinear_arith);
    assert(dy != 0 ==> dy * dy >= 1) by (nonlinear_arith);
    assert(dz != 0 ==> dz * dz >= 1) by (nonlinear_arith);
    lemma_floor_sqrt_exists(sum);
    if sum == 0 {
        lemma_floor_sqrt_is(0, 0);
    } else {
        let root = floor_sqrt(sum);
        if root == 0 {
            assert((root + 1) * (root + 1) == 1) by (nonlinear_arith)
                requires
                    root == 0,
            ;
        }
    }
}

} // verus!
