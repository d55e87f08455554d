//! Fixed-point scalar arithmetic.
//!
//! Every continuous quantity of the planet generator (noise values, mesh
//! coordinates, UV coordinates, blur weights) is carried as a signed 64-bit
//! raw value `v` standing for the real number `v / SCALE`.  All operations
//! round toward negative infinity, so each function of this module is a pure
//! mathematical function of its arguments.
use vstd::arithmetic::div_mod::{
    lemma_div_is_ordered, lemma_div_nonincreasing, lemma_div_pos_is_pos,
    lemma_fundamental_div_mod, lemma_fundamental_div_mod_converse_div, lemma_div_multiples_vanish,
};
use vstd::prelude::*;

verus! {

/// Number of raw units per whole unit: raw value `v` stands for `v / SCALE`.
pub const SCALE: i64 = 65536;

/// Largest magnitude accepted by `fx_mul` operands; keeps the 128-bit-free
/// product `a * b` within `i64`.
pub const FX_OPERAND_MAX: i64 = 0x4000_0000;

/// Largest magnitude accepted by `normalize` components.
pub const NORM_OPERAND_MAX: i64 = 0x2000_0000;

/// The floor square root: the largest `r` with `r * r <= n`.
pub open spec fn sqrt_floor(n: nat) -> nat
    decreases n,
{
    if n == 0 {
        0
    } else {
        let p = sqrt_floor((n - 1) as nat);
        if (p + 1) * (p + 1) <= n {
            p + 1
        } else {
            p
        }
    }
}

/// `sqrt_floor(n)` is indeed the floor of the square root of `n`.
pub proof fn lemma_sqrt_floor_correct(n: nat)
    ensures
        sqrt_floor(n) * sqrt_floor(n) <= n,
        n < (sqrt_floor(n) + 1) * (sqrt_floor(n) + 1),
    decreases n,
{
    if n == 0 {
        assert(sqrt_floor(n) == 0);
        assert(n < (sqrt_floor(n) + 1) * (sqrt_floor(n) + 1)) by (nonlinear_arith)
            requires
                n == 0,
                sqrt_floor(n) == 0,
        {}
    } else {
        lemma_sqrt_floor_correct((n - 1) as nat);
        let p = sqrt_floor((n - 1) as nat);
        if (p + 1) * (p + 1) <= n {
            assert(sqrt_floor(n) == p + 1);
            assert(n <= (p + 1) * (p + 1));
            assert((p + 1) * (p + 1) < (p + 2) * (p + 2)) by (nonlinear_arith)
                requires
                    p >= 0,
            {}
            assert(n < (sqrt_floor(n) + 1) * (sqrt_floor(n) + 1));
        } else {
            assert(sqrt_floor(n) == p);
            assert(n < (sqrt_floor(n) + 1) * (sqrt_floor(n) + 1));
        }
    }
}

/// Two integers that both satisfy the floor-square-root bounds are equal.
pub proof fn lemma_sqrt_unique(n: nat, a: nat, b: nat)
    requires
        a * a <= n < (a + 1) * (a + 1),
        b * b <= n < (b + 1) * (b + 1),
    ensures
        a == b,
{
    assert(a == b) by (nonlinear_arith)
        requires
            a * a <= n < (a + 1) * (a + 1),
            b * b <= n < (b + 1) * (b + 1),
    {}
}

/// Bounds the product of two bounded integers.
pub proof fn lemma_mul_abs_bound(a: int, b: int, bound_a: int, bound_b: int)
    requires
        -bound_a <= a <= bound_a,
        -bound_b <= b <= bound_b,
        0 <= bound_a,
        0 <= bound_b,
    ensures
        -(bound_a * bound_b) <= a * b <= bound_a * bound_b,
{
    assert(-(bound_a * bound_b) <= a * b <= bound_a * bound_b) by (nonlinear_arith)
        requires
            -bound_a <= a <= bound_a,
            -bound_b <= b <= bound_b,
            0 <= bound_a,
            0 <= bound_b,
    {}
}

/// Integer square root: the floor of the square root of `n`.
pub fn isqrt(n: u64) -> (r: u64)
    ensures
        r == sqrt_floor(n as nat),
        r * r <= n,
        n < (r + 1) * (r + 1),
        r <= 0x1_0000_0000,
{
    let mut lo: u64 = 0;
    let mut hi: u64 = 0x1_0000_0000;
    while hi - lo > 1
        invariant
            lo < hi <= 0x1_0000_0000,
            lo * lo <= n,
            n < hi * hi,
        decreases hi - lo,
    {
        let mid: u64 = lo + (hi - lo) / 2;
        proof {
            assert(mid * mid <= 0xFFFF_FFFF * 0xFFFF_FFFF) by (nonlinear_arith)
                requires
                    0 <= mid <= 0xFFFF_FFFF,
            {}
        }
        if mid * mid <= n {
            lo = mid;
        } else {
            hi = mid;
        }
    }
    proof {
        lemma_sqrt_floor_correct(n as nat);
        lemma_sqrt_unique(n as nat, lo as nat, sqrt_floor(n as nat));
    }
    lo
}

/// Floor division on raw values, written over nonnegative machine division.
pub fn div_floor(a: i64, b: i64) -> (r: i64)
    requires
        0 < b <= 0x1_0000_0000,
        -0x4000_0000_0000_0000 <= a <= 0x4000_0000_0000_0000,
    ensures
        r == a as int / b as int,
        a >= 0 ==> 0 <= r <= a,
        b as int * r <= a < b as int * (r + 1),
{
    proof {
        let bi = b as int;
        let ai = a as int;
        lemma_fundamental_div_mod(ai, bi);
        assert(0 <= ai % bi < bi) by (nonlinear_arith)
            requires
                0 < bi,
        {}
        assert(bi * (ai / bi) <= ai < bi * (ai / bi + 1)) by (nonlinear_arith)
            requires
                ai == bi * (ai / bi) + ai % bi,
                0 <= ai % bi < bi,
        {}
        if a >= 0 {
            lemma_div_pos_is_pos(ai, bi);
            lemma_div_nonincreasing(ai, bi);
        }
    }
    if a >= 0 {
        let q: u64 = (a as u64) / (b as u64);
        q as i64
    } else {
        let na: u64 = (-a) as u64;
        let q: u64 = (na + (b as u64) - 1) / (b as u64);
        proof {
            let bi = b as int;
            let qi = q as int;
            let x = na + bi - 1;
            lemma_fundamental_div_mod(x as int, bi);
            let rm = x as int % bi;
            assert(a as int == (-qi) * bi + (bi - 1 - rm)) by (nonlinear_arith)
                requires
                    x as int == bi * qi + rm,
                    a == -(x as int) + bi - 1,
            {}
            lemma_fundamental_div_mod_converse_div(a as int, bi, -qi, bi - 1 - rm);
        }
        -(q as i64)
    }
}

/// The fixed-point product: the floor of `a * b / SCALE`.
pub open spec fn fx_mul_spec(a: int, b: int) -> int {
    (a * b) / (SCALE as int)
}

/// Fixed-point multiplication.
pub fn fx_mul(a: i64, b: i64) -> (r: i64)
    requires
        -FX_OPERAND_MAX <= a <= FX_OPERAND_MAX,
        -FX_OPERAND_MAX <= b <= FX_OPERAND_MAX,
    ensures
        r == fx_mul_spec(a as int, b as int),
{
    proof {
        lemma_mul_abs_bound(a as int, b as int, FX_OPERAND_MAX as int, FX_OPERAND_MAX as int);
    }
    let p: i64 = a * b;
    div_floor(p, SCALE)
}

/// Bounds the fixed-point product of two bounded raw values.
pub proof fn lemma_fx_mul_bound(a: int, b: int, bound_a: int, bound_b: int)
    requires
        -bound_a <= a <= bound_a,
        -bound_b <= b <= bound_b,
        0 <= bound_a,
        0 <= bound_b,
    ensures
        -((bound_a * bound_b) / (SCALE as int)) - 1 <= fx_mul_spec(a, b) <= (bound_a * bound_b)
            / (SCALE as int),
{
    let s = SCALE as int;
    lemma_mul_abs_bound(a, b, bound_a, bound_b);
    lemma_div_is_ordered(a * b, bound_a * bound_b, s);
    lemma_div_is_ordered(-(bound_a * bound_b), a * b, s);
    lemma_fundamental_div_mod(bound_a * bound_b, s);
    assert((-(bound_a * bound_b)) / s >= -((bound_a * bound_b) / s) - 1) by (nonlinear_arith)
        requires
            s == SCALE as int,
            bound_a * bound_b == s * ((bound_a * bound_b) / s) + (bound_a * bound_b) % s,
            0 <= (bound_a * bound_b) % s < s,
    {
        let q = (bound_a * bound_b) / s;
        let m = (bound_a * bound_b) % s;
        assert(-(bound_a * bound_b) == (-q - 1) * s + (s - m));
        if m == 0 {
            lemma_fundamental_div_mod_converse_div(-(bound_a * bound_b), s, -q, 0);
        } else {
            lemma_fundamental_div_mod_converse_div(-(bound_a * bound_b), s, -q - 1, s - m);
        }
    }
}

/// An executable optional raw value agrees with a mathematical one.
pub open spec fn opt_eq(r: Option<i64>, s: Option<int>) -> bool {
    match r {
        None => s is None,
        Some(v) => s == Some(v as int),
    }
}

/// A 3-vector of fixed-point scalars.
#[derive(Clone, Copy, PartialEq, Eq, Structural, Debug)]
pub struct V3 {
    pub x: i64,
    pub y: i64,
    pub z: i64,
}

/// The squared Euclidean length of `v` in raw units.
pub open spec fn norm_sq_spec(v: V3) -> int {
    v.x * v.x + v.y * v.y + v.z * v.z
}

/// The normalized direction of `v`: each component is the floor of
/// `component * SCALE / |v|`; the zero vector when `v` is zero.
pub open spec fn normalize_spec(v: V3) -> V3 {
    let len = sqrt_floor(norm_sq_spec(v) as nat) as int;
    if len == 0 {
        V3 { x: 0, y: 0, z: 0 }
    } else {
        V3 {
            x: ((v.x * SCALE as int) / len) as i64,
            y: ((v.y * SCALE as int) / len) as i64,
            z: ((v.z * SCALE as int) / len) as i64,
        }
    }
}

/// A component of a vector is bounded in magnitude by the vector's length.
proof fn lemma_component_le_len(c: int, n2: int, len: nat)
    requires
        c * c <= n2,
        len == sqrt_floor(n2 as nat),
        0 <= n2,
    ensures
        -(len as int) <= c <= len as int,
{
    lemma_sqrt_floor_correct(n2 as nat);
    assert(-(len as int) <= c <= len as int) by (nonlinear_arith)
        requires
            c * c <= n2,
            len * len <= n2 < (len + 1) * (len + 1),
    {}
}

/// Division of a bounded numerator keeps normalized components in
/// `[-SCALE, SCALE]`.
proof fn lemma_unit_component(c: int, len: int)
    requires
        0 < len,
        -len <= c <= len,
    ensures
        -(SCALE as int) <= (c * SCALE as int) / len <= SCALE as int,
{
    let s = SCALE as int;
    lemma_mul_abs_bound(c, s, len, s);
    lemma_div_is_ordered(c * s, len * s, len);
    lemma_div_is_ordered(-(len * s), c * s, len);
    lemma_div_multiples_vanish(s, len);
    lemma_div_multiples_vanish(-s, len);
    assert(len * s == s * len);
    assert(-(len * s) == -s * len);
}

/// Normalizes `v` to (approximately) unit length, `SCALE` standing for 1.
pub fn normalize(v: V3) -> (r: V3)
    requires
        -NORM_OPERAND_MAX <= v.x <= NORM_OPERAND_MAX,
        -NORM_OPERAND_MAX <= v.y <= NORM_OPERAND_MAX,
        -NORM_OPERAND_MAX <= v.z <= NORM_OPERAND_MAX,
    ensures
        r == normalize_spec(v),
        -SCALE <= r.x <= SCALE,
        -SCALE <= r.y <= SCALE,
        -SCALE <= r.z <= SCALE,
{
    proof {
        let m = NORM_OPERAND_MAX as int;
        lemma_mul_abs_bound(v.x as int, v.x as int, m, m);
        lemma_mul_abs_bound(v.y as int, v.y as int, m, m);
        lemma_mul_abs_bound(v.z as int, v.z as int, m, m);
        assert(v.x * v.x >= 0) by (nonlinear_arith) {}
        assert(v.y * v.y >= 0) by (nonlinear_arith) {}
        assert(v.z * v.z >= 0) by (nonlinear_arith) {}
    }
    let n2: i64 = v.x * v.x + v.y * v.y + v.z * v.z;
    let len: u64 = isqrt(n2 as u64);
    if len == 0 {
        proof {
            assert(sqrt_floor(norm_sq_spec(v) as nat) == 0);
        }
        V3 { x: 0, y: 0, z: 0 }
    } else {
        proof {
            lemma_component_le_len(v.x as int, n2 as int, len as nat);
            lemma_component_le_len(v.y as int, n2 as int, len as nat);
            lemma_component_le_len(v.z as int, n2 as int, len as nat);
            lemma_unit_component(v.x as int, len as int);
            lemma_unit_component(v.y as int, len as int);
            lemma_unit_component(v.z as int, len as int);
            lemma_mul_abs_bound(v.x as int, SCALE as int, NORM_OPERAND_MAX as int, SCALE as int);
            lemma_mul_abs_bound(v.y as int, SCALE as int, NORM_OPERAND_MAX as int, SCALE as int);
            lemma_mul_abs_bound(v.z as int, SCALE as int, NORM_OPERAND_MAX as int, SCALE as int);
        }
        V3 {
            x: div_floor(v.x * SCALE, len as i64),
            y: div_floor(v.y * SCALE, len as i64),
            z: div_floor(v.z * SCALE, len as i64),
        }
    }
}

} // verus!
