//! Coherent gradient noise over a 3-D integer lattice.
//!
//! A pseudo-random unit gradient is derived for every lattice point by an
//! integer bit-mixing hash (no table, no external entropy), so the same
//! lattice point always yields the same gradient.  A query point takes the
//! dot product of each surrounding corner's gradient with the offset to the
//! corner, blended with the smoothstep kernel `3w^2 - 2w^3` along each axis.
//! Eight octaves at doubling frequency and halving amplitude are summed,
//! boosted and clamped to `[-SCALE, SCALE]`.
//!
//! A hash may yield the all-zero gradient, which has no direction; a sample
//! touching such a corner is reported as `None` and the caller substitutes
//! its documented fallback.
use crate::fixed::{
    div_floor, fx_mul, fx_mul_spec, lemma_fx_mul_bound, lemma_mul_abs_bound, normalize,
    normalize_spec, norm_sq_spec, opt_eq, V3, SCALE,
};
use vstd::arithmetic::div_mod::{lemma_fundamental_div_mod, lemma_div_multiples_vanish};
use vstd::prelude::*;

verus! {

/// Lattice cells per noise period used when scaling input coordinates.
pub const GRID_SIZE: i64 = 400;

/// Number of fractal octaves summed per sample.
pub const OCTAVES: u32 = 8;

/// Magnitude bound on a single corner dot product.
pub const DOT_BOUND: i64 = 196611;

/// Magnitude bound on one octave of raw noise (three blend levels of 8x).
pub const PERLIN_BOUND: i64 = 100664832;

/// Bound accepted by `interpolate` operands.
pub const INTERP_OPERAND_MAX: i64 = 0x400_0000;

/// Largest lattice coordinate accepted by `sample`.
pub const COORD_MAX: u32 = 0x10_0000;

/// One round of the gradient hash: multiply, then fold the halves together.
pub open spec fn rot16(x: u32) -> u32 {
    x << 16u32 | x >> 16u32
}

/// The bit-mixing hash deriving three words from integer lattice coordinates.
pub open spec fn hash3_spec(ix: u32, iy: u32, iz: u32) -> (u32, u32, u32) {
    let a0 = vstd::wrapping::u32_specs::wrapping_mul(ix, 3284157443);
    let b0 = iy ^ rot16(a0);
    let b1 = vstd::wrapping::u32_specs::wrapping_mul(b0, 1911520717);
    let a1 = a0 ^ rot16(b1);
    let a2 = vstd::wrapping::u32_specs::wrapping_mul(a1, 2048419325);
    let c0 = iz ^ rot16(b1);
    let c1 = vstd::wrapping::u32_specs::wrapping_mul(c0, 4294967197);
    let a3 = a2 ^ rot16(c1);
    let b2 = b1 ^ rot16(a3);
    let a4 = a3 ^ rot16(b2);
    (a4, b2, c1)
}

/// One raw gradient component: `(h % 32) / 16 - 1` in fixed point.
pub open spec fn grad_component_spec(h: u32) -> int {
    (h % 32) * 4096 - 65536
}

/// The raw (unnormalized) gradient vector of a lattice point.
pub open spec fn raw_gradient_spec(ix: u32, iy: u32, iz: u32) -> V3 {
    let (a, b, c) = hash3_spec(ix, iy, iz);
    V3 {
        x: grad_component_spec(a) as i64,
        y: grad_component_spec(b) as i64,
        z: grad_component_spec(c) as i64,
    }
}

/// The unit gradient of a lattice point; `None` when the hash yields the
/// zero vector, which has no direction.
pub open spec fn gradient_spec(ix: u32, iy: u32, iz: u32) -> Option<V3> {
    let raw = raw_gradient_spec(ix, iy, iz);
    if norm_sq_spec(raw) == 0 {
        None
    } else {
        Some(normalize_spec(raw))
    }
}

/// Derives the pseudo-random unit gradient of lattice point `(ix, iy, iz)`.
fn gradient(ix: u32, iy: u32, iz: u32) -> (r: Option<V3>)
    ensures
        r == gradient_spec(ix, iy, iz),
        r matches Some(g) ==> -SCALE <= g.x <= SCALE && -SCALE <= g.y <= SCALE && -SCALE <= g.z
            <= SCALE,
{
    let mut a: u32 = ix;
    let mut b: u32 = iy;
    let mut c: u32 = iz;

    a = a.wrapping_mul(3284157443);
    b ^= a << 16u32 | a >> 16u32;
    b = b.wrapping_mul(1911520717);
    a ^= b << 16u32 | b >> 16u32;
    a = a.wrapping_mul(2048419325);
    c ^= b << 16u32 | b >> 16u32;
    c = c.wrapping_mul(4294967197);
    a ^= c << 16u32 | c >> 16u32;
    b ^= a << 16u32 | a >> 16u32;
    a ^= b << 16u32 | b >> 16u32;

    proof {
        assert((a, b, c) == hash3_spec(ix, iy, iz));
    }
    let raw = V3 {
        x: ((a % 32) as i64) * 4096 - 65536,
        y: ((b % 32) as i64) * 4096 - 65536,
        z: ((c % 32) as i64) * 4096 - 65536,
    };
    proof {
        assert(raw == raw_gradient_spec(ix, iy, iz));
        lemma_mul_abs_bound(raw.x as int, raw.x as int, 65536, 65536);
        lemma_mul_abs_bound(raw.y as int, raw.y as int, 65536, 65536);
        lemma_mul_abs_bound(raw.z as int, raw.z as int, 65536, 65536);
        assert(raw.x * raw.x >= 0) by (nonlinear_arith) {}
        assert(raw.y * raw.y >= 0) by (nonlinear_arith) {}
        assert(raw.z * raw.z >= 0) by (nonlinear_arith) {}
    }
    let n2: i64 = raw.x * raw.x + raw.y * raw.y + raw.z * raw.z;
    if n2 == 0 {
        None
    } else {
        Some(normalize(raw))
    }
}

/// The dot product of the corner gradient with the query offset; `None`
/// when the corner's gradient is degenerate.
pub open spec fn corner_dot_spec(ix: u32, iy: u32, iz: u32, dx: int, dy: int, dz: int) -> Option<
    int,
> {
    match gradient_spec(ix, iy, iz) {
        None => None,
        Some(g) => Some(
            fx_mul_spec(dx, g.x as int) + fx_mul_spec(dy, g.y as int) + fx_mul_spec(
                dz,
                g.z as int,
            ),
        ),
    }
}

/// Computes the offset-gradient dot product at one lattice corner.
fn corner_dot(ix: u32, iy: u32, iz: u32, dx: i64, dy: i64, dz: i64) -> (r: Option<i64>)
    requires
        -SCALE <= dx <= SCALE,
        -SCALE <= dy <= SCALE,
        -SCALE <= dz <= SCALE,
    ensures
        opt_eq(r, corner_dot_spec(ix, iy, iz, dx as int, dy as int, dz as int)),
        r matches Some(d) ==> -DOT_BOUND <= d <= DOT_BOUND,
{
    match gradient(ix, iy, iz) {
        None => None,
        Some(g) => {
            proof {
                lemma_fx_mul_bound(dx as int, g.x as int, SCALE as int, SCALE as int);
                lemma_fx_mul_bound(dy as int, g.y as int, SCALE as int, SCALE as int);
                lemma_fx_mul_bound(dz as int, g.z as int, SCALE as int, SCALE as int);
                lemma_div_multiples_vanish(SCALE as int, SCALE as int);
            }
            Some(fx_mul(dx, g.x) + fx_mul(dy, g.y) + fx_mul(dz, g.z))
        },
    }
}

/// The smoothstep blend `a0 + (a1 - a0) * (3 - 2w) * w * w` over raw values,
/// each product rounding toward negative infinity.
pub open spec fn interp_spec(a0: int, a1: int, w: int) -> int {
    a0 + fx_mul_spec(fx_mul_spec(fx_mul_spec(a1 - a0, 3 * SCALE - 2 * w), w), w)
}

/// The blend stays within eight times any common bound on its endpoints.
pub proof fn lemma_interp_bound(a0: int, a1: int, w: int, b: int)
    requires
        -b <= a0 <= b,
        -b <= a1 <= b,
        0 <= w <= SCALE,
        3 <= b,
    ensures
        -8 * b <= interp_spec(a0, a1, w) <= 8 * b,
{
    let s = SCALE as int;
    let d = a1 - a0;
    let t = 3 * s - 2 * w;
    let m1 = fx_mul_spec(d, t);
    let m2 = fx_mul_spec(m1, w);
    let m3 = fx_mul_spec(m2, w);
    lemma_fx_mul_bound(d, t, 2 * b, 3 * s);
    assert((2 * b * (3 * s)) / s == 6 * b) by {
        assert(2 * b * (3 * s) == (6 * b) * s) by (nonlinear_arith) {}
        lemma_div_multiples_vanish(6 * b, s);
    }
    assert(-(6 * b) - 1 <= m1 <= 6 * b);
    lemma_fx_mul_bound(m1, w, 6 * b + 1, s);
    assert(((6 * b + 1) * s) / s == 6 * b + 1) by {
        lemma_div_multiples_vanish(6 * b + 1, s);
        assert((6 * b + 1) * s == s * (6 * b + 1)) by (nonlinear_arith) {}
    }
    assert(-(6 * b + 1) - 1 <= m2 <= 6 * b + 1);
    lemma_fx_mul_bound(m2, w, 6 * b + 2, s);
    assert(((6 * b + 2) * s) / s == 6 * b + 2) by {
        lemma_div_multiples_vanish(6 * b + 2, s);
        assert((6 * b + 2) * s == s * (6 * b + 2)) by (nonlinear_arith) {}
    }
    assert(-(6 * b + 2) - 1 <= m3 <= 6 * b + 2);
}

/// Blends `a0` toward `a1` by the smoothstep kernel at weight `w`.
fn interpolate(a0: i64, a1: i64, w: i64) -> (r: i64)
    requires
        -INTERP_OPERAND_MAX <= a0 <= INTERP_OPERAND_MAX,
        -INTERP_OPERAND_MAX <= a1 <= INTERP_OPERAND_MAX,
        0 <= w <= SCALE,
    ensures
        r == interp_spec(a0 as int, a1 as int, w as int),
{
    let d: i64 = a1 - a0;
    let t: i64 = 3 * SCALE - 2 * w;
    proof {
        lemma_fx_mul_bound(d as int, t as int, 2 * INTERP_OPERAND_MAX as int, 3 * SCALE as int);
        assert((2 * INTERP_OPERAND_MAX as int * (3 * SCALE as int)) / (SCALE as int) == 6
            * INTERP_OPERAND_MAX as int) by {
            assert(2 * INTERP_OPERAND_MAX as int * (3 * SCALE as int) == (6
                * INTERP_OPERAND_MAX as int) * SCALE as int) by (nonlinear_arith) {}
            lemma_div_multiples_vanish(6 * INTERP_OPERAND_MAX as int, SCALE as int);
        }
    }
    let m1: i64 = fx_mul(d, t);
    proof {
        lemma_fx_mul_bound(m1 as int, w as int, 6 * INTERP_OPERAND_MAX as int + 1, SCALE as int);
        assert(((6 * INTERP_OPERAND_MAX as int + 1) * SCALE as int) / (SCALE as int) == 6
            * INTERP_OPERAND_MAX as int + 1) by {
            lemma_div_multiples_vanish(6 * INTERP_OPERAND_MAX as int + 1, SCALE as int);
            assert((6 * INTERP_OPERAND_MAX as int + 1) * SCALE as int == SCALE as int * (6
                * INTERP_OPERAND_MAX as int + 1)) by (nonlinear_arith) {}
        }
    }
    let m2: i64 = fx_mul(m1, w);
    proof {
        lemma_fx_mul_bound(m2 as int, w as int, 6 * INTERP_OPERAND_MAX as int + 2, SCALE as int);
        assert(((6 * INTERP_OPERAND_MAX as int + 2) * SCALE as int) / (SCALE as int) == 6
            * INTERP_OPERAND_MAX as int + 2) by {
            lemma_div_multiples_vanish(6 * INTERP_OPERAND_MAX as int + 2, SCALE as int);
            assert((6 * INTERP_OPERAND_MAX as int + 2) * SCALE as int == SCALE as int * (6
                * INTERP_OPERAND_MAX as int + 2)) by (nonlinear_arith) {}
        }
    }
    let m3: i64 = fx_mul(m2, w);
    a0 + m3
}

/// One octave of gradient noise at the fixed-point query point
/// `(x, y, z)`, each coordinate in raw units; `None` when any of the eight
/// surrounding corners has a degenerate gradient.
#[verifier::opaque]
pub open spec fn perlin_spec(x: int, y: int, z: int) -> Option<int> {
    let s = SCALE as int;
    let x0 = x / s;
    let y0 = y / s;
    let z0 = z / s;
    let sx = x - x0 * s;
    let sy = y - y0 * s;
    let sz = z - z0 * s;
    let n0 = corner_dot_spec(x0 as u32, y0 as u32, z0 as u32, sx, sy, sz);
    let n1 = corner_dot_spec((x0 + 1) as u32, y0 as u32, z0 as u32, sx - s, sy, sz);
    let n2 = corner_dot_spec(x0 as u32, (y0 + 1) as u32, z0 as u32, sx, sy - s, sz);
    let n3 = corner_dot_spec((x0 + 1) as u32, (y0 + 1) as u32, z0 as u32, sx - s, sy - s, sz);
    let n4 = corner_dot_spec(x0 as u32, y0 as u32, (z0 + 1) as u32, sx, sy, sz - s);
    let n5 = corner_dot_spec((x0 + 1) as u32, y0 as u32, (z0 + 1) as u32, sx - s, sy, sz - s);
    let n6 = corner_dot_spec(x0 as u32, (y0 + 1) as u32, (z0 + 1) as u32, sx, sy - s, sz - s);
    let n7 = corner_dot_spec(
        (x0 + 1) as u32,
        (y0 + 1) as u32,
        (z0 + 1) as u32,
        sx - s,
        sy - s,
        sz - s,
    );
    if n0 is Some && n1 is Some && n2 is Some && n3 is Some && n4 is Some && n5 is Some && n6
        is Some && n7 is Some {
        let ix0 = interp_spec(n0->0, n1->0, sx);
        let ix1 = interp_spec(n2->0, n3->0, sx);
        let iy0 = interp_spec(ix0, ix1, sy);
        let ix2 = interp_spec(n4->0, n5->0, sx);
        let ix3 = interp_spec(n6->0, n7->0, sx);
        let iy1 = interp_spec(ix2, ix3, sy);
        Some(interp_spec(iy0, iy1, sz))
    } else {
        None
    }
}

/// One octave of gradient noise at fixed-point coordinates.
#[verifier::rlimit(50)]
pub fn perlin_3d(x: i64, y: i64, z: i64) -> (r: Option<i64>)
    requires
        0 <= x <= 0x1000_0000_0000,
        0 <= y <= 0x1000_0000_0000,
        0 <= z <= 0x1000_0000_0000,
    ensures
        opt_eq(r, perlin_spec(x as int, y as int, z as int)),
        r matches Some(v) ==> -PERLIN_BOUND <= v <= PERLIN_BOUND,
{
    proof {
        reveal(perlin_spec);
    }
    let x0: i64 = div_floor(x, SCALE);
    let y0: i64 = div_floor(y, SCALE);
    let z0: i64 = div_floor(z, SCALE);
    proof {
        assert(x0 <= 0x1000_0000 && y0 <= 0x1000_0000 && z0 <= 0x1000_0000) by (nonlinear_arith)
            requires
                SCALE as int * x0 as int <= x as int <= 0x1000_0000_0000,
                SCALE as int * y0 as int <= y as int <= 0x1000_0000_0000,
                SCALE as int * z0 as int <= z as int <= 0x1000_0000_0000,
                x0 >= 0 && y0 >= 0 && z0 >= 0,
                SCALE == 65536,
        {}
    }
    let sx: i64 = x - x0 * SCALE;
    let sy: i64 = y - y0 * SCALE;
    let sz: i64 = z - z0 * SCALE;

    let n0 = corner_dot(x0 as u32, y0 as u32, z0 as u32, sx, sy, sz);
    let n1 = corner_dot((x0 + 1) as u32, y0 as u32, z0 as u32, sx - SCALE, sy, sz);
    let n2 = corner_dot(x0 as u32, (y0 + 1) as u32, z0 as u32, sx, sy - SCALE, sz);
    let n3 = corner_dot((x0 + 1) as u32, (y0 + 1) as u32, z0 as u32, sx - SCALE, sy - SCALE, sz);
    let n4 = corner_dot(x0 as u32, y0 as u32, (z0 + 1) as u32, sx, sy, sz - SCALE);
    let n5 = corner_dot((x0 + 1) as u32, y0 as u32, (z0 + 1) as u32, sx - SCALE, sy, sz - SCALE);
    let n6 = corner_dot(x0 as u32, (y0 + 1) as u32, (z0 + 1) as u32, sx, sy - SCALE, sz - SCALE);
    let n7 = corner_dot(
        (x0 + 1) as u32,
        (y0 + 1) as u32,
        (z0 + 1) as u32,
        sx - SCALE,
        sy - SCALE,
        sz - SCALE,
    );
    match (n0, n1, n2, n3, n4, n5, n6, n7) {
        (
            Some(n0),
            Some(n1),
            Some(n2),
            Some(n3),
            Some(n4),
            Some(n5),
            Some(n6),
            Some(n7),
        ) => {
            proof {
                lemma_interp_bound(n0 as int, n1 as int, sx as int, DOT_BOUND as int);
                lemma_interp_bound(n2 as int, n3 as int, sx as int, DOT_BOUND as int);
                lemma_interp_bound(n4 as int, n5 as int, sx as int, DOT_BOUND as int);
                lemma_interp_bound(n6 as int, n7 as int, sx as int, DOT_BOUND as int);
            }
            let ix0: i64 = interpolate(n0, n1, sx);
            let ix1: i64 = interpolate(n2, n3, sx);
            proof {
                lemma_interp_bound(ix0 as int, ix1 as int, sy as int, 8 * DOT_BOUND as int);
            }
            let iy0: i64 = interpolate(ix0, ix1, sy);
            let ix2: i64 = interpolate(n4, n5, sx);
            let ix3: i64 = interpolate(n6, n7, sx);
            proof {
                lemma_interp_bound(ix2 as int, ix3 as int, sy as int, 8 * DOT_BOUND as int);
            }
            let iy1: i64 = interpolate(ix2, ix3, sy);
            proof {
                lemma_interp_bound(iy0 as int, iy1 as int, sz as int, 64 * DOT_BOUND as int);
            }
            Some(interpolate(iy0, iy1, sz))
        },
        _ => None,
    }
}

/// Frequency multiplier of octave `o`: doubles each octave.
pub open spec fn octave_freq(o: nat) -> int
    decreases o,
{
    if o == 0 {
        1
    } else {
        2 * octave_freq((o - 1) as nat)
    }
}

/// The frequency of each of the first eight octaves lies in `[1, 256]`.
pub proof fn lemma_octave_freq_bound(o: nat)
    requires
        o <= 8,
    ensures
        1 <= octave_freq(o) <= 0x100,
{
    assert(octave_freq(0) == 1);
    assert(octave_freq(1) == 2);
    assert(octave_freq(2) == 4);
    assert(octave_freq(3) == 8);
    assert(octave_freq(4) == 16);
    assert(octave_freq(5) == 32);
    assert(octave_freq(6) == 64);
    assert(octave_freq(7) == 128);
    assert(octave_freq(8) == 256);
}

/// The fixed-point query coordinate of lattice coordinate `c` at octave
/// `o`: `c * freq / GRID_SIZE` in raw units.
pub open spec fn octave_coord(c: u32, o: nat) -> int {
    (c * octave_freq(o) * SCALE) / (GRID_SIZE as int)
}

/// Amplitude of octave `o`: halves each octave, starting at one.
pub open spec fn octave_amp(o: nat) -> int
    decreases o,
{
    if o == 0 {
        SCALE as int
    } else {
        octave_amp((o - 1) as nat) / 2
    }
}

/// The sum of the first `k` octaves at lattice point `(x, y, z)`, each
/// octave's raw noise weighted by its amplitude; `None` when any octave is
/// degenerate.
pub open spec fn fbm_sum(x: u32, y: u32, z: u32, k: nat) -> Option<int>
    decreases k,
{
    if k == 0 {
        Some(0)
    } else {
        let prior = fbm_sum(x, y, z, (k - 1) as nat);
        let o = (k - 1) as nat;
        let p = perlin_spec(octave_coord(x, o), octave_coord(y, o), octave_coord(z, o));
        if prior is Some && p is Some {
            Some(prior->0 + fx_mul_spec(p->0, octave_amp(o)))
        } else {
            None
        }
    }
}

/// Clamps `v` to `[-SCALE, SCALE]`.
pub open spec fn clamp_spec(v: int) -> int {
    if v > SCALE as int {
        SCALE as int
    } else if v < -SCALE as int {
        -SCALE as int
    } else {
        v
    }
}

/// The noise field's value at lattice point `(x, y, z)`: eight summed
/// octaves, boosted by 6/5 and clamped to `[-SCALE, SCALE]`; `None` when
/// a degenerate gradient corrupts the sum.
pub open spec fn sample_spec(x: u32, y: u32, z: u32) -> Option<int> {
    match fbm_sum(x, y, z, OCTAVES as nat) {
        None => None,
        Some(t) => Some(clamp_spec((t * 6) / 5)),
    }
}

/// One weighted octave at lattice point `(x, y, z)`: the raw octave noise
/// at the scaled query coordinates.
fn octave_value(x: u32, y: u32, z: u32, freq: i64, Ghost(o): Ghost<nat>) -> (r: Option<i64>)
    requires
        x <= COORD_MAX,
        y <= COORD_MAX,
        z <= COORD_MAX,
        1 <= freq <= 0x100,
        freq == octave_freq(o),
    ensures
        opt_eq(r, perlin_spec(octave_coord(x, o), octave_coord(y, o), octave_coord(z, o))),
        r matches Some(v) ==> -PERLIN_BOUND <= v <= PERLIN_BOUND,
{
    proof {
        lemma_mul_abs_bound(x as int, freq as int, COORD_MAX as int, 0x100);
        lemma_mul_abs_bound(y as int, freq as int, COORD_MAX as int, 0x100);
        lemma_mul_abs_bound(z as int, freq as int, COORD_MAX as int, 0x100);
    }
    let xs: i64 = (x as i64) * freq;
    let ys: i64 = (y as i64) * freq;
    let zs: i64 = (z as i64) * freq;
    proof {
        lemma_mul_abs_bound(xs as int, SCALE as int, 0x1000_0000, SCALE as int);
        lemma_mul_abs_bound(ys as int, SCALE as int, 0x1000_0000, SCALE as int);
        lemma_mul_abs_bound(zs as int, SCALE as int, 0x1000_0000, SCALE as int);
    }
    let xf: i64 = div_floor(xs * SCALE, GRID_SIZE);
    let yf: i64 = div_floor(ys * SCALE, GRID_SIZE);
    let zf: i64 = div_floor(zs * SCALE, GRID_SIZE);
    proof {
        assert(xf as int == octave_coord(x, o));
        assert(yf as int == octave_coord(y, o));
        assert(zf as int == octave_coord(z, o));
    }
    perlin_3d(xf, yf, zf)
}

/// Samples the noise field at integer lattice point `(x, y, z)`.
///
/// The result is fully determined by the coordinates: the same point always
/// yields the same value, and every defined value lies in
/// `[-SCALE, SCALE]`.
pub fn sample(x: u32, y: u32, z: u32) -> (r: Option<i64>)
    requires
        x <= COORD_MAX,
        y <= COORD_MAX,
        z <= COORD_MAX,
    ensures
        opt_eq(r, sample_spec(x, y, z)),
        r matches Some(v) ==> -SCALE <= v <= SCALE,
{
    let mut o: u32 = 0;
    let mut freq: i64 = 1;
    let mut amp: i64 = SCALE;
    let mut val: i64 = 0;
    while o < OCTAVES
        invariant
            0 <= o <= OCTAVES,
            x <= COORD_MAX,
            y <= COORD_MAX,
            z <= COORD_MAX,
            freq == octave_freq(o as nat),
            1 <= freq <= 0x100,
            amp == octave_amp(o as nat),
            0 <= amp <= SCALE,
            Some(val as int) == fbm_sum(x, y, z, o as nat),
            -(o as int) * 100664833 <= val <= (o as int) * 100664833,
        decreases OCTAVES - o,
    {
        let p = octave_value(x, y, z, freq, Ghost(o as nat));
        match p {
            None => {
                proof {
                    assert(fbm_sum(x, y, z, (o + 1) as nat) is None);
                    lemma_fbm_none_sticky(x, y, z, (o + 1) as nat, OCTAVES as nat);
                }
                return None;
            },
            Some(pv) => {
                proof {
                    lemma_fx_mul_bound(pv as int, amp as int, PERLIN_BOUND as int, SCALE as int);
                    lemma_div_multiples_vanish(PERLIN_BOUND as int, SCALE as int);
                    assert(PERLIN_BOUND as int * SCALE as int == SCALE as int
                        * PERLIN_BOUND as int) by (nonlinear_arith) {}
                }
                val = val + fx_mul(pv, amp);
            },
        }
        proof {
            assert(octave_freq((o + 1) as nat) == 2 * octave_freq(o as nat));
            assert(octave_amp((o + 1) as nat) == octave_amp(o as nat) / 2);
            lemma_octave_freq_bound((o + 1) as nat);
        }
        o = o + 1;
        freq = freq * 2;
        amp = div_floor(amp, 2);
    }
    let boosted: i64 = div_floor(val * 6, 5);
    let clamped: i64 = if boosted > SCALE {
        SCALE
    } else if boosted < -SCALE {
        -SCALE
    } else {
        boosted
    };
    Some(clamped)
}

/// Evaluates the noise field over a whole `dimensions`-sided cube lattice:
/// entry `[x][y][z]` is `sample(x, y, z)`.  The partitioner samples the
/// field lazily instead; this precomputed form serves callers that want
/// the full volume.
pub fn make_perlin_noise(dimensions: u32) -> (r: Vec<Vec<Vec<Option<i64>>>>)
    requires
        dimensions <= COORD_MAX,
    ensures
        r.len() == dimensions,
        forall|x: int| 0 <= x < dimensions ==> (#[trigger] r[x]).len() == dimensions,
        forall|x: int, y: int|
            0 <= x < dimensions && 0 <= y < dimensions ==> (#[trigger] r[x][y]).len()
                == dimensions,
        forall|x: int, y: int, z: int|
            0 <= x < dimensions && 0 <= y < dimensions && 0 <= z < dimensions ==> opt_eq(
                #[trigger] r[x][y][z],
                sample_spec(x as u32, y as u32, z as u32),
            ),
{
    let mut volume: Vec<Vec<Vec<Option<i64>>>> = Vec::new();
    let mut x: u32 = 0;
    while x < dimensions
        invariant
            dimensions <= COORD_MAX,
            x <= dimensions,
            volume.len() == x,
            forall|i: int| 0 <= i < x ==> (#[trigger] volume[i]).len() == dimensions,
            forall|i: int, j: int|
                0 <= i < x && 0 <= j < dimensions ==> (#[trigger] volume[i][j]).len()
                    == dimensions,
            forall|i: int, j: int, k: int|
                0 <= i < x && 0 <= j < dimensions && 0 <= k < dimensions ==> opt_eq(
                    #[trigger] volume[i][j][k],
                    sample_spec(i as u32, j as u32, k as u32),
                ),
        decreases dimensions - x,
    {
        let mut plane: Vec<Vec<Option<i64>>> = Vec::new();
        let mut y: u32 = 0;
        while y < dimensions
            invariant
                dimensions <= COORD_MAX,
                x < dimensions,
                y <= dimensions,
                plane.len() == y,
                forall|j: int| 0 <= j < y ==> (#[trigger] plane[j]).len() == dimensions,
                forall|j: int, k: int|
                    0 <= j < y && 0 <= k < dimensions ==> opt_eq(
                        #[trigger] plane[j][k],
                        sample_spec(x, j as u32, k as u32),
                    ),
            decreases dimensions - y,
        {
            let mut row: Vec<Option<i64>> = Vec::new();
            let mut z: u32 = 0;
            while z < dimensions
                invariant
                    dimensions <= COORD_MAX,
                    x < dimensions,
                    y < dimensions,
                    z <= dimensions,
                    row.len() == z,
                    forall|k: int|
                        0 <= k < z ==> opt_eq(#[trigger] row[k], sample_spec(x, y, k as u32)),
                decreases dimensions - z,
            {
                row.push(sample(x, y, z));
                z = z + 1;
            }
            plane.push(row);
            y = y + 1;
        }
        volume.push(plane);
        x = x + 1;
    }
    volume
}

/// Once one octave is degenerate, every longer octave sum is degenerate.
proof fn lemma_fbm_none_sticky(x: u32, y: u32, z: u32, k: nat, m: nat)
    requires
        fbm_sum(x, y, z, k) is None,
        k <= m,
    ensures
        fbm_sum(x, y, z, m) is None,
    decreases m - k,
{
    if k < m {
        lemma_fbm_none_sticky(x, y, z, (k + 1) as nat, m);
    }
}

/// Determinism of the noise field: two samples of the same lattice point
/// are bit-identical, since `sample` returns exactly `sample_spec`.
pub proof fn lemma_sample_deterministic(
    x: u32,
    y: u32,
    z: u32,
    r1: Option<i64>,
    r2: Option<i64>,
)
    requires
        opt_eq(r1, sample_spec(x, y, z)),
        opt_eq(r2, sample_spec(x, y, z)),
    ensures
        r1 == r2,
{
}

/// Bounds of the noise field: every defined sample lies in
/// `[-SCALE, SCALE]`, whatever the coordinates.
pub proof fn lemma_sample_bounds(x: u32, y: u32, z: u32)
    ensures
        sample_spec(x, y, z) matches Some(v) ==> -SCALE as int <= v <= SCALE as int,
{
}

} // verus!
