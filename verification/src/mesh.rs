//! Displaced sphere-face meshes.
//!
//! Each of the six cube faces is tessellated into a `resolution` by
//! `resolution` grid; every grid point is projected onto the unit sphere,
//! scaled to the planet radius, and pushed outward along its own radial
//! direction by the elevation image's red channel at that point.  Vertex
//! normals are recomputed from the displaced triangles.
use crate::fixed::{
    div_floor, fx_mul, fx_mul_spec, lemma_fx_mul_bound, lemma_mul_abs_bound, normalize,
    normalize_spec, V3, SCALE,
};
use vstd::arithmetic::div_mod::{
    lemma_div_is_ordered, lemma_div_multiples_vanish, lemma_div_pos_is_pos,
    lemma_fundamental_div_mod, lemma_hoist_over_denominator,
    lemma_mod_division_less_than_divisor,
};
use crate::grid::lemma_grid_decode;
use vstd::prelude::*;

verus! {

/// Radial displacement of a fully elevated vertex, in raw units (one
/// quarter of a unit): kept subtle relative to the planet radius.
pub const HEIGHT_MAP_SCALE: i64 = 16384;

/// Smallest accepted tessellation resolution: a grid needs two points per
/// axis.
pub const MIN_RESOLUTION: u32 = 2;

/// Largest accepted tessellation resolution.
pub const MAX_RESOLUTION: u32 = 1024;

/// Largest accepted planet radius, in raw units (sixteen whole units).
pub const MAX_RADIUS: i64 = 0x10_0000;

/// Largest accepted UV tiling scale, in raw units (256 whole units).
pub const MAX_UV_SCALE: i64 = 0x100_0000;

/// Largest accepted elevation image side length.
pub const MAX_ELEVATION_SIDE: u32 = 16384;

/// A UV coordinate pair in raw units.
#[derive(Clone, Copy, PartialEq, Eq, Structural, Debug)]
pub struct V2 {
    pub u: i64,
    pub v: i64,
}

/// The six cube faces, named by their outward normal.
#[derive(Clone, Copy, PartialEq, Eq, Structural, Debug)]
pub enum CubeFace {
    PosX,
    NegX,
    PosY,
    NegY,
    PosZ,
    NegZ,
}

/// An externally supplied elevation image: an RGBA byte buffer whose red
/// channel is the height fraction.
#[derive(Clone, PartialEq, Eq, Debug)]
pub struct ElevationImage {
    pub width: u32,
    pub height: u32,
    pub data: Vec<u8>,
}

impl ElevationImage {
    /// Well-formedness: positive bounded sides and exactly four bytes per
    /// pixel.
    pub open spec fn wf(self) -> bool {
        &&& 1 <= self.width <= MAX_ELEVATION_SIDE
        &&& 1 <= self.height <= MAX_ELEVATION_SIDE
        &&& self.data.len() == self.width * self.height * 4
    }

    /// Checks well-formedness of the buffer against the claimed sides.
    pub fn check(&self) -> (r: bool)
        ensures
            r == self.wf(),
    {
        if self.width < 1 || self.width > MAX_ELEVATION_SIDE || self.height < 1 || self.height
            > MAX_ELEVATION_SIDE {
            return false;
        }
        proof {
            assert(self.width * self.height * 4 <= 0x4000_0000) by (nonlinear_arith)
                requires
                    self.width <= 0x4000,
                    self.height <= 0x4000,
            {}
        }
        let expected: usize = (self.width as usize) * (self.height as usize) * 4;
        self.data.len() == expected
    }
}

impl CubeFace {
    /// The face's outward unit normal.
    pub open spec fn direction_spec(self) -> V3 {
        match self {
            CubeFace::PosX => V3 { x: 1, y: 0, z: 0 },
            CubeFace::NegX => V3 { x: -1i64, y: 0, z: 0 },
            CubeFace::PosY => V3 { x: 0, y: 1, z: 0 },
            CubeFace::NegY => V3 { x: 0, y: -1i64, z: 0 },
            CubeFace::PosZ => V3 { x: 0, y: 0, z: 1 },
            CubeFace::NegZ => V3 { x: 0, y: 0, z: -1i64 },
        }
    }

    /// The first in-plane axis: the direction's components rotated
    /// `(y, z, x)`.
    pub open spec fn axis_a_spec(self) -> V3 {
        let d = self.direction_spec();
        V3 { x: d.y, y: d.z, z: d.x }
    }

    /// The second in-plane axis: the cross product of the direction with
    /// the first axis.
    pub open spec fn axis_b_spec(self) -> V3 {
        let d = self.direction_spec();
        let a = self.axis_a_spec();
        V3 {
            x: (d.y * a.z - d.z * a.y) as i64,
            y: (d.z * a.x - d.x * a.z) as i64,
            z: (d.x * a.y - d.y * a.x) as i64,
        }
    }

    /// Returns the face's outward unit normal.
    pub fn direction(self) -> (r: V3)
        ensures
            r == self.direction_spec(),
    {
        match self {
            CubeFace::PosX => V3 { x: 1, y: 0, z: 0 },
            CubeFace::NegX => V3 { x: -1, y: 0, z: 0 },
            CubeFace::PosY => V3 { x: 0, y: 1, z: 0 },
            CubeFace::NegY => V3 { x: 0, y: -1, z: 0 },
            CubeFace::PosZ => V3 { x: 0, y: 0, z: 1 },
            CubeFace::NegZ => V3 { x: 0, y: 0, z: -1 },
        }
    }

    /// Returns both in-plane axes.
    fn axes(self) -> (r: (V3, V3))
        ensures
            r.0 == self.axis_a_spec(),
            r.1 == self.axis_b_spec(),
            -1 <= r.0.x <= 1 && -1 <= r.0.y <= 1 && -1 <= r.0.z <= 1,
            -1 <= r.1.x <= 1 && -1 <= r.1.y <= 1 && -1 <= r.1.z <= 1,
    {
        let d = self.direction();
        let a = V3 { x: d.y, y: d.z, z: d.x };
        proof {
            lemma_mul_abs_bound(d.y as int, a.z as int, 1, 1);
            lemma_mul_abs_bound(d.z as int, a.y as int, 1, 1);
            lemma_mul_abs_bound(d.z as int, a.x as int, 1, 1);
            lemma_mul_abs_bound(d.x as int, a.z as int, 1, 1);
            lemma_mul_abs_bound(d.x as int, a.y as int, 1, 1);
            lemma_mul_abs_bound(d.y as int, a.x as int, 1, 1);
        }
        let b = V3 {
            x: d.y * a.z - d.z * a.y,
            y: d.z * a.x - d.x * a.z,
            z: d.x * a.y - d.y * a.x,
        };
        (a, b)
    }
}

/// The grid fraction of step `x` out of `resolution` steps, in raw units:
/// `x / (resolution - 1)` scaled, so the first point is 0 and the last is
/// one whole unit.
pub open spec fn percent_spec(x: int, resolution: u32) -> int {
    (x * SCALE) / (resolution - 1)
}

/// The elevation image's red channel at sampling coordinates `(u, v)` in
/// `[0, SCALE]`: nearest pixel, clamped to the image bounds.
pub open spec fn elevation_at(img: ElevationImage, u: int, v: int) -> int {
    let xp = if (u * img.width) / (SCALE as int) > img.width - 1 {
        img.width - 1
    } else {
        (u * img.width) / (SCALE as int)
    };
    let yp = if (v * img.height) / (SCALE as int) > img.height - 1 {
        img.height - 1
    } else {
        (v * img.height) / (SCALE as int)
    };
    img.data[(yp * img.width + xp) * 4] as int
}

/// The radial displacement of elevation value `value` (0 to 255), in raw
/// units: the height fraction times `HEIGHT_MAP_SCALE`.
pub open spec fn displacement_of(value: int) -> int {
    (value * HEIGHT_MAP_SCALE) / 255
}

/// Displacement grows strictly with the sampled elevation value: raising
/// an elevation pixel strictly raises the vertex's radial magnitude
/// `radius + displacement`.
pub proof fn lemma_displacement_monotone(v1: int, v2: int)
    requires
        0 <= v1 < v2 <= 255,
    ensures
        displacement_of(v1) < displacement_of(v2),
{
    let s = HEIGHT_MAP_SCALE as int;
    assert(v2 * s >= v1 * s + s) by (nonlinear_arith)
        requires
            v1 < v2,
            s > 0,
    {}
    lemma_hoist_over_denominator(v1 * s, 64, 255nat);
    assert(v1 * s + 64 * 255 <= v2 * s);
    lemma_div_is_ordered(v1 * s + 64 * 255, v2 * s, 255);
}

/// Samples the elevation image's red channel at `(u, v)`, each in
/// `[0, SCALE]`, by nearest pixel clamped to the image bounds.
pub fn sample_height_map(img: &ElevationImage, u: i64, v: i64) -> (r: u8)
    requires
        img.wf(),
        0 <= u <= SCALE,
        0 <= v <= SCALE,
    ensures
        r as int == elevation_at(*img, u as int, v as int),
{
    proof {
        lemma_mul_abs_bound(u as int, img.width as int, SCALE as int, MAX_ELEVATION_SIDE as int);
        lemma_mul_abs_bound(v as int, img.height as int, SCALE as int, MAX_ELEVATION_SIDE as int);
    }
    let xq: i64 = div_floor(u * (img.width as i64), SCALE);
    let yq: i64 = div_floor(v * (img.height as i64), SCALE);
    let xp: u32 = if xq > (img.width - 1) as i64 {
        img.width - 1
    } else {
        proof {
            lemma_div_pos_is_pos(u as int * img.width as int, SCALE as int);
        }
        xq as u32
    };
    let yp: u32 = if yq > (img.height - 1) as i64 {
        img.height - 1
    } else {
        proof {
            lemma_div_pos_is_pos(v as int * img.height as int, SCALE as int);
        }
        yq as u32
    };
    proof {
        crate::grid::lemma_grid_index(yp as int, xp as int, img.height as int, img.width as int);
        assert((yp * img.width + xp) * 4 + 4 <= img.height as int * img.width as int * 4)
            by (nonlinear_arith)
            requires
                (yp as int * img.width as int + xp as int) < (img.height as int
                    * img.width as int),
        {}
        assert(img.width * img.height * 4 == img.height as int * img.width as int * 4)
            by (nonlinear_arith) {}
    }
    let idx: usize = ((yp as usize) * (img.width as usize) + (xp as usize)) * 4;
    img.data[idx]
}

/// The point of grid cell `(x, y)` on the unit cube face, in raw units:
/// the face normal plus the two in-plane axes swept across `[-1, 1]`.
pub open spec fn cube_point_spec(face: CubeFace, resolution: u32, x: int, y: int) -> V3 {
    let d = face.direction_spec();
    let a = face.axis_a_spec();
    let b = face.axis_b_spec();
    let px = 2 * percent_spec(x, resolution) - SCALE;
    let py = 2 * percent_spec(y, resolution) - SCALE;
    V3 {
        x: (d.x * SCALE + px * a.x + py * b.x) as i64,
        y: (d.y * SCALE + px * a.y + py * b.y) as i64,
        z: (d.z * SCALE + px * a.z + py * b.z) as i64,
    }
}

/// The displaced vertex of grid cell `(x, y)`: the cube point projected
/// onto the unit sphere, scaled to `radius`, and pushed along its own
/// radial direction by the sampled elevation's displacement.
#[verifier::opaque]
pub open spec fn vertex_spec(
    face: CubeFace,
    resolution: u32,
    radius: i64,
    img: ElevationImage,
    x: int,
    y: int,
) -> V3 {
    let unit = normalize_spec(cube_point_spec(face, resolution, x, y));
    let hu = percent_spec(x, resolution);
    let hv = percent_spec(y, resolution);
    let disp = displacement_of(elevation_at(img, hu, hv));
    V3 {
        x: (fx_mul_spec(unit.x as int, radius as int) + fx_mul_spec(unit.x as int, disp)) as i64,
        y: (fx_mul_spec(unit.y as int, radius as int) + fx_mul_spec(unit.y as int, disp)) as i64,
        z: (fx_mul_spec(unit.z as int, radius as int) + fx_mul_spec(unit.z as int, disp)) as i64,
    }
}

/// The UV coordinate of grid cell `(x, y)`: the grid fraction tiled by
/// `uv_scale`.
pub open spec fn uv_spec(resolution: u32, uv_scale: i64, x: int, y: int) -> V2 {
    V2 {
        u: fx_mul_spec(percent_spec(x, resolution), uv_scale as int) as i64,
        v: fx_mul_spec(percent_spec(y, resolution), uv_scale as int) as i64,
    }
}

/// Computes the grid fraction of step `x`, in `[0, SCALE]`.
fn percent(x: u32, resolution: u32) -> (r: i64)
    requires
        MIN_RESOLUTION <= resolution <= MAX_RESOLUTION,
        x < resolution,
    ensures
        r == percent_spec(x as int, resolution),
        0 <= r <= SCALE,
{
    proof {
        lemma_mul_abs_bound(x as int, SCALE as int, MAX_RESOLUTION as int, SCALE as int);
        lemma_div_pos_is_pos(x as int * SCALE as int, resolution as int - 1);
        lemma_mul_abs_bound(resolution as int - 1, SCALE as int, resolution as int - 1,
            SCALE as int);
        assert(x as int * SCALE as int <= (resolution - 1) as int * SCALE as int)
            by (nonlinear_arith)
            requires
                x < resolution,
                SCALE > 0,
        {}
        lemma_div_is_ordered(x as int * SCALE as int, (resolution - 1) as int * SCALE as int,
            resolution as int - 1);
        lemma_div_multiples_vanish(SCALE as int, resolution as int - 1);
        assert((resolution - 1) as int * SCALE as int == (resolution as int - 1) * (
        SCALE as int)) by (nonlinear_arith) {}
        assert((resolution as int - 1) * (SCALE as int) == (SCALE as int) * (resolution as int
            - 1)) by (nonlinear_arith) {}
    }
    div_floor((x as i64) * SCALE, (resolution - 1) as i64)
}

/// Computes the displaced vertex of grid cell `(x, y)`.
#[verifier::rlimit(50)]
fn compute_vertex(
    face: CubeFace,
    resolution: u32,
    radius: i64,
    img: &ElevationImage,
    x: u32,
    y: u32,
) -> (r: V3)
    requires
        MIN_RESOLUTION <= resolution <= MAX_RESOLUTION,
        x < resolution,
        y < resolution,
        1 <= radius <= MAX_RADIUS,
        img.wf(),
    ensures
        r == vertex_spec(face, resolution, radius, *img, x as int, y as int),
        -0x20_0000 <= r.x <= 0x20_0000,
        -0x20_0000 <= r.y <= 0x20_0000,
        -0x20_0000 <= r.z <= 0x20_0000,
{
    proof {
        reveal(vertex_spec);
    }
    let d = face.direction();
    let (a, b) = face.axes();
    let hu: i64 = percent(x, resolution);
    let hv: i64 = percent(y, resolution);
    let px: i64 = 2 * hu - SCALE;
    let py: i64 = 2 * hv - SCALE;
    proof {
        lemma_mul_abs_bound(px as int, a.x as int, SCALE as int, 1);
        lemma_mul_abs_bound(px as int, a.y as int, SCALE as int, 1);
        lemma_mul_abs_bound(px as int, a.z as int, SCALE as int, 1);
        lemma_mul_abs_bound(py as int, b.x as int, SCALE as int, 1);
        lemma_mul_abs_bound(py as int, b.y as int, SCALE as int, 1);
        lemma_mul_abs_bound(py as int, b.z as int, SCALE as int, 1);
        lemma_mul_abs_bound(d.x as int, SCALE as int, 1, SCALE as int);
        lemma_mul_abs_bound(d.y as int, SCALE as int, 1, SCALE as int);
        lemma_mul_abs_bound(d.z as int, SCALE as int, 1, SCALE as int);
    }
    let cube = V3 {
        x: d.x * SCALE + px * a.x + py * b.x,
        y: d.y * SCALE + px * a.y + py * b.y,
        z: d.z * SCALE + px * a.z + py * b.z,
    };
    let unit = normalize(cube);
    let val: u8 = sample_height_map(img, hu, hv);
    proof {
        lemma_mul_abs_bound(val as int, HEIGHT_MAP_SCALE as int, 255, HEIGHT_MAP_SCALE as int);
        lemma_div_pos_is_pos(val as int * HEIGHT_MAP_SCALE as int, 255);
        lemma_div_is_ordered(val as int * HEIGHT_MAP_SCALE as int, 255 * HEIGHT_MAP_SCALE as int,
            255);
        lemma_div_multiples_vanish(HEIGHT_MAP_SCALE as int, 255);
    }
    let disp: i64 = div_floor((val as i64) * HEIGHT_MAP_SCALE, 255);
    proof {
        lemma_fx_mul_bound(unit.x as int, radius as int, SCALE as int, MAX_RADIUS as int);
        lemma_fx_mul_bound(unit.y as int, radius as int, SCALE as int, MAX_RADIUS as int);
        lemma_fx_mul_bound(unit.z as int, radius as int, SCALE as int, MAX_RADIUS as int);
        lemma_fx_mul_bound(unit.x as int, disp as int, SCALE as int, HEIGHT_MAP_SCALE as int);
        lemma_fx_mul_bound(unit.y as int, disp as int, SCALE as int, HEIGHT_MAP_SCALE as int);
        lemma_fx_mul_bound(unit.z as int, disp as int, SCALE as int, HEIGHT_MAP_SCALE as int);
        lemma_div_multiples_vanish(MAX_RADIUS as int, SCALE as int);
        lemma_div_multiples_vanish(HEIGHT_MAP_SCALE as int, SCALE as int);
        assert(SCALE as int * MAX_RADIUS as int == MAX_RADIUS as int * SCALE as int
            && SCALE as int * HEIGHT_MAP_SCALE as int == HEIGHT_MAP_SCALE as int * SCALE as int)
            by (nonlinear_arith) {}
    }
    V3 {
        x: fx_mul(unit.x, radius) + fx_mul(unit.x, disp),
        y: fx_mul(unit.y, radius) + fx_mul(unit.y, disp),
        z: fx_mul(unit.z, radius) + fx_mul(unit.z, disp),
    }
}

/// The vertex index written at slot `j` (0 to 5) of the quad at
/// `(qx, qy)`: two triangles with consistent winding.
pub open spec fn quad_index_spec(resolution: u32, qx: int, qy: int, j: int) -> int {
    let i = qx + qy * resolution;
    if j == 0 {
        i
    } else if j == 1 {
        i + resolution + 1
    } else if j == 2 {
        i + resolution
    } else if j == 3 {
        i
    } else if j == 4 {
        i + 1
    } else {
        i + resolution + 1
    }
}

/// Entry `t` of the flat triangle index list: quads in scanline order, six
/// entries per quad.
pub open spec fn index_flat_spec(resolution: u32, t: int) -> int {
    let q = t / 6;
    quad_index_spec(resolution, q % (resolution - 1), q / (resolution - 1), t % 6)
}

/// Builds the triangle index list of a `resolution x resolution` grid:
/// each of the `(resolution - 1)^2` quads becomes two triangles.
fn build_indices(resolution: u32) -> (r: Vec<u32>)
    requires
        MIN_RESOLUTION <= resolution <= MAX_RESOLUTION,
    ensures
        r.len() == 6 * (resolution - 1) * (resolution - 1),
        forall|t: int|
            0 <= t < r.len() ==> #[trigger] r[t] == index_flat_spec(resolution, t) && r[t]
                < resolution * resolution,
{
    let side: u32 = resolution - 1;
    proof {
        assert(side * side <= 0x100_0000 && 6 * (side * side) <= 0x600_0000 && 6 * side * side
            == 6 * (side * side)) by (nonlinear_arith)
            requires
                side <= 0x1000,
        {}
    }
    let total_q: u32 = side * side;
    let mut indices: Vec<u32> = Vec::new();
    let mut q: u32 = 0;
    while q < total_q
        invariant
            MIN_RESOLUTION <= resolution <= MAX_RESOLUTION,
            side == resolution - 1,
            total_q == side * side,
            q <= total_q,
            indices.len() == 6 * q,
            forall|t: int|
                0 <= t < indices.len() ==> #[trigger] indices[t] == index_flat_spec(resolution, t)
                    && indices[t] < resolution * resolution,
        decreases total_q - q,
    {
        let qx: u32 = q % side;
        let qy: u32 = q / side;
        proof {
            lemma_fundamental_div_mod(q as int, side as int);
            lemma_mod_division_less_than_divisor(q as int, side as int);
            assert(qy < side) by (nonlinear_arith)
                requires
                    q as int == side as int * qy as int + qx as int,
                    0 <= qx < side,
                    q < side * side,
                    0 < side,
                    0 <= qy,
            {}
            assert(qx as int + qy as int * resolution as int + resolution as int + 1
                < resolution as int * resolution as int && resolution as int * resolution as int
                <= 0x10_0000) by (nonlinear_arith)
                requires
                    0 <= qx < side,
                    0 <= qy < side,
                    side == resolution - 1,
                    2 <= resolution <= 0x400,
            {}
        }
        let i: u32 = qx + qy * resolution;
        let ghost t0 = indices@.len() as int;
        indices.push(i);
        indices.push(i + resolution + 1);
        indices.push(i + resolution);
        indices.push(i);
        indices.push(i + 1);
        indices.push(i + resolution + 1);
        proof {
            lemma_grid_decode(qy as int, qx as int, side as int);
            assert forall|t: int| t0 <= t < t0 + 6 implies #[trigger] indices[t]
                == index_flat_spec(resolution, t) && indices[t] < resolution * resolution by {
                let j = t - t0;
                lemma_grid_decode(q as int, j, 6);
                assert(t == q * 6 + j);
                assert(t / 6 == q && t % 6 == j);
            }
        }
        q = q + 1;
    }
    proof {
        assert(indices.len() == 6 * ((resolution - 1) * (resolution - 1))
            == 6 * (resolution - 1) * (resolution - 1)) by (nonlinear_arith)
            requires
                indices.len() == 6 * (total_q as int),
                total_q == side * side,
                side == resolution - 1,
        {}
    }
    indices
}

/// The face normal of the triangle over `p0`, `p1`, `p2`: the cross
/// product of its two edges, scaled down one unit and normalized; the zero
/// vector when the triangle is degenerate.
pub open spec fn triangle_normal_spec(p0: V3, p1: V3, p2: V3) -> V3 {
    let e0x = p1.x - p0.x;
    let e0y = p1.y - p0.y;
    let e0z = p1.z - p0.z;
    let e1x = p2.x - p0.x;
    let e1y = p2.y - p0.y;
    let e1z = p2.z - p0.z;
    normalize_spec(
        V3 {
            x: ((e0y * e1z - e0z * e1y) / (SCALE as int)) as i64,
            y: ((e0z * e1x - e0x * e1z) / (SCALE as int)) as i64,
            z: ((e0x * e1y - e0y * e1x) / (SCALE as int)) as i64,
        },
    )
}

/// Computes a triangle's face normal.
fn triangle_normal(p0: V3, p1: V3, p2: V3) -> (r: V3)
    requires
        -0x20_0000 <= p0.x <= 0x20_0000 && -0x20_0000 <= p0.y <= 0x20_0000 && -0x20_0000 <= p0.z
            <= 0x20_0000,
        -0x20_0000 <= p1.x <= 0x20_0000 && -0x20_0000 <= p1.y <= 0x20_0000 && -0x20_0000 <= p1.z
            <= 0x20_0000,
        -0x20_0000 <= p2.x <= 0x20_0000 && -0x20_0000 <= p2.y <= 0x20_0000 && -0x20_0000 <= p2.z
            <= 0x20_0000,
    ensures
        r == triangle_normal_spec(p0, p1, p2),
        -SCALE <= r.x <= SCALE && -SCALE <= r.y <= SCALE && -SCALE <= r.z <= SCALE,
{
    let e0x: i64 = p1.x - p0.x;
    let e0y: i64 = p1.y - p0.y;
    let e0z: i64 = p1.z - p0.z;
    let e1x: i64 = p2.x - p0.x;
    let e1y: i64 = p2.y - p0.y;
    let e1z: i64 = p2.z - p0.z;
    proof {
        lemma_mul_abs_bound(e0y as int, e1z as int, 0x40_0000, 0x40_0000);
        lemma_mul_abs_bound(e0z as int, e1y as int, 0x40_0000, 0x40_0000);
        lemma_mul_abs_bound(e0z as int, e1x as int, 0x40_0000, 0x40_0000);
        lemma_mul_abs_bound(e0x as int, e1z as int, 0x40_0000, 0x40_0000);
        lemma_mul_abs_bound(e0x as int, e1y as int, 0x40_0000, 0x40_0000);
        lemma_mul_abs_bound(e0y as int, e1x as int, 0x40_0000, 0x40_0000);
    }
    let cx: i64 = e0y * e1z - e0z * e1y;
    let cy: i64 = e0z * e1x - e0x * e1z;
    let cz: i64 = e0x * e1y - e0y * e1x;
    let sx: i64 = div_floor(cx, SCALE);
    let sy: i64 = div_floor(cy, SCALE);
    let sz: i64 = div_floor(cz, SCALE);
    normalize(V3 { x: sx, y: sy, z: sz })
}

/// The zero vector.
pub open spec fn zero_v3() -> V3 {
    V3 { x: 0, y: 0, z: 0 }
}

/// Componentwise vector addition.
pub open spec fn v3_add(a: V3, b: V3) -> V3 {
    V3 { x: (a.x + b.x) as i64, y: (a.y + b.y) as i64, z: (a.z + b.z) as i64 }
}

/// The face normal of triangle `t` of the index list.
pub open spec fn face_normal_at(positions: Seq<V3>, indices: Seq<u32>, t: int) -> V3 {
    triangle_normal_spec(
        positions[indices[3 * t] as int],
        positions[indices[3 * t + 1] as int],
        positions[indices[3 * t + 2] as int],
    )
}

/// The per-vertex normal sums after the first `e` index entries: entry `e`
/// adds its triangle's face normal to its vertex's slot.
pub open spec fn accum_normals(positions: Seq<V3>, indices: Seq<u32>, e: nat) -> Seq<V3>
    decreases e,
{
    if e == 0 {
        Seq::new(positions.len(), |i: int| zero_v3())
    } else {
        let prev = accum_normals(positions, indices, (e - 1) as nat);
        let v = indices[e - 1] as int;
        prev.update(v, v3_add(prev[v], face_normal_at(positions, indices, (e - 1) / 3)))
    }
}

/// Caps an accumulated component at the normalizer's operand bound; the
/// cap can only engage if one vertex belonged to more than eight thousand
/// triangles, far beyond any grid tessellation, where a vertex meets at
/// most six.
pub open spec fn cap_component(c: int) -> i64 {
    if c > 0x2000_0000 {
        0x2000_0000
    } else if c < -0x2000_0000 {
        -0x2000_0000i64
    } else {
        c as i64
    }
}

/// The finished normal of vertex `v`: its accumulated face normals,
/// normalized.
pub open spec fn vertex_normal_spec(positions: Seq<V3>, indices: Seq<u32>, v: int) -> V3 {
    let acc = accum_normals(positions, indices, indices.len())[v];
    normalize_spec(
        V3 {
            x: cap_component(acc.x as int),
            y: cap_component(acc.y as int),
            z: cap_component(acc.z as int),
        },
    )
}

/// Caps one accumulated component.
fn cap_component_exec(c: i64) -> (r: i64)
    ensures
        r == cap_component(c as int),
        -0x2000_0000 <= r <= 0x2000_0000,
{
    if c > 0x2000_0000 {
        0x2000_0000
    } else if c < -0x2000_0000 {
        -0x2000_0000
    } else {
        c
    }
}

/// Recomputes per-vertex normals of the displaced mesh: every triangle's
/// face normal is accumulated into its three vertices and each sum is
/// normalized.
#[verifier::rlimit(100)]
pub fn compute_vertex_normals(positions: &Vec<V3>, indices: &Vec<u32>) -> (r: Vec<V3>)
    requires
        positions.len() <= 0x10_0000,
        forall|i: int|
            0 <= i < positions.len() ==> -0x20_0000 <= (#[trigger] positions[i]).x <= 0x20_0000
                && -0x20_0000 <= positions[i].y <= 0x20_0000 && -0x20_0000 <= positions[i].z
                <= 0x20_0000,
        indices.len() % 3 == 0,
        indices.len() <= 0x60_0000,
        forall|e: int| 0 <= e < indices.len() ==> (#[trigger] indices[e]) < positions.len(),
    ensures
        r.len() == positions.len(),
        forall|v: int|
            0 <= v < r.len() ==> #[trigger] r[v] == vertex_normal_spec(positions@, indices@, v),
{
    let triangle_count: usize = indices.len() / 3;
    proof {
        lemma_fundamental_div_mod(indices.len() as int, 3);
    }
    let mut face_normals: Vec<V3> = Vec::new();
    let mut t: usize = 0;
    while t < triangle_count
        invariant
            t <= triangle_count,
            3 * triangle_count == indices.len(),
            positions.len() <= 0x10_0000,
            forall|i: int|
                0 <= i < positions.len() ==> -0x20_0000 <= (#[trigger] positions[i]).x
                    <= 0x20_0000 && -0x20_0000 <= positions[i].y <= 0x20_0000 && -0x20_0000
                    <= positions[i].z <= 0x20_0000,
            forall|e: int| 0 <= e < indices.len() ==> (#[trigger] indices[e]) < positions.len(),
            face_normals.len() == t,
            forall|u: int|
                0 <= u < t ==> #[trigger] face_normals[u] == face_normal_at(
                    positions@,
                    indices@,
                    u,
                ) && -SCALE <= face_normals[u].x <= SCALE && -SCALE <= face_normals[u].y <= SCALE
                    && -SCALE <= face_normals[u].z <= SCALE,
        decreases triangle_count - t,
    {
        let i0: usize = indices[3 * t] as usize;
        let i1: usize = indices[3 * t + 1] as usize;
        let i2: usize = indices[3 * t + 2] as usize;
        let n = triangle_normal(positions[i0], positions[i1], positions[i2]);
        face_normals.push(n);
        t = t + 1;
    }
    let mut acc: Vec<V3> = Vec::new();
    let mut k: usize = 0;
    while k < positions.len()
        invariant
            k <= positions.len(),
            acc.len() == k,
            forall|i: int| 0 <= i < k ==> #[trigger] acc[i] == zero_v3(),
        decreases positions.len() - k,
    {
        acc.push(V3 { x: 0, y: 0, z: 0 });
        k = k + 1;
    }
    proof {
        assert(acc@ =~= accum_normals(positions@, indices@, 0));
    }
    let mut e: usize = 0;
    while e < indices.len()
        invariant
            e <= indices.len(),
            indices.len() <= 0x60_0000,
            3 * triangle_count == indices.len(),
            positions.len() <= 0x10_0000,
            acc.len() == positions.len(),
            face_normals.len() == triangle_count,
            forall|ei: int| 0 <= ei < indices.len() ==> (#[trigger] indices[ei]) < positions.len(),
            forall|u: int|
                0 <= u < triangle_count ==> #[trigger] face_normals[u] == face_normal_at(
                    positions@,
                    indices@,
                    u,
                ) && -SCALE <= face_normals[u].x <= SCALE && -SCALE <= face_normals[u].y <= SCALE
                    && -SCALE <= face_normals[u].z <= SCALE,
            acc@ == accum_normals(positions@, indices@, e as nat),
            forall|i: int|
                0 <= i < acc.len() ==> -(e as int) * 65536 <= (#[trigger] acc[i]).x <= (e as int)
                    * 65536 && -(e as int) * 65536 <= acc[i].y <= (e as int) * 65536 && -(
                e as int) * 65536 <= acc[i].z <= (e as int) * 65536,
        decreases indices.len() - e,
    {
        let v: usize = indices[e] as usize;
        let f: usize = e / 3;
        proof {
            lemma_fundamental_div_mod(e as int, 3);
            lemma_mod_division_less_than_divisor(e as int, 3);
            assert(f < triangle_count) by (nonlinear_arith)
                requires
                    e as int == 3 * (f as int) + (e as int % 3),
                    0 <= e as int % 3 < 3,
                    e < 3 * triangle_count,
                    0 <= f,
            {}
        }
        let prev: V3 = acc[v];
        let fnorm: V3 = face_normals[f];
        let updated = V3 { x: prev.x + fnorm.x, y: prev.y + fnorm.y, z: prev.z + fnorm.z };
        acc[v] = updated;
        e = e + 1;
        proof {
            assert(acc@ == accum_normals(positions@, indices@, e as nat));
        }
    }
    let mut out: Vec<V3> = Vec::new();
    let mut v: usize = 0;
    while v < acc.len()
        invariant
            v <= acc.len(),
            acc.len() == positions.len(),
            out.len() == v,
            acc@ == accum_normals(positions@, indices@, indices@.len()),
            forall|u: int|
                0 <= u < v ==> #[trigger] out[u] == vertex_normal_spec(positions@, indices@, u),
        decreases acc.len() - v,
    {
        let a = acc[v];
        let capped = V3 {
            x: cap_component_exec(a.x),
            y: cap_component_exec(a.y),
            z: cap_component_exec(a.z),
        };
        out.push(normalize(capped));
        v = v + 1;
    }
    out
}

/// A displaced triangle mesh of one cube face at one resolution.
#[derive(Clone, PartialEq, Eq, Debug)]
pub struct FaceMesh {
    pub positions: Vec<V3>,
    pub normals: Vec<V3>,
    pub uvs: Vec<V2>,
    pub indices: Vec<u32>,
}

/// Failures of mesh generation.
#[derive(Clone, Copy, PartialEq, Eq, Structural, Debug)]
pub enum MeshError {
    /// The resolution lies outside `[MIN_RESOLUTION, MAX_RESOLUTION]`.
    ResolutionOutOfRange,
    /// The radius lies outside `(0, MAX_RADIUS]`.
    RadiusOutOfRange,
    /// The UV scale lies outside `[0, MAX_UV_SCALE]`.
    UvScaleOutOfRange,
    /// The elevation image's buffer does not match its claimed dimensions.
    MalformedElevation,
}

/// The mesh `m` is exactly the mesh of the given face, resolution, radius,
/// UV scale and elevation image: every buffer entry is pinned.
pub open spec fn mesh_matches(
    m: FaceMesh,
    face: CubeFace,
    resolution: u32,
    radius: i64,
    uv_scale: i64,
    img: ElevationImage,
) -> bool {
    &&& m.positions.len() == resolution * resolution
    &&& m.normals.len() == resolution * resolution
    &&& m.uvs.len() == resolution * resolution
    &&& m.indices.len() == 6 * (resolution - 1) * (resolution - 1)
    &&& forall|x: int, y: int|
        #![trigger vertex_spec(face, resolution, radius, img, x, y)]
        0 <= x < resolution && 0 <= y < resolution ==> m.positions[y * resolution + x]
            == vertex_spec(face, resolution, radius, img, x, y)
    &&& forall|x: int, y: int|
        #![trigger uv_spec(resolution, uv_scale, x, y)]
        0 <= x < resolution && 0 <= y < resolution ==> m.uvs[y * resolution + x] == uv_spec(
            resolution,
            uv_scale,
            x,
            y,
        )
    &&& forall|t: int|
        0 <= t < m.indices.len() ==> #[trigger] m.indices[t] == index_flat_spec(resolution, t)
            && m.indices[t] < resolution * resolution
    &&& forall|v: int|
        0 <= v < m.normals.len() ==> #[trigger] m.normals[v] == vertex_normal_spec(
            m.positions@,
            m.indices@,
            v,
        )
}

/// Tessellates one cube face at `resolution`, projects it onto the sphere
/// of `radius`, displaces every vertex by the elevation image, and
/// recomputes the vertex normals.
///
/// The result is a total function of the arguments: generation succeeds
/// exactly when the parameters are in range and the image well-formed, and
/// every buffer entry is pinned by the returned contract.
#[verifier::rlimit(100)]
pub fn spawn_face(
    face: CubeFace,
    resolution: u32,
    radius: i64,
    uv_scale: i64,
    elevation: &ElevationImage,
) -> (r: Result<FaceMesh, MeshError>)
    ensures
        !(MIN_RESOLUTION <= resolution <= MAX_RESOLUTION) <==> r == Err::<FaceMesh, MeshError>(
            MeshError::ResolutionOutOfRange,
        ),
        (MIN_RESOLUTION <= resolution <= MAX_RESOLUTION && !(1 <= radius <= MAX_RADIUS)) <==> r
            == Err::<FaceMesh, MeshError>(MeshError::RadiusOutOfRange),
        (MIN_RESOLUTION <= resolution <= MAX_RESOLUTION && 1 <= radius <= MAX_RADIUS && !(0
            <= uv_scale <= MAX_UV_SCALE)) <==> r == Err::<FaceMesh, MeshError>(
            MeshError::UvScaleOutOfRange,
        ),
        (MIN_RESOLUTION <= resolution <= MAX_RESOLUTION && 1 <= radius <= MAX_RADIUS && 0
            <= uv_scale <= MAX_UV_SCALE && !elevation.wf()) <==> r == Err::<FaceMesh, MeshError>(
            MeshError::MalformedElevation,
        ),
        r is Ok <==> (MIN_RESOLUTION <= resolution <= MAX_RESOLUTION && 1 <= radius <= MAX_RADIUS
            && 0 <= uv_scale <= MAX_UV_SCALE && elevation.wf()),
        r matches Ok(m) ==> mesh_matches(m, face, resolution, radius, uv_scale, *elevation),
{
    if resolution < MIN_RESOLUTION || resolution > MAX_RESOLUTION {
        return Err(MeshError::ResolutionOutOfRange);
    }
    if radius < 1 || radius > MAX_RADIUS {
        return Err(MeshError::RadiusOutOfRange);
    }
    if uv_scale < 0 || uv_scale > MAX_UV_SCALE {
        return Err(MeshError::UvScaleOutOfRange);
    }
    if !elevation.check() {
        return Err(MeshError::MalformedElevation);
    }
    proof {
        assert(resolution * resolution <= 0x10_0000) by (nonlinear_arith)
            requires
                resolution <= 0x400,
        {}
    }
    let total: usize = (resolution as usize) * (resolution as usize);
    let mut positions: Vec<V3> = Vec::new();
    let mut uvs: Vec<V2> = Vec::new();
    let mut k: usize = 0;
    while k < total
        invariant
            MIN_RESOLUTION <= resolution <= MAX_RESOLUTION,
            1 <= radius <= MAX_RADIUS,
            0 <= uv_scale <= MAX_UV_SCALE,
            elevation.wf(),
            total == resolution * resolution,
            total <= 0x10_0000,
            positions.len() == k <= total,
            uvs.len() == k,
            forall|j: int|
                0 <= j < k ==> #[trigger] positions[j] == vertex_spec(
                    face,
                    resolution,
                    radius,
                    *elevation,
                    j % (resolution as int),
                    j / (resolution as int),
                ) && -0x20_0000 <= positions[j].x <= 0x20_0000 && -0x20_0000 <= positions[j].y
                    <= 0x20_0000 && -0x20_0000 <= positions[j].z <= 0x20_0000,
            forall|j: int|
                0 <= j < k ==> #[trigger] uvs[j] == uv_spec(
                    resolution,
                    uv_scale,
                    j % (resolution as int),
                    j / (resolution as int),
                ),
        decreases total - k,
    {
        let x: u32 = (k % (resolution as usize)) as u32;
        let y: u32 = (k / (resolution as usize)) as u32;
        proof {
            lemma_fundamental_div_mod(k as int, resolution as int);
            lemma_mod_division_less_than_divisor(k as int, resolution as int);
            assert(y < resolution) by (nonlinear_arith)
                requires
                    k as int == resolution as int * (y as int) + (x as int),
                    0 <= x < resolution,
                    k < resolution * resolution,
                    0 < resolution,
                    0 <= y,
            {}
        }
        let p = compute_vertex(face, resolution, radius, elevation, x, y);
        positions.push(p);
        let hu: i64 = percent(x, resolution);
        let hv: i64 = percent(y, resolution);
        proof {
            lemma_fx_mul_bound(hu as int, uv_scale as int, SCALE as int, MAX_UV_SCALE as int);
            lemma_fx_mul_bound(hv as int, uv_scale as int, SCALE as int, MAX_UV_SCALE as int);
        }
        uvs.push(V2 { u: fx_mul(hu, uv_scale), v: fx_mul(hv, uv_scale) });
        k = k + 1;
    }
    let indices = build_indices(resolution);
    proof {
        assert(indices.len() % 3 == 0 && indices.len() <= 0x60_0000) by (nonlinear_arith)
            requires
                indices.len() == 6 * (resolution - 1) * (resolution - 1),
                2 <= resolution <= 0x400,
        {}
    }
    let normals = compute_vertex_normals(&positions, &indices);
    let m = FaceMesh { positions, normals, uvs, indices };
    proof {
        assert forall|x: int, y: int|
            #![trigger vertex_spec(face, resolution, radius, *elevation, x, y)]
            0 <= x < resolution && 0 <= y < resolution implies m.positions[y * resolution + x]
            == vertex_spec(face, resolution, radius, *elevation, x, y) by {
            crate::grid::lemma_grid_index(y, x, resolution as int, resolution as int);
            lemma_grid_decode(y, x, resolution as int);
        }
        assert forall|x: int, y: int|
            #![trigger uv_spec(resolution, uv_scale, x, y)]
            0 <= x < resolution && 0 <= y < resolution implies m.uvs[y * resolution + x]
            == uv_spec(resolution, uv_scale, x, y) by {
            crate::grid::lemma_grid_index(y, x, resolution as int, resolution as int);
            lemma_grid_decode(y, x, resolution as int);
        }
        assert(m.positions.len() == resolution * resolution);
        assert(m.normals.len() == resolution * resolution);
        assert(m.uvs.len() == resolution * resolution);
        assert(m.indices.len() == 6 * (resolution - 1) * (resolution - 1));
        assert(forall|t: int|
            0 <= t < m.indices.len() ==> #[trigger] m.indices[t] == index_flat_spec(
                resolution,
                t,
            ) && m.indices[t] < resolution * resolution);
        assert(forall|v: int|
            0 <= v < m.normals.len() ==> #[trigger] m.normals[v] == vertex_normal_spec(
                m.positions@,
                m.indices@,
                v,
            ));
        assert(mesh_matches(m, face, resolution, radius, uv_scale, *elevation));
    }
    Ok(m)
}

/// Re-tessellation is idempotent: two meshes generated from identical
/// arguments hold numerically identical position, normal, UV and index
/// buffers.
pub proof fn lemma_spawn_face_deterministic(
    m1: FaceMesh,
    m2: FaceMesh,
    face: CubeFace,
    resolution: u32,
    radius: i64,
    uv_scale: i64,
    img: ElevationImage,
)
    requires
        MIN_RESOLUTION <= resolution <= MAX_RESOLUTION,
        mesh_matches(m1, face, resolution, radius, uv_scale, img),
        mesh_matches(m2, face, resolution, radius, uv_scale, img),
    ensures
        m1.positions@ == m2.positions@,
        m1.normals@ == m2.normals@,
        m1.uvs@ == m2.uvs@,
        m1.indices@ == m2.indices@,
{
    assert forall|j: int| 0 <= j < m1.positions.len() implies m1.positions@[j]
        == m2.positions@[j] && m1.uvs@[j] == m2.uvs@[j] by {
        lemma_fundamental_div_mod(j, resolution as int);
        lemma_mod_division_less_than_divisor(j, resolution as int);
        let x = j % (resolution as int);
        let y = j / (resolution as int);
        assert(y < resolution) by (nonlinear_arith)
            requires
                j == resolution as int * y + x,
                0 <= x < resolution,
                j < resolution * resolution,
                0 < resolution,
                0 <= y,
        {}
        assert(j == y * resolution + x) by (nonlinear_arith)
            requires
                j == resolution as int * y + x,
        {}
        assert(m1.positions[y * resolution + x] == vertex_spec(
            face,
            resolution,
            radius,
            img,
            x,
            y,
        ));
        assert(m2.positions[y * resolution + x] == vertex_spec(
            face,
            resolution,
            radius,
            img,
            x,
            y,
        ));
        assert(m1.uvs[y * resolution + x] == uv_spec(resolution, uv_scale, x, y));
        assert(m2.uvs[y * resolution + x] == uv_spec(resolution, uv_scale, x, y));
    }
    assert(m1.positions@ =~= m2.positions@);
    assert(m1.uvs@ =~= m2.uvs@);
    assert(m1.indices@ =~= m2.indices@);
    assert forall|v: int| 0 <= v < m1.normals.len() implies m1.normals@[v] == m2.normals@[v] by {
        assert(m1.normals[v] == vertex_normal_spec(m1.positions@, m1.indices@, v));
        assert(m2.normals[v] == vertex_normal_spec(m2.positions@, m2.indices@, v));
    }
    assert(m1.normals@ =~= m2.normals@);
}

} // verus!
