//! Province seeds and the noise-distorted Voronoi partitioner.
//!
//! A seed is a random lattice position paired with a random color; no two
//! seeds share a position and no two share a color.  Each pixel of each cube
//! face is assigned the color of the seed nearest to the pixel's lattice
//! point after that point is displaced by the noise field, which makes the
//! province boundaries organic rather than polygonal.
use crate::fixed::{fx_mul, fx_mul_spec, lemma_fx_mul_bound, lemma_mul_abs_bound, SCALE};
use crate::grid::{lemma_grid_index, FaceImage, Rgb8};
use crate::noise::{sample, sample_spec};
use vstd::arithmetic::div_mod::{
    lemma_div_multiples_vanish, lemma_fundamental_div_mod, lemma_mod_division_less_than_divisor,
};
use rand::Rng;
use vstd::prelude::*;

verus! {

/// Largest accepted lattice dimension.
pub const MAX_DIMENSION: u32 = 4096;

/// Smallest accepted lattice dimension: positions are drawn from
/// `[1, dimension - 1]`, which must hold at least two values.
pub const MIN_DIMENSION: u32 = 3;

/// How far a noise value of one displaces a lattice point, in whole lattice
/// cells.
pub const DISPLACEMENT_FACTOR: i64 = 84;

/// Random draws allowed per requested seed before generation reports
/// exhaustion.
pub const DRAWS_PER_SEED: u64 = 64;

/// A Voronoi seed site: a fill color and a lattice position.
#[derive(Clone, Copy, PartialEq, Eq, Structural, Debug)]
pub struct Seed {
    pub color: Rgb8,
    pub x: u32,
    pub y: u32,
    pub z: u32,
}

/// Failures of province generation.
#[derive(Clone, Copy, PartialEq, Eq, Structural, Debug)]
pub enum GenerationError {
    /// The lattice dimension lies outside `[MIN_DIMENSION, MAX_DIMENSION]`.
    DimensionOutOfRange,
    /// More seeds were requested than half the distinct positions or colors.
    SeedCountTooLarge,
    /// The random source kept colliding with existing seeds until the retry
    /// budget ran out.
    RetriesExhausted,
}

/// A seed's position lies in `[1, dimension - 1]` on every axis and every
/// color channel is nonzero.
pub open spec fn seed_ok(s: Seed, dimension: u32) -> bool {
    &&& 1 <= s.x <= dimension - 1
    &&& 1 <= s.y <= dimension - 1
    &&& 1 <= s.z <= dimension - 1
    &&& 1 <= s.color.r
    &&& 1 <= s.color.g
    &&& 1 <= s.color.b
}

/// No two seeds share a position.
pub open spec fn distinct_positions(seeds: Seq<Seed>) -> bool {
    forall|i: int, j: int|
        0 <= i < j < seeds.len() ==> !(seeds[i].x == seeds[j].x && seeds[i].y == seeds[j].y
            && seeds[i].z == seeds[j].z)
}

/// No two seeds share a color.
pub open spec fn distinct_colors(seeds: Seq<Seed>) -> bool {
    forall|i: int, j: int| 0 <= i < j < seeds.len() ==> seeds[i].color != seeds[j].color
}

/// The configuration is accepted when the dimension is in range and the
/// seed count claims at most half the available positions and colors.
pub open spec fn seed_config_ok(cell_count: usize, dimension: u32) -> bool {
    &&& MIN_DIMENSION <= dimension <= MAX_DIMENSION
    &&& 2 * cell_count <= (dimension - 1) * (dimension - 1) * (dimension - 1)
    &&& 2 * cell_count <= 255 * 255 * 255
}

/// Relies on `rand::Rng::gen_range` over `rand::thread_rng`: a draw from the
/// inclusive range `[lo, hi]`, which panics only on an empty range, excluded
/// here by `requires`.  Nothing beyond the range holds of a random draw.
#[verifier::external_body]
fn rand_in(lo: u32, hi: u32) -> (r: u32)
    requires
        lo <= hi,
    ensures
        lo <= r <= hi,
{
    rand::thread_rng().gen_range(lo..=hi)
}

/// Whether some seed already occupies position `(x, y, z)`.
fn position_taken(seeds: &Vec<Seed>, x: u32, y: u32, z: u32) -> (r: bool)
    ensures
        r == exists|i: int|
            0 <= i < seeds.len() && seeds[i].x == x && seeds[i].y == y && seeds[i].z == z,
{
    let mut k: usize = 0;
    while k < seeds.len()
        invariant
            k <= seeds.len(),
            forall|i: int| 0 <= i < k ==> !(seeds[i].x == x && seeds[i].y == y && seeds[i].z == z),
        decreases seeds.len() - k,
    {
        if seeds[k].x == x && seeds[k].y == y && seeds[k].z == z {
            return true;
        }
        k = k + 1;
    }
    false
}

/// Whether some seed already carries color `c`.
fn color_taken(seeds: &Vec<Seed>, c: Rgb8) -> (r: bool)
    ensures
        r == exists|i: int| 0 <= i < seeds.len() && seeds[i].color == c,
{
    let mut k: usize = 0;
    while k < seeds.len()
        invariant
            k <= seeds.len(),
            forall|i: int| 0 <= i < k ==> seeds[i].color != c,
        decreases seeds.len() - k,
    {
        if seeds[k].color.r == c.r && seeds[k].color.g == c.g && seeds[k].color.b == c.b {
            return true;
        }
        k = k + 1;
    }
    false
}

/// Generates `cell_count` seeds for a lattice of side `dimension`.
///
/// A draw is a uniformly random position in `[1, dimension - 1]` per axis
/// and a uniformly random color with each channel in `[1, 255]`; a draw
/// colliding with an already chosen position or color is rejected and
/// retried.  A configuration is rejected up front when the dimension is out
/// of range or the seed count claims more than half the distinct positions
/// or colors; a run of collisions beyond the retry budget surfaces as
/// `RetriesExhausted` rather than looping forever.
pub fn create_province_colors(cell_count: usize, dimension: u32) -> (r: Result<
    Vec<Seed>,
    GenerationError,
>)
    ensures
        !(MIN_DIMENSION <= dimension <= MAX_DIMENSION) <==> r == Err::<
            Vec<Seed>,
            GenerationError,
        >(GenerationError::DimensionOutOfRange),
        (MIN_DIMENSION <= dimension <= MAX_DIMENSION && !seed_config_ok(cell_count, dimension))
            <==> r == Err::<Vec<Seed>, GenerationError>(GenerationError::SeedCountTooLarge),
        r matches Ok(seeds) ==> {
            &&& seed_config_ok(cell_count, dimension)
            &&& seeds.len() == cell_count
            &&& forall|i: int| 0 <= i < seeds.len() ==> seed_ok(#[trigger] seeds[i], dimension)
            &&& distinct_positions(seeds@)
            &&& distinct_colors(seeds@)
        },
{
    if dimension < MIN_DIMENSION || dimension > MAX_DIMENSION {
        return Err(GenerationError::DimensionOutOfRange);
    }
    let side: u64 = (dimension - 1) as u64;
    proof {
        assert(side * side <= 0x100_0000 && side * side * side == ((dimension - 1) * (dimension
            - 1) * (dimension - 1)) as int && side * side * side <= 0x1_0000_0000_0000)
            by (nonlinear_arith)
            requires
                side == dimension - 1,
                2 <= side <= 0xFFF,
        {}
    }
    let volume: u64 = side * side * side;
    if (cell_count as u64) > volume / 2 || cell_count > 16581375 / 2 {
        proof {
            assert(2 * cell_count > volume <==> cell_count > volume / 2) by (nonlinear_arith)
                requires
                    volume >= 0,
            {}
        }
        return Err(GenerationError::SeedCountTooLarge);
    }
    proof {
        assert(2 * cell_count <= volume <==> cell_count <= volume / 2) by (nonlinear_arith)
            requires
                volume >= 0,
        {}
        assert(255 * 255 * 255 == 16581375) by (nonlinear_arith) {}
        assert(seed_config_ok(cell_count, dimension));
    }

    let mut seeds: Vec<Seed> = Vec::new();
    let mut budget: u64 = (cell_count as u64) * DRAWS_PER_SEED + DRAWS_PER_SEED;
    while seeds.len() < cell_count
        invariant
            seeds.len() <= cell_count,
            forall|i: int| 0 <= i < seeds.len() ==> seed_ok(#[trigger] seeds[i], dimension),
            distinct_positions(seeds@),
            distinct_colors(seeds@),
            seed_config_ok(cell_count, dimension),
        decreases budget,
    {
        if budget == 0 {
            return Err(GenerationError::RetriesExhausted);
        }
        budget = budget - 1;
        let x = rand_in(1, dimension - 1);
        let y = rand_in(1, dimension - 1);
        let z = rand_in(1, dimension - 1);
        if position_taken(&seeds, x, y, z) {
            continue;
        }
        let color = Rgb8 {
            r: rand_in(1, 255) as u8,
            g: rand_in(1, 255) as u8,
            b: rand_in(1, 255) as u8,
        };
        if color_taken(&seeds, color) {
            continue;
        }
        let ghost old_seeds = seeds@;
        seeds.push(Seed { color, x, y, z });
        proof {
            assert(seeds@ == old_seeds.push(Seed { color, x, y, z }));
            assert(distinct_positions(seeds@)) by {
                assert(forall|i: int| 0 <= i < old_seeds.len() ==> seeds@[i] == old_seeds[i]);
            }
            assert(distinct_colors(seeds@)) by {
                assert(forall|i: int| 0 <= i < old_seeds.len() ==> seeds@[i] == old_seeds[i]);
            }
        }
    }
    Ok(seeds)
}

/// The 3-D lattice point that pixel `(x, y)` of cube face `f` samples:
/// the face-normal axis is pinned to the near or far side of the lattice.
pub open spec fn face_coord(f: int, dimension: u32, x: int, y: int) -> (int, int, int) {
    if f == 0 {
        ((dimension - 1) as int, x, y)
    } else if f == 1 {
        (0, x, y)
    } else if f == 2 {
        (x, (dimension - 1) as int, y)
    } else if f == 3 {
        (x, 0, y)
    } else if f == 4 {
        (x, y, (dimension - 1) as int)
    } else {
        (x, y, 0)
    }
}

/// The noise value used at scanline position `k` of face `f` (pixel
/// `(k / dimension, k % dimension)`): the field's sample, or, where the
/// sample is degenerate, the previous scanline position's value (zero at
/// the start of the face).
pub open spec fn face_noise(f: int, dimension: u32, k: nat) -> int
    decreases k,
{
    let x = k as int / dimension as int;
    let y = k as int % dimension as int;
    let c = face_coord(f, dimension, x, y);
    match sample_spec(c.0 as u32, c.1 as u32, c.2 as u32) {
        Some(v) => v,
        None => if k == 0 {
            0
        } else {
            face_noise(f, dimension, (k - 1) as nat)
        },
    }
}

/// The lattice point of scanline position `k` of face `f`, in raw units,
/// displaced along the face's two in-plane axes by the noise value times
/// `DISPLACEMENT_FACTOR`.
pub open spec fn displaced_point(f: int, dimension: u32, k: nat) -> (int, int, int) {
    let x = k as int / dimension as int;
    let y = k as int % dimension as int;
    let c = face_coord(f, dimension, x, y);
    let off = fx_mul_spec(face_noise(f, dimension, k), DISPLACEMENT_FACTOR * SCALE as int);
    if f == 0 || f == 1 {
        (c.0 * SCALE, c.1 * SCALE + off, c.2 * SCALE + off)
    } else if f == 2 || f == 3 {
        (c.0 * SCALE + off, c.1 * SCALE, c.2 * SCALE + off)
    } else {
        (c.0 * SCALE + off, c.1 * SCALE + off, c.2 * SCALE)
    }
}

/// The squared Euclidean distance from raw point `(px, py, pz)` to the
/// seed's lattice position.
pub open spec fn dist_sq(px: int, py: int, pz: int, s: Seed) -> int {
    (px - s.x * SCALE) * (px - s.x * SCALE) + (py - s.y * SCALE) * (py - s.y * SCALE) + (pz - s.z
        * SCALE) * (pz - s.z * SCALE)
}

/// The index of the seed nearest to `(px, py, pz)` among the first `n`
/// seeds; on ties the earliest seed wins, as only a strictly smaller
/// distance replaces the running best.
pub open spec fn nearest_seed(seeds: Seq<Seed>, px: int, py: int, pz: int, n: nat) -> int
    decreases n,
{
    if n <= 1 {
        0
    } else {
        let prev = nearest_seed(seeds, px, py, pz, (n - 1) as nat);
        if dist_sq(px, py, pz, seeds[n - 1]) < dist_sq(px, py, pz, seeds[prev]) {
            n - 1
        } else {
            prev
        }
    }
}

/// The nearest-seed index always points into the seed list.
pub proof fn lemma_nearest_in_range(seeds: Seq<Seed>, px: int, py: int, pz: int, n: nat)
    requires
        1 <= n <= seeds.len(),
    ensures
        0 <= nearest_seed(seeds, px, py, pz, n) < n,
    decreases n,
{
    if n > 1 {
        lemma_nearest_in_range(seeds, px, py, pz, (n - 1) as nat);
    }
}

/// The color of scanline position `k` of the raw (pre-orientation) image
/// of face `f`: the color of the seed nearest to the displaced point.
#[verifier::opaque]
pub open spec fn face_pixel(seeds: Seq<Seed>, f: int, dimension: u32, k: nat) -> Rgb8 {
    let p = displaced_point(f, dimension, k);
    seeds[nearest_seed(seeds, p.0, p.1, p.2, seeds.len() as nat)].color
}

/// The pixel of the raw image of face `f` at coordinates `(x, y)`.
pub open spec fn raw_pixel(seeds: Seq<Seed>, f: int, dimension: u32, x: int, y: int) -> Rgb8 {
    face_pixel(seeds, f, dimension, (x * dimension + y) as nat)
}

/// Every raw face pixel carries the color of one of the seeds.
pub proof fn lemma_partition_coverage(seeds: Seq<Seed>, f: int, dimension: u32, k: nat)
    requires
        1 <= seeds.len(),
    ensures
        exists|i: int| 0 <= i < seeds.len() && face_pixel(seeds, f, dimension, k) == seeds[i].color,
{
    reveal(face_pixel);
    let p = displaced_point(f, dimension, k);
    lemma_nearest_in_range(seeds, p.0, p.1, p.2, seeds.len() as nat);
    let w = nearest_seed(seeds, p.0, p.1, p.2, seeds.len() as nat);
    assert(0 <= w < seeds.len() && face_pixel(seeds, f, dimension, k) == seeds[w].color);
}

/// Computes the squared distance from a raw point to a seed's position.
fn dist_sq_exec(px: i64, py: i64, pz: i64, s: &Seed) -> (r: i64)
    requires
        -0x1100_0000 <= px <= 0x1100_0000,
        -0x1100_0000 <= py <= 0x1100_0000,
        -0x1100_0000 <= pz <= 0x1100_0000,
        s.x <= 0xFFF,
        s.y <= 0xFFF,
        s.z <= 0xFFF,
    ensures
        r == dist_sq(px as int, py as int, pz as int, *s),
{
    let dx: i64 = px - (s.x as i64) * SCALE;
    let dy: i64 = py - (s.y as i64) * SCALE;
    let dz: i64 = pz - (s.z as i64) * SCALE;
    proof {
        lemma_mul_abs_bound(dx as int, dx as int, 0x2100_0000, 0x2100_0000);
        lemma_mul_abs_bound(dy as int, dy as int, 0x2100_0000, 0x2100_0000);
        lemma_mul_abs_bound(dz as int, dz as int, 0x2100_0000, 0x2100_0000);
        assert(dx * dx >= 0) by (nonlinear_arith) {}
        assert(dy * dy >= 0) by (nonlinear_arith) {}
        assert(dz * dz >= 0) by (nonlinear_arith) {}
    }
    dx * dx + dy * dy + dz * dz
}

/// Finds the first seed at minimal distance from `(px, py, pz)`.
fn nearest_seed_index(seeds: &Vec<Seed>, px: i64, py: i64, pz: i64) -> (r: usize)
    requires
        1 <= seeds.len(),
        -0x1100_0000 <= px <= 0x1100_0000,
        -0x1100_0000 <= py <= 0x1100_0000,
        -0x1100_0000 <= pz <= 0x1100_0000,
        forall|i: int|
            0 <= i < seeds.len() ==> #[trigger] seeds[i].x <= 0xFFF && seeds[i].y <= 0xFFF
                && seeds[i].z <= 0xFFF,
    ensures
        r == nearest_seed(seeds@, px as int, py as int, pz as int, seeds@.len() as nat),
        r < seeds.len(),
{
    let mut best: usize = 0;
    let mut best_d: i64 = dist_sq_exec(px, py, pz, &seeds[0]);
    let mut j: usize = 1;
    while j < seeds.len()
        invariant
            1 <= j <= seeds.len(),
            best < j,
            -0x1100_0000 <= px <= 0x1100_0000,
            -0x1100_0000 <= py <= 0x1100_0000,
            -0x1100_0000 <= pz <= 0x1100_0000,
            forall|i: int|
                0 <= i < seeds.len() ==> #[trigger] seeds[i].x <= 0xFFF && seeds[i].y <= 0xFFF
                    && seeds[i].z <= 0xFFF,
            best == nearest_seed(seeds@, px as int, py as int, pz as int, j as nat),
            best_d == dist_sq(px as int, py as int, pz as int, seeds@[best as int]),
        decreases seeds.len() - j,
    {
        let d: i64 = dist_sq_exec(px, py, pz, &seeds[j]);
        if d < best_d {
            best = j;
            best_d = d;
        }
        j = j + 1;
    }
    best
}

/// Rasterizes the raw (pre-orientation) image of cube face `f`: pixel
/// `(x, y)` gets the color of the seed nearest to that pixel's
/// noise-displaced lattice point; a degenerate noise sample falls back to
/// the previous scanline position's value.
#[verifier::rlimit(100)]
fn rasterize_face(seeds: &Vec<Seed>, dimension: u32, f: u32) -> (out: FaceImage)
    requires
        1 <= seeds.len(),
        forall|i: int| 0 <= i < seeds.len() ==> seed_ok(#[trigger] seeds[i], dimension),
        MIN_DIMENSION <= dimension <= MAX_DIMENSION,
        f < 6,
    ensures
        out.wf(),
        out.width == dimension,
        out.height == dimension,
        forall|k: int|
            0 <= k < dimension * dimension ==> out.pixels[k] == face_pixel(
                seeds@,
                f as int,
                dimension,
                k as nat,
            ),
{
    proof {
        lemma_grid_index(dimension as int - 1, dimension as int - 1, dimension as int,
            dimension as int);
        assert(dimension * dimension <= 0x100_0000) by (nonlinear_arith)
            requires
                dimension <= 0x1000,
        {}
    }
    let total: usize = (dimension as usize) * (dimension as usize);
    let mut pixels: Vec<Rgb8> = Vec::new();
    let mut prev: i64 = 0;
    let mut k: usize = 0;
    while k < total
        invariant
            1 <= seeds.len(),
            forall|i: int| 0 <= i < seeds.len() ==> seed_ok(#[trigger] seeds[i], dimension),
            MIN_DIMENSION <= dimension <= MAX_DIMENSION,
            f < 6,
            total == dimension * dimension,
            pixels.len() == k <= total,
            -SCALE <= prev <= SCALE,
            k == 0 ==> prev == 0,
            k > 0 ==> prev == face_noise(f as int, dimension, (k - 1) as nat),
            forall|j: int|
                0 <= j < k ==> pixels[j] == face_pixel(seeds@, f as int, dimension, j as nat),
        decreases total - k,
    {
        let x: usize = k / (dimension as usize);
        let y: usize = k % (dimension as usize);
        proof {
            lemma_fundamental_div_mod(k as int, dimension as int);
            lemma_mod_division_less_than_divisor(k as int, dimension as int);
            assert(x < dimension) by (nonlinear_arith)
                requires
                    k as int == dimension as int * x as int + y as int,
                    0 <= y < dimension,
                    k < dimension * dimension,
                    0 < dimension,
                    0 <= x,
            {}
        }
        let (cx, cy, cz): (u32, u32, u32) = if f == 0 {
            (dimension - 1, x as u32, y as u32)
        } else if f == 1 {
            (0, x as u32, y as u32)
        } else if f == 2 {
            (x as u32, dimension - 1, y as u32)
        } else if f == 3 {
            (x as u32, 0, y as u32)
        } else if f == 4 {
            (x as u32, y as u32, dimension - 1)
        } else {
            (x as u32, y as u32, 0)
        };
        proof {
            let c = face_coord(f as int, dimension, x as int, y as int);
            assert(cx as int == c.0 && cy as int == c.1 && cz as int == c.2);
        }
        let nv: i64 = match sample(cx, cy, cz) {
            Some(v) => v,
            None => prev,
        };
        proof {
            assert(nv == face_noise(f as int, dimension, k as nat));
        }
        prev = nv;
        proof {
            lemma_fx_mul_bound(nv as int, DISPLACEMENT_FACTOR as int * SCALE as int,
                SCALE as int, DISPLACEMENT_FACTOR as int * SCALE as int);
            lemma_div_multiples_vanish(DISPLACEMENT_FACTOR as int * SCALE as int, SCALE as int);
            assert(SCALE as int * (DISPLACEMENT_FACTOR as int * SCALE as int)
                == DISPLACEMENT_FACTOR as int * SCALE as int * SCALE as int) by (nonlinear_arith)
            {}
        }
        let off: i64 = fx_mul(nv, DISPLACEMENT_FACTOR * SCALE);
        let base_x: i64 = (cx as i64) * SCALE;
        let base_y: i64 = (cy as i64) * SCALE;
        let base_z: i64 = (cz as i64) * SCALE;
        let (px, py, pz): (i64, i64, i64) = if f == 0 || f == 1 {
            (base_x, base_y + off, base_z + off)
        } else if f == 2 || f == 3 {
            (base_x + off, base_y, base_z + off)
        } else {
            (base_x + off, base_y + off, base_z)
        };
        proof {
            let p = displaced_point(f as int, dimension, k as nat);
            assert(px as int == p.0 && py as int == p.1 && pz as int == p.2);
        }
        let idx: usize = nearest_seed_index(seeds, px, py, pz);
        let color = seeds[idx].color;
        pixels.push(color);
        proof {
            reveal(face_pixel);
            assert(color == face_pixel(seeds@, f as int, dimension, k as nat));
        }
        k = k + 1;
    }
    FaceImage { width: dimension, height: dimension, pixels }
}

/// Rasterizes all six cube faces and applies the fixed per-face flips and
/// rotations that make the images tile consistently around the cube: face 0
/// is mirrored, face 2 turned a quarter counter-clockwise, face 3 mirrored
/// then turned a quarter clockwise, face 4 mirrored.
pub fn create_provinces_images(seeds: &Vec<Seed>, dimension: u32) -> (r: Vec<FaceImage>)
    requires
        1 <= seeds.len(),
        forall|i: int| 0 <= i < seeds.len() ==> seed_ok(#[trigger] seeds[i], dimension),
        MIN_DIMENSION <= dimension <= MAX_DIMENSION,
    ensures
        r.len() == 6,
        forall|f: int|
            0 <= f < 6 ==> (#[trigger] r[f]).wf() && r[f].width == dimension && r[f].height
                == dimension,
        forall|x: int, y: int|
            0 <= x < dimension && 0 <= y < dimension ==> r[0].pixel_at(x, y) == raw_pixel(
                seeds@,
                0,
                dimension,
                dimension - 1 - x,
                y,
            ),
        forall|x: int, y: int|
            0 <= x < dimension && 0 <= y < dimension ==> r[1].pixel_at(x, y) == raw_pixel(
                seeds@,
                1,
                dimension,
                x,
                y,
            ),
        forall|x: int, y: int|
            0 <= x < dimension && 0 <= y < dimension ==> r[2].pixel_at(x, y) == raw_pixel(
                seeds@,
                2,
                dimension,
                dimension - 1 - y,
                x,
            ),
        forall|x: int, y: int|
            0 <= x < dimension && 0 <= y < dimension ==> r[3].pixel_at(x, y) == raw_pixel(
                seeds@,
                3,
                dimension,
                dimension - 1 - y,
                dimension - 1 - x,
            ),
        forall|x: int, y: int|
            0 <= x < dimension && 0 <= y < dimension ==> r[4].pixel_at(x, y) == raw_pixel(
                seeds@,
                4,
                dimension,
                dimension - 1 - x,
                y,
            ),
        forall|x: int, y: int|
            0 <= x < dimension && 0 <= y < dimension ==> r[5].pixel_at(x, y) == raw_pixel(
                seeds@,
                5,
                dimension,
                x,
                y,
            ),
{
    let raw0 = rasterize_face(seeds, dimension, 0);
    let raw1 = rasterize_face(seeds, dimension, 1);
    let raw2 = rasterize_face(seeds, dimension, 2);
    let raw3 = rasterize_face(seeds, dimension, 3);
    let raw4 = rasterize_face(seeds, dimension, 4);
    let raw5 = rasterize_face(seeds, dimension, 5);
    proof {
        lemma_raw_face_pixels(raw0, seeds@, 0, dimension);
        lemma_raw_face_pixels(raw1, seeds@, 1, dimension);
        lemma_raw_face_pixels(raw2, seeds@, 2, dimension);
        lemma_raw_face_pixels(raw3, seeds@, 3, dimension);
        lemma_raw_face_pixels(raw4, seeds@, 4, dimension);
        lemma_raw_face_pixels(raw5, seeds@, 5, dimension);
    }
    let face0 = crate::grid::flip_horizontal(&raw0);
    let face2 = crate::grid::rotate270(&raw2);
    let face3_flipped = crate::grid::flip_horizontal(&raw3);
    let face3 = crate::grid::rotate90(&face3_flipped);
    let face4 = crate::grid::flip_horizontal(&raw4);
    let mut out: Vec<FaceImage> = Vec::new();
    out.push(face0);
    out.push(raw1);
    out.push(face2);
    out.push(face3);
    out.push(face4);
    out.push(raw5);
    out
}

/// Bridges a rasterized face's flat pixel contract to coordinates.
proof fn lemma_raw_face_pixels(img: FaceImage, seeds: Seq<Seed>, f: int, dimension: u32)
    requires
        img.wf(),
        img.width == dimension,
        img.height == dimension,
        forall|k: int|
            0 <= k < dimension * dimension ==> img.pixels[k] == face_pixel(
                seeds,
                f,
                dimension,
                k as nat,
            ),
    ensures
        forall|x: int, y: int|
            0 <= x < dimension && 0 <= y < dimension ==> #[trigger] img.pixel_at(x, y)
                == raw_pixel(seeds, f, dimension, x, y),
{
    assert forall|x: int, y: int|
        0 <= x < dimension && 0 <= y < dimension implies #[trigger] img.pixel_at(x, y)
        == raw_pixel(seeds, f, dimension, x, y) by {
        lemma_grid_index(x, y, dimension as int, dimension as int);
    }
}

/// Appends a color to the accumulator unless it is already present.
pub open spec fn dedup_push(acc: Seq<Rgb8>, c: Rgb8) -> Seq<Rgb8> {
    if acc.contains(c) {
        acc
    } else {
        acc.push(c)
    }
}

/// Folds the first `n` pixels of `pix` into the accumulator, keeping each
/// color once, in order of first appearance.
pub open spec fn dedup_pixels(acc: Seq<Rgb8>, pix: Seq<Rgb8>, n: nat) -> Seq<Rgb8>
    decreases n,
{
    if n == 0 {
        acc
    } else {
        dedup_push(dedup_pixels(acc, pix, (n - 1) as nat), pix[n - 1])
    }
}

/// Folds the pixels of the first `m` images into the accumulator.
pub open spec fn collect_colors(acc: Seq<Rgb8>, images: Seq<FaceImage>, m: nat) -> Seq<Rgb8>
    decreases m,
{
    if m == 0 {
        acc
    } else {
        dedup_pixels(
            collect_colors(acc, images, (m - 1) as nat),
            images[m - 1].pixels@,
            images[m - 1].pixels@.len(),
        )
    }
}

/// No color occurs twice.
pub open spec fn no_duplicate_colors(s: Seq<Rgb8>) -> bool {
    forall|i: int, j: int| 0 <= i < j < s.len() ==> s[i] != s[j]
}

/// `dedup_push` keeps the list duplicate-free.
proof fn lemma_dedup_push_nodup(acc: Seq<Rgb8>, c: Rgb8)
    requires
        no_duplicate_colors(acc),
    ensures
        no_duplicate_colors(dedup_push(acc, c)),
{
    if !acc.contains(c) {
        assert forall|i: int, j: int|
            0 <= i < j < acc.push(c).len() implies acc.push(c)[i] != acc.push(c)[j] by {
            if j == acc.len() {
                assert(acc[i] == acc.push(c)[i]);
                if acc[i] == c {
                    assert(acc.contains(c));
                }
            }
        }
    }
}

/// `dedup_pixels` keeps the list duplicate-free.
proof fn lemma_dedup_pixels_nodup(acc: Seq<Rgb8>, pix: Seq<Rgb8>, n: nat)
    requires
        no_duplicate_colors(acc),
    ensures
        no_duplicate_colors(dedup_pixels(acc, pix, n)),
    decreases n,
{
    if n > 0 {
        lemma_dedup_pixels_nodup(acc, pix, (n - 1) as nat);
        lemma_dedup_push_nodup(dedup_pixels(acc, pix, (n - 1) as nat), pix[n - 1]);
    }
}

/// The collected color list never repeats a color.
pub proof fn lemma_collect_colors_nodup(images: Seq<FaceImage>, m: nat)
    ensures
        no_duplicate_colors(collect_colors(Seq::empty(), images, m)),
    decreases m,
{
    lemma_collect_colors_nodup_from(Seq::empty(), images, m);
}

/// Collecting from a duplicate-free accumulator stays duplicate-free.
proof fn lemma_collect_colors_nodup_from(acc: Seq<Rgb8>, images: Seq<FaceImage>, m: nat)
    requires
        no_duplicate_colors(acc),
    ensures
        no_duplicate_colors(collect_colors(acc, images, m)),
    decreases m,
{
    if m > 0 {
        lemma_collect_colors_nodup_from(acc, images, (m - 1) as nat);
        lemma_dedup_pixels_nodup(
            collect_colors(acc, images, (m - 1) as nat),
            images[m - 1].pixels@,
            images[m - 1].pixels@.len(),
        );
    }
}

/// Membership through `dedup_push`: the accumulator gains exactly `c`.
proof fn lemma_dedup_push_membership(acc: Seq<Rgb8>, c: Rgb8, d: Rgb8)
    ensures
        dedup_push(acc, c).contains(d) <==> (acc.contains(d) || d == c),
{
    if acc.contains(c) {
    } else {
        if acc.contains(d) {
            let i = choose|i: int| 0 <= i < acc.len() && acc[i] == d;
            assert(acc.push(c)[i] == d);
        }
        if d == c {
            assert(acc.push(c)[acc.len() as int] == d);
        }
        if acc.push(c).contains(d) {
            let i = choose|i: int| 0 <= i < acc.push(c).len() && acc.push(c)[i] == d;
            if i < acc.len() {
                assert(acc[i] == d);
            }
        }
    }
}

/// Membership through `dedup_pixels`: the accumulator gains exactly the
/// first `n` pixels.
proof fn lemma_dedup_pixels_membership(acc: Seq<Rgb8>, pix: Seq<Rgb8>, n: nat, d: Rgb8)
    requires
        n <= pix.len(),
    ensures
        dedup_pixels(acc, pix, n).contains(d) <==> (acc.contains(d) || exists|j: int|
            0 <= j < n && pix[j] == d),
    decreases n,
{
    if n > 0 {
        lemma_dedup_pixels_membership(acc, pix, (n - 1) as nat, d);
        lemma_dedup_push_membership(dedup_pixels(acc, pix, (n - 1) as nat), pix[n - 1], d);
        if acc.contains(d) || exists|j: int| 0 <= j < n && pix[j] == d {
            if !acc.contains(d) && !(exists|j: int| 0 <= j < n - 1 && pix[j] == d) {
                let j = choose|j: int| 0 <= j < n && pix[j] == d;
                assert(j == n - 1);
            }
        }
    }
}

/// Membership through `collect_colors`: the accumulator gains exactly the
/// pixels of the first `m` images.
proof fn lemma_collect_colors_membership_from(
    acc: Seq<Rgb8>,
    images: Seq<FaceImage>,
    m: nat,
    d: Rgb8,
)
    requires
        m <= images.len(),
    ensures
        collect_colors(acc, images, m).contains(d) <==> (acc.contains(d) || exists|i: int, j: int|
            0 <= i < m && 0 <= j < images[i].pixels.len() && images[i].pixels[j] == d),
    decreases m,
{
    if m > 0 {
        lemma_collect_colors_membership_from(acc, images, (m - 1) as nat, d);
        lemma_dedup_pixels_membership(
            collect_colors(acc, images, (m - 1) as nat),
            images[m - 1].pixels@,
            images[m - 1].pixels@.len(),
            d,
        );
        if acc.contains(d) || exists|i: int, j: int|
            0 <= i < m && 0 <= j < images[i].pixels.len() && images[i].pixels[j] == d {
            if !acc.contains(d) && !(exists|i: int, j: int|
                0 <= i < m - 1 && 0 <= j < images[i].pixels.len() && images[i].pixels[j] == d) {
                let (i, j) = choose|i: int, j: int|
                    0 <= i < m && 0 <= j < images[i].pixels.len() && images[i].pixels[j] == d;
                assert(i == m - 1);
                assert(images[m - 1].pixels@[j] == d);
            }
        }
    }
}

/// The collected color list holds a color exactly when some pixel of some
/// image carries it: province identifiers enumerate the colors actually on
/// the map, nothing more and nothing less.
pub proof fn lemma_collect_colors_membership(images: Seq<FaceImage>, d: Rgb8)
    ensures
        collect_colors(Seq::empty(), images, images.len()).contains(d) <==> exists|i: int, j: int|
            0 <= i < images.len() && 0 <= j < images[i].pixels.len() && images[i].pixels[j] == d,
{
    lemma_collect_colors_membership_from(Seq::empty(), images, images.len(), d);
}

/// Whether `v` already holds color `c`.
fn vec_contains_color(v: &Vec<Rgb8>, c: Rgb8) -> (r: bool)
    ensures
        r == v@.contains(c),
{
    let mut k: usize = 0;
    while k < v.len()
        invariant
            k <= v.len(),
            forall|i: int| 0 <= i < k ==> v@[i] != c,
        decreases v.len() - k,
    {
        if v[k].r == c.r && v[k].g == c.g && v[k].b == c.b {
            assert(v@.contains(c)) by {
                assert(v@[k as int] == c);
            }
            return true;
        }
        k = k + 1;
    }
    proof {
        if v@.contains(c) {
            let w = choose|i: int| 0 <= i < v@.len() && v@[i] == c;
            assert(v@[w] != c);
        }
    }
    false
}

/// Gathers every distinct pixel color of the face images, in order of first
/// appearance, scanning the images in order and each image in scanline
/// order; province identifiers are assigned from this enumeration.
pub fn get_colors(images: &Vec<FaceImage>) -> (r: Vec<Rgb8>)
    ensures
        r@ == collect_colors(Seq::empty(), images@, images@.len() as nat),
        no_duplicate_colors(r@),
{
    let mut colors: Vec<Rgb8> = Vec::new();
    let mut m: usize = 0;
    while m < images.len()
        invariant
            m <= images.len(),
            colors@ == collect_colors(Seq::empty(), images@, m as nat),
        decreases images.len() - m,
    {
        let pix_len: usize = images[m].pixels.len();
        let mut n: usize = 0;
        while n < pix_len
            invariant
                m < images.len(),
                n <= pix_len,
                pix_len == images@[m as int].pixels@.len(),
                colors@ == dedup_pixels(
                    collect_colors(Seq::empty(), images@, m as nat),
                    images@[m as int].pixels@,
                    n as nat,
                ),
            decreases pix_len - n,
        {
            let c: Rgb8 = images[m].pixels[n];
            if !vec_contains_color(&colors, c) {
                colors.push(c);
            }
            n = n + 1;
        }
        m = m + 1;
    }
    proof {
        lemma_collect_colors_nodup(images@, images@.len() as nat);
    }
    colors
}

/// A generated province: a stable numeric identifier and its fill color.
#[derive(Clone, Copy, PartialEq, Eq, Structural, Debug)]
pub struct Province {
    pub id: i32,
    pub color: Rgb8,
}

/// Numbers the collected colors in enumeration order, one province each.
pub fn assign_province_ids(colors: &Vec<Rgb8>) -> (r: Vec<Province>)
    requires
        colors.len() <= 0x7FFF_FFFF,
    ensures
        r.len() == colors.len(),
        forall|i: int|
            0 <= i < r.len() ==> (#[trigger] r[i]).id == i && r[i].color == colors[i],
{
    let mut provinces: Vec<Province> = Vec::new();
    let mut k: usize = 0;
    while k < colors.len()
        invariant
            k <= colors.len() <= 0x7FFF_FFFF,
            provinces.len() == k,
            forall|i: int|
                0 <= i < k ==> (#[trigger] provinces[i]).id == i && provinces[i].color
                    == colors[i],
        decreases colors.len() - k,
    {
        provinces.push(Province { id: k as i32, color: colors[k] });
        k = k + 1;
    }
    provinces
}

/// Finds the province whose color equals the picked pixel's color: the
/// first matching index, or `None` when no province carries the color.
pub fn province_index_of_color(colors: &Vec<Rgb8>, c: Rgb8) -> (r: Option<usize>)
    ensures
        match r {
            Some(i) => i < colors.len() && colors[i as int] == c && forall|j: int|
                0 <= j < i ==> colors[j] != c,
            None => !colors@.contains(c),
        },
{
    let mut k: usize = 0;
    while k < colors.len()
        invariant
            k <= colors.len(),
            forall|j: int| 0 <= j < k ==> colors[j] != c,
        decreases colors.len() - k,
    {
        if colors[k].r == c.r && colors[k].g == c.g && colors[k].b == c.b {
            return Some(k);
        }
        k = k + 1;
    }
    proof {
        if colors@.contains(c) {
            let w = choose|i: int| 0 <= i < colors@.len() && colors@[i] == c;
            assert(colors@[w] != c);
        }
    }
    None
}

} // verus!
