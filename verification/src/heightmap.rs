//! A two-dimensional gradient-noise heightfield.
//!
//! A `NoiseContext` owns a square grid of fixed-point gradient vectors drawn
//! once at construction. A query interpolates the dot products of the four
//! surrounding lattice gradients with the offsets to the query point, easing
//! the interpolation weights with the cubic Hermite curve. The grid is never
//! mutated after construction, so a query is a pure function of the field and
//! the point: every consumer of "height at (x, z)" agrees on the same value.

use vstd::prelude::*;

verus! {

use vstd::arithmetic::div_mod::lemma_fundamental_div_mod;
use crate::fixed::SCALE;
use crate::fixed::NOISE_BOUND;
use crate::fixed::fdiv;
use crate::fixed::lerp_spec;
use crate::fixed::smooth_spec;
use crate::fixed::lerp;
use crate::fixed::smooth;
use crate::fixed::isqrt;
use crate::fixed::floor_div;
use crate::fixed::lemma_div_of_multiple;
use crate::fixed::lemma_lerp_at_zero;
use crate::fixed::lemma_smooth_zero;
use crate::entropy::random_u64;

/// A lattice gradient: a fixed-point vector of unit length, up to rounding.
#[derive(Clone, Copy, Debug, PartialEq, Eq, Structural)]
pub struct Gradient {
    pub x: i64,
    pub y: i64,
}

/// A gradient lies on the unit circle, up to integer rounding: within the
/// unit disc (so every corner dot product is bounded by `NOISE_BOUND`), and
/// no more than a rounding margin of `4 * SCALE` below its squared radius —
/// in particular, never a zero or short vector, so the field is never
/// degenerately flat.
pub open spec fn gradient_wf(g: Gradient) -> bool {
    &&& -SCALE <= g.x <= SCALE
    &&& -SCALE <= g.y <= SCALE
    &&& g.x * g.x + g.y * g.y <= SCALE * SCALE
    &&& g.x * g.x + g.y * g.y >= SCALE * SCALE - 4 * SCALE
}

/// A query error: the unit cell containing the query point does not lie
/// within the precomputed gradient grid.
#[derive(Clone, Copy, Debug, PartialEq, Eq, Structural)]
pub enum NoiseError {
    OutOfRange,
}

/// The point `(x, z)` (fixed point) has its containing unit cell inside a
/// gradient grid of `grid_len` rows: both floor coordinates and their
/// successors are valid lattice indices.
pub open spec fn in_range(grid_len: int, x: int, z: int) -> bool {
    &&& 0 <= x
    &&& 0 <= z
    &&& fdiv(x, SCALE as int) + 2 <= grid_len
    &&& fdiv(z, SCALE as int) + 2 <= grid_len
}

/// The gradient-noise value at `(x, z)`: the four corner dot products of the
/// containing unit cell, interpolated along x and then along z with eased
/// weights. Offsets, gradients and the result all carry fixed-point scale;
/// a dot product of two scaled quantities carries scale squared.
pub open spec fn noise_value(g: Seq<Seq<Gradient>>, x: int, z: int) -> int {
    let s = SCALE as int;
    let x0 = fdiv(x, s);
    let z0 = fdiv(z, s);
    let dx = x - x0 * s;
    let dz = z - z0 * s;
    let g00 = g[z0][x0];
    let g10 = g[z0][x0 + 1];
    let g01 = g[z0 + 1][x0];
    let g11 = g[z0 + 1][x0 + 1];
    let v0 = dx * g00.x + dz * g00.y;
    let v1 = (dx - s) * g10.x + dz * g10.y;
    let v2 = dx * g01.x + (dz - s) * g01.y;
    let v3 = (dx - s) * g11.x + (dz - s) * g11.y;
    let fx = smooth_spec(dx);
    let fz = smooth_spec(dz);
    lerp_spec(lerp_spec(v0, v1, fx), lerp_spec(v2, v3, fx), fz)
}

/// The elevation at `(x, z)`: the noise value, unscaled and unclamped.
/// Isolated as its own name so an elevation curve could be introduced later
/// without touching the noise math or any caller; every consumer of terrain
/// height (mesh vertices, ground cover, the camera) must speak of this
/// function and no other.
pub open spec fn height_at(g: Seq<Seq<Gradient>>, x: int, z: int) -> int {
    noise_value(g, x, z)
}

/// A precomputed square grid of lattice gradients. Immutable after
/// construction: no method takes `&mut self`, so a field's answers can
/// never change over its lifetime.
pub struct NoiseContext {
    rgradients: Vec<Vec<Gradient>>,
}

impl NoiseContext {
    /// The gradient grid, as a sequence of rows, indexed `grid()[z][x]`.
    pub closed spec fn grid(self) -> Seq<Seq<Gradient>> {
        self.rgradients@.map_values(|row: Vec<Gradient>| row@)
    }

    /// The grid is square, holds at least one unit cell, and every gradient
    /// lies on the unit circle, up to rounding.
    pub open spec fn wf(self) -> bool {
        &&& 2 <= self.grid().len()
        &&& self.grid().len() <= 0x1000_0000
        &&& forall|i: int|
            0 <= i < self.grid().len() ==> (#[trigger] self.grid()[i]).len()
                == self.grid().len()
        &&& forall|i: int, j: int|
            0 <= i < self.grid().len() && 0 <= j < self.grid().len()
                ==> gradient_wf(#[trigger] self.grid()[i][j])
    }

    /// The resolution the field was built with: the grid covers queries whose
    /// floor coordinates lie in `[0, samples() - 1)`.
    pub fn samples(&self) -> (n: usize)
        requires
            self.wf(),
        ensures
            n + 1 == self.grid().len(),
    {
        self.rgradients.len() - 1
    }

    /// Build a field of `size + 1` by `size + 1` random lattice gradients.
    pub fn new(size: usize) -> (c: NoiseContext)
        requires
            1 <= size <= 0xfff_ffff,
        ensures
            c.wf(),
            c.grid().len() == size + 1,
    {
        let mut grad_data: Vec<Vec<Gradient>> = Vec::new();
        for x in 0..(size + 1)
            invariant
                grad_data@.len() == x,
                size <= 0xfff_ffff,
                forall|i: int|
                    0 <= i < x ==> (#[trigger] grad_data@[i])@.len() == size + 1,
                forall|i: int, j: int|
                    0 <= i < x && 0 <= j < size + 1
                        ==> gradient_wf(#[trigger] grad_data@[i]@[j]),
        {
            let mut row_data: Vec<Gradient> = Vec::new();
            for y in 0..(size + 1)
                invariant
                    row_data@.len() == y,
                    size <= 0xfff_ffff,
                    forall|j: int|
                        0 <= j < y ==> gradient_wf(#[trigger] row_data@[j]),
            {
                let gradient = random_gradient();
                row_data.push(gradient);
            }
            grad_data.push(row_data);
        }
        let c = NoiseContext { rgradients: grad_data };
        proof {
            assert(forall|i: int|
                0 <= i < c.grid().len() ==> (#[trigger] c.grid()[i])
                    == grad_data@[i]@);
        }
        c
    }

    /// The four gradients at the corners of the unit cell anchored at the
    /// lattice point `(x0, z0)`: in order, the anchor, its x-successor, its
    /// z-successor, and the opposite corner.
    pub fn get_gradients(&self, x0: usize, z0: usize) -> (r: (
        Gradient,
        Gradient,
        Gradient,
        Gradient,
    ))
        requires
            self.wf(),
            x0 + 2 <= self.grid().len(),
            z0 + 2 <= self.grid().len(),
        ensures
            r.0 == self.grid()[z0 as int][x0 as int],
            r.1 == self.grid()[z0 as int][x0 as int + 1],
            r.2 == self.grid()[z0 as int + 1][x0 as int],
            r.3 == self.grid()[z0 as int + 1][x0 as int + 1],
    {
        let g00 = self.get_gradient(x0, z0);
        let g10 = self.get_gradient(x0 + 1, z0);
        let g01 = self.get_gradient(x0, z0 + 1);
        let g11 = self.get_gradient(x0 + 1, z0 + 1);
        (g00, g10, g01, g11)
    }

    /// The gradient at the lattice point `(x, z)`: row `z`, column `x`.
    fn get_gradient(&self, x: usize, z: usize) -> (g: Gradient)
        requires
            self.wf(),
            x < self.grid().len(),
            z < self.grid().len(),
        ensures
            g == self.grid()[z as int][x as int],
    {
        proof {
            assert(self.rgradients@.len() == self.grid().len());
            assert(self.grid()[z as int] == self.rgradients@[z as int]@);
            assert(self.rgradients@[z as int]@.len() == self.grid().len());
        }
        self.rgradients[z][x]
    }

    /// The noise value at the fixed-point coordinates `(x, z)`.
    ///
    /// Returns the interpolated value exactly when the containing unit cell
    /// lies within the grid, and rejects the query otherwise: out-of-range
    /// queries must fail fast rather than wrap or clamp, or height
    /// continuity across the mesh, ground cover and camera would silently
    /// desynchronize.
    pub fn get(&self, x: i64, z: i64) -> (r: Result<i64, NoiseError>)
        requires
            self.wf(),
        ensures
            (r matches Ok(v) ==> {
                &&& in_range(self.grid().len() as int, x as int, z as int)
                &&& v == noise_value(self.grid(), x as int, z as int)
                &&& -NOISE_BOUND <= v <= NOISE_BOUND
            }),
            (r matches Err(e) ==> {
                &&& !in_range(self.grid().len() as int, x as int, z as int)
                &&& e == NoiseError::OutOfRange
            }),
    {
        if x < 0 || z < 0 {
            return Err(NoiseError::OutOfRange);
        }
        let n = self.rgradients.len();
        let x0w = (x as u64) / (SCALE as u64);
        let z0w = (z as u64) / (SCALE as u64);
        proof {
            assert(x0w as int == fdiv(x as int, SCALE as int));
            assert(z0w as int == fdiv(z as int, SCALE as int));
        }
        if x0w + 2 > n as u64 || z0w + 2 > n as u64 {
            return Err(NoiseError::OutOfRange);
        }
        let x0 = x0w as usize;
        let z0 = z0w as usize;
        let dx = x - (x0 as i64) * SCALE;
        let dz = z - (z0 as i64) * SCALE;
        proof {
            lemma_fundamental_div_mod(x as int, SCALE as int);
            lemma_fundamental_div_mod(z as int, SCALE as int);
            assert(0 <= dx < SCALE);
            assert(0 <= dz < SCALE);
        }
        let (g00, g10, g01, g11) = self.get_gradients(x0, z0);
        let v0 = gradient(dx, dz, g00);
        let v1 = gradient(dx - SCALE, dz, g10);
        let v2 = gradient(dx, dz - SCALE, g01);
        let v3 = gradient(dx - SCALE, dz - SCALE, g11);

        let fx = smooth(dx);
        let vx0 = lerp(v0, v1, fx);
        let vx1 = lerp(v2, v3, fx);
        let fz = smooth(dz);
        Ok(lerp(vx0, vx1, fz))
    }

    /// The elevation at `(x, z)`: the single height function every consumer
    /// must route through (mesh construction, ground-cover placement, camera
    /// grounding). The identity on the noise value in this system.
    pub fn get_height(&self, x: i64, z: i64) -> (r: Result<i64, NoiseError>)
        requires
            self.wf(),
        ensures
            (r matches Ok(v) ==> {
                &&& in_range(self.grid().len() as int, x as int, z as int)
                &&& v == height_at(self.grid(), x as int, z as int)
                &&& -NOISE_BOUND <= v <= NOISE_BOUND
            }),
            (r matches Err(e) ==> {
                &&& !in_range(self.grid().len() as int, x as int, z as int)
                &&& e == NoiseError::OutOfRange
            }),
    {
        self.get(x, z)
    }
}

/// Build a noise field with `samples` unit cells per side.
pub fn noise(samples: usize) -> (c: NoiseContext)
    requires
        1 <= samples <= 0xfff_ffff,
    ensures
        c.wf(),
        c.grid().len() == samples + 1,
{
    NoiseContext::new(samples)
}

/// Draw one random gradient: a unit-length fixed-point vector (within the
/// rounding margin of `gradient_wf`) with a uniformly distributed angle, up
/// to that same rounding. A point is drawn uniformly from the square
/// `[-SCALE, SCALE]^2` and rejected unless it lies in the annulus between
/// half and full unit radius — a rejection region symmetric in angle, so the
/// accepted angle is uniform — then scaled onto the unit circle. Each draw
/// is accepted with probability around three fifths; after 64 rejections
/// (vanishingly unlikely) the fallback is the unit vector along the x axis.
fn random_gradient() -> (g: Gradient)
    ensures
        gradient_wf(g),
{
    let mut attempts: usize = 0;
    while attempts < 64
        invariant
            attempts <= 64,
        decreases 64 - attempts,
    {
        let rx = random_u64();
        let ry = random_u64();
        let x = ((rx % 131073) as i64) - SCALE;
        let y = ((ry % 131073) as i64) - SCALE;
        proof {
            assert(x * x <= 0x1_0000_0000 && y * y <= 0x1_0000_0000
                && 0 <= x * x && 0 <= y * y) by (nonlinear_arith)
                requires
                    -65536 <= x <= 65536,
                    -65536 <= y <= 65536,
            ;
        }
        let h = x * x + y * y;
        let s2: i64 = 0x1_0000_0000;
        proof {
            assert(SCALE == 65536);
            assert(s2 == SCALE * SCALE) by (nonlinear_arith)
                requires
                    SCALE == 65536,
                    s2 == 0x1_0000_0000,
            ;
        }
        if s2 / 4 <= h && h <= s2 {
            let m = isqrt(h as u64) as i64;
            proof {
                lemma_annulus_radius(x as int, y as int, h as int, m as int);
                assert(-(SCALE * SCALE) <= x * SCALE <= SCALE * SCALE
                    && -(SCALE * SCALE) <= y * SCALE <= SCALE * SCALE)
                    by (nonlinear_arith)
                    requires
                        -65536 <= x <= 65536,
                        -65536 <= y <= 65536,
                ;
            }
            let gx = floor_div(x * SCALE, m);
            let gy = floor_div(y * SCALE, m);
            proof {
                lemma_scaled_near_unit(x as int, y as int, h as int, m as int,
                    gx as int, gy as int);
            }
            return clamp_to_disc(gx, gy);
        }
        attempts = attempts + 1;
    }
    proof {
        assert(SCALE * SCALE <= SCALE * SCALE
            && SCALE * SCALE >= SCALE * SCALE - 4 * SCALE) by (nonlinear_arith);
    }
    Gradient { x: SCALE, y: 0 }
}

/// The integer square root of a squared radius in the accepted annulus is at
/// least half a unit, and the drawn point's coordinates fit within it.
proof fn lemma_annulus_radius(x: int, y: int, h: int, m: int)
    requires
        h == x * x + y * y,
        0x4000_0000 <= h <= 0x1_0000_0000,
        0 <= m,
        m * m <= h,
        h < (m + 1) * (m + 1),
    ensures
        32768 <= m <= 65536,
        -m <= x <= m,
        -m <= y <= m,
{
    assert(m + 1 > 32768) by (nonlinear_arith)
        requires
            (m + 1) * (m + 1) > h,
            h >= 0x4000_0000,
            m >= 0,
    ;
    assert(m <= 65536) by (nonlinear_arith)
        requires
            m * m <= h,
            h <= 0x1_0000_0000,
            m >= 0,
    ;
    assert(-m <= x <= m && -m <= y <= m) by (nonlinear_arith)
        requires
            x * x + y * y == h,
            h < (m + 1) * (m + 1),
            m >= 0,
    ;
}

/// One component of the scaling: the floored quotient `g` of `x * SCALE` by
/// the radius `m` keeps, up to `2 * m * m * SCALE`, the squared magnitude of
/// the exact quotient, and stays within one unit.
proof fn lemma_scale_component(x: int, m: int, g: int)
    requires
        0 < m,
        -m <= x <= m,
        g == fdiv(x * 65536, m),
    ensures
        -65536 <= g <= 65536,
        (m * g) * (m * g) >= (x * 65536) * (x * 65536) - 2 * m * m * 65536,
{
    lemma_fundamental_div_mod(x * 65536, m);
    let e = (x * 65536) % m;
    assert(m * g == x * 65536 - e && 0 <= e < m);
    assert(-65536 <= g <= 65536) by (nonlinear_arith)
        requires
            m * g == x * 65536 - e,
            0 <= e < m,
            -m <= x <= m,
            0 < m,
    ;
    assert((m * g) * (m * g) >= (x * 65536) * (x * 65536) - 2 * m * m * 65536)
        by (nonlinear_arith)
        requires
            m * g == x * 65536 - e,
            0 <= e < m,
            -m <= x <= m,
            0 < m,
    ;
}

/// Scaling a point of the accepted annulus onto the unit circle with floor
/// divisions lands inside the unit square and loses at most the rounding
/// margin of squared radius: the exact scaling has squared radius at least
/// `SCALE^2`, and the two floors lose at most `4 * SCALE` of it.
proof fn lemma_scaled_near_unit(x: int, y: int, h: int, m: int, gx: int, gy: int)
    requires
        h == x * x + y * y,
        32768 <= m <= 65536,
        m * m <= h,
        -m <= x <= m,
        -m <= y <= m,
        gx == fdiv(x * SCALE, m),
        gy == fdiv(y * SCALE, m),
    ensures
        -SCALE <= gx <= SCALE,
        -SCALE <= gy <= SCALE,
        gx * gx + gy * gy >= SCALE * SCALE - 4 * SCALE,
{
    assert(x * SCALE == x * 65536 && y * SCALE == y * 65536) by (nonlinear_arith);
    lemma_scale_component(x, m, gx);
    lemma_scale_component(y, m, gy);
    assert(m * m * (gx * gx + gy * gy) == (m * gx) * (m * gx) + (m * gy) * (m * gy))
        by (nonlinear_arith);
    assert((x * 65536) * (x * 65536) + (y * 65536) * (y * 65536) == 65536 * 65536 * h)
        by (nonlinear_arith)
        requires
            h == x * x + y * y,
    ;
    assert(m * m * (gx * gx + gy * gy) >= 65536 * 65536 * h - 4 * m * m * 65536)
        by (nonlinear_arith)
        requires
            m * m * (gx * gx + gy * gy) == (m * gx) * (m * gx) + (m * gy) * (m * gy),
            (m * gx) * (m * gx) >= (x * 65536) * (x * 65536) - 2 * m * m * 65536,
            (m * gy) * (m * gy) >= (y * 65536) * (y * 65536) - 2 * m * m * 65536,
            (x * 65536) * (x * 65536) + (y * 65536) * (y * 65536) == 65536 * 65536 * h,
    ;
    assert(gx * gx + gy * gy >= 65536 * 65536 - 4 * 65536) by (nonlinear_arith)
        requires
            m * m * (gx * gx + gy * gy) >= 65536 * 65536 * h - 4 * m * m * 65536,
            m * m <= h,
            0 < m,
    ;
    assert(SCALE * SCALE - 4 * SCALE == 65536 * 65536 - 4 * 65536)
        by (nonlinear_arith);
}

/// Pull a near-unit vector back inside the unit disc: while its squared
/// magnitude exceeds one square unit, step the larger component one unit
/// toward zero. Each step removes far more than the vector can be above the
/// disc, so the near-unit lower bound survives.
fn clamp_to_disc(ax: i64, ay: i64) -> (g: Gradient)
    requires
        -SCALE <= ax <= SCALE,
        -SCALE <= ay <= SCALE,
        ax * ax + ay * ay >= SCALE * SCALE - 4 * SCALE,
    ensures
        gradient_wf(g),
{
    let mut a = ax;
    let mut b = ay;
    loop
        invariant_except_break
            -SCALE <= a <= SCALE,
            -SCALE <= b <= SCALE,
            a * a + b * b >= SCALE * SCALE - 4 * SCALE,
        ensures
            -SCALE <= a <= SCALE,
            -SCALE <= b <= SCALE,
            SCALE * SCALE - 4 * SCALE <= a * a + b * b <= SCALE * SCALE,
        decreases a * a + b * b,
    {
        proof {
            assert(0 <= a * a <= 0x1_0000_0000 && 0 <= b * b <= 0x1_0000_0000)
                by (nonlinear_arith)
                requires
                    -65536 <= a <= 65536,
                    -65536 <= b <= 65536,
            ;
        }
        let hh = a * a + b * b;
        let s2: i64 = 0x1_0000_0000;
        proof {
            assert(SCALE == 65536);
            assert(s2 == SCALE * SCALE) by (nonlinear_arith)
                requires
                    SCALE == 65536,
                    s2 == 0x1_0000_0000,
            ;
        }
        if hh <= s2 {
            break;
        }
        let aa = if a >= 0 {
            a
        } else {
            -a
        };
        let bb = if b >= 0 {
            b
        } else {
            -b
        };
        if aa >= bb {
            proof {
                assert(aa >= 1) by (nonlinear_arith)
                    requires
                        a * a + b * b > SCALE * SCALE,
                        aa == (if a >= 0 { a as int } else { -(a as int) }),
                        bb == (if b >= 0 { b as int } else { -(b as int) }),
                        aa >= bb,
                        SCALE > 0,
                ;
            }
            let a2 = if a > 0 {
                a - 1
            } else {
                a + 1
            };
            proof {
                lemma_clamp_step(a as int, b as int, a2 as int);
            }
            a = a2;
        } else {
            let b2 = if b > 0 {
                b - 1
            } else {
                b + 1
            };
            proof {
                lemma_clamp_step(b as int, a as int, b2 as int);
            }
            b = b2;
        }
    }
    Gradient { x: a, y: b }
}

/// Stepping a nonzero component `c` of a vector just above the unit disc one
/// unit toward zero strictly shrinks the squared magnitude, by less than the
/// rounding margin.
proof fn lemma_clamp_step(c: int, o: int, c2: int)
    requires
        -SCALE <= c <= SCALE,
        c != 0,
        c2 == (if c > 0 { c - 1 } else { c + 1 }),
        c * c + o * o > SCALE * SCALE,
    ensures
        c2 * c2 < c * c,
        c2 * c2 + o * o >= SCALE * SCALE - 4 * SCALE,
{
    let s = SCALE as int;
    assert(c2 * c2 == c * c - 2 * (if c > 0 { c } else { -c }) + 1) by (nonlinear_arith)
        requires
            c2 == (if c > 0 { c - 1 } else { c + 1 }),
    ;
    assert(c2 * c2 < c * c && c2 * c2 >= c * c - 2 * s + 1) by (nonlinear_arith)
        requires
            c2 * c2 == c * c - 2 * (if c > 0 { c } else { -c }) + 1,
            -s <= c <= s,
            c != 0,
    ;
}

/// The dot product of the offset from a lattice corner to the query point
/// with that corner's gradient. Offset and gradient both carry fixed-point
/// scale, so the product carries scale squared. At the corner itself the
/// offset is zero and the dot product is exactly zero, whatever the
/// gradient — the fact that makes the field vanish at lattice points.
pub fn gradient(ox: i64, oz: i64, g: Gradient) -> (r: i64)
    requires
        -SCALE <= ox <= SCALE,
        -SCALE <= oz <= SCALE,
        gradient_wf(g),
    ensures
        r == ox * g.x + oz * g.y,
        ox == 0 && oz == 0 ==> r == 0,
        -NOISE_BOUND <= r <= NOISE_BOUND,
{
    proof {
        let s = SCALE as int;
        assert(-(s * s) <= ox * g.x <= s * s && -(s * s) <= oz * g.y <= s * s)
            by (nonlinear_arith)
            requires
                -s <= ox <= s,
                -s <= oz <= s,
                -s <= g.x <= s,
                -s <= g.y <= s,
        ;
        assert(0 * g.x + 0 * g.y == 0) by (nonlinear_arith);
    }
    ox * g.x + oz * g.y
}

/// Determinism: the noise value is a function of the field and the point
/// alone, so two queries with identical arguments return identical values.
pub proof fn lemma_value_deterministic(
    g: Seq<Seq<Gradient>>,
    x: int,
    z: int,
    v1: int,
    v2: int,
)
    requires
        v1 == noise_value(g, x, z),
        v2 == noise_value(g, x, z),
    ensures
        v1 == v2,
{
}

/// At a lattice corner the offset vector is zero, both eased interpolation
/// weights are exactly zero, and the field returns exactly zero, whatever
/// the gradients are.
pub proof fn lemma_zero_at_lattice(g: Seq<Seq<Gradient>>, xi: int, zi: int)
    ensures
        noise_value(g, xi * SCALE, zi * SCALE) == 0,
{
    let s = SCALE as int;
    lemma_div_of_multiple(xi, s);
    lemma_div_of_multiple(zi, s);
    let x0 = fdiv(xi * s, s);
    let z0 = fdiv(zi * s, s);
    assert(xi * s - x0 * s == 0);
    assert(zi * s - z0 * s == 0);
    lemma_smooth_zero();
    let g00 = g[z0][x0];
    let g10 = g[z0][x0 + 1];
    let g01 = g[z0 + 1][x0];
    let g11 = g[z0 + 1][x0 + 1];
    assert(0 * g00.x + 0 * g00.y == 0) by (nonlinear_arith);
    let v1 = (0 - s) * g10.x + 0 * g10.y;
    let v2 = 0 * g01.x + (0 - s) * g01.y;
    let v3 = (0 - s) * g11.x + (0 - s) * g11.y;
    lemma_lerp_at_zero(0, v1);
    lemma_lerp_at_zero(v2, v3);
    lemma_lerp_at_zero(0, lerp_spec(v2, v3, 0));
}

} // verus!
