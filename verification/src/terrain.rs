//! The terrain mesh and its level-of-detail index builder.
//!
//! The mesh samples the heightfield once per grid cell at construction and is
//! never resampled; changing the level of detail only changes which vertices
//! the index sequence references. The index builder subdivides the world
//! square as a quadtree to a requested depth and emits two triangles per leaf
//! with a uniform diagonal split and uniform winding.

use vstd::prelude::*;

verus! {

use vstd::arithmetic::power2::pow2;
use vstd::arithmetic::power2::lemma_pow2_unfold;
use vstd::arithmetic::power2::lemma_pow2_pos;
use vstd::arithmetic::power2::lemma_pow2_strictly_increases;
use vstd::arithmetic::power2::lemma2_to64;
use vstd::arithmetic::power::pow;
use vstd::arithmetic::power::lemma_pow_positive;
use vstd::arithmetic::power::lemma_pow_increases;
use vstd::arithmetic::div_mod::lemma_fundamental_div_mod_converse;
use crate::fixed::SCALE;
use crate::fixed::lemma_div_of_multiple;
use crate::heightmap::NoiseContext;
use crate::heightmap::Gradient;
use crate::heightmap::height_at;
use crate::heightmap::in_range;
use crate::entropy::random_u64;

/// The side length of the fixed vertex grid: the world holds
/// `WORLD_SIZE * WORLD_SIZE` vertices and `WORLD_SIZE - 1` cells per side.
pub const WORLD_SIZE: u16 = 65;

/// A point on the vertex grid, in grid (not fixed-point) coordinates.
#[derive(Clone, Copy, Debug, PartialEq, Eq, Structural)]
pub struct P {
    pub x: u16,
    pub y: u16,
}

/// A square region of the grid: a top-left corner and a width.
#[derive(Clone, Copy, Debug, PartialEq, Eq, Structural)]
pub struct Square {
    pub top: P,
    pub w: u16,
}

/// Make a point.
pub fn p(x: u16, y: u16) -> (r: P)
    ensures
        r == (P { x, y }),
{
    P { x, y }
}

/// Offset a point by `(x, y)`.
pub fn p2(pt: P, x: u16, y: u16) -> (r: P)
    requires
        pt.x + x <= u16::MAX,
        pt.y + y <= u16::MAX,
    ensures
        r.x == pt.x + x,
        r.y == pt.y + y,
{
    P { x: pt.x + x, y: pt.y + y }
}

/// Make a square.
pub fn s(pt: P, w: u16) -> (r: Square)
    ensures
        r == (Square { top: pt, w }),
{
    Square { top: pt, w }
}

/// The flat vertex-buffer slot of the grid point `(x, y)`: row-major with
/// stride `WORLD_SIZE`. This mapping must match the order the mesh appends
/// vertices in, or indices would reference the wrong vertex.
pub open spec fn index_spec(x: int, y: int) -> int {
    x * (WORLD_SIZE as int) + y
}

/// A grid point lies on the vertex grid.
pub open spec fn point_in_world(pt: P) -> bool {
    pt.x < WORLD_SIZE && pt.y < WORLD_SIZE
}

/// Map a grid coordinate to its flat vertex-buffer index.
pub fn xy_to_index(x: u16, y: u16) -> (r: u16)
    requires
        x < WORLD_SIZE,
        y < WORLD_SIZE,
    ensures
        r == index_spec(x as int, y as int),
        r < WORLD_SIZE * WORLD_SIZE,
{
    x * WORLD_SIZE + y
}

/// Map a grid point to its flat vertex-buffer index.
pub fn p_to_index(pt: P) -> (r: u16)
    requires
        point_in_world(pt),
    ensures
        r == index_spec(pt.x as int, pt.y as int),
        r < WORLD_SIZE * WORLD_SIZE,
{
    xy_to_index(pt.x, pt.y)
}

/// The indices of one filled triangle, in the order of its corners.
pub open spec fn triangle_spec(a: P, b: P, c: P) -> Seq<u16> {
    seq![
        index_spec(a.x as int, a.y as int) as u16,
        index_spec(b.x as int, b.y as int) as u16,
        index_spec(c.x as int, c.y as int) as u16,
    ]
}

/// The three indices of a filled triangle.
pub fn full_triangle(a: P, b: P, c: P) -> (r: [u16; 3])
    requires
        point_in_world(a),
        point_in_world(b),
        point_in_world(c),
    ensures
        r@ == triangle_spec(a, b, c),
{
    let r = [p_to_index(a), p_to_index(b), p_to_index(c)];
    proof {
        assert(r@ =~= triangle_spec(a, b, c));
    }
    r
}

/// The six indices of a triangle drawn as three wireframe edges
/// (`a-b`, `b-c`, `c-a`), each edge an index pair.
pub fn wireframe_triangle(a: P, b: P, c: P) -> (r: [u16; 6])
    requires
        point_in_world(a),
        point_in_world(b),
        point_in_world(c),
    ensures
        r@ =~= seq![
            index_spec(a.x as int, a.y as int) as u16,
            index_spec(b.x as int, b.y as int) as u16,
            index_spec(b.x as int, b.y as int) as u16,
            index_spec(c.x as int, c.y as int) as u16,
            index_spec(c.x as int, c.y as int) as u16,
            index_spec(a.x as int, a.y as int) as u16,
        ],
{
    let ia = p_to_index(a);
    let ib = p_to_index(b);
    let ic = p_to_index(c);
    let r = [ia, ib, ib, ic, ic, ia];
    proof {
        assert(r@ =~= seq![ia, ib, ib, ic, ic, ia]);
    }
    r
}

/// A square region lies within the grid of cells: its far corner is still a
/// valid vertex.
pub open spec fn square_in_world(sq: Square) -> bool {
    &&& sq.top.x + sq.w <= WORLD_SIZE - 1
    &&& sq.top.y + sq.w <= WORLD_SIZE - 1
}

/// A region can be subdivided `level` times: its width is a power of two at
/// least `2^level`, and it lies within the grid.
pub open spec fn square_subdivides(sq: Square, level: nat) -> bool {
    &&& square_in_world(sq)
    &&& exists|k: nat| level <= k && sq.w == pow2(k)
}

/// The corners of a square, as the leaf geometry reads them.
pub open spec fn corner_tr(sq: Square) -> P {
    P { x: (sq.top.x + sq.w) as u16, y: sq.top.y }
}

pub open spec fn corner_br(sq: Square) -> P {
    P { x: (sq.top.x + sq.w) as u16, y: (sq.top.y + sq.w) as u16 }
}

pub open spec fn corner_bl(sq: Square) -> P {
    P { x: sq.top.x, y: (sq.top.y + sq.w) as u16 }
}

/// The two filled triangles covering a leaf square: both share the diagonal
/// from the top-left to the bottom-right corner, and both are wound in the
/// same direction so back-face culling treats the whole mesh uniformly.
pub open spec fn leaf_indices(sq: Square) -> Seq<u16> {
    triangle_spec(sq.top, corner_bl(sq), corner_br(sq))
        + triangle_spec(sq.top, corner_tr(sq), corner_br(sq))
}

/// The quadtree child squares of a square, in the fixed emission order:
/// top-left, top-right, bottom-left, bottom-right.
pub open spec fn child_sq(sq: Square, cx: int, cy: int) -> Square {
    let h = sq.w as int / 2;
    Square {
        top: P {
            x: (sq.top.x + cx * h) as u16,
            y: (sq.top.y + cy * h) as u16,
        },
        w: h as u16,
    }
}

/// The index sequence the subdivision emits for a region at a given depth:
/// at depth zero, the leaf's two triangles; otherwise the four children's
/// sequences concatenated in the fixed child order.
pub open spec fn tri_indices(level: nat, sq: Square) -> Seq<u16>
    decreases level,
{
    if level == 0 {
        leaf_indices(sq)
    } else {
        tri_indices((level - 1) as nat, child_sq(sq, 0, 0))
            + tri_indices((level - 1) as nat, child_sq(sq, 1, 0))
            + tri_indices((level - 1) as nat, child_sq(sq, 0, 1))
            + tri_indices((level - 1) as nat, child_sq(sq, 1, 1))
    }
}

/// The number of leaf squares a subdivision to `level` produces: `4^level`.
pub open spec fn leaf_count(level: nat) -> nat
    decreases level,
{
    if level == 0 {
        1
    } else {
        4 * leaf_count((level - 1) as nat)
    }
}

/// Splitting a subdividable square leaves four subdividable children.
proof fn lemma_children_subdivide(sq: Square, level: nat)
    requires
        square_subdivides(sq, level),
        1 <= level,
    ensures
        2 <= sq.w,
        sq.w % 2 == 0,
        forall|cx: int, cy: int|
            0 <= cx <= 1 && 0 <= cy <= 1 ==> square_subdivides(
                #[trigger] child_sq(sq, cx, cy),
                (level - 1) as nat,
            ),
{
    let k = choose|k: nat| level <= k && sq.w == pow2(k);
    lemma_pow2_unfold(k);
    lemma_pow2_pos((k - 1) as nat);
    assert(sq.w == 2 * pow2((k - 1) as nat));
    let h = sq.w as int / 2;
    assert(h == pow2((k - 1) as nat));
    assert(square_subdivides(child_sq(sq, 0, 0), (level - 1) as nat)) by {
        assert(child_sq(sq, 0, 0).w == h && square_in_world(child_sq(sq, 0, 0)));
        assert((level - 1) as nat <= (k - 1) as nat && pow2((k - 1) as nat) == h);
    }
    assert(square_subdivides(child_sq(sq, 1, 0), (level - 1) as nat)) by {
        assert(child_sq(sq, 1, 0).w == h && square_in_world(child_sq(sq, 1, 0)));
        assert((level - 1) as nat <= (k - 1) as nat && pow2((k - 1) as nat) == h);
    }
    assert(square_subdivides(child_sq(sq, 0, 1), (level - 1) as nat)) by {
        assert(child_sq(sq, 0, 1).w == h && square_in_world(child_sq(sq, 0, 1)));
        assert((level - 1) as nat <= (k - 1) as nat && pow2((k - 1) as nat) == h);
    }
    assert(square_subdivides(child_sq(sq, 1, 1), (level - 1) as nat)) by {
        assert(child_sq(sq, 1, 1).w == h && square_in_world(child_sq(sq, 1, 1)));
        assert((level - 1) as nat <= (k - 1) as nat && pow2((k - 1) as nat) == h);
    }
    assert(forall|cx: int, cy: int|
        0 <= cx <= 1 && 0 <= cy <= 1 ==> square_subdivides(
            #[trigger] child_sq(sq, cx, cy),
            (level - 1) as nat,
        )) by {
        assert forall|cx: int, cy: int|
            0 <= cx <= 1 && 0 <= cy <= 1 implies square_subdivides(
            #[trigger] child_sq(sq, cx, cy),
            (level - 1) as nat,
        ) by {
            assert(cx == 0 || cx == 1);
            assert(cy == 0 || cy == 1);
        }
    }
}

/// The subdivision of a region at depth `level` emits `6 * 4^level` indices:
/// two triangles of three indices for each of its `4^level` leaves.
pub proof fn lemma_tri_indices_len(level: nat, sq: Square)
    ensures
        tri_indices(level, sq).len() == 6 * leaf_count(level),
    decreases level,
{
    if level != 0 {
        lemma_tri_indices_len((level - 1) as nat, child_sq(sq, 0, 0));
        lemma_tri_indices_len((level - 1) as nat, child_sq(sq, 1, 0));
        lemma_tri_indices_len((level - 1) as nat, child_sq(sq, 0, 1));
        lemma_tri_indices_len((level - 1) as nat, child_sq(sq, 1, 1));
    }
}

/// Each of the six indices of a leaf square within the grid references a
/// vertex of the fixed grid.
proof fn lemma_leaf_indices_valid(sq: Square)
    requires
        square_in_world(sq),
    ensures
        leaf_indices(sq).len() == 6,
        forall|i: int|
            0 <= i < 6 ==> (#[trigger] leaf_indices(sq)[i]) < WORLD_SIZE * WORLD_SIZE,
{
    let t1 = triangle_spec(sq.top, corner_bl(sq), corner_br(sq));
    let t2 = triangle_spec(sq.top, corner_tr(sq), corner_br(sq));
    assert(t1.len() == 3 && t2.len() == 3);
    assert(t1[0] < 4225 && t1[1] < 4225 && t1[2] < 4225);
    assert(t2[0] < 4225 && t2[1] < 4225 && t2[2] < 4225);
    assert(forall|i: int| 0 <= i < 3 ==> #[trigger] leaf_indices(sq)[i] == t1[i]);
    assert(forall|i: int| 3 <= i < 6 ==> #[trigger] leaf_indices(sq)[i] == t2[i - 3]);
}

/// Every index the subdivision emits references a vertex of the fixed grid:
/// it is less than `WORLD_SIZE * WORLD_SIZE`.
pub proof fn lemma_tri_indices_valid(level: nat, sq: Square)
    requires
        square_subdivides(sq, level),
    ensures
        forall|i: int|
            0 <= i < tri_indices(level, sq).len()
                ==> (#[trigger] tri_indices(level, sq)[i])
                < WORLD_SIZE * WORLD_SIZE,
    decreases level,
{
    if level == 0 {
        let k = choose|k: nat| level <= k && sq.w == pow2(k);
        lemma_pow2_pos(k);
        lemma_leaf_indices_valid(sq);
        assert(tri_indices(level, sq) == leaf_indices(sq));
    } else {
        lemma_children_subdivide(sq, level);
        let sub = (level - 1) as nat;
        let l1 = tri_indices(sub, child_sq(sq, 0, 0));
        let l2 = tri_indices(sub, child_sq(sq, 1, 0));
        let l3 = tri_indices(sub, child_sq(sq, 0, 1));
        let l4 = tri_indices(sub, child_sq(sq, 1, 1));
        lemma_tri_indices_valid(sub, child_sq(sq, 0, 0));
        lemma_tri_indices_valid(sub, child_sq(sq, 1, 0));
        lemma_tri_indices_valid(sub, child_sq(sq, 0, 1));
        lemma_tri_indices_valid(sub, child_sq(sq, 1, 1));
        let t = tri_indices(level, sq);
        assert(t == l1 + l2 + l3 + l4);
        assert forall|i: int| 0 <= i < t.len() implies (#[trigger] t[i])
            < WORLD_SIZE * WORLD_SIZE by {
            if i < l1.len() {
                assert(t[i] == l1[i]);
            } else if i < l1.len() + l2.len() {
                assert(t[i] == l2[i - l1.len()]);
            } else if i < l1.len() + l2.len() + l3.len() {
                assert(t[i] == l3[i - l1.len() - l2.len()]);
            } else {
                assert(t[i] == l4[i - l1.len() - l2.len() - l3.len()]);
            }
        }
    }
}

/// Recursive quadtree subdivision: append to `idx` the index sequence for
/// `sq` at depth `level`. Splits the square into four half-width children
/// and recurses, emitting two triangles per leaf cell.
pub fn subdivide(idx: &mut Vec<u16>, level: usize, sq: Square)
    requires
        square_subdivides(sq, level as nat),
    ensures
        final(idx)@ == old(idx)@ + tri_indices(level as nat, sq),
    decreases level,
{
    let size = sq.w / 2;
    let tl = sq.top;

    if level > 0 {
        proof {
            lemma_children_subdivide(sq, level as nat);
        }
        let c1 = s(p2(tl, 0, 0), size);
        let c2 = s(p2(tl, size, 0), size);
        let c3 = s(p2(tl, 0, size), size);
        let c4 = s(p2(tl, size, size), size);
        proof {
            let h = sq.w as int / 2;
            assert(0 * h == 0 && 1 * h == h) by (nonlinear_arith);
            assert(c1 == child_sq(sq, 0, 0));
            assert(c2 == child_sq(sq, 1, 0));
            assert(c3 == child_sq(sq, 0, 1));
            assert(c4 == child_sq(sq, 1, 1));
        }
        subdivide(idx, level - 1, c1);
        subdivide(idx, level - 1, c2);
        subdivide(idx, level - 1, c3);
        subdivide(idx, level - 1, c4);
        proof {
            assert(final(idx)@ =~= old(idx)@ + tri_indices(level as nat, sq));
        }
    } else {
        proof {
            let k = choose|k: nat| level as nat <= k && sq.w == pow2(k);
            lemma_pow2_pos(k);
        }
        let tr = p(sq.top.x + sq.w, sq.top.y);
        let br = p(sq.top.x + sq.w, sq.top.y + sq.w);
        let bl = p(sq.top.x, sq.top.y + sq.w);

        let t1 = full_triangle(tl, bl, br);
        idx.push(t1[0]);
        idx.push(t1[1]);
        idx.push(t1[2]);
        let t2 = full_triangle(tl, tr, br);
        idx.push(t2[0]);
        idx.push(t2[1]);
        idx.push(t2[2]);
        proof {
            assert(final(idx)@ =~= old(idx)@ + leaf_indices(sq));
        }
    }
}

/// The number of ground-cover instances placed per grid cell, and the size
/// of the shared jitter pool: variety repeats every `GRASS_PER_CELL` cells
/// by design.
pub const GRASS_PER_CELL: usize = 100;

/// The deepest level of detail: the largest `L` with
/// `2^L <= WORLD_SIZE - 1`, so that the full world square can be subdivided
/// `L` times.
pub const MAX_LEVEL: usize = 6;

/// The full-world region: the square of all `WORLD_SIZE - 1` cells per side.
pub open spec fn full_world() -> Square {
    Square { top: P { x: 0, y: 0 }, w: (WORLD_SIZE - 1) as u16 }
}

/// A terrain construction or index-build request was rejected.
#[derive(Clone, Copy, Debug, PartialEq, Eq, Structural)]
pub enum TerrainError {
    /// The noise field does not cover the world's sample coordinates.
    NoiseTooSmall,
    /// A requested region does not lie within the world grid.
    RegionOutOfBounds,
    /// A requested region's width is not a power of two.
    WidthNotPowerOfTwo,
    /// A requested region cannot be halved as many times as the level asks.
    LevelTooDeep,
}

/// A request to change the level of detail.
#[derive(Clone, Copy, Debug, PartialEq, Eq, Structural)]
pub enum TerrainEvent {
    IncreaseDetail,
    DecreaseDetail,
}

/// A mesh vertex: world position `(x, elevation, z)` and a texture
/// coordinate, all in fixed point.
#[derive(Clone, Copy, Debug)]
pub struct Vertex {
    pub position: [i64; 3],
    pub tex_coords: [i64; 2],
}

/// One ground-cover instance: a jittered world position sampled against the
/// same height function as the mesh, and a per-instance shading factor.
#[derive(Clone, Copy, Debug)]
pub struct GrassAttrs {
    pub offset: [i64; 3],
    pub rand_factor: i64,
}

/// One entry of the shared jitter pool: two in-cell offsets and a shading
/// factor, each a fixed-point value in `[0, 1)`.
#[derive(Clone, Copy, Debug)]
pub struct Jitter {
    pub x: i64,
    pub z: i64,
    pub factor: i64,
}

/// A jitter entry lies within one cell.
pub open spec fn jitter_ok(j: Jitter) -> bool {
    &&& 0 <= j.x < SCALE
    &&& 0 <= j.z < SCALE
    &&& 0 <= j.factor < SCALE
}

/// The vertex for the grid cell `(xi, zi)` sits at its row-major slot and
/// carries exactly the position `(xi, height, zi)` in fixed point, with the
/// elevation drawn from the single height function.
pub open spec fn vertex_ok(
    vs: Seq<Vertex>,
    g: Seq<Seq<Gradient>>,
    xi: int,
    zi: int,
) -> bool {
    let v = vs[index_spec(xi, zi)];
    &&& v.position@[0] == xi * SCALE
    &&& v.position@[1] == height_at(g, xi * SCALE, zi * SCALE)
    &&& v.position@[2] == zi * SCALE
    &&& v.tex_coords@[0] == xi * SCALE
    &&& v.tex_coords@[1] == zi * SCALE
}

/// The `k`-th ground-cover instance of the grid cell `(xi, zi)` sits at the
/// cell position offset by the `k`-th jitter-pool entry, with its elevation
/// drawn from the single height function at that jittered point.
pub open spec fn grass_ok(
    attrs: Seq<GrassAttrs>,
    jit: Seq<Jitter>,
    g: Seq<Seq<Gradient>>,
    xi: int,
    zi: int,
    k: int,
) -> bool {
    let a = attrs[index_spec(xi, zi) * (GRASS_PER_CELL as int) + k];
    let gx = xi * SCALE + jit[k].x;
    let gz = zi * SCALE + jit[k].z;
    &&& a.offset@[0] == gx
    &&& a.offset@[1] == height_at(g, gx, gz)
    &&& a.offset@[2] == gz
    &&& a.rand_factor == jit[k].factor
}

/// The cell `(xi, zi)` has its vertex and all its ground cover in place.
pub open spec fn cell_ok(
    vs: Seq<Vertex>,
    attrs: Seq<GrassAttrs>,
    jit: Seq<Jitter>,
    g: Seq<Seq<Gradient>>,
    xi: int,
    zi: int,
) -> bool {
    &&& vertex_ok(vs, g, xi, zi)
    &&& forall|k: int|
        0 <= k < GRASS_PER_CELL ==> grass_ok(attrs, jit, g, xi, zi, k)
}

/// A completed cell stays completed when the vertex and instance buffers
/// only grow: its vertex and ground cover sit at indices that both buffers
/// already held.
proof fn lemma_cell_ok_preserved(
    vs1: Seq<Vertex>,
    vs2: Seq<Vertex>,
    at1: Seq<GrassAttrs>,
    at2: Seq<GrassAttrs>,
    jit: Seq<Jitter>,
    g: Seq<Seq<Gradient>>,
    xi: int,
    zi: int,
)
    requires
        cell_ok(vs1, at1, jit, g, xi, zi),
        0 <= xi,
        0 <= zi,
        index_spec(xi, zi) < vs1.len(),
        (index_spec(xi, zi) + 1) * (GRASS_PER_CELL as int) <= at1.len(),
        vs1.len() <= vs2.len(),
        at1.len() <= at2.len(),
        forall|i: int| 0 <= i < vs1.len() ==> vs2[i] == vs1[i],
        forall|i: int| 0 <= i < at1.len() ==> at2[i] == at1[i],
    ensures
        cell_ok(vs2, at2, jit, g, xi, zi),
{
    assert(vs2[index_spec(xi, zi)] == vs1[index_spec(xi, zi)]);
    assert forall|k: int| 0 <= k < GRASS_PER_CELL implies grass_ok(
        at2,
        jit,
        g,
        xi,
        zi,
        k,
    ) by {
        assert(grass_ok(at1, jit, g, xi, zi, k));
        let idx = index_spec(xi, zi) * (GRASS_PER_CELL as int) + k;
        assert(idx < at1.len());
        assert(at2[idx] == at1[idx]);
    }
}

/// The next level after an increase request: one deeper, saturating at
/// `MAX_LEVEL`.
pub open spec fn increased(level: nat) -> nat {
    if level < MAX_LEVEL {
        level + 1
    } else {
        level
    }
}

/// The next level after a decrease request: one shallower, saturating at 1.
pub open spec fn decreased(level: nat) -> nat {
    if 1 < level {
        (level - 1) as nat
    } else {
        level
    }
}

/// The level after `n` increase requests.
pub open spec fn increased_n(level: nat, n: nat) -> nat
    decreases n,
{
    if n == 0 {
        level
    } else {
        increased(increased_n(level, (n - 1) as nat))
    }
}

/// The level after `n` decrease requests.
pub open spec fn decreased_n(level: nat, n: nat) -> nat
    decreases n,
{
    if n == 0 {
        level
    } else {
        decreased(decreased_n(level, (n - 1) as nat))
    }
}

/// The level boundaries saturate: from level 1, any number of decrease
/// requests leaves the level at 1.
pub proof fn lemma_decrease_saturates(n: nat)
    ensures
        decreased_n(1, n) == 1,
    decreases n,
{
    if n > 0 {
        lemma_decrease_saturates((n - 1) as nat);
    }
}

/// The level boundaries saturate: from the deepest level, any number of
/// increase requests leaves the level at `MAX_LEVEL`.
pub proof fn lemma_increase_saturates(n: nat)
    ensures
        increased_n(MAX_LEVEL as nat, n) == MAX_LEVEL,
    decreases n,
{
    if n > 0 {
        lemma_increase_saturates((n - 1) as nat);
    }
}

/// A subdivision to depth `level` has `4^level` leaves, so the filled mesh
/// holds exactly `2 * 4^level` triangles.
pub proof fn lemma_leaf_count_is_pow4(level: nat)
    ensures
        leaf_count(level) == pow(4, level),
    decreases level,
{
    reveal(pow);
    if level > 0 {
        lemma_leaf_count_is_pow4((level - 1) as nat);
    }
}

/// Relies on num::pow: exponentiation by repeated squaring. When the result
/// fits in usize every intermediate product also fits, and the exact power
/// is returned.
#[verifier::external_body]
fn num_pow(base: usize, exp: usize) -> (r: usize)
    requires
        pow(base as int, exp as nat) <= usize::MAX,
    ensures
        r as int == pow(base as int, exp as nat),
{
    num::pow(base, exp)
}

/// The exponent of a power-of-two width, if there is one: `u16` widths are
/// below `2^16`, so only exponents up to 15 can occur.
fn pow2_exponent(w: u16) -> (r: Option<usize>)
    ensures
        (r matches Some(k) ==> k <= 15 && w as nat == pow2(k as nat)),
        (r is None ==> forall|k: nat| w as nat != pow2(k)),
{
    proof {
        lemma2_to64();
    }
    let mut k: usize = 0;
    while k < 16
        invariant
            k <= 16,
            forall|j: nat| j < k ==> w as nat != pow2(j),
        decreases 16 - k,
    {
        proof {
            lemma2_to64();
            lemma_pow_positive(2, k as nat);
            assert(pow(2, k as nat) == pow2(k as nat));
            lemma_pow_increases(2, k as nat, 15);
            assert(pow2(15nat) == 32768);
        }
        let pk = num_pow(2, k);
        if pk == w as usize {
            return Some(k);
        }
        k = k + 1;
    }
    proof {
        assert forall|j: nat| w as nat != pow2(j) by {
            if j >= 16 {
                lemma_pow_increases(2, 16, j);
                lemma_pow_positive(2, 16);
                lemma_pow_positive(2, j);
                assert(pow2(16nat) == 65536);
                assert(pow2(j) >= 65536);
            }
        }
    }
    None
}

/// Two equal powers of two have equal exponents.
proof fn lemma_pow2_injective(a: nat, b: nat)
    requires
        pow2(a) == pow2(b),
    ensures
        a == b,
{
    if a < b {
        lemma_pow2_strictly_increases(a, b);
    }
    if b < a {
        lemma_pow2_strictly_increases(b, a);
    }
}

/// Build the index sequence for a region at a level of detail, rejecting
/// malformed requests: the region must lie within the world and have a
/// power-of-two width that can be halved `level` times. Rejection is exact
/// (never a silent clamp), so a caller bug cannot skew the mesh.
pub fn build(level: usize, region: Square) -> (r: Result<Vec<u16>, TerrainError>)
    ensures
        (r matches Ok(v) ==> {
            &&& square_subdivides(region, level as nat)
            &&& v@ == tri_indices(level as nat, region)
            &&& v@.len() == 6 * leaf_count(level as nat)
            &&& forall|i: int|
                0 <= i < v@.len() ==> (#[trigger] v@[i]) < WORLD_SIZE * WORLD_SIZE
        }),
        (r matches Err(e) ==> {
            &&& !square_subdivides(region, level as nat)
            &&& match e {
                TerrainError::RegionOutOfBounds => !square_in_world(region),
                TerrainError::WidthNotPowerOfTwo => square_in_world(region)
                    && (forall|k: nat| region.w as nat != pow2(k)),
                TerrainError::LevelTooDeep => square_in_world(region) && (exists|k: nat|
                    region.w as nat == pow2(k) && k < level),
                _ => false,
            }
        }),
{
    if region.top.x as u32 + region.w as u32 > (WORLD_SIZE - 1) as u32
        || region.top.y as u32 + region.w as u32 > (WORLD_SIZE - 1) as u32 {
        return Err(TerrainError::RegionOutOfBounds);
    }
    let exponent = pow2_exponent(region.w);
    match exponent {
        None => Err(TerrainError::WidthNotPowerOfTwo),
        Some(k) => {
            if level > k {
                proof {
                    assert forall|j: nat| !(level as nat <= j && region.w as nat
                        == pow2(j)) by {
                        if region.w as nat == pow2(j) {
                            lemma_pow2_injective(j, k as nat);
                        }
                    }
                }
                Err(TerrainError::LevelTooDeep)
            } else {
                let mut v: Vec<u16> = Vec::new();
                proof {
                    assert(square_subdivides(region, level as nat)) by {
                        assert(level as nat <= k as nat && region.w as nat
                            == pow2(k as nat));
                    }
                    lemma_tri_indices_len(level as nat, region);
                    lemma_tri_indices_valid(level as nat, region);
                }
                subdivide(&mut v, level, region);
                Ok(v)
            }
        },
    }
}

/// The terrain: immutable per-vertex and per-instance data sampled once at
/// construction, the shared jitter pool, and the current level of detail.
/// Level changes never touch the vertex or instance data.
pub struct Terrain {
    vertices: Vec<Vertex>,
    grass_attrs: Vec<GrassAttrs>,
    grass_jitter: Vec<Jitter>,
    level: usize,
}

impl Terrain {
    /// The static vertex buffer, one vertex per grid cell in row-major order.
    pub closed spec fn vertices_view(self) -> Seq<Vertex> {
        self.vertices@
    }

    /// The static ground-cover instance buffer, `GRASS_PER_CELL` per cell.
    pub closed spec fn grass_view(self) -> Seq<GrassAttrs> {
        self.grass_attrs@
    }

    /// The jitter pool the ground cover was placed with.
    pub closed spec fn jitter_view(self) -> Seq<Jitter> {
        self.grass_jitter@
    }

    /// The current level of detail.
    pub closed spec fn level_spec(self) -> nat {
        self.level as nat
    }

    /// The buffers hold exactly one vertex per cell and a full pool of
    /// ground cover, and the level lies within `[1, MAX_LEVEL]`.
    pub open spec fn wf(self) -> bool {
        &&& 1 <= self.level_spec() <= MAX_LEVEL
        &&& self.vertices_view().len() == WORLD_SIZE * WORLD_SIZE
        &&& self.grass_view().len() == WORLD_SIZE * WORLD_SIZE * GRASS_PER_CELL
        &&& self.jitter_view().len() == GRASS_PER_CELL
        &&& forall|k: int|
            0 <= k < GRASS_PER_CELL ==> jitter_ok(#[trigger] self.jitter_view()[k])
    }

    /// The static vertex buffer, for upload by a renderer.
    pub fn vertices(&self) -> (r: &Vec<Vertex>)
        ensures
            r@ == self.vertices_view(),
    {
        &self.vertices
    }

    /// The static ground-cover buffer, for upload by a renderer.
    pub fn grass(&self) -> (r: &Vec<GrassAttrs>)
        ensures
            r@ == self.grass_view(),
    {
        &self.grass_attrs
    }

    /// The jitter pool the ground cover was placed with.
    pub fn jitter(&self) -> (r: &Vec<Jitter>)
        ensures
            r@ == self.jitter_view(),
    {
        &self.grass_jitter
    }

    /// The current level of detail.
    pub fn level(&self) -> (r: usize)
        ensures
            r == self.level_spec(),
    {
        self.level
    }

    /// Build the terrain from a noise field: sample the height of every grid
    /// cell once, in row-major order, and place `GRASS_PER_CELL` jittered
    /// ground-cover instances per cell, reusing one fixed jitter pool across
    /// every cell. No height is ever sampled again afterwards.
    ///
    /// The noise field must cover the world's sample coordinates; a field
    /// that is too small is rejected whole, never partially sampled.
    pub fn new(noise: &NoiseContext) -> (r: Result<Terrain, TerrainError>)
        requires
            noise.wf(),
        ensures
            (r matches Ok(t) ==> {
                &&& t.wf()
                &&& t.level_spec() == MAX_LEVEL
                &&& noise.grid().len() >= WORLD_SIZE + 1
                &&& forall|xi: int, zi: int|
                    0 <= xi < WORLD_SIZE && 0 <= zi < WORLD_SIZE ==> cell_ok(
                        t.vertices_view(),
                        t.grass_view(),
                        t.jitter_view(),
                        noise.grid(),
                        xi,
                        zi,
                    )
            }),
            (r matches Err(e) ==> {
                &&& noise.grid().len() < WORLD_SIZE + 1
                &&& e == TerrainError::NoiseTooSmall
            }),
    {
        let samples = noise.samples();
        if samples < WORLD_SIZE as usize {
            return Err(TerrainError::NoiseTooSmall);
        }

        let mut grass_jitter: Vec<Jitter> = Vec::new();
        for k in 0..GRASS_PER_CELL
            invariant
                grass_jitter@.len() == k,
                forall|j: int| 0 <= j < k ==> jitter_ok(#[trigger] grass_jitter@[j]),
        {
            let jx = (random_u64() % (SCALE as u64)) as i64;
            let jz = (random_u64() % (SCALE as u64)) as i64;
            let jf = (random_u64() % (SCALE as u64)) as i64;
            grass_jitter.push(Jitter { x: jx, z: jz, factor: jf });
        }

        let mut vertices: Vec<Vertex> = Vec::new();
        let mut attrs: Vec<GrassAttrs> = Vec::new();
        let ws = WORLD_SIZE as usize;
        let ghost grid = noise.grid();
        let ghost jit = grass_jitter@;

        for x in 0..ws
            invariant
                noise.wf(),
                noise.grid() == grid,
                grid.len() >= WORLD_SIZE + 1,
                grass_jitter@ == jit,
                jit.len() == GRASS_PER_CELL,
                forall|j: int| 0 <= j < GRASS_PER_CELL ==> jitter_ok(#[trigger] jit[j]),
                ws == WORLD_SIZE,
                vertices@.len() == x * (WORLD_SIZE as int),
                attrs@.len() == x * (WORLD_SIZE as int) * (GRASS_PER_CELL as int),
                forall|xi: int, zi: int|
                    0 <= xi < x && 0 <= zi < WORLD_SIZE ==> cell_ok(
                        vertices@,
                        attrs@,
                        jit,
                        grid,
                        xi,
                        zi,
                    ),
        {
            for z in 0..ws
                invariant
                    noise.wf(),
                    noise.grid() == grid,
                    grid.len() >= WORLD_SIZE + 1,
                    grass_jitter@ == jit,
                    jit.len() == GRASS_PER_CELL,
                    forall|j: int|
                        0 <= j < GRASS_PER_CELL ==> jitter_ok(#[trigger] jit[j]),
                    ws == WORLD_SIZE,
                    x < WORLD_SIZE,
                    vertices@.len() == x * (WORLD_SIZE as int) + z,
                    attrs@.len() == (x * (WORLD_SIZE as int) + z)
                        * (GRASS_PER_CELL as int),
                    forall|xi: int, zi: int|
                        0 <= xi < x && 0 <= zi < WORLD_SIZE ==> cell_ok(
                            vertices@,
                            attrs@,
                            jit,
                            grid,
                            xi,
                            zi,
                        ),
                    forall|zi: int|
                        0 <= zi < z ==> cell_ok(
                            vertices@,
                            attrs@,
                            jit,
                            grid,
                            x as int,
                            zi,
                        ),
            {
                let px = (x as i64) * SCALE;
                let pz = (z as i64) * SCALE;
                proof {
                    lemma_div_of_multiple(x as int, SCALE as int);
                    lemma_div_of_multiple(z as int, SCALE as int);
                    assert(in_range(grid.len() as int, px as int, pz as int));
                }
                let height_value = match noise.get_height(px, pz) {
                    Ok(h) => h,
                    Err(_) => {
                        proof {
                            assert(false);
                        }
                        0
                    },
                };
                let vertex = Vertex {
                    position: [px, height_value, pz],
                    tex_coords: [px, pz],
                };
                let ghost cell = index_spec(x as int, z as int);
                let ghost vs_before = vertices@;
                vertices.push(vertex);
                proof {
                    assert(vertex.position@ =~= seq![px, height_value, pz]);
                    assert(vertex.tex_coords@ =~= seq![px, pz]);
                    assert forall|xi: int, zi: int|
                        0 <= xi < x && 0 <= zi < WORLD_SIZE implies cell_ok(
                        vertices@,
                        attrs@,
                        jit,
                        grid,
                        xi,
                        zi,
                    ) by {
                        assert(index_spec(xi, zi) < x * (WORLD_SIZE as int));
                        lemma_cell_ok_preserved(
                            vs_before,
                            vertices@,
                            attrs@,
                            attrs@,
                            jit,
                            grid,
                            xi,
                            zi,
                        );
                    }
                    assert forall|zi: int| 0 <= zi < z implies cell_ok(
                        vertices@,
                        attrs@,
                        jit,
                        grid,
                        x as int,
                        zi,
                    ) by {
                        lemma_cell_ok_preserved(
                            vs_before,
                            vertices@,
                            attrs@,
                            attrs@,
                            jit,
                            grid,
                            x as int,
                            zi,
                        );
                    }
                    assert(vertices@[cell] == vertex);
                    assert(vertex_ok(vertices@, grid, x as int, z as int));
                }
                for k in 0..GRASS_PER_CELL
                    invariant
                        noise.wf(),
                        noise.grid() == grid,
                        grid.len() >= WORLD_SIZE + 1,
                        grass_jitter@ == jit,
                        jit.len() == GRASS_PER_CELL,
                        forall|j: int|
                            0 <= j < GRASS_PER_CELL ==> jitter_ok(#[trigger] jit[j]),
                        x < WORLD_SIZE,
                        z < WORLD_SIZE,
                        px == x as int * SCALE,
                        pz == z as int * SCALE,
                        cell == index_spec(x as int, z as int),
                        vertices@.len() == cell + 1,
                        attrs@.len() == cell * (GRASS_PER_CELL as int) + k,
                        forall|xi: int, zi: int|
                            0 <= xi < x && 0 <= zi < WORLD_SIZE ==> cell_ok(
                                vertices@,
                                attrs@,
                                jit,
                                grid,
                                xi,
                                zi,
                            ),
                        forall|zi: int|
                            0 <= zi < z ==> cell_ok(
                                vertices@,
                                attrs@,
                                jit,
                                grid,
                                x as int,
                                zi,
                            ),
                        vertex_ok(vertices@, grid, x as int, z as int),
                        forall|kk: int|
                            0 <= kk < k ==> grass_ok(
                                attrs@,
                                jit,
                                grid,
                                x as int,
                                z as int,
                                kk,
                            ),
                {
                    let j = grass_jitter[k];
                    let gx = px + j.x;
                    let gz = pz + j.z;
                    proof {
                        lemma_fundamental_div_mod_converse(
                            gx as int,
                            SCALE as int,
                            x as int,
                            j.x as int,
                        );
                        lemma_fundamental_div_mod_converse(
                            gz as int,
                            SCALE as int,
                            z as int,
                            j.z as int,
                        );
                        assert(in_range(grid.len() as int, gx as int, gz as int));
                    }
                    let grass_height_value = match noise.get_height(gx, gz) {
                        Ok(h) => h,
                        Err(_) => {
                            proof {
                                assert(false);
                            }
                            0
                        },
                    };
                    let attr = GrassAttrs {
                        offset: [gx, grass_height_value, gz],
                        rand_factor: j.factor,
                    };
                    let ghost at_before = attrs@;
                    attrs.push(attr);
                    proof {
                        assert(attr.offset@ =~= seq![gx, grass_height_value, gz]);
                        assert forall|xi: int, zi: int|
                            0 <= xi < x && 0 <= zi < WORLD_SIZE implies cell_ok(
                            vertices@,
                            attrs@,
                            jit,
                            grid,
                            xi,
                            zi,
                        ) by {
                            assert(index_spec(xi, zi) < x * (WORLD_SIZE as int));
                            assert((index_spec(xi, zi) + 1) * (GRASS_PER_CELL as int)
                                <= x * (WORLD_SIZE as int) * (GRASS_PER_CELL as int));
                            lemma_cell_ok_preserved(
                                vertices@,
                                vertices@,
                                at_before,
                                attrs@,
                                jit,
                                grid,
                                xi,
                                zi,
                            );
                        }
                        assert forall|zi: int| 0 <= zi < z implies cell_ok(
                            vertices@,
                            attrs@,
                            jit,
                            grid,
                            x as int,
                            zi,
                        ) by {
                            assert(index_spec(x as int, zi) + 1 <= cell);
                            assert((index_spec(x as int, zi) + 1)
                                * (GRASS_PER_CELL as int) <= cell
                                * (GRASS_PER_CELL as int));
                            lemma_cell_ok_preserved(
                                vertices@,
                                vertices@,
                                at_before,
                                attrs@,
                                jit,
                                grid,
                                x as int,
                                zi,
                            );
                        }
                        assert forall|kk: int| 0 <= kk < k + 1 implies grass_ok(
                            attrs@,
                            jit,
                            grid,
                            x as int,
                            z as int,
                            kk,
                        ) by {
                            if kk < k {
                                assert(grass_ok(
                                    at_before,
                                    jit,
                                    grid,
                                    x as int,
                                    z as int,
                                    kk,
                                ));
                                let idx = cell * (GRASS_PER_CELL as int) + kk;
                                assert(attrs@[idx] == at_before[idx]);
                            } else {
                                assert(attrs@[cell * (GRASS_PER_CELL as int) + k]
                                    == attr);
                            }
                        }
                    }
                }
                proof {
                    assert(cell_ok(vertices@, attrs@, jit, grid, x as int, z as int));
                    assert forall|zi: int| 0 <= zi < z + 1 implies cell_ok(
                        vertices@,
                        attrs@,
                        jit,
                        grid,
                        x as int,
                        zi,
                    ) by {}
                }
            }
            proof {
                assert forall|xi: int, zi: int|
                    0 <= xi < x + 1 && 0 <= zi < WORLD_SIZE implies cell_ok(
                    vertices@,
                    attrs@,
                    jit,
                    grid,
                    xi,
                    zi,
                ) by {
                    if xi == x as int {
                        assert(cell_ok(vertices@, attrs@, jit, grid, x as int, zi));
                    }
                }
            }
        }

        let t = Terrain {
            vertices,
            grass_attrs: attrs,
            grass_jitter,
            level: MAX_LEVEL,
        };
        Ok(t)
    }

    /// Ask for one level more detail; a no-op at the deepest level. The
    /// request takes effect on the next index rebuild and never touches the
    /// vertex or instance data.
    pub fn update(&mut self, event: &TerrainEvent)
        requires
            old(self).wf(),
        ensures
            final(self).wf(),
            final(self).level_spec() == match event {
                TerrainEvent::IncreaseDetail => increased(old(self).level_spec()),
                TerrainEvent::DecreaseDetail => decreased(old(self).level_spec()),
            },
            final(self).vertices_view() == old(self).vertices_view(),
            final(self).grass_view() == old(self).grass_view(),
            final(self).jitter_view() == old(self).jitter_view(),
    {
        match event {
            TerrainEvent::IncreaseDetail => self.increase(),
            TerrainEvent::DecreaseDetail => self.decrease(),
        }
    }

    /// One level more detail, saturating at `MAX_LEVEL`: the deepest level
    /// is the largest whose subdivision still halves down to single cells.
    pub fn increase(&mut self)
        requires
            old(self).wf(),
        ensures
            final(self).wf(),
            final(self).level_spec() == increased(old(self).level_spec()),
            final(self).vertices_view() == old(self).vertices_view(),
            final(self).grass_view() == old(self).grass_view(),
            final(self).jitter_view() == old(self).jitter_view(),
    {
        proof {
            lemma2_to64();
            lemma_pow_positive(2, (self.level + 1) as nat);
            assert(pow(2, (self.level + 1) as nat)
                == pow2((self.level + 1) as nat));
            lemma_pow_increases(2, (self.level + 1) as nat, 7);
            assert(pow2(7nat) == 128);
        }
        let pw = num_pow(2, self.level + 1);
        proof {
            if self.level < MAX_LEVEL {
                lemma_pow_increases(2, (self.level + 1) as nat, 6);
                assert(pow2(6nat) == 64);
            } else {
                assert(pow2(7nat) == 128);
            }
        }
        if pw <= (WORLD_SIZE as usize) - 1 {
            self.level = self.level + 1;
        }
    }

    /// One level less detail, saturating at 1.
    pub fn decrease(&mut self)
        requires
            old(self).wf(),
        ensures
            final(self).wf(),
            final(self).level_spec() == decreased(old(self).level_spec()),
            final(self).vertices_view() == old(self).vertices_view(),
            final(self).grass_view() == old(self).grass_view(),
            final(self).jitter_view() == old(self).jitter_view(),
    {
        if self.level > 1 {
            self.level = self.level - 1;
        }
    }

    /// Rebuild the index sequence for the full world at the current level of
    /// detail. Cheap, index-only work: the heightfield and the vertex and
    /// instance buffers are never touched.
    pub fn build_indices(&self) -> (r: Vec<u16>)
        requires
            self.wf(),
        ensures
            r@ == tri_indices(self.level_spec(), full_world()),
            r@.len() == 6 * leaf_count(self.level_spec()),
            forall|i: int|
                0 <= i < r@.len() ==> (#[trigger] r@[i]) < WORLD_SIZE * WORLD_SIZE,
    {
        let mut optimised: Vec<u16> = Vec::new();
        proof {
            lemma2_to64();
            assert(square_subdivides(full_world(), self.level_spec())) by {
                assert(self.level_spec() <= 6nat && full_world().w as nat
                    == pow2(6nat));
            }
            lemma_tri_indices_len(self.level_spec(), full_world());
            lemma_tri_indices_valid(self.level_spec(), full_world());
        }
        subdivide(&mut optimised, self.level, s(p(0, 0), WORLD_SIZE - 1));
        optimised
    }
}

} // verus!
