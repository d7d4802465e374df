//! Triangle meshes over fixed-point vertices: biome colours, face normals and
//! the index list of a regular grid.
use vstd::prelude::*;
use crate::arith::{floor_div, lemma_div_between, lemma_div_mod_of_sum, Vec3};
use crate::height_field::MAX_EXTENT;

verus! {

/// Fraction of the height multiplier above which terrain is snow, as
/// numerator and denominator.
pub const SNOW_LEVEL_NUM: i128 = 7;

/// Denominator of the snow level.
pub const SNOW_LEVEL_DEN: i128 = 10;

/// Fraction of the height multiplier at which the water surface lies, as
/// numerator and denominator; terrain at or below it is rock.
pub const WATER_LEVEL_NUM: i128 = 1_439_215_686;

/// Denominator of the water level.
pub const WATER_LEVEL_DEN: i128 = 10_000_000_000;

/// The colour classes of terrain.
#[derive(Clone, Copy, PartialEq, Eq, Structural, Debug)]
pub enum Biome {
    /// Green, between the water level and the snow line.
    Grass,
    /// Near-white, above the snow line.
    Snow,
    /// Dark gray, at or below the water level.
    Rock,
    /// Brown, on slopes.
    Dirt,
}

/// The biome of level ground at a sample: the exact height
/// `sample / 255 * height_multiplier` is held against the two levels.
pub open spec fn base_biome(sample: int, height_multiplier: int) -> Biome {
    if sample * height_multiplier * WATER_LEVEL_DEN <= WATER_LEVEL_NUM * height_multiplier * 255 {
        Biome::Rock
    } else if sample * height_multiplier * SNOW_LEVEL_DEN > SNOW_LEVEL_NUM * height_multiplier
        * 255 {
        Biome::Snow
    } else {
        Biome::Grass
    }
}

/// The biome of level ground at a sample.
pub fn classify(sample: u8, height_multiplier: i32) -> (biome: Biome)
    ensures
        biome == base_biome(sample as int, height_multiplier as int),
{
    let hm: i128 = height_multiplier as i128;
    proof {
        assert(-255 * 0x8000_0000 <= sample * hm <= 255 * 0x8000_0000) by (nonlinear_arith)
            requires
                0 <= sample <= 255,
                -0x8000_0000 <= hm <= 0x8000_0000,
        ;
    }
    let scaled: i128 = sample as i128 * hm;
    if scaled * WATER_LEVEL_DEN <= WATER_LEVEL_NUM * hm * 255 {
        Biome::Rock
    } else if scaled * SNOW_LEVEL_DEN > SNOW_LEVEL_NUM * hm * 255 {
        Biome::Snow
    } else {
        Biome::Grass
    }
}

/// Height of the water surface for a height multiplier, rounded down.
pub fn water_level(height_multiplier: i32) -> (level: i64)
    ensures
        level == (height_multiplier * WATER_LEVEL_NUM) / (WATER_LEVEL_DEN as int),
{
    let n: i128 = height_multiplier as i128 * WATER_LEVEL_NUM;
    proof {
        lemma_div_between(n as int, WATER_LEVEL_DEN as int, -0x8000_0000, 0x8000_0000);
    }
    floor_div(n, WATER_LEVEL_DEN) as i64
}

/// A mesh vertex: where it is, its biome, and the normal of the surface
/// there. Normals are not of unit length; only their direction counts.
#[derive(Clone, Copy, PartialEq, Eq, Structural, Debug)]
pub struct Vertex {
    pub position: Vec3,
    pub color: Biome,
    pub normal: Vec3,
}

impl Vertex {
    /// Where the vertex is.
    pub fn pos(&self) -> (p: Vec3)
        ensures
            p == self.position,
    {
        self.position
    }
}

/// A position that a mesh vertex may have.
pub open spec fn in_world(p: Vec3) -> bool {
    &&& 0 <= p.x <= MAX_EXTENT
    &&& -MAX_EXTENT <= p.y <= MAX_EXTENT
    &&& 0 <= p.z <= MAX_EXTENT
}

/// First component of the normal of the triangle `a b c`.
pub open spec fn normal_x(a: Vec3, b: Vec3, c: Vec3) -> int {
    (b.y - a.y) * (c.z - a.z) - (b.z - a.z) * (c.y - a.y)
}

/// Second, vertical component of the normal of the triangle `a b c`.
pub open spec fn normal_y(a: Vec3, b: Vec3, c: Vec3) -> int {
    (b.z - a.z) * (c.x - a.x) - (b.x - a.x) * (c.z - a.z)
}

/// Third component of the normal of the triangle `a b c`.
pub open spec fn normal_z(a: Vec3, b: Vec3, c: Vec3) -> int {
    (b.x - a.x) * (c.y - a.y) - (b.y - a.y) * (c.x - a.x)
}

/// Normal of the triangle `a b c`: the cross product of the edges `b - a`
/// and `c - a`. For corners in the world its components fit the type.
pub open spec fn spec_face_normal(a: Vec3, b: Vec3, c: Vec3) -> Vec3 {
    Vec3 {
        x: normal_x(a, b, c) as i64,
        y: normal_y(a, b, c) as i64,
        z: normal_z(a, b, c) as i64,
    }
}

/// A product is bounded by the product of its factors' bounds.
proof fn lemma_product_bound(p: int, q: int, bp: int, bq: int)
    requires
        -bp <= p <= bp,
        -bq <= q <= bq,
    ensures
        -(bp * bq) <= p * q <= bp * bq,
{
    assert(-(bp * bq) <= p * q <= bp * bq) by (nonlinear_arith)
        requires
            -bp <= p <= bp,
            -bq <= q <= bq,
    ;
}

/// The normal of a triangle with corners in the world fits in 63 bits.
pub proof fn lemma_face_normal_fits(a: Vec3, b: Vec3, c: Vec3)
    requires
        in_world(a),
        in_world(b),
        in_world(c),
    ensures
        -0x4000_0000_0000_0000 <= normal_x(a, b, c) <= 0x4000_0000_0000_0000,
        -0x4000_0000_0000_0000 <= normal_y(a, b, c) <= 0x4000_0000_0000_0000,
        -0x4000_0000_0000_0000 <= normal_z(a, b, c) <= 0x4000_0000_0000_0000,
        spec_face_normal(a, b, c).x == normal_x(a, b, c),
        spec_face_normal(a, b, c).y == normal_y(a, b, c),
        spec_face_normal(a, b, c).z == normal_z(a, b, c),
{
    let m = MAX_EXTENT as int;
    lemma_product_bound(b.y - a.y, c.z - a.z, 2 * m, m);
    lemma_product_bound(b.z - a.z, c.y - a.y, m, 2 * m);
    lemma_product_bound(b.z - a.z, c.x - a.x, m, m);
    lemma_product_bound(b.x - a.x, c.z - a.z, m, m);
    lemma_product_bound(b.x - a.x, c.y - a.y, m, 2 * m);
    lemma_product_bound(b.y - a.y, c.x - a.x, 2 * m, m);
    assert((2 * m) * m == 0x2000_0000_0000_0000 && m * (2 * m) == 0x2000_0000_0000_0000 && m * m
        == 0x1000_0000_0000_0000) by (nonlinear_arith)
        requires
            m == 0x4000_0000,
    ;
}

/// Normal of the triangle `a b c`.
pub fn face_normal(a: Vec3, b: Vec3, c: Vec3) -> (n: Vec3)
    requires
        in_world(a),
        in_world(b),
        in_world(c),
    ensures
        n == spec_face_normal(a, b, c),
{
    let ux: i64 = b.x - a.x;
    let uy: i64 = b.y - a.y;
    let uz: i64 = b.z - a.z;
    let vx: i64 = c.x - a.x;
    let vy: i64 = c.y - a.y;
    let vz: i64 = c.z - a.z;
    proof {
        let m = MAX_EXTENT as int;
        lemma_face_normal_fits(a, b, c);
        lemma_product_bound(uy as int, vz as int, 2 * m, m);
        lemma_product_bound(uz as int, vy as int, m, 2 * m);
        lemma_product_bound(uz as int, vx as int, m, m);
        lemma_product_bound(ux as int, vz as int, m, m);
        lemma_product_bound(ux as int, vy as int, m, 2 * m);
        lemma_product_bound(uy as int, vx as int, 2 * m, m);
        assert((2 * m) * m == 0x2000_0000_0000_0000 && m * (2 * m) == 0x2000_0000_0000_0000 && m
            * m == 0x1000_0000_0000_0000) by (nonlinear_arith)
            requires
                m == 0x4000_0000,
        ;
    }
    Vec3 { x: uy * vz - uz * vy, y: uz * vx - ux * vz, z: ux * vy - uy * vx }
}

/// Whether the unit vector along `n` has a vertical component below one
/// half: `n` points downwards, or `n.y / |n| < 1 / 2` squared out.
pub open spec fn spec_is_steep(n: Vec3) -> bool {
    n.y < 0 || 3 * (n.y * n.y) < n.x * n.x + n.z * n.z
}

/// The square of a number.
fn square(v: i64) -> (sq: u128)
    ensures
        sq == v * v,
        sq <= 0x4000_0000_0000_0000_0000_0000_0000_0000,
{
    let a: u128 = if v < 0 {
        (-(v as i128)) as u128
    } else {
        v as u128
    };
    proof {
        assert(a * a == v * v && a * a <= 0x8000_0000_0000_0000 * 0x8000_0000_0000_0000)
            by (nonlinear_arith)
            requires
                a == v || a == -v,
                0 <= a <= 0x8000_0000_0000_0000,
        ;
        assert(0x8000_0000_0000_0000 * 0x8000_0000_0000_0000
            == 0x4000_0000_0000_0000_0000_0000_0000_0000) by (nonlinear_arith);
    }
    a * a
}

/// Whether a surface with normal `n` is a slope.
pub fn is_steep(n: Vec3) -> (steep: bool)
    ensures
        steep == spec_is_steep(n),
{
    if n.y < 0 {
        return true;
    }
    let yy: u128 = square(n.y);
    let xx: u128 = square(n.x);
    let zz: u128 = square(n.z);
    3 * yy < xx + zz
}

/// Whether triangle `t` of the index list has `v` as a corner.
pub open spec fn touches(indices: Seq<u32>, t: int, v: int) -> bool {
    indices[3 * t] == v || indices[3 * t + 1] == v || indices[3 * t + 2] == v
}

/// The last of the first `n` triangles that has `v` as a corner, or `-1`.
pub open spec fn last_touch(indices: Seq<u32>, v: int, n: nat) -> int
    decreases n,
{
    if n == 0 {
        -1
    } else if touches(indices, n - 1, v) {
        n - 1
    } else {
        last_touch(indices, v, (n - 1) as nat)
    }
}

/// Normal of triangle `t`, from the positions of its corners.
pub open spec fn triangle_normal(vertices: Seq<Vertex>, indices: Seq<u32>, t: int) -> Vec3 {
    spec_face_normal(
        vertices[indices[3 * t] as int].position,
        vertices[indices[3 * t + 1] as int].position,
        vertices[indices[3 * t + 2] as int].position,
    )
}

/// Whether triangle `t` is a slope with `v` as a corner.
pub open spec fn slope_at(vertices: Seq<Vertex>, indices: Seq<u32>, t: int, v: int) -> bool {
    touches(indices, t, v) && spec_is_steep(triangle_normal(vertices, indices, t))
}

/// Whether one of the first `n` triangles is a slope with `v` as a corner.
pub open spec fn on_slope(vertices: Seq<Vertex>, indices: Seq<u32>, v: int, n: nat) -> bool {
    exists|t: int| 0 <= t < n && #[trigger] slope_at(vertices, indices, t, v)
}

/// Vertex `v` after the first `n` triangles have left their mark: it has the
/// normal of the last triangle that touches it, and is dirt if it lies on a
/// slope and is not snow.
pub open spec fn shaded_vertex(vertices: Seq<Vertex>, indices: Seq<u32>, v: int, n: nat) -> Vertex {
    let last = last_touch(indices, v, n);
    Vertex {
        position: vertices[v].position,
        color: if vertices[v].color != Biome::Snow && on_slope(vertices, indices, v, n) {
            Biome::Dirt
        } else {
            vertices[v].color
        },
        normal: if last < 0 {
            vertices[v].normal
        } else {
            triangle_normal(vertices, indices, last)
        },
    }
}

/// The vertices after the first `n` triangles have left their mark.
pub open spec fn shaded(vertices: Seq<Vertex>, indices: Seq<u32>, n: nat) -> Seq<Vertex> {
    Seq::new(vertices.len(), |v: int| shaded_vertex(vertices, indices, v, n))
}

/// A vertex that a triangle with the given normal has left its mark on.
pub open spec fn painted(vertex: Vertex, normal: Vec3, steep: bool) -> Vertex {
    Vertex {
        position: vertex.position,
        color: if steep && vertex.color != Biome::Snow {
            Biome::Dirt
        } else {
            vertex.color
        },
        normal,
    }
}

/// One more triangle puts a vertex on a slope if it is one and touches it.
proof fn lemma_on_slope_step(vertices: Seq<Vertex>, indices: Seq<u32>, v: int, n: nat)
    ensures
        on_slope(vertices, indices, v, n + 1) <==> on_slope(vertices, indices, v, n) || slope_at(
            vertices,
            indices,
            n as int,
            v,
        ),
{
    if on_slope(vertices, indices, v, n + 1) {
        let t = choose|t: int| 0 <= t < n + 1 && #[trigger] slope_at(vertices, indices, t, v);
        if t < n {
            assert(slope_at(vertices, indices, t, v));
        }
    }
    if on_slope(vertices, indices, v, n) {
        let t = choose|t: int| 0 <= t < n && #[trigger] slope_at(vertices, indices, t, v);
        assert(slope_at(vertices, indices, t, v));
    }
}

/// Marks one more triangle: a vertex it touches is painted, others stay.
proof fn lemma_shaded_step(vertices: Seq<Vertex>, indices: Seq<u32>, v: int, n: nat)
    requires
        0 <= v < vertices.len(),
    ensures
        shaded_vertex(vertices, indices, v, n + 1) == if touches(indices, n as int, v) {
            painted(
                shaded_vertex(vertices, indices, v, n),
                triangle_normal(vertices, indices, n as int),
                spec_is_steep(triangle_normal(vertices, indices, n as int)),
            )
        } else {
            shaded_vertex(vertices, indices, v, n)
        },
{
    lemma_on_slope_step(vertices, indices, v, n);
    assert(last_touch(indices, v, n + 1) == if touches(indices, n as int, v) {
        n as int
    } else {
        last_touch(indices, v, n)
    });
}

/// Leaves the mark of a triangle on one of its corners.
fn paint(vertices: &mut Vec<Vertex>, v: usize, normal: Vec3, steep: bool)
    requires
        v < old(vertices).len(),
    ensures
        final(vertices)@ == old(vertices)@.update(
            v as int,
            painted(old(vertices)@[v as int], normal, steep),
        ),
{
    let before = vertices[v];
    let color = match before.color {
        Biome::Snow => Biome::Snow,
        other => if steep {
            Biome::Dirt
        } else {
            other
        },
    };
    vertices.set(v, Vertex { position: before.position, color, normal });
}

/// Gives every vertex the normal of the last triangle that touches it, and
/// turns to dirt every vertex on a slope that is not snow.
pub fn generate_normals(vertices: &mut Vec<Vertex>, indices: &Vec<u32>)
    requires
        forall|i: int| 0 <= i < indices.len() ==> indices[i] < old(vertices).len(),
        forall|v: int| 0 <= v < old(vertices).len() ==> in_world(#[trigger] old(vertices)[v].position),
    ensures
        final(vertices)@ == shaded(old(vertices)@, indices@, (indices.len() / 3) as nat),
{
    let count: usize = indices.len() / 3;
    let ghost orig = vertices@;
    let mut t: usize = 0;
    assert(vertices@ =~= shaded(orig, indices@, 0));
    while t < count
        invariant
            t <= count,
            count == indices.len() / 3,
            orig.len() == vertices.len(),
            vertices@ == shaded(orig, indices@, t as nat),
            forall|i: int| 0 <= i < indices.len() ==> indices[i] < orig.len(),
            forall|v: int| 0 <= v < orig.len() ==> in_world(#[trigger] orig[v].position),
        decreases count - t,
    {
        let v1: usize = indices[t * 3] as usize;
        let v2: usize = indices[t * 3 + 1] as usize;
        let v3: usize = indices[t * 3 + 2] as usize;
        let normal = face_normal(vertices[v1].position, vertices[v2].position, vertices[v3].position);
        assert(normal == triangle_normal(orig, indices@, t as int));
        let steep = is_steep(normal);
        let ghost before = vertices@;
        paint(vertices, v1, normal, steep);
        paint(vertices, v2, normal, steep);
        paint(vertices, v3, normal, steep);
        proof {
            assert forall|v: int| 0 <= v < orig.len() implies vertices@[v] == shaded_vertex(
                orig,
                indices@,
                v,
                (t + 1) as nat,
            ) by {
                lemma_shaded_step(orig, indices@, v, t as nat);
                assert(before[v] == shaded_vertex(orig, indices@, v, t as nat));
            }
            assert(vertices@ =~= shaded(orig, indices@, (t + 1) as nat));
        }
        t += 1;
    }
}

/// Entry `k` of the index list of a grid with `rows` vertices per column:
/// quad `k / 6`, counted column by column, is split along its diagonal into
/// the triangles `{i, i + 1, i + rows + 1}` and `{i, i + rows + 1, i + rows}`,
/// where `i` is the quad's first corner.
pub open spec fn grid_index(rows: int, k: int) -> int {
    let quad = k / 6;
    let i = (quad / (rows - 1)) * rows + quad % (rows - 1);
    let corner = k % 6;
    if corner == 0 || corner == 3 {
        i
    } else if corner == 1 {
        i + 1
    } else if corner == 5 {
        i + rows
    } else {
        i + rows + 1
    }
}

/// The triangles of a grid of `cols` by `rows` vertices, where vertex
/// `(x, y)` has the index `x * rows + y`.
pub open spec fn spec_grid_indices(cols: int, rows: int) -> Seq<u32> {
    if cols < 2 || rows < 2 {
        Seq::empty()
    } else {
        Seq::new((6 * ((cols - 1) * (rows - 1))) as nat, |k: int| grid_index(rows, k) as u32)
    }
}

/// Every entry of a grid's index list is the index of one of its vertices.
pub proof fn lemma_grid_index_in_range(cols: int, rows: int, k: int)
    requires
        cols >= 2,
        rows >= 2,
        0 <= k < 6 * ((cols - 1) * (rows - 1)),
    ensures
        0 <= grid_index(rows, k) < cols * rows,
{
    let quad = k / 6;
    let x = quad / (rows - 1);
    let y = quad % (rows - 1);
    vstd::arithmetic::div_mod::lemma_fundamental_div_mod(quad, rows - 1);
    assert(0 <= y < rows - 1);
    assert(x <= cols - 2) by (nonlinear_arith)
        requires
            quad == (rows - 1) * x + y,
            0 <= y,
            quad < (cols - 1) * (rows - 1),
            rows >= 2,
    ;
    assert(0 <= x) by (nonlinear_arith)
        requires
            quad == (rows - 1) * x + y,
            y < rows - 1,
            0 <= quad,
            rows >= 2,
    ;
    assert(0 <= x * rows + y && x * rows + y + rows + 1 < cols * rows) by (nonlinear_arith)
        requires
            0 <= x <= cols - 2,
            0 <= y < rows - 1,
            rows >= 2,
    ;
}

/// The triangles of a grid of `cols` by `rows` vertices.
pub fn grid_indices(cols: u32, rows: u32) -> (indices: Vec<u32>)
    requires
        cols * rows <= u32::MAX,
    ensures
        indices@ == spec_grid_indices(cols as int, rows as int),
{
    let mut indices: Vec<u32> = Vec::new();
    if cols < 2 || rows < 2 {
        assert(indices@ =~= spec_grid_indices(cols as int, rows as int));
        return indices;
    }
    let ghost want = spec_grid_indices(cols as int, rows as int);
    let mut x: u32 = 0;
    while x < cols - 1
        invariant
            cols >= 2,
            rows >= 2,
            cols * rows <= u32::MAX,
            x <= cols - 1,
            want == spec_grid_indices(cols as int, rows as int),
            indices.len() == 6 * (x * (rows - 1)),
            forall|k: int| 0 <= k < indices.len() ==> indices[k] == want[k],
        decreases cols - 1 - x,
    {
        let mut y: u32 = 0;
        while y < rows - 1
            invariant
                cols >= 2,
                rows >= 2,
                cols * rows <= u32::MAX,
                x < cols - 1,
                y <= rows - 1,
                want == spec_grid_indices(cols as int, rows as int),
                indices.len() == 6 * (x * (rows - 1) + y),
                forall|k: int| 0 <= k < indices.len() ==> indices[k] == want[k],
            decreases rows - 1 - y,
        {
            proof {
                assert(x * rows + y + rows + 1 < cols * rows && x * (rows - 1) + y < (cols - 1) * (
                rows - 1)) by (nonlinear_arith)
                    requires
                        0 <= x <= cols - 2,
                        0 <= y < rows - 1,
                        rows >= 2,
                ;
                lemma_div_mod_of_sum(x as int, rows - 1, y as int);
            }
            let i: u32 = x * rows + y;
            let ghost base = indices.len() as int;
            indices.push(i);
            indices.push(i + 1);
            indices.push(i + rows + 1);
            indices.push(i);
            indices.push(i + rows + 1);
            indices.push(i + rows);
            proof {
                assert forall|k: int| base <= k < base + 6 implies indices[k] == want[k] by {
                    assert(k / 6 == x * (rows - 1) + y);
                    assert(want[k] == grid_index(rows as int, k) as u32);
                }
                assert(6 * (x * (rows - 1) + y) + 6 == 6 * (x * (rows - 1) + (y + 1)));
            }
            y += 1;
        }
        proof {
            assert(6 * (x * (rows - 1) + (rows - 1)) == 6 * ((x + 1) * (rows - 1)))
                by (nonlinear_arith);
        }
        x += 1;
    }
    assert(indices@ =~= want);
    indices
}

} // verus!
