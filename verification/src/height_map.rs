//! The terrain: a height field cut into chunks, each with its own mesh.
use vstd::prelude::*;
use vstd::arithmetic::div_mod::lemma_fundamental_div_mod;
use vstd::arithmetic::mul::lemma_mul_upper_bound;
use crate::arith::{lemma_div_mod_of_sum, Vec3};
use crate::decode::{gray_samples, image_samples, image_size};
use crate::height_field::{limits_ok, sample_height, scales_ok, HeightField, MAX_EXTENT};
use crate::mesh::{
    base_biome, classify, generate_normals, grid_indices, in_world, lemma_grid_index_in_range,
    shaded, spec_grid_indices, Vertex,
};

verus! {

/// Where a copy of a mesh stands: its position, and its turn about the
/// vertical axis in microradians.
#[derive(Clone, Copy, PartialEq, Eq, Structural, Debug)]
pub struct Instance {
    pub position: Vec3,
    pub rotation: i64,
}

impl Instance {
    /// At the origin, not turned.
    pub open spec fn identity() -> Instance {
        Instance { position: Vec3::zero(), rotation: 0 }
    }
}

/// The mesh of one chunk, drawn once where it was built.
pub struct TerrainChunk {
    pub vertices: Vec<Vertex>,
    pub indices: Vec<u32>,
    pub instances: Vec<Instance>,
}

/// Why a height map could not be loaded.
#[derive(Clone, Copy, PartialEq, Eq, Structural, Debug)]
pub enum HeightMapError {
    /// The bytes are not an image that the decoder reads.
    ImageDecode,
    /// The image, the texel size or the height multiplier is out of limits.
    OutOfLimits,
}

/// Sampled texels per chunk along an axis of `texels` texels, every `res`-th
/// of which is sampled.
pub open spec fn chunk_span(texels: int, res: int, chunks: int) -> int {
    (texels / res) / chunks
}

/// Vertices of chunk `c` along an axis: its span, and one more that it shares
/// with the next chunk unless it is the last.
pub open spec fn chunk_len(texels: int, res: int, chunks: int, c: int) -> int {
    chunk_span(texels, res, chunks) + if c == chunks - 1 {
        0int
    } else {
        1int
    }
}

/// The texel under vertex `i` of chunk `c` along an axis.
pub open spec fn chunk_texel(texels: int, res: int, chunks: int, c: int, i: int) -> int {
    (i + chunk_span(texels, res, chunks) * c) * res
}

/// Vertex `(x, y)` of chunk `(cx, cy)` before normals are generated: it
/// stands over its texel at the height of the sample there, has the biome of
/// level ground, and no normal.
pub open spec fn base_vertex(
    field: HeightField,
    res: int,
    chunks: int,
    cx: int,
    cy: int,
    x: int,
    y: int,
) -> Vertex {
    let tx = chunk_texel(field.width as int, res, chunks, cx, x);
    let ty = chunk_texel(field.height as int, res, chunks, cy, y);
    let sample = field.sample(tx, ty);
    Vertex {
        position: Vec3 {
            x: (tx * field.size) as i64,
            y: sample_height(sample, field.height_multiplier as int) as i64,
            z: (ty * field.size) as i64,
        },
        color: base_biome(sample, field.height_multiplier as int),
        normal: Vec3::zero(),
    }
}

/// The vertices of chunk `(cx, cy)` before normals are generated, column by
/// column: vertex `(x, y)` has the index `x * rows + y`.
pub open spec fn base_vertices(field: HeightField, res: int, chunks: int, cx: int, cy: int) -> Seq<
    Vertex,
> {
    let cols = chunk_len(field.width as int, res, chunks, cx);
    let rows = chunk_len(field.height as int, res, chunks, cy);
    Seq::new(
        (cols * rows) as nat,
        |k: int| base_vertex(field, res, chunks, cx, cy, k / rows, k % rows),
    )
}

/// The triangles of chunk `(cx, cy)`.
pub open spec fn chunk_indices(field: HeightField, res: int, chunks: int, cx: int, cy: int) -> Seq<
    u32,
> {
    spec_grid_indices(
        chunk_len(field.width as int, res, chunks, cx),
        chunk_len(field.height as int, res, chunks, cy),
    )
}

/// The vertices of chunk `(cx, cy)`.
pub open spec fn chunk_vertices(
    field: HeightField,
    res: int,
    chunks: int,
    gen_normals: bool,
    cx: int,
    cy: int,
) -> Seq<Vertex> {
    let base = base_vertices(field, res, chunks, cx, cy);
    let indices = chunk_indices(field, res, chunks, cx, cy);
    if gen_normals {
        shaded(base, indices, indices.len() / 3)
    } else {
        base
    }
}

/// Whether a mesh is that of chunk `(cx, cy)`.
pub open spec fn is_chunk(
    chunk: TerrainChunk,
    field: HeightField,
    res: int,
    chunks: int,
    gen_normals: bool,
    cx: int,
    cy: int,
) -> bool {
    &&& chunk.vertices@ == chunk_vertices(field, res, chunks, gen_normals, cx, cy)
    &&& chunk.indices@ == chunk_indices(field, res, chunks, cx, cy)
    &&& chunk.instances@ == seq![Instance::identity()]
}

/// Whether the models hold chunk `(cx, cy)` in its place, under its name.
pub open spec fn holds_chunk(
    models: Seq<((u32, u32), TerrainChunk)>,
    field: HeightField,
    res: int,
    chunks: int,
    gen_normals: bool,
    cx: int,
    cy: int,
) -> bool {
    let model = models[cx * chunks + cy];
    &&& model.0 == (cx as u32, cy as u32)
    &&& is_chunk(model.1, field, res, chunks, gen_normals, cx, cy)
}

/// Along one axis, every vertex of a chunk stands over a texel of the field,
/// and a chunk has no more vertices than the field has texels.
pub proof fn lemma_chunk_texel_in_range(texels: int, res: int, chunks: int, c: int, i: int)
    requires
        texels >= 1,
        res >= 1,
        0 <= c < chunks,
        0 <= i < chunk_len(texels, res, chunks, c),
    ensures
        0 <= i <= i + chunk_span(texels, res, chunks) * c <= chunk_texel(texels, res, chunks, c, i)
            < texels,
{
    let grid = texels / res;
    let span = grid / chunks;
    lemma_fundamental_div_mod(texels, res);
    lemma_fundamental_div_mod(grid, chunks);
    let p = i + span * c;
    assert(0 <= grid && 0 <= span) by (nonlinear_arith)
        requires
            texels == res * grid + texels % res,
            grid == chunks * span + grid % chunks,
            0 <= texels % res < res,
            0 <= grid % chunks < chunks,
            texels >= 1,
    ;
    assert(span * c >= 0 && (span == 0 ==> span * c == 0)) by (nonlinear_arith)
        requires
            span >= 0,
            c >= 0,
    ;
    if span == 0 {
        assert(p == 0);
        assert(p * res == 0) by (nonlinear_arith)
            requires
                p == 0,
        ;
    } else {
        assert(p <= grid - 1) by (nonlinear_arith)
            requires
                p == i + span * c,
                i < span + if c == chunks - 1 {
                    0int
                } else {
                    1int
                },
                0 <= c < chunks,
                span >= 1,
                grid == chunks * span + grid % chunks,
                0 <= grid % chunks,
        ;
        assert(p <= p * res && p * res < texels) by (nonlinear_arith)
            requires
                0 <= p <= grid - 1,
                res >= 1,
                texels == res * grid + texels % res,
                0 <= texels % res,
        ;
    }
}

/// A chunk has no more vertices than the field has texels.
pub proof fn lemma_chunk_len_bound(texels: int, res: int, chunks: int, c: int)
    requires
        texels >= 1,
        res >= 1,
        0 <= c < chunks,
    ensures
        0 <= chunk_len(texels, res, chunks, c) <= texels,
{
    let n = chunk_len(texels, res, chunks, c);
    let grid = texels / res;
    lemma_fundamental_div_mod(texels, res);
    lemma_fundamental_div_mod(grid, chunks);
    assert(0 <= grid && 0 <= grid / chunks) by (nonlinear_arith)
        requires
            texels == res * grid + texels % res,
            grid == chunks * (grid / chunks) + grid % chunks,
            0 <= texels % res < res,
            0 <= grid % chunks < chunks,
            texels >= 1,
    ;
    if n >= 1 {
        lemma_chunk_texel_in_range(texels, res, chunks, c, n - 1);
    }
}

/// Builds the mesh of chunk `(cx, cy)`.
pub fn build_chunk(
    field: &HeightField,
    res: u32,
    chunks: u32,
    gen_normals: bool,
    cx: u32,
    cy: u32,
) -> (chunk: TerrainChunk)
    requires
        field.wf(),
        res >= 1,
        cx < chunks,
        cy < chunks,
    ensures
        is_chunk(chunk, *field, res as int, chunks as int, gen_normals, cx as int, cy as int),
{
    let span_x: u32 = field.width / res / chunks;
    let span_y: u32 = field.height / res / chunks;
    proof {
        lemma_chunk_len_bound(field.width as int, res as int, chunks as int, cx as int);
        lemma_chunk_len_bound(field.height as int, res as int, chunks as int, cy as int);
    }
    let cols: u32 = if cx == chunks - 1 {
        span_x
    } else {
        span_x + 1
    };
    let rows: u32 = if cy == chunks - 1 {
        span_y
    } else {
        span_y + 1
    };
    proof {
        lemma_mul_upper_bound(cols as int, field.width as int, rows as int, field.height as int);
    }
    let ghost base = base_vertices(*field, res as int, chunks as int, cx as int, cy as int);
    let mut vertices: Vec<Vertex> = Vec::new();
    let mut x: u32 = 0;
    while x < cols
        invariant
            field.wf(),
            res >= 1,
            cx < chunks,
            cy < chunks,
            span_x == chunk_span(field.width as int, res as int, chunks as int),
            span_y == chunk_span(field.height as int, res as int, chunks as int),
            cols == chunk_len(field.width as int, res as int, chunks as int, cx as int),
            rows == chunk_len(field.height as int, res as int, chunks as int, cy as int),
            base == base_vertices(*field, res as int, chunks as int, cx as int, cy as int),
            x <= cols,
            vertices.len() == x * rows,
            forall|k: int| 0 <= k < vertices.len() ==> vertices[k] == base[k],
            forall|k: int| 0 <= k < vertices.len() ==> in_world(#[trigger] vertices[k].position),
        decreases cols - x,
    {
        let mut y: u32 = 0;
        while y < rows
            invariant
                field.wf(),
                res >= 1,
                cx < chunks,
                cy < chunks,
                span_x == chunk_span(field.width as int, res as int, chunks as int),
                span_y == chunk_span(field.height as int, res as int, chunks as int),
                cols == chunk_len(field.width as int, res as int, chunks as int, cx as int),
                rows == chunk_len(field.height as int, res as int, chunks as int, cy as int),
                base == base_vertices(*field, res as int, chunks as int, cx as int, cy as int),
                x < cols,
                y <= rows,
                vertices.len() == x * rows + y,
                forall|k: int| 0 <= k < vertices.len() ==> vertices[k] == base[k],
                forall|k: int| 0 <= k < vertices.len() ==> in_world(#[trigger] vertices[k].position),
            decreases rows - y,
        {
            proof {
                lemma_chunk_texel_in_range(
                    field.width as int,
                    res as int,
                    chunks as int,
                    cx as int,
                    x as int,
                );
                lemma_chunk_texel_in_range(
                    field.height as int,
                    res as int,
                    chunks as int,
                    cy as int,
                    y as int,
                );
            }
            let tx: u32 = (x + span_x * cx) * res;
            let ty: u32 = (y + span_y * cy) * res;
            let sample = field.sample_at(tx, ty);
            let h = field.height_of_sample(sample);
            proof {
                assert(tx * field.size <= (field.width - 1) * field.size && ty * field.size <= (
                field.height - 1) * field.size) by (nonlinear_arith)
                    requires
                        0 <= tx <= field.width - 1,
                        0 <= ty <= field.height - 1,
                        field.size >= 1,
                ;
            }
            let vertex = Vertex {
                position: Vec3 {
                    x: (tx as u64 * field.size as u64) as i64,
                    y: h,
                    z: (ty as u64 * field.size as u64) as i64,
                },
                color: classify(sample, field.height_multiplier),
                normal: Vec3 { x: 0, y: 0, z: 0 },
            };
            proof {
                lemma_div_mod_of_sum(x as int, rows as int, y as int);
                assert(x * rows + y < cols * rows) by (nonlinear_arith)
                    requires
                        0 <= x < cols,
                        0 <= y < rows,
                ;
                assert(vertex == base[x * rows + y]);
            }
            vertices.push(vertex);
            y += 1;
        }
        proof {
            assert(x * rows + rows == (x + 1) * rows) by (nonlinear_arith);
        }
        x += 1;
    }
    assert(vertices@ =~= base);
    let indices = grid_indices(cols, rows);
    if gen_normals {
        proof {
            assert forall|i: int| 0 <= i < indices.len() implies indices[i] < vertices.len() by {
                lemma_grid_index_in_range(cols as int, rows as int, i);
            }
        }
        generate_normals(&mut vertices, &indices);
    }
    let mut instances: Vec<Instance> = Vec::new();
    instances.push(Instance { position: Vec3 { x: 0, y: 0, z: 0 }, rotation: 0 });
    assert(instances@ =~= seq![Instance::identity()]);
    TerrainChunk { vertices, indices, instances }
}

/// A height field with the meshes of its chunks: `chunks` by `chunks` of
/// them, over every `res`-th texel.
pub struct HeightMap {
    pub field: HeightField,
    pub models: Vec<((u32, u32), TerrainChunk)>,
    pub res: u32,
    pub chunks: u32,
    pub gen_normals: bool,
}

impl HeightMap {
    /// The field is well formed and the models are the chunks' meshes,
    /// column by column.
    pub open spec fn wf(&self) -> bool {
        &&& self.field.wf()
        &&& self.res >= 1
        &&& self.models.len() == self.chunks * self.chunks
        &&& forall|cx: int, cy: int|
            0 <= cx < self.chunks && 0 <= cy < self.chunks ==> #[trigger] holds_chunk(
                self.models@,
                self.field,
                self.res as int,
                self.chunks as int,
                self.gen_normals,
                cx,
                cy,
            )
    }

    /// Cuts a height field into chunks and builds their meshes.
    pub fn build(field: HeightField, res: u32, chunks: u32, gen_normals: bool) -> (map: HeightMap)
        requires
            field.wf(),
            res >= 1,
        ensures
            map.wf(),
            map.field == field,
            map.res == res,
            map.chunks == chunks,
            map.gen_normals == gen_normals,
    {
        let mut models: Vec<((u32, u32), TerrainChunk)> = Vec::new();
        let mut cx: u32 = 0;
        while cx < chunks
            invariant
                field.wf(),
                res >= 1,
                cx <= chunks,
                models.len() == cx * chunks,
                forall|a: int, b: int|
                    0 <= a < cx && 0 <= b < chunks ==> #[trigger] holds_chunk(
                        models@,
                        field,
                        res as int,
                        chunks as int,
                        gen_normals,
                        a,
                        b,
                    ),
            decreases chunks - cx,
        {
            let mut cy: u32 = 0;
            while cy < chunks
                invariant
                    field.wf(),
                    res >= 1,
                    cx < chunks,
                    cy <= chunks,
                    models.len() == cx * chunks + cy,
                    forall|a: int, b: int|
                        0 <= a <= cx && 0 <= b < chunks && (a < cx || b < cy)
                            ==> #[trigger] holds_chunk(
                            models@,
                            field,
                            res as int,
                            chunks as int,
                            gen_normals,
                            a,
                            b,
                        ),
                decreases chunks - cy,
            {
                let chunk = build_chunk(&field, res, chunks, gen_normals, cx, cy);
                let ghost before = models@;
                models.push(((cx, cy), chunk));
                proof {
                    assert forall|a: int, b: int|
                        0 <= a <= cx && 0 <= b < chunks && (a < cx || b < cy + 1)
                            implies #[trigger] holds_chunk(
                        models@,
                        field,
                        res as int,
                        chunks as int,
                        gen_normals,
                        a,
                        b,
                    ) by {
                        if a < cx || b < cy {
                            assert(holds_chunk(
                                before,
                                field,
                                res as int,
                                chunks as int,
                                gen_normals,
                                a,
                                b,
                            ));
                            assert(a * chunks + b < cx * chunks + cy) by (nonlinear_arith)
                                requires
                                    0 <= a <= cx,
                                    0 <= b < chunks,
                                    a < cx || b < cy,
                            ;
                            assert(models@[a * chunks + b] == before[a * chunks + b]);
                        }
                    }
                }
                cy += 1;
            }
            proof {
                assert(cx * chunks + chunks == (cx + 1) * chunks) by (nonlinear_arith);
            }
            cx += 1;
        }
        HeightMap { field, models, res, chunks, gen_normals }
    }

    /// The terrain over the first channel of an image, or the error
    /// `OutOfLimits`.
    pub fn from_image(
        image: &image::DynamicImage,
        res: u32,
        size: u32,
        chunks: u32,
        height_multiplier: i32,
        gen_normals: bool,
    ) -> (loaded: Result<HeightMap, HeightMapError>)
        requires
            res >= 1,
        ensures
            loaded is Ok <==> limits_ok(
                image_size(*image).0 as int,
                image_size(*image).1 as int,
                size as int,
                height_multiplier as int,
            ),
            loaded matches Err(e) ==> e == HeightMapError::OutOfLimits,
            loaded matches Ok(map) ==> {
                &&& map.wf()
                &&& map.res == res
                &&& map.chunks == chunks
                &&& map.gen_normals == gen_normals
                &&& map.field.width == image_size(*image).0
                &&& map.field.height == image_size(*image).1
                &&& map.field.size == size
                &&& map.field.height_multiplier == height_multiplier
                &&& forall|k: int|
                    0 <= k < map.field.samples.len() ==> map.field.samples[k] == image_samples(
                        *image,
                    )[k]
            },
    {
        match HeightField::from_image(image, size, height_multiplier) {
            None => Err(HeightMapError::OutOfLimits),
            Some(field) => Ok(HeightMap::build(field, res, chunks, gen_normals)),
        }
    }

    /// The terrain over what the decoder made of an elevation image: where
    /// it failed, the error `ImageDecode`; else the terrain over the gray
    /// values of the image, or the error `OutOfLimits`.
    pub fn from_decoded(
        decoded: Result<image::DynamicImage, image::ImageError>,
        res: u32,
        size: u32,
        chunks: u32,
        height_multiplier: i32,
        gen_normals: bool,
    ) -> (loaded: Result<HeightMap, HeightMapError>)
        requires
            res >= 1,
        ensures
            match decoded {
                Err(_) => loaded == Err::<HeightMap, HeightMapError>(HeightMapError::ImageDecode),
                Ok(image) => if limits_ok(
                    image_size(image).0 as int,
                    image_size(image).1 as int,
                    size as int,
                    height_multiplier as int,
                ) {
                    &&& loaded matches Ok(map)
                    &&& map.wf()
                    &&& map.res == res
                    &&& map.chunks == chunks
                    &&& map.gen_normals == gen_normals
                    &&& map.field.width == image_size(image).0
                    &&& map.field.height == image_size(image).1
                    &&& map.field.size == size
                    &&& map.field.height_multiplier == height_multiplier
                    &&& forall|k: int|
                        0 <= k < map.field.samples.len() ==> map.field.samples[k] == gray_samples(
                            image,
                        )[k]
                } else {
                    loaded == Err::<HeightMap, HeightMapError>(HeightMapError::OutOfLimits)
                },
            },
    {
        match decoded {
            Err(_) => Err(HeightMapError::ImageDecode),
            Ok(image) => {
                let gray = image.grayscale();
                HeightMap::from_image(&gray, res, size, chunks, height_multiplier, gen_normals)
            },
        }
    }

    /// Decodes an elevation image, takes its gray values for samples, and
    /// builds the terrain over them. Bytes that the decoder refuses give
    /// the error `ImageDecode`, an image or a scale out of limits
    /// `OutOfLimits`: see `from_decoded`.
    pub fn from_bytes(
        image_bytes: &[u8],
        res: u32,
        size: u32,
        chunks: u32,
        height_multiplier: i32,
        gen_normals: bool,
    ) -> (loaded: Result<HeightMap, HeightMapError>)
        requires
            res >= 1,
        ensures
            loaded matches Ok(map) ==> {
                &&& map.wf()
                &&& map.res == res
                &&& map.chunks == chunks
                &&& map.gen_normals == gen_normals
                &&& map.field.size == size
                &&& map.field.height_multiplier == height_multiplier
            },
            !scales_ok(size as int, height_multiplier as int) ==> loaded is Err,
    {
        let decoded = image::load_from_memory(image_bytes);
        HeightMap::from_decoded(decoded, res, size, chunks, height_multiplier, gen_normals)
    }

    /// Height of the terrain at world position `(x, y)` of the ground plane.
    pub fn get_height_at(&self, x: i64, y: i64) -> (h: i64)
        requires
            self.wf(),
        ensures
            h == self.field.spec_height_at(x as int, y as int),
            -MAX_EXTENT <= h <= MAX_EXTENT,
    {
        self.field.height_at(x, y)
    }
}

/// The position of vertex `(x, y)` of chunk `(cx, cy)` is that of its base
/// vertex, whether or not normals are generated.
pub proof fn lemma_chunk_vertex_position(
    field: HeightField,
    res: int,
    chunks: int,
    gen_normals: bool,
    cx: int,
    cy: int,
    x: int,
    y: int,
)
    requires
        0 <= x < chunk_len(field.width as int, res, chunks, cx),
        0 <= y < chunk_len(field.height as int, res, chunks, cy),
    ensures
        0 <= x * chunk_len(field.height as int, res, chunks, cy) + y < chunk_vertices(
            field,
            res,
            chunks,
            gen_normals,
            cx,
            cy,
        ).len(),
        chunk_vertices(field, res, chunks, gen_normals, cx, cy)[x * chunk_len(
            field.height as int,
            res,
            chunks,
            cy,
        ) + y].position == base_vertex(field, res, chunks, cx, cy, x, y).position,
{
    let cols = chunk_len(field.width as int, res, chunks, cx);
    let rows = chunk_len(field.height as int, res, chunks, cy);
    assert(0 <= x * rows + y < cols * rows) by (nonlinear_arith)
        requires
            0 <= x < cols,
            0 <= y < rows,
    ;
    lemma_div_mod_of_sum(x, rows, y);
}

/// Two chunks that are neighbours along the first axis have the same
/// positions along the edge they share: the last column of the one is the
/// first column of the other.
pub proof fn lemma_seam_along_x(
    field: HeightField,
    res: int,
    chunks: int,
    gen_normals: bool,
    cx: int,
    cy: int,
    y: int,
)
    requires
        0 <= cx,
        cx + 1 < chunks,
        0 <= y < chunk_len(field.height as int, res, chunks, cy),
        0 < chunk_len(field.width as int, res, chunks, cx + 1),
    ensures
        ({
            let rows = chunk_len(field.height as int, res, chunks, cy);
            let last = chunk_span(field.width as int, res, chunks);
            chunk_vertices(field, res, chunks, gen_normals, cx, cy)[last * rows + y].position
                == chunk_vertices(field, res, chunks, gen_normals, cx + 1, cy)[y].position
        }),
{
    let span = chunk_span(field.width as int, res, chunks);
    assert(0 <= span);
    lemma_chunk_vertex_position(field, res, chunks, gen_normals, cx, cy, span, y);
    lemma_chunk_vertex_position(field, res, chunks, gen_normals, cx + 1, cy, 0, y);
    assert((span + span * cx) * res == (0 + span * (cx + 1)) * res) by (nonlinear_arith);
}

/// Two chunks that are neighbours along the second axis have the same
/// positions along the edge they share: the last row of the one is the first
/// row of the other.
pub proof fn lemma_seam_along_y(
    field: HeightField,
    res: int,
    chunks: int,
    gen_normals: bool,
    cx: int,
    cy: int,
    x: int,
)
    requires
        0 <= cy,
        cy + 1 < chunks,
        0 <= x < chunk_len(field.width as int, res, chunks, cx),
        0 < chunk_len(field.height as int, res, chunks, cy + 1),
    ensures
        ({
            let last = chunk_span(field.height as int, res, chunks);
            let next_rows = chunk_len(field.height as int, res, chunks, cy + 1);
            chunk_vertices(field, res, chunks, gen_normals, cx, cy)[x * (last + 1) + last].position
                == chunk_vertices(field, res, chunks, gen_normals, cx, cy + 1)[x
                * next_rows].position
        }),
{
    let span = chunk_span(field.height as int, res, chunks);
    assert(0 <= span);
    lemma_chunk_vertex_position(field, res, chunks, gen_normals, cx, cy, x, span);
    lemma_chunk_vertex_position(field, res, chunks, gen_normals, cx, cy + 1, x, 0);
    assert((span + span * cy) * res == (0 + span * (cy + 1)) * res) by (nonlinear_arith);
}

impl HeightMap {
    /// The mesh of chunk `(cx, cy)`.
    pub open spec fn chunk(&self, cx: int, cy: int) -> TerrainChunk {
        self.models@[cx * self.chunks + cy].1
    }

    /// In a height map, the meshes of two chunks that are neighbours along
    /// the first axis have the same positions along the edge they share.
    pub proof fn lemma_chunks_meet_along_x(&self, cx: int, cy: int, y: int)
        requires
            self.wf(),
            0 <= cx,
            cx + 1 < self.chunks,
            0 <= cy < self.chunks,
            0 <= y < chunk_len(self.field.height as int, self.res as int, self.chunks as int, cy),
            0 < chunk_len(self.field.width as int, self.res as int, self.chunks as int, cx + 1),
        ensures
            ({
                let rows = chunk_len(
                    self.field.height as int,
                    self.res as int,
                    self.chunks as int,
                    cy,
                );
                let last = chunk_span(self.field.width as int, self.res as int, self.chunks as int);
                self.chunk(cx, cy).vertices@[last * rows + y].position == self.chunk(
                    cx + 1,
                    cy,
                ).vertices@[y].position
            }),
    {
        let res = self.res as int;
        let chunks = self.chunks as int;
        assert(holds_chunk(self.models@, self.field, res, chunks, self.gen_normals, cx, cy));
        assert(holds_chunk(self.models@, self.field, res, chunks, self.gen_normals, cx + 1, cy));
        lemma_seam_along_x(self.field, res, chunks, self.gen_normals, cx, cy, y);
    }

    /// In a height map, the meshes of two chunks that are neighbours along
    /// the second axis have the same positions along the edge they share.
    pub proof fn lemma_chunks_meet_along_y(&self, cx: int, cy: int, x: int)
        requires
            self.wf(),
            0 <= cx < self.chunks,
            0 <= cy,
            cy + 1 < self.chunks,
            0 <= x < chunk_len(self.field.width as int, self.res as int, self.chunks as int, cx),
            0 < chunk_len(self.field.height as int, self.res as int, self.chunks as int, cy + 1),
        ensures
            ({
                let last = chunk_span(
                    self.field.height as int,
                    self.res as int,
                    self.chunks as int,
                );
                let next_rows = chunk_len(
                    self.field.height as int,
                    self.res as int,
                    self.chunks as int,
                    cy + 1,
                );
                self.chunk(cx, cy).vertices@[x * (last + 1) + last].position == self.chunk(
                    cx,
                    cy + 1,
                ).vertices@[x * next_rows].position
            }),
    {
        let res = self.res as int;
        let chunks = self.chunks as int;
        assert(holds_chunk(self.models@, self.field, res, chunks, self.gen_normals, cx, cy));
        assert(holds_chunk(self.models@, self.field, res, chunks, self.gen_normals, cx, cy + 1));
        lemma_seam_along_y(self.field, res, chunks, self.gen_normals, cx, cy, x);
    }
}

} // verus!
