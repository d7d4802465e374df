//! A grid of 8-bit elevation samples and its bilinear height query.
use vstd::prelude::*;
use vstd::arithmetic::mul::lemma_mul_upper_bound;
use crate::arith::{clamp, floor_div, lemma_div_between, lemma_div_cancel, lemma_div_mod_of_sum};
use crate::decode::{first_channel, image_samples, image_size};

verus! {

/// Largest world coordinate, and largest magnitude of a height multiplier,
/// that a height field may have.
pub const MAX_EXTENT: i64 = 1_073_741_824;

/// The value of a full-scale sample.
pub const SAMPLE_MAX: i64 = 255;

/// Elevation samples in row-major order, `size` length units apart, where a
/// full-scale sample stands `height_multiplier` units high.
pub struct HeightField {
    pub samples: Vec<u8>,
    pub width: u32,
    pub height: u32,
    pub size: u32,
    pub height_multiplier: i32,
}

/// The scales that a height field accepts: a texel has a size, and the
/// height multiplier is within the extent.
pub open spec fn scales_ok(size: int, height_multiplier: int) -> bool {
    &&& size >= 1
    &&& -MAX_EXTENT <= height_multiplier <= MAX_EXTENT
}

/// The dimensions and scales that a height field accepts: there is a
/// sample, the samples can be counted in 32 bits, and no sample lies beyond
/// the extent.
pub open spec fn limits_ok(width: int, height: int, size: int, height_multiplier: int) -> bool {
    &&& width >= 1
    &&& height >= 1
    &&& width * height <= u32::MAX
    &&& scales_ok(size, height_multiplier)
    &&& (width - 1) * size <= MAX_EXTENT
    &&& (height - 1) * size <= MAX_EXTENT
}

/// World height of a sample: `sample / 255 * height_multiplier`, rounded down.
pub open spec fn sample_height(sample: int, height_multiplier: int) -> int {
    (sample * height_multiplier) / SAMPLE_MAX as int
}

/// The four corner samples weighted by the fractions `fx / s` and `fz / s`,
/// scaled by `s * s`.
pub open spec fn blend(h00: int, h10: int, h01: int, h11: int, fx: int, fz: int, s: int) -> int {
    h00 * (s - fx) * (s - fz) + h10 * fx * (s - fz) + h01 * (s - fx) * fz + h11 * fx * fz
}

/// A blend of samples lies between nothing and the full scale.
pub proof fn lemma_blend_bounds(h00: int, h10: int, h01: int, h11: int, fx: int, fz: int, s: int)
    requires
        0 <= h00 <= 255,
        0 <= h10 <= 255,
        0 <= h01 <= 255,
        0 <= h11 <= 255,
        0 <= fx < s,
        0 <= fz < s,
    ensures
        0 <= blend(h00, h10, h01, h11, fx, fz, s) <= 255 * s * s,
{
    let w00 = (s - fx) * (s - fz);
    let w10 = fx * (s - fz);
    let w01 = (s - fx) * fz;
    let w11 = fx * fz;
    assert(w00 >= 0 && w10 >= 0 && w01 >= 0 && w11 >= 0 && w00 + w10 + w01 + w11 == s * s)
        by (nonlinear_arith)
        requires
            w00 == (s - fx) * (s - fz),
            w10 == fx * (s - fz),
            w01 == (s - fx) * fz,
            w11 == fx * fz,
            0 <= fx < s,
            0 <= fz < s,
    ;
    assert(h00 * (s - fx) * (s - fz) == h00 * w00 && 0 <= h00 * w00 <= 255 * w00)
        by (nonlinear_arith)
        requires
            w00 == (s - fx) * (s - fz),
            w00 >= 0,
            0 <= h00 <= 255,
    ;
    assert(h10 * fx * (s - fz) == h10 * w10 && 0 <= h10 * w10 <= 255 * w10) by (nonlinear_arith)
        requires
            w10 == fx * (s - fz),
            w10 >= 0,
            0 <= h10 <= 255,
    ;
    assert(h01 * (s - fx) * fz == h01 * w01 && 0 <= h01 * w01 <= 255 * w01) by (nonlinear_arith)
        requires
            w01 == (s - fx) * fz,
            w01 >= 0,
            0 <= h01 <= 255,
    ;
    assert(h11 * fx * fz == h11 * w11 && 0 <= h11 * w11 <= 255 * w11) by (nonlinear_arith)
        requires
            w11 == fx * fz,
            w11 >= 0,
            0 <= h11 <= 255,
    ;
    assert(255 * w00 + 255 * w10 + 255 * w01 + 255 * w11 == 255 * s * s) by (nonlinear_arith)
        requires
            w00 + w10 + w01 + w11 == s * s,
    ;
}

impl HeightField {
    /// The samples fill the grid, and dimensions and scales are within limits.
    pub open spec fn wf(&self) -> bool {
        &&& limits_ok(
            self.width as int,
            self.height as int,
            self.size as int,
            self.height_multiplier as int,
        )
        &&& self.samples.len() == self.width * self.height
    }

    /// The sample in column `x` of row `y`.
    pub open spec fn sample(&self, x: int, y: int) -> int {
        self.samples@[y * self.width + x] as int
    }

    /// World coordinate of the last column.
    pub open spec fn max_x(&self) -> int {
        (self.width - 1) * self.size
    }

    /// World coordinate of the last row.
    pub open spec fn max_z(&self) -> int {
        (self.height - 1) * self.size
    }

    /// Height of the terrain at world position `(x, z)`: the position is
    /// clamped to the sampled area, and the four samples around it are
    /// interpolated bilinearly, rounding down once at the end.
    pub open spec fn spec_height_at(&self, x: int, z: int) -> int {
        let s = self.size as int;
        let cx = clamp(x, 0, self.max_x());
        let cz = clamp(z, 0, self.max_z());
        let ix = cx / s;
        let iz = cz / s;
        let ix1 = if ix + 1 < self.width { ix + 1 } else { ix };
        let iz1 = if iz + 1 < self.height { iz + 1 } else { iz };
        let n = blend(
            self.sample(ix, iz),
            self.sample(ix1, iz),
            self.sample(ix, iz1),
            self.sample(ix1, iz1),
            cx % s,
            cz % s,
            s,
        );
        (n * self.height_multiplier) / (SAMPLE_MAX * s * s)
    }
}

impl HeightField {
    /// A height field over `samples`, or `None` where they do not fill a
    /// `width` by `height` grid or a dimension or scale is out of limits.
    pub fn new(
        width: u32,
        height: u32,
        samples: Vec<u8>,
        size: u32,
        height_multiplier: i32,
    ) -> (field: Option<HeightField>)
        ensures
            field is Some <==> limits_ok(
                width as int,
                height as int,
                size as int,
                height_multiplier as int,
            ) && samples.len() == width * height,
            field matches Some(f) ==> f.wf() && f.samples == samples && f.width == width
                && f.height == height && f.size == size && f.height_multiplier
                == height_multiplier,
    {
        if !within_limits(width, height, size, height_multiplier) {
            return None;
        }
        let cells: u64 = width as u64 * height as u64;
        if samples.len() as u64 != cells {
            return None;
        }
        Some(HeightField { samples, width, height, size, height_multiplier })
    }

    /// The height field whose samples are the first channel of an image, or
    /// `None` where the image or a scale is out of limits.
    pub fn from_image(image: &image::DynamicImage, size: u32, height_multiplier: i32) -> (field:
        Option<HeightField>)
        ensures
            field is Some <==> limits_ok(
                image_size(*image).0 as int,
                image_size(*image).1 as int,
                size as int,
                height_multiplier as int,
            ),
            field matches Some(f) ==> {
                &&& f.wf()
                &&& f.width == image_size(*image).0
                &&& f.height == image_size(*image).1
                &&& f.size == size
                &&& f.height_multiplier == height_multiplier
                &&& forall|k: int| 0 <= k < f.samples.len() ==> f.samples[k] == image_samples(*image)[k]
            },
    {
        let width: u32 = image.width();
        let height: u32 = image.height();
        if !within_limits(width, height, size, height_multiplier) {
            return None;
        }
        let mut samples: Vec<u8> = Vec::new();
        let mut y: u32 = 0;
        while y < height
            invariant
                y <= height,
                width == image_size(*image).0,
                height == image_size(*image).1,
                samples.len() == y * width,
                forall|k: int| 0 <= k < samples.len() ==> samples[k] == image_samples(*image)[k],
            decreases height - y,
        {
            let mut x: u32 = 0;
            while x < width
                invariant
                    x <= width,
                    y < height,
                    width == image_size(*image).0,
                    height == image_size(*image).1,
                    samples.len() == y * width + x,
                    forall|k: int| 0 <= k < samples.len() ==> samples[k] == image_samples(*image)[k],
                decreases width - x,
            {
                let sample = first_channel(image, x, y);
                samples.push(sample);
                x += 1;
            }
            proof {
                assert(y * width + width == (y + 1) * width) by (nonlinear_arith);
            }
            y += 1;
        }
        proof {
            assert(height * width == width * height) by (nonlinear_arith);
        }
        Some(HeightField { samples, width, height, size, height_multiplier })
    }

    /// The sample in column `x` of row `y`.
    pub fn sample_at(&self, x: u32, y: u32) -> (sample: u8)
        requires
            self.wf(),
            x < self.width,
            y < self.height,
        ensures
            sample == self.sample(x as int, y as int),
    {
        proof {
            assert(y * self.width + x < self.width * self.height) by (nonlinear_arith)
                requires
                    x < self.width,
                    y < self.height,
            ;
        }
        let i: u64 = y as u64 * self.width as u64 + x as u64;
        self.samples[i as usize]
    }

    /// World height of a sample of this field.
    pub fn height_of_sample(&self, sample: u8) -> (h: i64)
        requires
            self.wf(),
        ensures
            h == sample_height(sample as int, self.height_multiplier as int),
            -MAX_EXTENT <= h <= MAX_EXTENT,
    {
        let hm: i128 = self.height_multiplier as i128;
        proof {
            assert(-255 * MAX_EXTENT <= sample * hm <= 255 * MAX_EXTENT) by (nonlinear_arith)
                requires
                    0 <= sample <= 255,
                    -MAX_EXTENT <= hm <= MAX_EXTENT,
            ;
            lemma_div_between(sample * hm, 255, -MAX_EXTENT as int, MAX_EXTENT as int);
        }
        floor_div(sample as i128 * hm, 255) as i64
    }

    /// Height of the terrain at world position `(x, z)`.
    pub fn height_at(&self, x: i64, z: i64) -> (h: i64)
        requires
            self.wf(),
        ensures
            h == self.spec_height_at(x as int, z as int),
            -MAX_EXTENT <= h <= MAX_EXTENT,
    {
        let s: u64 = self.size as u64;
        let max_x: u64 = (self.width as u64 - 1) * s;
        let max_z: u64 = (self.height as u64 - 1) * s;
        let cx: u64 = if x < 0 {
            0
        } else if x as u64 > max_x {
            max_x
        } else {
            x as u64
        };
        let cz: u64 = if z < 0 {
            0
        } else if z as u64 > max_z {
            max_z
        } else {
            z as u64
        };
        assert(cx == clamp(x as int, 0, self.max_x()));
        assert(cz == clamp(z as int, 0, self.max_z()));
        let ix: u64 = cx / s;
        let iz: u64 = cz / s;
        let fx: u64 = cx % s;
        let fz: u64 = cz % s;
        proof {
            lemma_div_between(cx as int, s as int, 0, self.width - 1);
            lemma_div_between(cz as int, s as int, 0, self.height - 1);
        }
        let ix1: u64 = if ix + 1 < self.width as u64 {
            ix + 1
        } else {
            ix
        };
        let iz1: u64 = if iz + 1 < self.height as u64 {
            iz + 1
        } else {
            iz
        };
        let h00: u128 = self.sample_at(ix as u32, iz as u32) as u128;
        let h10: u128 = self.sample_at(ix1 as u32, iz as u32) as u128;
        let h01: u128 = self.sample_at(ix as u32, iz1 as u32) as u128;
        let h11: u128 = self.sample_at(ix1 as u32, iz1 as u32) as u128;
        let ax: u128 = (s - fx) as u128;
        let az: u128 = (s - fz) as u128;
        let bx: u128 = fx as u128;
        let bz: u128 = fz as u128;
        proof {
            let m = u32::MAX as int;
            lemma_mul_upper_bound(h00 as int, 255, ax as int, m);
            lemma_mul_upper_bound(h00 * ax, 255 * m, az as int, m);
            lemma_mul_upper_bound(h10 as int, 255, bx as int, m);
            lemma_mul_upper_bound(h10 * bx, 255 * m, az as int, m);
            lemma_mul_upper_bound(h01 as int, 255, ax as int, m);
            lemma_mul_upper_bound(h01 * ax, 255 * m, bz as int, m);
            lemma_mul_upper_bound(h11 as int, 255, bx as int, m);
            lemma_mul_upper_bound(h11 * bx, 255 * m, bz as int, m);
            assert(255 * 0xffff_ffff * 0xffff_ffff < 0x1_0000_0000_0000_0000_0000) by (nonlinear_arith);
        }
        let n: u128 = h00 * ax * az + h10 * bx * az + h01 * ax * bz + h11 * bx * bz;
        let hm: i128 = self.height_multiplier as i128;
        proof {
            lemma_blend_bounds(
                h00 as int,
                h10 as int,
                h01 as int,
                h11 as int,
                fx as int,
                fz as int,
                s as int,
            );
            assert(n == blend(
                h00 as int,
                h10 as int,
                h01 as int,
                h11 as int,
                fx as int,
                fz as int,
                s as int,
            ));
            lemma_mul_upper_bound(s as int, u32::MAX as int, s as int, u32::MAX as int);
            assert(0 < 255 * s * s <= 255 * 0xffff_ffff * 0xffff_ffff) by (nonlinear_arith)
                requires
                    1 <= s,
                    s * s <= 0xffff_ffff * 0xffff_ffff,
            ;
            assert(-MAX_EXTENT * (255 * s * s) <= n * hm <= MAX_EXTENT * (255 * s * s))
                by (nonlinear_arith)
                requires
                    0 <= n <= 255 * s * s,
                    -MAX_EXTENT <= hm <= MAX_EXTENT,
            ;
            assert(MAX_EXTENT * (255 * 0xffff_ffff * 0xffff_ffff)
                < 0x1000_0000_0000_0000_0000_0000_0000) by (nonlinear_arith);
            assert(MAX_EXTENT * (255 * s * s) <= MAX_EXTENT * (255 * 0xffff_ffff * 0xffff_ffff))
                by (nonlinear_arith)
                requires
                    255 * s * s <= 255 * 0xffff_ffff * 0xffff_ffff,
            ;
            lemma_div_between(n * hm, 255 * s * s, -MAX_EXTENT as int, MAX_EXTENT as int);
        }
        let d: i128 = 255 * (s as i128) * (s as i128);
        floor_div(n as i128 * hm, d) as i64
    }

    /// At a grid point the height is that of the stored sample there.
    pub proof fn lemma_height_at_grid_point(&self, i: int, j: int)
        requires
            self.wf(),
            0 <= i < self.width,
            0 <= j < self.height,
        ensures
            self.spec_height_at(i * self.size, j * self.size) == sample_height(
                self.sample(i, j),
                self.height_multiplier as int,
            ),
    {
        let s = self.size as int;
        let x = i * s;
        let z = j * s;
        assert(0 <= x <= self.max_x() && 0 <= z <= self.max_z()) by (nonlinear_arith)
            requires
                x == i * s,
                z == j * s,
                0 <= i <= self.width - 1,
                0 <= j <= self.height - 1,
                s >= 1,
                self.max_x() == (self.width - 1) * s,
                self.max_z() == (self.height - 1) * s,
        ;
        lemma_div_mod_of_sum(i, s, 0);
        lemma_div_mod_of_sum(j, s, 0);
        let h = self.sample(i, j);
        let ix1 = if i + 1 < self.width { i + 1 } else { i };
        let iz1 = if j + 1 < self.height { j + 1 } else { j };
        let n = blend(
            h,
            self.sample(ix1, j),
            self.sample(i, iz1),
            self.sample(ix1, iz1),
            0,
            0,
            s,
        );
        assert(n == h * (s * s)) by (nonlinear_arith)
            requires
                n == h * (s - 0) * (s - 0) + self.sample(ix1, j) * 0 * (s - 0) + self.sample(
                    i,
                    iz1,
                ) * (s - 0) * 0 + self.sample(ix1, iz1) * 0 * 0,
        ;
        let hm = self.height_multiplier as int;
        assert(n * hm == (h * hm) * (s * s) && 255 * s * s == 255 * (s * s) && s * s > 0)
            by (nonlinear_arith)
            requires
                n == h * (s * s),
                s >= 1,
        ;
        lemma_div_cancel(h * hm, 255, s * s);
    }

    /// Outside the sampled area the height is that of the nearest point on
    /// its edge.
    pub proof fn lemma_height_at_clamps(&self, x: int, z: int)
        requires
            self.wf(),
        ensures
            self.spec_height_at(x, z) == self.spec_height_at(
                clamp(x, 0, self.max_x()),
                clamp(z, 0, self.max_z()),
            ),
    {
        assert(self.max_x() >= 0 && self.max_z() >= 0) by (nonlinear_arith)
            requires
                self.max_x() == (self.width - 1) * self.size,
                self.max_z() == (self.height - 1) * self.size,
                self.width >= 1,
                self.height >= 1,
                self.size >= 1,
        ;
    }
}

/// Whether dimensions and scales are within a height field's limits.
pub fn within_limits(width: u32, height: u32, size: u32, height_multiplier: i32) -> (ok: bool)
    ensures
        ok == limits_ok(width as int, height as int, size as int, height_multiplier as int),
{
    if width == 0 || height == 0 || size == 0 {
        return false;
    }
    proof {
        lemma_mul_upper_bound(width as int, u32::MAX as int, height as int, u32::MAX as int);
        lemma_mul_upper_bound(width as int - 1, u32::MAX as int, size as int, u32::MAX as int);
        lemma_mul_upper_bound(height as int - 1, u32::MAX as int, size as int, u32::MAX as int);
        assert(0xffff_ffff * 0xffff_ffff < 0xffff_ffff_ffff_ffff) by (nonlinear_arith);
    }
    let cells: u64 = width as u64 * height as u64;
    let span_x: u64 = (width as u64 - 1) * size as u64;
    let span_z: u64 = (height as u64 - 1) * size as u64;
    cells <= u32::MAX as u64 && span_x <= MAX_EXTENT as u64 && span_z <= MAX_EXTENT as u64
        && -MAX_EXTENT <= height_multiplier as i64 && height_multiplier as i64 <= MAX_EXTENT
}

} // verus!
