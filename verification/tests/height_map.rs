use std::io::Cursor;

use landscape::arith::Vec3;
use landscape::height_field::HeightField;
use landscape::height_map::{build_chunk, HeightMap, HeightMapError, Instance};
use landscape::mesh::{grid_indices, Biome};

/// A field whose sample in column `x` of row `y` is `10 * x + y`.
fn ramp(width: u32, height: u32, size: u32, multiplier: i32) -> HeightField {
    let mut samples = Vec::new();
    for y in 0..height {
        for x in 0..width {
            samples.push((10 * x + y) as u8);
        }
    }
    HeightField::new(width, height, samples, size, multiplier).unwrap()
}

fn png(image: image::DynamicImage) -> Vec<u8> {
    let mut bytes = Cursor::new(Vec::new());
    image.write_to(&mut bytes, image::ImageFormat::Png).unwrap();
    bytes.into_inner()
}

fn gray_png(width: u32, height: u32, samples: Vec<u8>) -> Vec<u8> {
    png(image::DynamicImage::ImageLuma8(image::GrayImage::from_raw(width, height, samples).unwrap()))
}

#[test]
fn chunks_are_named_column_by_column() {
    let map = HeightMap::build(ramp(8, 6, 1, 255), 1, 2, false);
    assert_eq!(map.models.len(), 4);
    let names: Vec<(u32, u32)> = map.models.iter().map(|m| m.0).collect();
    assert_eq!(names, vec![(0, 0), (0, 1), (1, 0), (1, 1)]);
    assert_eq!(map.res, 1);
    assert_eq!(map.chunks, 2);
    assert!(!map.gen_normals);
}

#[test]
fn all_but_the_last_chunk_have_a_row_and_a_column_more() {
    let map = HeightMap::build(ramp(8, 6, 1, 255), 1, 2, false);
    let sizes: Vec<usize> = map.models.iter().map(|m| m.1.vertices.len()).collect();
    // Spans of 4 and 3: 5 by 4, 5 by 3, 4 by 4 and 4 by 3 vertices.
    assert_eq!(sizes, vec![20, 15, 16, 12]);
    assert_eq!(map.models[0].1.indices, grid_indices(5, 4));
    assert_eq!(map.models[1].1.indices, grid_indices(5, 3));
    assert_eq!(map.models[2].1.indices, grid_indices(4, 4));
    assert_eq!(map.models[3].1.indices, grid_indices(4, 3));
}

#[test]
fn vertices_stand_over_their_texels() {
    let field = ramp(8, 6, 100, 255);
    let chunk = build_chunk(&field, 1, 2, false, 1, 1);
    // Chunk (1, 1) begins at texel (4, 3); vertex (x, y) has index 3 x + y.
    for x in 0..4u32 {
        for y in 0..3u32 {
            let v = chunk.vertices[(x * 3 + y) as usize];
            let sample = 10 * (4 + x) + (3 + y);
            assert_eq!(
                v.position,
                Vec3 { x: (4 + x) as i64 * 100, y: sample as i64, z: (3 + y) as i64 * 100 },
            );
            assert_eq!(v.normal, Vec3 { x: 0, y: 0, z: 0 });
            let biome = if sample <= 36 { Biome::Rock } else { Biome::Grass };
            assert_eq!(v.color, biome);
        }
    }
}

#[test]
fn every_res_th_texel_is_sampled() {
    let field = ramp(9, 9, 10, 255);
    let map = HeightMap::build(field, 3, 1, false);
    // A grid of 3 by 3 samples, at the texels 0, 3 and 6.
    let chunk = &map.models[0].1;
    assert_eq!(chunk.vertices.len(), 9);
    assert_eq!(chunk.vertices[0].position, Vec3 { x: 0, y: 0, z: 0 });
    assert_eq!(chunk.vertices[1].position, Vec3 { x: 0, y: 3, z: 30 });
    assert_eq!(chunk.vertices[5].position, Vec3 { x: 30, y: 36, z: 60 });
    assert_eq!(chunk.vertices[8].position, Vec3 { x: 60, y: 66, z: 60 });
    assert_eq!(chunk.indices, grid_indices(3, 3));
}

#[test]
fn neighbours_share_the_positions_of_their_edge() {
    for gen_normals in [false, true] {
        let map = HeightMap::build(ramp(9, 7, 250, 2000), 1, 3, gen_normals);
        // Spans of 3 and 2; every chunk but the last has 4 columns, 3 rows.
        let chunk = |cx: usize, cy: usize| &map.models[cx * 3 + cy].1;
        for cx in 0..2 {
            for cy in 0..3 {
                let rows = if cy == 2 { 2 } else { 3 };
                for y in 0..rows {
                    assert_eq!(
                        chunk(cx, cy).vertices[3 * rows + y].position,
                        chunk(cx + 1, cy).vertices[y].position,
                    );
                }
            }
        }
        for cx in 0..3 {
            for cy in 0..2 {
                let cols = if cx == 2 { 3 } else { 4 };
                let next_rows = if cy + 1 == 2 { 2 } else { 3 };
                for x in 0..cols {
                    assert_eq!(
                        chunk(cx, cy).vertices[x * 3 + 2].position,
                        chunk(cx, cy + 1).vertices[x * next_rows].position,
                    );
                }
            }
        }
    }
}

#[test]
fn every_chunk_is_drawn_once_where_it_was_built() {
    let map = HeightMap::build(ramp(4, 4, 1, 1), 1, 2, true);
    for model in &map.models {
        assert_eq!(
            model.1.instances,
            vec![Instance { position: Vec3 { x: 0, y: 0, z: 0 }, rotation: 0 }],
        );
    }
}

#[test]
fn normals_are_generated_on_request() {
    // Level ground but for one high corner.
    let mut samples = vec![100u8; 9];
    samples[8] = 255;
    let field = HeightField::new(3, 3, samples, 10, 2550).unwrap();
    let plain = build_chunk(&field, 1, 1, false, 0, 0);
    let shaded = build_chunk(&field, 1, 1, true, 0, 0);
    assert!(plain.vertices.iter().all(|v| v.normal == Vec3 { x: 0, y: 0, z: 0 }));
    assert!(plain.vertices.iter().all(|v| v.color != Biome::Dirt));
    // Away from the corner the ground is level: the normal points up.
    assert_eq!(shaded.vertices[0].normal, Vec3 { x: 0, y: 100, z: 0 });
    assert_eq!(shaded.vertices[0].color, Biome::Grass);
    // The corner rises by 1550 over 10: a slope. It is snow and stays so;
    // the other corners of its quad turn to dirt.
    assert_eq!(shaded.vertices[8].color, Biome::Snow);
    assert_eq!(shaded.vertices[4].color, Biome::Dirt);
    assert_eq!(shaded.vertices[5].color, Biome::Dirt);
    assert_eq!(shaded.vertices[7].color, Biome::Dirt);
    assert_eq!(shaded.vertices[3].color, Biome::Grass);
    // The last quad is split into {4, 5, 8} and {4, 8, 7}.
    assert_eq!(shaded.vertices[5].normal, Vec3 { x: -15_500, y: 100, z: 0 });
    assert_eq!(shaded.vertices[7].normal, Vec3 { x: 0, y: 100, z: -15_500 });
    assert_eq!(shaded.vertices[8].normal, Vec3 { x: 0, y: 100, z: -15_500 });
    assert_eq!(shaded.vertices[4].normal, Vec3 { x: 0, y: 100, z: -15_500 });
    for (a, b) in plain.vertices.iter().zip(shaded.vertices.iter()) {
        assert_eq!(a.position, b.position);
    }
}

#[test]
fn no_chunks_make_no_models() {
    let map = HeightMap::build(ramp(4, 4, 1, 1), 1, 0, true);
    assert!(map.models.is_empty());
    assert_eq!(map.get_height_at(3, 3), 0);
}

#[test]
fn more_chunks_than_samples_leave_single_vertices() {
    let map = HeightMap::build(ramp(2, 2, 1, 255), 1, 3, true);
    assert_eq!(map.models.len(), 9);
    let sizes: Vec<usize> = map.models.iter().map(|m| m.1.vertices.len()).collect();
    // A span of nothing: one shared vertex in every chunk but the last of
    // an axis, all of them over the first texel.
    assert_eq!(sizes, vec![1, 1, 0, 1, 1, 0, 0, 0, 0]);
    assert!(map.models.iter().all(|m| m.1.indices.is_empty()));
    assert_eq!(map.models[0].1.vertices[0].position, Vec3 { x: 0, y: 0, z: 0 });
}

#[test]
fn a_decoded_image_gives_its_gray_values() {
    let bytes = gray_png(4, 4, vec![128; 16]);
    let map = HeightMap::from_bytes(&bytes, 2, 1000, 1, 100_000, true).unwrap();
    assert_eq!(map.field.width, 4);
    assert_eq!(map.field.height, 4);
    assert_eq!(map.field.samples, vec![128; 16]);
    assert_eq!(map.field.size, 1000);
    assert_eq!(map.field.height_multiplier, 100_000);
    assert_eq!(map.get_height_at(1500, 1500), 50_196);
    assert_eq!(map.models.len(), 1);
    assert_eq!(map.models[0].1.vertices.len(), 4);
    assert_eq!(map.models[0].1.vertices[3].position, Vec3 { x: 2000, y: 50_196, z: 2000 });
}

#[test]
fn samples_are_read_row_by_row() {
    let bytes = gray_png(3, 2, vec![1, 2, 3, 4, 5, 6]);
    let map = HeightMap::from_bytes(&bytes, 1, 1, 1, 255, false).unwrap();
    assert_eq!(map.field.width, 3);
    assert_eq!(map.field.height, 2);
    assert_eq!(map.field.samples, vec![1, 2, 3, 4, 5, 6]);
    assert_eq!(map.field.sample_at(2, 0), 3);
    assert_eq!(map.field.sample_at(0, 1), 4);
}

#[test]
fn a_coloured_image_is_turned_gray_first() {
    let green = image::RgbImage::from_pixel(2, 2, image::Rgb([0, 255, 0]));
    let expected = image::DynamicImage::ImageRgb8(green.clone()).to_luma8().into_raw();
    let bytes = png(image::DynamicImage::ImageRgb8(green));
    let map = HeightMap::from_bytes(&bytes, 1, 1, 1, 255, false).unwrap();
    assert_eq!(map.field.samples, expected);
    assert!(map.field.samples.iter().all(|s| *s > 100));
}

#[test]
fn bytes_that_are_no_image_are_refused() {
    let refused = HeightMap::from_bytes(b"not an image", 1, 1, 1, 1, false);
    assert_eq!(refused.err(), Some(HeightMapError::ImageDecode));
    let empty = HeightMap::from_bytes(&[], 1, 1, 1, 1, false);
    assert_eq!(empty.err(), Some(HeightMapError::ImageDecode));
    let mut cut = gray_png(4, 4, vec![7; 16]);
    cut.truncate(20);
    let cut_short = HeightMap::from_bytes(&cut, 1, 1, 1, 1, false);
    assert_eq!(cut_short.err(), Some(HeightMapError::ImageDecode));
}

#[test]
fn scales_out_of_limits_are_refused() {
    let bytes = gray_png(2, 2, vec![0; 4]);
    let no_size = HeightMap::from_bytes(&bytes, 1, 0, 1, 1, false);
    assert_eq!(no_size.err(), Some(HeightMapError::OutOfLimits));
    let too_high = HeightMap::from_bytes(&bytes, 1, 1, 1, i32::MAX, false);
    assert_eq!(too_high.err(), Some(HeightMapError::OutOfLimits));
    let too_wide = HeightMap::from_bytes(&bytes, 1, u32::MAX, 1, 1, false);
    assert_eq!(too_wide.err(), Some(HeightMapError::OutOfLimits));
    let image = image::load_from_memory(&bytes).unwrap();
    let direct = HeightMap::from_image(&image, 1, 0, 1, 1, false);
    assert_eq!(direct.err(), Some(HeightMapError::OutOfLimits));
    assert!(HeightMap::from_image(&image, 1, 1, 1, 1, false).is_ok());
    assert!(HeightField::from_image(&image, 0, 1).is_none());
}

#[test]
fn what_the_decoder_made_decides_the_terrain() {
    let failed = image::load_from_memory(b"no image");
    assert!(failed.is_err());
    let refused = HeightMap::from_decoded(failed, 1, 1, 1, 1, false);
    assert_eq!(refused.err(), Some(HeightMapError::ImageDecode));
    let red = image::RgbImage::from_pixel(3, 2, image::Rgb([255, 0, 0]));
    let gray = image::DynamicImage::ImageRgb8(red.clone()).grayscale().to_luma8().into_raw();
    let map =
        HeightMap::from_decoded(Ok(image::DynamicImage::ImageRgb8(red.clone())), 1, 7, 1, 9, true)
            .unwrap();
    assert_eq!(map.field.samples, gray);
    assert!(map.field.samples.iter().all(|s| *s < 255));
    assert_eq!((map.field.width, map.field.height), (3, 2));
    assert_eq!((map.field.size, map.field.height_multiplier), (7, 9));
    assert_eq!((map.res, map.chunks, map.gen_normals), (1, 1, true));
    let no_size = HeightMap::from_decoded(Ok(image::DynamicImage::ImageRgb8(red)), 1, 0, 1, 9, true);
    assert_eq!(no_size.err(), Some(HeightMapError::OutOfLimits));
}

#[test]
fn the_first_channel_of_an_image_is_its_sample() {
    let mut image = image::RgbImage::new(2, 2);
    image.put_pixel(0, 0, image::Rgb([10, 200, 200]));
    image.put_pixel(1, 0, image::Rgb([20, 200, 200]));
    image.put_pixel(0, 1, image::Rgb([30, 200, 200]));
    image.put_pixel(1, 1, image::Rgb([40, 200, 200]));
    let image = image::DynamicImage::ImageRgb8(image);
    let field = HeightField::from_image(&image, 1, 1).unwrap();
    assert_eq!(field.samples, vec![10, 20, 30, 40]);
    let map = HeightMap::from_image(&image, 1, 1, 1, 1, false).unwrap();
    assert_eq!(map.field.samples, vec![10, 20, 30, 40]);
    let wide = image::DynamicImage::ImageLuma16(image::ImageBuffer::from_pixel(
        1,
        3,
        image::Luma([0xffffu16]),
    ));
    let field = HeightField::from_image(&wide, 1, 1).unwrap();
    assert_eq!(field.samples, vec![255, 255, 255]);
    assert_eq!((field.width, field.height), (1, 3));
}
