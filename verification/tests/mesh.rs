use landscape::arith::{floor_div, Vec3};
use landscape::mesh::{
    classify, face_normal, generate_normals, grid_indices, is_steep, water_level, Biome, Vertex,
};

fn at(x: i64, y: i64, z: i64) -> Vec3 {
    Vec3 { x, y, z }
}

fn vertex(x: i64, y: i64, z: i64, color: Biome) -> Vertex {
    Vertex { position: at(x, y, z), color, normal: at(0, 0, 0) }
}

#[test]
fn floor_div_rounds_towards_negative_infinity() {
    assert_eq!(floor_div(7, 2), 3);
    assert_eq!(floor_div(-7, 2), -4);
    assert_eq!(floor_div(-8, 2), -4);
    assert_eq!(floor_div(-1, 1000), -1);
    assert_eq!(floor_div(0, 5), 0);
    assert_eq!(floor_div(i128::MIN, 1), i128::MIN);
    assert_eq!(floor_div(i128::MIN, i128::MAX), -2);
}

#[test]
fn biomes_follow_the_two_levels() {
    for multiplier in [1, 100, 250_000, 1 << 30] {
        assert_eq!(classify(0, multiplier), Biome::Rock);
        assert_eq!(classify(36, multiplier), Biome::Rock);
        assert_eq!(classify(37, multiplier), Biome::Grass);
        assert_eq!(classify(178, multiplier), Biome::Grass);
        assert_eq!(classify(179, multiplier), Biome::Snow);
        assert_eq!(classify(255, multiplier), Biome::Snow);
    }
}

#[test]
fn a_multiplier_of_nothing_leaves_rock() {
    for sample in [0u8, 36, 37, 178, 179, 255] {
        assert_eq!(classify(sample, 0), Biome::Rock);
    }
}

#[test]
fn a_negative_multiplier_turns_the_levels_round() {
    assert_eq!(classify(0, -100), Biome::Snow);
    assert_eq!(classify(36, -100), Biome::Snow);
    assert_eq!(classify(37, -100), Biome::Rock);
    assert_eq!(classify(255, -100), Biome::Rock);
}

#[test]
fn the_water_stands_at_its_fraction_of_the_multiplier() {
    assert_eq!(water_level(250_000), 35_980);
    assert_eq!(water_level(0), 0);
    assert_eq!(water_level(10), 1);
    assert_eq!(water_level(-10), -2);
}

#[test]
fn a_vertex_hands_out_its_position() {
    let v = vertex(1, 2, 3, Biome::Grass);
    assert_eq!(v.pos(), at(1, 2, 3));
}

#[test]
fn face_normal_is_the_cross_product_of_two_edges() {
    // A level triangle, wound as the grid winds its first triangle.
    assert_eq!(face_normal(at(0, 0, 0), at(0, 0, 2), at(2, 0, 2)), at(0, 4, 0));
    // The same, rising by 3 along the second edge.
    assert_eq!(face_normal(at(0, 0, 0), at(0, 3, 2), at(2, 3, 2)), at(0, 4, -6));
    // A general one.
    assert_eq!(face_normal(at(1, 1, 1), at(2, 3, 4), at(5, 4, 3)), at(-5, 10, -5));
    // The largest that the world holds.
    let m = 1i64 << 30;
    assert_eq!(face_normal(at(0, -m, 0), at(0, m, m), at(m, -m, 0)), at(0, m * m, -2 * m * m));
}

#[test]
fn slopes_are_steeper_than_sixty_degrees() {
    assert!(!is_steep(at(0, 1, 0)));
    assert!(is_steep(at(0, -1, 0)));
    assert!(is_steep(at(1, 0, 0)));
    assert!(!is_steep(at(0, 0, 0)));
    // The unit normal's height is one half exactly where 3 y y = x x + z z.
    assert!(!is_steep(at(3, 2, 0)));
    assert!(is_steep(at(4, 2, 0)));
    assert!(!is_steep(at(866, 500, 0)));
    assert!(is_steep(at(867, 500, 0)));
    assert!(!is_steep(at(i64::MIN, i64::MAX, i64::MIN)));
    assert!(is_steep(at(i64::MIN, i64::MAX / 2, i64::MIN)));
    assert!(!is_steep(at(0, i64::MAX, i64::MAX)));
    assert!(is_steep(at(i64::MAX, 0, i64::MIN)));
}

#[test]
fn a_grid_is_split_into_two_triangles_to_a_quad() {
    assert_eq!(grid_indices(2, 2), vec![0, 1, 3, 0, 3, 2]);
    assert_eq!(
        grid_indices(2, 3),
        vec![0, 1, 4, 0, 4, 3, 1, 2, 5, 1, 5, 4],
    );
    assert_eq!(
        grid_indices(3, 2),
        vec![0, 1, 3, 0, 3, 2, 2, 3, 5, 2, 5, 4],
    );
    assert_eq!(grid_indices(4, 5).len(), 6 * 3 * 4);
}

#[test]
fn a_grid_without_a_quad_has_no_triangle() {
    assert!(grid_indices(0, 0).is_empty());
    assert!(grid_indices(1, 1).is_empty());
    assert!(grid_indices(1, 7).is_empty());
    assert!(grid_indices(7, 1).is_empty());
    assert!(grid_indices(0, 7).is_empty());
}

#[test]
fn the_last_triangle_leaves_its_normal() {
    // A quad: level along its first triangle, rising along its second.
    let mut vertices = vec![
        vertex(0, 0, 0, Biome::Grass),
        vertex(0, 0, 10, Biome::Grass),
        vertex(10, 5, 0, Biome::Grass),
        vertex(10, 0, 10, Biome::Grass),
    ];
    let indices = grid_indices(2, 2);
    let first = face_normal(at(0, 0, 0), at(0, 0, 10), at(10, 0, 10));
    let second = face_normal(at(0, 0, 0), at(10, 0, 10), at(10, 5, 0));
    generate_normals(&mut vertices, &indices);
    assert_eq!(first, at(0, 100, 0));
    assert_eq!(second, at(-50, 100, 50));
    // Vertex 1 belongs to the first triangle only, the others to the second
    // as well, which comes last.
    assert_eq!(vertices[1].normal, first);
    assert_eq!(vertices[0].normal, second);
    assert_eq!(vertices[3].normal, second);
    assert_eq!(vertices[2].normal, second);
    for (i, v) in vertices.iter().enumerate() {
        assert_eq!(v.color, Biome::Grass, "vertex {}", i);
    }
    assert_eq!(vertices[2].position, at(10, 5, 0));
}

#[test]
fn slopes_turn_to_dirt_but_for_snow() {
    // The second triangle is a cliff; the first is level.
    let mut vertices = vec![
        vertex(0, 0, 0, Biome::Rock),
        vertex(0, 0, 10, Biome::Grass),
        vertex(10, 100, 0, Biome::Grass),
        vertex(10, 0, 10, Biome::Snow),
    ];
    let indices = grid_indices(2, 2);
    generate_normals(&mut vertices, &indices);
    assert_eq!(vertices[0].color, Biome::Dirt);
    assert_eq!(vertices[1].color, Biome::Grass);
    assert_eq!(vertices[2].color, Biome::Dirt);
    assert_eq!(vertices[3].color, Biome::Snow);
}

#[test]
fn dirt_stays_when_a_later_triangle_is_level() {
    // Two triangles over one vertex 0: a cliff first, level ground last.
    let mut vertices = vec![
        vertex(0, 0, 0, Biome::Grass),
        vertex(0, 100, 10, Biome::Grass),
        vertex(10, 100, 10, Biome::Grass),
        vertex(0, 0, 20, Biome::Grass),
        vertex(20, 0, 20, Biome::Grass),
    ];
    let indices: Vec<u32> = vec![0, 1, 2, 0, 3, 4];
    generate_normals(&mut vertices, &indices);
    assert_eq!(vertices[0].color, Biome::Dirt);
    assert_eq!(vertices[0].normal, at(0, 400, 0));
    assert_eq!(vertices[3].color, Biome::Grass);
    assert_eq!(vertices[4].color, Biome::Grass);
    assert_eq!(vertices[1].color, Biome::Dirt);
}

#[test]
fn indices_past_the_last_whole_triangle_are_left_alone() {
    let mut vertices = vec![
        vertex(0, 0, 0, Biome::Grass),
        vertex(0, 0, 1, Biome::Grass),
        vertex(1, 0, 1, Biome::Grass),
    ];
    let before = vertices.clone();
    generate_normals(&mut vertices, &vec![0, 1]);
    assert_eq!(vertices, before);
    generate_normals(&mut vertices, &vec![0, 1, 2, 0]);
    assert_eq!(vertices[0].normal, at(0, 1, 0));
}
