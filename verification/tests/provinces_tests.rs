use red_sand::grid::Rgb8;
use red_sand::provinces::{
    assign_province_ids, create_province_colors, create_provinces_images, get_colors,
    province_index_of_color, GenerationError,
};

#[test]
fn fifty_seeds_have_pairwise_distinct_positions_and_colors() {
    let seeds = create_province_colors(50, 300).expect("valid configuration");
    assert_eq!(seeds.len(), 50);
    for i in 0..seeds.len() {
        for j in (i + 1)..seeds.len() {
            let a = &seeds[i];
            let b = &seeds[j];
            assert!(
                !(a.x == b.x && a.y == b.y && a.z == b.z),
                "seeds {} and {} share a position",
                i,
                j
            );
            assert!(a.color != b.color, "seeds {} and {} share a color", i, j);
        }
    }
}

#[test]
fn seed_positions_and_channels_stay_in_range() {
    let seeds = create_province_colors(20, 64).expect("valid configuration");
    for s in &seeds {
        assert!(1 <= s.x && s.x <= 63);
        assert!(1 <= s.y && s.y <= 63);
        assert!(1 <= s.z && s.z <= 63);
        assert!(s.color.r >= 1 && s.color.g >= 1 && s.color.b >= 1);
    }
}

#[test]
fn out_of_range_dimension_is_rejected() {
    assert_eq!(
        create_province_colors(1, 2),
        Err(GenerationError::DimensionOutOfRange)
    );
    assert_eq!(
        create_province_colors(1, 5000),
        Err(GenerationError::DimensionOutOfRange)
    );
}

#[test]
fn oversized_seed_count_is_rejected() {
    assert_eq!(
        create_province_colors(5, 3),
        Err(GenerationError::SeedCountTooLarge)
    );
}

#[test]
fn every_pixel_of_every_face_carries_a_seed_color() {
    let seeds = create_province_colors(4, 12).expect("valid configuration");
    let faces = create_provinces_images(&seeds, 12);
    assert_eq!(faces.len(), 6);
    for face in &faces {
        assert_eq!(face.width, 12);
        assert_eq!(face.height, 12);
        for x in 0..face.width {
            for y in 0..face.height {
                let p = face.pixel(x, y);
                assert!(
                    seeds.iter().any(|s| s.color == p),
                    "pixel ({}, {}) carries no seed color",
                    x,
                    y
                );
            }
        }
    }
}

#[test]
fn collected_colors_are_distinct_and_come_from_the_images() {
    let seeds = create_province_colors(5, 16).expect("valid configuration");
    let faces = create_provinces_images(&seeds, 16);
    let colors = get_colors(&faces);
    assert!(!colors.is_empty());
    for i in 0..colors.len() {
        for j in (i + 1)..colors.len() {
            assert!(colors[i] != colors[j]);
        }
        assert!(seeds.iter().any(|s| s.color == colors[i]));
    }
}

#[test]
fn collected_colors_enumerate_in_first_appearance_order() {
    let red = Rgb8 { r: 200, g: 10, b: 10 };
    let blue = Rgb8 { r: 10, g: 10, b: 200 };
    let img = red_sand::grid::FaceImage {
        width: 2,
        height: 2,
        pixels: vec![red, blue, blue, red],
    };
    let colors = get_colors(&vec![img]);
    assert_eq!(colors, vec![red, blue]);
}

#[test]
fn province_ids_follow_enumeration_order() {
    let colors = vec![
        Rgb8 { r: 1, g: 2, b: 3 },
        Rgb8 { r: 4, g: 5, b: 6 },
        Rgb8 { r: 7, g: 8, b: 9 },
    ];
    let provinces = assign_province_ids(&colors);
    assert_eq!(provinces.len(), 3);
    for (i, p) in provinces.iter().enumerate() {
        assert_eq!(p.id, i as i32);
        assert_eq!(p.color, colors[i]);
    }
}

#[test]
fn color_lookup_finds_the_first_match_or_nothing() {
    let colors = vec![
        Rgb8 { r: 1, g: 2, b: 3 },
        Rgb8 { r: 4, g: 5, b: 6 },
    ];
    assert_eq!(
        province_index_of_color(&colors, Rgb8 { r: 4, g: 5, b: 6 }),
        Some(1)
    );
    assert_eq!(
        province_index_of_color(&colors, Rgb8 { r: 9, g: 9, b: 9 }),
        None
    );
}
