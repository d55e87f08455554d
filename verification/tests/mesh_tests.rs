use red_sand::fixed::SCALE;
use red_sand::mesh::{spawn_face, CubeFace, ElevationImage, MeshError};

fn flat_image(side: u32, red: u8) -> ElevationImage {
    let mut data = Vec::new();
    for _ in 0..(side * side) {
        data.push(red);
        data.push(0);
        data.push(0);
        data.push(255);
    }
    ElevationImage { width: side, height: side, data }
}

fn length(v: &red_sand::fixed::V3) -> f64 {
    let x = v.x as f64;
    let y = v.y as f64;
    let z = v.z as f64;
    (x * x + y * y + z * z).sqrt()
}

#[test]
fn ten_by_ten_face_has_expected_counts_radius_and_unit_normals() {
    let img = flat_image(4, 0);
    let mesh = spawn_face(CubeFace::PosY, 10, SCALE, SCALE, &img).expect("valid arguments");
    assert_eq!(mesh.positions.len(), 100);
    assert_eq!(mesh.normals.len(), 100);
    assert_eq!(mesh.uvs.len(), 100);
    assert_eq!(mesh.indices.len(), 9 * 9 * 6);
    for idx in &mesh.indices {
        assert!((*idx as usize) < mesh.positions.len());
    }
    let radius = SCALE as f64;
    for p in &mesh.positions {
        let d = length(p);
        assert!(
            (d - radius).abs() / radius < 1e-3,
            "vertex distance {} strays from the radius",
            d
        );
    }
    for n in &mesh.normals {
        let d = length(n) / (SCALE as f64);
        assert!((d - 1.0).abs() < 1e-4, "normal length {} is not unit", d);
    }
}

#[test]
fn raising_the_sampled_elevation_moves_every_vertex_outward() {
    let low = flat_image(1, 10);
    let high = flat_image(1, 200);
    let a = spawn_face(CubeFace::PosX, 6, SCALE, SCALE, &low).expect("valid arguments");
    let b = spawn_face(CubeFace::PosX, 6, SCALE, SCALE, &high).expect("valid arguments");
    for (pa, pb) in a.positions.iter().zip(b.positions.iter()) {
        assert!(
            length(pb) > length(pa),
            "vertex failed to move outward: {} vs {}",
            length(pb),
            length(pa)
        );
    }
}

#[test]
fn identical_arguments_give_bit_identical_meshes() {
    let img = flat_image(3, 77);
    let a = spawn_face(CubeFace::NegZ, 10, 3 * SCALE, 2 * SCALE, &img).expect("valid arguments");
    let b = spawn_face(CubeFace::NegZ, 10, 3 * SCALE, 2 * SCALE, &img).expect("valid arguments");
    assert_eq!(a.positions, b.positions);
    assert_eq!(a.normals, b.normals);
    assert_eq!(a.uvs, b.uvs);
    assert_eq!(a.indices, b.indices);
}

#[test]
fn uv_coordinates_tile_with_the_uv_scale() {
    let img = flat_image(1, 0);
    let mesh = spawn_face(CubeFace::PosZ, 3, SCALE, 4 * SCALE, &img).expect("valid arguments");
    // Grid fractions are 0, 1/2 and 1; scaled by 4 they reach 4 whole units.
    assert_eq!(mesh.uvs[0].u, 0);
    assert_eq!(mesh.uvs[0].v, 0);
    assert_eq!(mesh.uvs[2].u, 4 * SCALE);
    assert_eq!(mesh.uvs[8].u, 4 * SCALE);
    assert_eq!(mesh.uvs[8].v, 4 * SCALE);
    assert_eq!(mesh.uvs[4].u, 2 * SCALE);
}

#[test]
fn each_bad_argument_reports_its_own_error() {
    let img = flat_image(2, 0);
    assert_eq!(
        spawn_face(CubeFace::PosY, 1, SCALE, SCALE, &img),
        Err(MeshError::ResolutionOutOfRange)
    );
    assert_eq!(
        spawn_face(CubeFace::PosY, 10, 0, SCALE, &img),
        Err(MeshError::RadiusOutOfRange)
    );
    assert_eq!(
        spawn_face(CubeFace::PosY, 10, SCALE, -1, &img),
        Err(MeshError::UvScaleOutOfRange)
    );
    let broken = ElevationImage { width: 2, height: 2, data: vec![0; 7] };
    assert_eq!(
        spawn_face(CubeFace::PosY, 10, SCALE, SCALE, &broken),
        Err(MeshError::MalformedElevation)
    );
}

#[test]
fn opposite_faces_mirror_each_other_through_the_origin() {
    let img = flat_image(1, 0);
    let top = spawn_face(CubeFace::PosY, 4, SCALE, SCALE, &img).expect("valid arguments");
    let bottom = spawn_face(CubeFace::NegY, 4, SCALE, SCALE, &img).expect("valid arguments");
    // Both faces hold the same number of vertices at the same distance.
    assert_eq!(top.positions.len(), bottom.positions.len());
    for (t, b) in top.positions.iter().zip(bottom.positions.iter()) {
        assert!(t.y > 0, "top-face vertex below the equator");
        assert!(b.y < 0, "bottom-face vertex above the equator");
    }
}
