use red_sand::grid::{flip_horizontal, rotate270, rotate90, FaceImage, Rgb8};
use red_sand::mesh::CubeFace;
use red_sand::pipeline::{advance, border_slot, AppState, ConfigError, EngineConfig, StageEvent};

fn c(v: u8) -> Rgb8 {
    Rgb8 { r: v, g: v, b: v }
}

#[test]
fn phases_advance_only_on_their_own_completion_event() {
    assert_eq!(
        advance(AppState::LoadingConfigs, StageEvent::ConfigsLoaded),
        AppState::LoadingImageAssets
    );
    assert_eq!(
        advance(AppState::LoadingImageAssets, StageEvent::ImageAssetsLoaded),
        AppState::GeneratingMaps
    );
    assert_eq!(
        advance(AppState::GeneratingMaps, StageEvent::MapsGenerated),
        AppState::GeneratingMeshes
    );
    assert_eq!(
        advance(AppState::GeneratingMeshes, StageEvent::MeshesGenerated),
        AppState::SpawningGameEntities
    );
    assert_eq!(
        advance(AppState::SpawningGameEntities, StageEvent::EntitiesSpawned),
        AppState::InGame
    );
    // A foreign completion report leaves the phase alone.
    assert_eq!(
        advance(AppState::GeneratingMaps, StageEvent::MeshesGenerated),
        AppState::GeneratingMaps
    );
    assert_eq!(
        advance(AppState::InGame, StageEvent::EntitiesSpawned),
        AppState::InGame
    );
}

#[test]
fn each_face_gets_its_own_border_overlay_slot() {
    let slots = [
        border_slot(CubeFace::PosX),
        border_slot(CubeFace::NegX),
        border_slot(CubeFace::NegZ),
        border_slot(CubeFace::PosZ),
        border_slot(CubeFace::NegY),
        border_slot(CubeFace::PosY),
    ];
    assert_eq!(slots, [0, 1, 2, 3, 4, 5]);
}

#[test]
fn a_run_starts_by_loading_configuration() {
    assert_eq!(AppState::default(), AppState::LoadingConfigs);
}

#[test]
fn each_configuration_fault_reports_its_own_error() {
    let good = EngineConfig { planet_lods: vec![16, 64, 128], map_dimensions: 300, num_provinces: 50 };
    assert_eq!(good.validate(), Ok(()));

    let bad_dim = EngineConfig { planet_lods: vec![16], map_dimensions: 2, num_provinces: 1 };
    assert_eq!(bad_dim.validate(), Err(ConfigError::InvalidProvinceSetup));

    let too_many = EngineConfig { planet_lods: vec![16], map_dimensions: 3, num_provinces: 5 };
    assert_eq!(too_many.validate(), Err(ConfigError::InvalidProvinceSetup));

    let no_lods = EngineConfig { planet_lods: vec![], map_dimensions: 300, num_provinces: 50 };
    assert_eq!(no_lods.validate(), Err(ConfigError::NoDetailLevels));

    let lod_range = EngineConfig { planet_lods: vec![16, 2048], map_dimensions: 300, num_provinces: 50 };
    assert_eq!(lod_range.validate(), Err(ConfigError::DetailLevelOutOfRange));

    let lod_order = EngineConfig { planet_lods: vec![64, 16], map_dimensions: 300, num_provinces: 50 };
    assert_eq!(lod_order.validate(), Err(ConfigError::DetailLevelsNotAscending));
}

#[test]
fn flip_mirrors_columns() {
    // A 3x2 image: columns hold values 1, 2, 3.
    let img = FaceImage {
        width: 3,
        height: 2,
        pixels: vec![c(1), c(1), c(2), c(2), c(3), c(3)],
    };
    let flipped = flip_horizontal(&img);
    assert_eq!(flipped.width, 3);
    assert_eq!(flipped.height, 2);
    for y in 0..2u32 {
        assert_eq!(flipped.pixel(0, y), c(3));
        assert_eq!(flipped.pixel(1, y), c(2));
        assert_eq!(flipped.pixel(2, y), c(1));
    }
}

#[test]
fn quarter_turns_move_pixels_as_a_clock_face_would() {
    // A 2x2 image: top-left 1, top-right 2, bottom-left 3, bottom-right 4
    // (x goes right, y goes down; pixel (x, y) sits at index x*height+y).
    let img = FaceImage {
        width: 2,
        height: 2,
        pixels: vec![c(1), c(3), c(2), c(4)],
    };
    let cw = rotate90(&img);
    assert_eq!(cw.pixel(0, 0), c(3));
    assert_eq!(cw.pixel(1, 0), c(1));
    assert_eq!(cw.pixel(0, 1), c(4));
    assert_eq!(cw.pixel(1, 1), c(2));
    let ccw = rotate270(&img);
    assert_eq!(ccw.pixel(0, 0), c(2));
    assert_eq!(ccw.pixel(1, 0), c(4));
    assert_eq!(ccw.pixel(0, 1), c(1));
    assert_eq!(ccw.pixel(1, 1), c(3));
}

#[test]
fn a_quarter_turn_each_way_round_trips() {
    let img = FaceImage {
        width: 3,
        height: 3,
        pixels: (0..9).map(|v| c(v as u8)).collect(),
    };
    let back = rotate270(&rotate90(&img));
    for x in 0..3u32 {
        for y in 0..3u32 {
            assert_eq!(back.pixel(x, y), img.pixel(x, y));
        }
    }
}
