//! The generation pipeline's phase progression and configuration checks.
//!
//! Generation runs as background units of work observed by polling; the
//! orchestrator owns an explicit phase value and advances it only when the
//! unit it is waiting for reports completion.
use crate::mesh::{CubeFace, MAX_RESOLUTION, MIN_RESOLUTION};
use crate::provinces::seed_config_ok;
use vstd::prelude::*;

verus! {

/// The application phases, in the order a generation run passes through
/// them.
#[derive(Clone, Copy, PartialEq, Eq, Structural, Debug, Hash)]
pub enum AppState {
    LoadingConfigs,
    LoadingImageAssets,
    GeneratingMaps,
    GeneratingMeshes,
    SpawningGameEntities,
    InGame,
}

/// Completion reports of the named background units.
#[derive(Clone, Copy, PartialEq, Eq, Structural, Debug)]
pub enum StageEvent {
    ConfigsLoaded,
    ImageAssetsLoaded,
    MapsGenerated,
    MeshesGenerated,
    EntitiesSpawned,
}

impl Default for AppState {
    /// A run starts by loading its configuration.
    fn default() -> (r: AppState)
        ensures
            r == AppState::LoadingConfigs,
    {
        AppState::LoadingConfigs
    }
}

/// The position of a phase in the progression.
pub open spec fn phase_index(s: AppState) -> int {
    match s {
        AppState::LoadingConfigs => 0,
        AppState::LoadingImageAssets => 1,
        AppState::GeneratingMaps => 2,
        AppState::GeneratingMeshes => 3,
        AppState::SpawningGameEntities => 4,
        AppState::InGame => 5,
    }
}

/// The phase after observing a completion event: each phase waits for the
/// completion of its own unit and ignores every other event.
pub open spec fn next_state_spec(s: AppState, e: StageEvent) -> AppState {
    match (s, e) {
        (AppState::LoadingConfigs, StageEvent::ConfigsLoaded) => AppState::LoadingImageAssets,
        (AppState::LoadingImageAssets, StageEvent::ImageAssetsLoaded) => AppState::GeneratingMaps,
        (AppState::GeneratingMaps, StageEvent::MapsGenerated) => AppState::GeneratingMeshes,
        (AppState::GeneratingMeshes, StageEvent::MeshesGenerated) => (
        AppState::SpawningGameEntities),
        (AppState::SpawningGameEntities, StageEvent::EntitiesSpawned) => AppState::InGame,
        _ => s,
    }
}

/// Advances the phase on a completion event.
///
/// The phase never moves backward, and it moves at all only on the event
/// its own background unit reports.
pub fn advance(s: AppState, e: StageEvent) -> (r: AppState)
    ensures
        r == next_state_spec(s, e),
        phase_index(r) == phase_index(s) || phase_index(r) == phase_index(s) + 1,
{
    match (s, e) {
        (AppState::LoadingConfigs, StageEvent::ConfigsLoaded) => AppState::LoadingImageAssets,
        (AppState::LoadingImageAssets, StageEvent::ImageAssetsLoaded) => AppState::GeneratingMaps,
        (AppState::GeneratingMaps, StageEvent::MapsGenerated) => AppState::GeneratingMeshes,
        (AppState::GeneratingMeshes, StageEvent::MeshesGenerated) => (
        AppState::SpawningGameEntities),
        (AppState::SpawningGameEntities, StageEvent::EntitiesSpawned) => AppState::InGame,
        _ => s,
    }
}

/// Which of the six border overlays belongs on which cube face: the fixed
/// hand-off table between the partitioner's face order and the spawned
/// face entities.
pub open spec fn border_slot_spec(face: CubeFace) -> int {
    match face {
        CubeFace::PosX => 0,
        CubeFace::NegX => 1,
        CubeFace::NegZ => 2,
        CubeFace::PosZ => 3,
        CubeFace::NegY => 4,
        CubeFace::PosY => 5,
    }
}

/// Returns the border overlay slot of a cube face; always a valid index
/// into the six generated overlays.
pub fn border_slot(face: CubeFace) -> (r: usize)
    ensures
        r == border_slot_spec(face),
        r < 6,
{
    match face {
        CubeFace::PosX => 0,
        CubeFace::NegX => 1,
        CubeFace::NegZ => 2,
        CubeFace::PosZ => 3,
        CubeFace::NegY => 4,
        CubeFace::PosY => 5,
    }
}

/// The engine configuration an orchestrator supplies: the level-of-detail
/// resolutions, the lattice dimension, and the number of provinces.
#[derive(Clone, PartialEq, Eq, Debug)]
pub struct EngineConfig {
    pub planet_lods: Vec<u32>,
    pub map_dimensions: u32,
    pub num_provinces: u32,
}

/// Rejected configurations.
#[derive(Clone, Copy, PartialEq, Eq, Structural, Debug)]
pub enum ConfigError {
    /// The lattice dimension or province count cannot seed the partitioner.
    InvalidProvinceSetup,
    /// The level-of-detail list is empty.
    NoDetailLevels,
    /// A detail level lies outside the accepted resolutions.
    DetailLevelOutOfRange,
    /// The detail levels do not strictly ascend.
    DetailLevelsNotAscending,
}

/// The level-of-detail list is nonempty, within the accepted resolutions,
/// and strictly ascending.
pub open spec fn lods_ok(lods: Seq<u32>) -> bool {
    &&& lods.len() >= 1
    &&& forall|i: int|
        0 <= i < lods.len() ==> MIN_RESOLUTION <= #[trigger] lods[i] <= MAX_RESOLUTION
    &&& forall|i: int| 0 <= i < lods.len() - 1 ==> #[trigger] lods[i] < lods[i + 1]
}

/// A configuration is valid when the partitioner accepts its province
/// setup and the detail levels are well-formed.
pub open spec fn config_ok(c: EngineConfig) -> bool {
    &&& seed_config_ok(c.num_provinces as usize, c.map_dimensions)
    &&& lods_ok(c.planet_lods@)
}

impl EngineConfig {
    /// Rejects an unusable configuration before any generation starts.
    pub fn validate(&self) -> (r: Result<(), ConfigError>)
        ensures
            r is Ok <==> config_ok(*self),
            r == Err::<(), ConfigError>(ConfigError::InvalidProvinceSetup) <==> !seed_config_ok(
                self.num_provinces as usize,
                self.map_dimensions,
            ),
    {
        if self.map_dimensions < crate::provinces::MIN_DIMENSION || self.map_dimensions
            > crate::provinces::MAX_DIMENSION {
            return Err(ConfigError::InvalidProvinceSetup);
        }
        let side: u64 = (self.map_dimensions - 1) as u64;
        proof {
            assert(side * side * side == ((self.map_dimensions - 1) * (self.map_dimensions - 1) * (
            self.map_dimensions - 1)) as int && side * side <= 0x100_0000 && side * side * side
                <= 0x1_0000_0000_0000) by (nonlinear_arith)
                requires
                    side == self.map_dimensions - 1,
                    2 <= side <= 0xFFF,
            {}
        }
        let volume: u64 = side * side * side;
        if 2 * (self.num_provinces as u64) > volume || 2 * (self.num_provinces as u64) > 16581375 {
            proof {
                assert(255 * 255 * 255 == 16581375) by (nonlinear_arith) {}
            }
            return Err(ConfigError::InvalidProvinceSetup);
        }
        proof {
            assert(255 * 255 * 255 == 16581375) by (nonlinear_arith) {}
            assert(seed_config_ok(self.num_provinces as usize, self.map_dimensions));
        }
        if self.planet_lods.len() == 0 {
            return Err(ConfigError::NoDetailLevels);
        }
        let mut k: usize = 0;
        while k < self.planet_lods.len()
            invariant
                seed_config_ok(self.num_provinces as usize, self.map_dimensions),
                k <= self.planet_lods.len(),
                forall|i: int|
                    0 <= i < k ==> MIN_RESOLUTION <= #[trigger] self.planet_lods[i]
                        <= MAX_RESOLUTION,
            decreases self.planet_lods.len() - k,
        {
            if self.planet_lods[k] < MIN_RESOLUTION || self.planet_lods[k] > MAX_RESOLUTION {
                return Err(ConfigError::DetailLevelOutOfRange);
            }
            k = k + 1;
        }
        let mut j: usize = 1;
        while j < self.planet_lods.len()
            invariant
                seed_config_ok(self.num_provinces as usize, self.map_dimensions),
                1 <= j,
                j <= self.planet_lods.len() || self.planet_lods.len() == 0,
                forall|i: int| 0 <= i < j - 1 ==> #[trigger] self.planet_lods[i]
                    < self.planet_lods[i + 1],
            decreases self.planet_lods.len() - j,
        {
            if self.planet_lods[j - 1] >= self.planet_lods[j] {
                return Err(ConfigError::DetailLevelsNotAscending);
            }
            j = j + 1;
        }
        Ok(())
    }
}

} // verus!
