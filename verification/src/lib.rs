use vstd::prelude::*;

pub mod fixed;
pub mod curves;
pub mod config;
pub mod density;
pub mod texture;
pub mod stars;
pub mod extinction;

pub use config::{ArmConfig, ComponentConfig, ComponentType, GalaxyConfig, GalaxyRenderConfig};
pub use density::GalaxyComponentDensity;
pub use texture::{GalaxyTexture, TexelSample, get_lut, get_texture, get_texture_serial};
pub use stars::{Color3, Pos3, Star, StarCount, StarSpawningControl, TickResult};
pub use extinction::ExtinctionCache;

verus! {

/// Number of fixed-point units that stand for the real value one.
/// Every real-valued quantity in this crate (distances, intensities,
/// shape parameters) is carried as an integer count of millionths.
pub const SCALE: u64 = 1_000_000;

} // verus!
