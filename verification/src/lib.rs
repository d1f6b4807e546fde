//! Core of an interactive Mandelbrot-set renderer.
//!
//! The crate owns the escape-count and pixel buffers, the rectangular-region
//! subdivision scheduler, the pan-driven reuse of previously computed pixels,
//! the gradient-to-palette construction, and the two-phase settings container
//! that mediates between a UI and the engine. Floating-point work (the escape
//! iteration itself and the complex-plane geometry) is left to the caller,
//! which drives the engine with plain integer data.

pub mod color;
pub mod complex;
pub mod crate_info;
pub mod engine;
pub mod gradient;
pub mod image;
pub mod math;
pub mod presets;
pub mod rect;
pub mod serial;
pub mod settings;
pub mod utils;

pub use color::Color;
pub use complex::Complex;
pub use crate_info::crate_name;
pub use gradient::Gradient;
pub use gradient::GradientPivot;
pub use gradient::Palette;
pub use image::Image;
pub use presets::Preset;
pub use rect::RangeRect;
pub use rect::RectRegion;
pub use rect::RectRegionBorder;
pub use engine::ByDistToFocus;
pub use engine::Engine;
pub use settings::EngineSettings;
pub use utils::Pos;
pub use utils::Pristine;
pub use utils::PtrEq;
pub use utils::Ratchet;
