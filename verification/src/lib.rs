//! The decisions behind training and drawing Gaussian splats: which view is
//! loaded next and what is kept of it, how the parameters of a splat are laid
//! out, what one optimiser step does to its state, how a training run is
//! configured and started, and how a picked file is handed on.

pub mod adam_laws;
pub mod adam_scaled;
pub mod engine;
pub mod file_picker;
pub mod gaussian_splats;
pub mod loader_runs;
pub mod matrix;
pub mod min_scale;
pub mod outside;
pub mod scene_loader;
pub mod sh;
pub mod size_text;
pub mod splat_laws;
pub mod splat_math;
pub mod tensor;
pub mod training_config;
pub mod validation;
