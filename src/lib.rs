//! Stem separation core: a windowed inference orchestrator that stitches an
//! opaque engine's per-window outputs into full-length stem tracks, together
//! with stem resolution, mixing selection, the engine's tensor-shape
//! contract, and model manifest resolution.
//!
//! The library never does arithmetic on samples: it is generic over the
//! sample type and only moves samples between buffers.

pub mod audio;
pub mod engine;
pub mod error;
pub mod model;
pub mod stems;
pub mod text;
pub mod types;
pub mod window;

pub use crate::audio::to_planar_stereo;
pub use crate::engine::{manifest, preload, EngineState};
pub use crate::error::{Branch, StemError};
pub use crate::model::{load_model_from_path, ModelHandle};
pub use crate::stems::{SeparatedStems, Stem, StemIndex};
pub use crate::types::{
    infer_filename_from_url, Artifact, IODesc, ModelManifest, ResolvedArtifact, SplitOptions,
    SplitResult, VocalRemovalResult,
};
pub use crate::window::{slice_window, RunState, WindowRun, SUPPORTED_SAMPLE_RATE};
