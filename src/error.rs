use vstd::prelude::*;

verus! {

/// The two prediction heads of the engine.
#[derive(Debug, Clone, Copy, PartialEq, Eq, Structural)]
pub enum Branch {
    /// Per-source time-domain signals, `[1, S, 2, W]`.
    Time,
    /// Per-source spectrograms in CAC layout, `[1, S, 4, F, M]`.
    Frequency,
}

/// Every failure of a separation run. None is retried and none is downgraded:
/// each aborts the whole run and reaches the caller with expected and actual
/// values.
#[derive(Debug, Clone)]
pub enum StemError {
    /// Left and right channels of a window differ in length.
    ChannelLengthMismatch { left: usize, right: usize },
    /// A window does not have the length that the engine declares.
    WindowLengthMismatch { expected_len: usize, actual_len: usize },
    /// The spectrogram's bin or frame count differs from the engine's.
    SpectrogramShapeMismatch { expected_bins: usize, expected_frames: usize, bins: usize, frames: usize },
    /// An engine output tensor has an unexpected shape, or its data does not
    /// fill that shape.
    OutputShapeMismatch { branch: Branch, actual_shape: Vec<i64>, data_len: usize },
    /// The engine reported no stems for a window.
    NoStems,
    /// A stem of a window's output does not hold exactly two channels.
    ChannelCountMismatch { stem: usize, channels: usize },
    /// A window reported a stem count other than the one the first window established.
    StemCountChanged { established: usize, reported: usize },
    /// A declared stem name points past the stems the engine produced.
    StemIndexOutOfRange { index: usize, stems: usize },
    /// The engine lacks a named input or output.
    MissingEngineIO { name: String },
    /// The model's sample rate is not the supported one.
    UnsupportedSampleRate { expected_rate: u32, actual_rate: u32 },
    /// The input signal holds no samples.
    EmptyInput,
    /// Window length and hop do not satisfy `0 < hop <= window`.
    BadWindowHop { window: usize, hop: usize },
    /// The inference engine itself failed.
    EngineFailure { message: String },
    /// The engine was used before a model was loaded.
    EngineNotLoaded,
    /// A model manifest is inconsistent.
    Manifest { message: String },
    /// A model file does not exist.
    ModelNotFound { path: String },
}

} // verus!
