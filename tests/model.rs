use stem_splitter_core::engine::{
    check_output_shapes, check_spectrogram, check_window, combine_branches, find_input, select_outputs,
    spectrogram_shape, DEMUCS_F, DEMUCS_FRAMES, DEMUCS_HOP, DEMUCS_NFFT, DEMUCS_T,
};
use stem_splitter_core::{
    infer_filename_from_url, load_model_from_path, manifest, preload, to_planar_stereo, Artifact,
    Branch, EngineState, ModelManifest, SplitOptions, StemError,
};

fn artifact(file: &str) -> Artifact {
    Artifact {
        file: file.to_string(),
        sha256: format!("sha-{file}"),
        size_bytes: 10,
        url: format!("https://example.org/{file}"),
    }
}

fn base_manifest() -> ModelManifest {
    load_model_from_path("m.onnx", true).unwrap().manifest
}

#[test]
fn model_from_path_has_htdemucs_settings() {
    let h = load_model_from_path("/models/x.onnx", true).unwrap();
    assert_eq!(h.local_path, "/models/x.onnx");
    assert_eq!(h.manifest.name, "htdemucs_custom");
    assert_eq!(h.manifest.sample_rate, 44100);
    assert_eq!(h.manifest.window, 343980);
    assert_eq!(h.manifest.hop, 171990);
    assert_eq!(h.manifest.opset, Some(17));
    assert_eq!(h.manifest.stems, vec!["drums", "bass", "other", "vocals"]);
}

#[test]
fn missing_model_file_is_an_error() {
    match load_model_from_path("/nope.onnx", false) {
        Err(StemError::ModelNotFound { path }) => assert_eq!(path, "/nope.onnx"),
        _ => panic!("expected ModelNotFound"),
    }
}

#[test]
fn entry_selects_first_matching_artifact() {
    let mut m = base_manifest();
    m.artifacts = vec![artifact("a.onnx"), artifact("b.onnx"), artifact("b.onnx")];
    m.artifacts[2].size_bytes = 99;
    m.entry = "b.onnx".to_string();
    let r = m.resolve_primary_artifact().unwrap();
    assert_eq!(r.file, "b.onnx");
    assert_eq!(r.sha256, "sha-b.onnx");
    assert_eq!(r.size_bytes, 10);
    assert_eq!(r.url, "https://example.org/b.onnx");
}

#[test]
fn unknown_entry_is_an_error() {
    let mut m = base_manifest();
    m.artifacts = vec![artifact("a.onnx")];
    m.entry = "z.onnx".to_string();
    assert_eq!(m.resolve_primary_artifact().unwrap_err(), "entry 'z.onnx' not found in artifacts[]");
}

#[test]
fn single_artifact_needs_no_entry() {
    let mut m = base_manifest();
    m.artifacts = vec![artifact("only.onnx")];
    assert_eq!(m.resolve_primary_artifact().unwrap().file, "only.onnx");
}

#[test]
fn several_artifacts_need_an_entry() {
    let mut m = base_manifest();
    m.artifacts = vec![artifact("a.onnx"), artifact("b.onnx")];
    assert_eq!(
        m.resolve_primary_artifact().unwrap_err(),
        "multiple artifacts present but no 'entry' specified"
    );
}

#[test]
fn legacy_fields_resolve_by_url() {
    let mut m = base_manifest();
    m.url = "https://host/models/htdemucs.onnx".to_string();
    m.sha256 = "0123456789abcdef".to_string();
    m.filesize = 1234;
    let r = m.resolve_primary_artifact().unwrap();
    assert_eq!(r.file, "htdemucs.onnx");
    assert_eq!(r.sha256, "0123456789abcdef");
    assert_eq!(r.size_bytes, 1234);
    assert_eq!(r.url, "https://host/models/htdemucs.onnx");
    m.filesize = 0;
    assert_eq!(
        m.resolve_primary_artifact().unwrap_err(),
        "manifest missing artifacts and legacy url/sha256/filesize"
    );
}

#[test]
fn file_name_is_last_url_segment() {
    assert_eq!(infer_filename_from_url("https://a/b/c.bin"), Some("c.bin".to_string()));
    assert_eq!(infer_filename_from_url("plain"), Some("plain".to_string()));
    assert_eq!(infer_filename_from_url("https://a/b/"), Some(String::new()));
}

#[test]
fn first_loaded_model_stays() {
    let mut engine = EngineState::new();
    assert!(!engine.is_loaded());
    preload(&mut engine, load_model_from_path("first.onnx", true).unwrap()).unwrap();
    let mut other = load_model_from_path("second.onnx", true).unwrap();
    other.manifest.name = "second".to_string();
    preload(&mut engine, other).unwrap();
    assert!(engine.is_loaded());
    assert_eq!(manifest(&engine).name, "htdemucs_custom");
}

#[test]
fn engine_spectrogram_dimensions() {
    assert_eq!(spectrogram_shape(DEMUCS_T, DEMUCS_NFFT, DEMUCS_HOP), (DEMUCS_F, DEMUCS_FRAMES));
    assert_eq!(spectrogram_shape(10, 8, 4), (4, 3));
    assert!(check_spectrogram(2048, 336).is_ok());
    assert!(matches!(
        check_spectrogram(2049, 336),
        Err(StemError::SpectrogramShapeMismatch { bins: 2049, frames: 336, .. })
    ));
}

#[test]
fn window_input_is_checked() {
    assert!(check_window(DEMUCS_T, DEMUCS_T).is_ok());
    assert!(matches!(
        check_window(3, 4),
        Err(StemError::ChannelLengthMismatch { left: 3, right: 4 })
    ));
    assert!(matches!(
        check_window(4, 4),
        Err(StemError::WindowLengthMismatch { expected_len: 343980, actual_len: 4 })
    ));
}

#[test]
fn engine_io_names() {
    let inputs: Vec<String> = vec!["x".into(), "input".into()];
    assert_eq!(find_input(&inputs, "input").unwrap(), 1);
    assert_eq!(find_input(&inputs, "x").unwrap(), 0);
    match find_input(&inputs, "y") {
        Err(StemError::MissingEngineIO { name }) => assert_eq!(name, "y"),
        _ => panic!("expected MissingEngineIO"),
    }
    let outputs: Vec<String> = vec!["add_67".into(), "output".into(), "other".into()];
    assert_eq!(select_outputs(&outputs, "output", "add_67").unwrap(), (1, 0));
    let only_time: Vec<String> = vec!["add_67".into()];
    match select_outputs(&only_time, "output", "add_67") {
        Err(StemError::MissingEngineIO { name }) => assert_eq!(name, "output"),
        _ => panic!("expected MissingEngineIO"),
    }
    let only_freq: Vec<String> = vec!["output".into()];
    match select_outputs(&only_freq, "output", "add_67") {
        Err(StemError::MissingEngineIO { name }) => assert_eq!(name, "add_67"),
        _ => panic!("expected MissingEngineIO"),
    }
}

#[test]
fn engine_output_shapes() {
    let time = vec![1i64, 4, 2, 8];
    let freq = vec![1i64, 4, 4, 3, 5];
    assert_eq!(check_output_shapes(&time, 64, &freq, 240, 8, 3, 5).unwrap(), 4);
    assert!(matches!(
        check_output_shapes(&time, 63, &freq, 240, 8, 3, 5),
        Err(StemError::OutputShapeMismatch { branch: Branch::Time, data_len: 63, .. })
    ));
    assert!(matches!(
        check_output_shapes(&vec![1, 4, 2, 7], 56, &freq, 240, 8, 3, 5),
        Err(StemError::OutputShapeMismatch { branch: Branch::Time, .. })
    ));
    assert!(matches!(
        check_output_shapes(&time, 64, &vec![1, 3, 4, 3, 5], 180, 8, 3, 5),
        Err(StemError::OutputShapeMismatch { branch: Branch::Frequency, .. })
    ));
    assert!(matches!(
        check_output_shapes(&time, 64, &freq, 241, 8, 3, 5),
        Err(StemError::OutputShapeMismatch { branch: Branch::Frequency, data_len: 241, .. })
    ));
}

#[test]
fn channel_layouts_become_stereo() {
    assert_eq!(to_planar_stereo(&vec![1, 2, 3], 1), vec![(1, 1), (2, 2), (3, 3)]);
    assert_eq!(to_planar_stereo(&vec![1, 2, 3, 4, 5], 2), vec![(1, 2), (3, 4)]);
    assert_eq!(to_planar_stereo(&vec![1, 2, 3, 4, 5, 6], 3), vec![(1, 2), (4, 5)]);
    assert!(to_planar_stereo(&vec![1, 2], 0).is_empty());
}

#[test]
fn default_options() {
    let o = SplitOptions::default();
    assert_eq!(o.output_dir, ".");
    assert_eq!(o.model_name, "htdemucs_ort_v1");
    assert!(o.manifest_url_override.is_none());
    assert!(o.model_path.is_none());
}

#[test]
fn branches_combine_by_addition() {
    let time = vec![1.0f32, 2.0, 3.0, 4.0, 5.0, 6.0, 7.0, 8.0];
    let decoded = vec![(vec![0.5f32, 0.5], vec![0.0f32, 1.0]), (vec![0.0f32, 0.0], vec![0.0f32, 0.0])];
    let r = combine_branches(&time, &decoded, 2, |a: f32, b: f32| a + b);
    assert_eq!(r, vec![vec![vec![1.5, 2.5], vec![3.0, 5.0]], vec![vec![5.0, 6.0], vec![7.0, 8.0]]]);
}

#[test]
fn zero_frequency_branch_leaves_time_branch() {
    let time: Vec<f32> = (0..12).map(|i| i as f32).collect();
    let decoded = vec![(vec![0.0f32; 3], vec![0.0f32; 3]); 2];
    let r = combine_branches(&time, &decoded, 3, |a: f32, b: f32| a + b);
    assert_eq!(r[0], vec![vec![0.0, 1.0, 2.0], vec![3.0, 4.0, 5.0]]);
    assert_eq!(r[1], vec![vec![6.0, 7.0, 8.0], vec![9.0, 10.0, 11.0]]);
}
