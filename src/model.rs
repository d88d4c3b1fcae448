use vstd::prelude::*;
use crate::error::StemError;
use crate::types::ModelManifest;
use vstd::string::StringExecFns;

verus! {

/// A model ready to load: its manifest and the model file.
pub struct ModelHandle {
    pub manifest: ModelManifest,
    pub local_path: String,
}

/// The manifest given to a model file supplied by path: the htdemucs
/// settings.
pub open spec fn is_custom_manifest(m: ModelManifest) -> bool {
    &&& m.name@ == "htdemucs_custom"@
    &&& m.version@ == "1.0.0"@
    &&& m.backend@ == "onnx"@
    &&& m.format@ == "onnx"@
    &&& m.opset == Some(17u32)
    &&& m.sample_rate == 44100
    &&& m.window == 343980
    &&& m.hop == 171990
    &&& m.stems@.len() == 4
    &&& m.stems@[0]@ == "drums"@
    &&& m.stems@[1]@ == "bass"@
    &&& m.stems@[2]@ == "other"@
    &&& m.stems@[3]@ == "vocals"@
    &&& m.input_layout@.len() == 0
    &&& m.output_layout@.len() == 0
    &&& m.inputs@.len() == 0
    &&& m.outputs@.len() == 0
    &&& m.artifacts@.len() == 0
    &&& m.entry@.len() == 0
    &&& m.url@.len() == 0
    &&& m.sha256@.len() == 0
    &&& m.filesize == 0
}

/// A handle for a model file at `model_path`, with the htdemucs settings.
/// `file_exists` tells whether that file is present.
pub fn load_model_from_path(model_path: &str, file_exists: bool) -> (r: Result<ModelHandle, StemError>)
    ensures
        r is Ok <==> file_exists,
        !file_exists ==> (r matches Err(StemError::ModelNotFound { path }) && path@ == model_path@),
        r matches Ok(h) ==> is_custom_manifest(h.manifest) && h.local_path@ == model_path@,
{
    if !file_exists {
        return Err(StemError::ModelNotFound { path: String::from_str(model_path) });
    }
    let mut stems: Vec<String> = Vec::new();
    stems.push(String::from_str("drums"));
    stems.push(String::from_str("bass"));
    stems.push(String::from_str("other"));
    stems.push(String::from_str("vocals"));
    let manifest = ModelManifest {
        name: String::from_str("htdemucs_custom"),
        version: String::from_str("1.0.0"),
        backend: String::from_str("onnx"),
        format: String::from_str("onnx"),
        opset: Some(17),
        sample_rate: 44100,
        window: 343980,
        hop: 171990,
        stems,
        input_layout: String::new(),
        output_layout: String::new(),
        inputs: Vec::new(),
        outputs: Vec::new(),
        artifacts: Vec::new(),
        entry: String::new(),
        url: String::new(),
        sha256: String::new(),
        filesize: 0,
    };
    Ok(ModelHandle { manifest, local_path: String::from_str(model_path) })
}

} // verus!
