use vstd::prelude::*;
use vstd::string::{StrSliceExecFns, StringExecFns};
use crate::text::same_text;

verus! {

/// Options of a separation run.
#[derive(Clone, Debug)]
pub struct SplitOptions {
    pub output_dir: String,
    pub model_name: String,
    pub manifest_url_override: Option<String>,
    /// Local model file; when set, no model is downloaded.
    pub model_path: Option<String>,
}

impl Default for SplitOptions {
    fn default() -> (r: Self)
        ensures
            r.output_dir@ == "."@,
            r.model_name@ == "htdemucs_ort_v1"@,
            r.manifest_url_override is None,
            r.model_path is None,
    {
        SplitOptions {
            output_dir: String::from_str("."),
            model_name: String::from_str("htdemucs_ort_v1"),
            manifest_url_override: None,
            model_path: None,
        }
    }
}

/// Paths of the four stems written by a split.
#[derive(Clone, Debug)]
pub struct SplitResult {
    pub vocals_path: String,
    pub drums_path: String,
    pub bass_path: String,
    pub other_path: String,
}

/// Paths written by vocal removal.
#[derive(Clone, Debug)]
pub struct VocalRemovalResult {
    /// Everything except vocals.
    pub instrumental_path: String,
    /// The isolated vocals.
    pub vocals_path: String,
}

/// One downloadable file of a model.
#[derive(Debug, Clone)]
pub struct Artifact {
    pub file: String,
    pub sha256: String,
    pub size_bytes: u64,
    pub url: String,
}

/// A named tensor input or output of a model.
#[derive(Debug, Clone)]
pub struct IODesc {
    pub name: String,
    pub layout: String,
    pub dtype: String,
    pub shape: Vec<String>,
}

/// Metadata describing a model: its sample rate, window and hop sizing,
/// stem names, and where its files come from.
#[derive(Debug, Clone)]
pub struct ModelManifest {
    pub name: String,
    pub version: String,
    pub backend: String,
    pub format: String,
    pub opset: Option<u32>,
    pub sample_rate: u32,
    pub window: usize,
    pub hop: usize,
    pub stems: Vec<String>,
    pub input_layout: String,
    pub output_layout: String,
    pub inputs: Vec<IODesc>,
    pub outputs: Vec<IODesc>,
    pub artifacts: Vec<Artifact>,
    pub entry: String,
    pub url: String,
    pub sha256: String,
    pub filesize: u64,
}

/// The model file a manifest designates.
#[derive(Debug, Clone)]
pub struct ResolvedArtifact {
    pub file: String,
    pub sha256: String,
    pub size_bytes: u64,
    pub url: String,
}

/// `name` is the last path segment of `url`: the longest suffix free of `/`.
pub open spec fn is_last_segment(url: Seq<char>, name: Seq<char>) -> bool {
    &&& name.len() <= url.len()
    &&& name == url.subrange(url.len() - name.len(), url.len() as int)
    &&& !name.contains('/')
    &&& (name.len() == url.len() || url[url.len() - name.len() - 1] == '/')
}

/// `i` is the first artifact whose file is `entry`.
pub open spec fn is_first_entry(artifacts: Seq<Artifact>, entry: Seq<char>, i: int) -> bool {
    &&& 0 <= i < artifacts.len()
    &&& artifacts[i].file@ == entry
    &&& forall|j: int| 0 <= j < i ==> artifacts[j].file@ != entry
}

/// The resolved artifact carries exactly the fields of `a`.
pub open spec fn resolves_to(r: ResolvedArtifact, a: Artifact) -> bool {
    r.file == a.file && r.sha256 == a.sha256 && r.size_bytes == a.size_bytes && r.url == a.url
}

/// Message of a manifest whose entry names no artifact.
pub open spec fn entry_missing_message(entry: Seq<char>) -> Seq<char> {
    "entry '"@ + entry + "' not found in artifacts[]"@
}

/// The last path segment of a URL.
fn last_segment(url: &str) -> (r: String)
    ensures
        is_last_segment(url@, r@),
{
    let n = url.unicode_len();
    let mut i: usize = n;
    while i > 0 && url.get_char(i - 1) != '/'
        invariant
            i <= n,
            n == url@.len(),
            forall|j: int| i <= j < n ==> url@[j] != '/',
        decreases i,
    {
        i -= 1;
    }
    let r = String::from_str(url.substring_char(i, n));
    assert(r@ =~= url@.subrange(i as int, n as int));
    assert(!r@.contains('/')) by {
        if r@.contains('/') {
            let k = choose|k: int| 0 <= k < r@.len() && r@[k] == '/';
            assert(url@[i + k] == '/');
        }
    }
    r
}

/// The file name a URL ends in.
pub fn infer_filename_from_url(url: &str) -> (r: Option<String>)
    ensures
        r matches Some(name) && is_last_segment(url@, name@),
{
    Some(last_segment(url))
}

/// Copies an artifact's fields.
fn resolved_from(a: &Artifact) -> (r: ResolvedArtifact)
    ensures
        resolves_to(r, *a),
{
    ResolvedArtifact {
        file: a.file.clone(),
        sha256: a.sha256.clone(),
        size_bytes: a.size_bytes,
        url: a.url.clone(),
    }
}

impl ModelManifest {
    /// The model file the manifest designates. With artifacts: the first one
    /// named by `entry`, or the only one when `entry` is empty. Without
    /// artifacts: the legacy `url`/`sha256`/`filesize` fields, the file name
    /// being the URL's last segment.
    pub fn resolve_primary_artifact(&self) -> (r: Result<ResolvedArtifact, String>)
        ensures
            self.artifacts@.len() > 0 && self.entry@.len() > 0 ==> (match r {
                Ok(a) => exists|i: int|
                    is_first_entry(self.artifacts@, self.entry@, i) && resolves_to(
                        a,
                        self.artifacts@[i],
                    ),
                Err(m) => m@ == entry_missing_message(self.entry@) && forall|i: int|
                    0 <= i < self.artifacts@.len() ==> self.artifacts@[i].file@ != self.entry@,
            }),
            self.artifacts@.len() == 1 && self.entry@.len() == 0 ==> (r matches Ok(a) && resolves_to(
                a,
                self.artifacts@[0],
            )),
            self.artifacts@.len() > 1 && self.entry@.len() == 0 ==> (r matches Err(m) && m@
                == "multiple artifacts present but no 'entry' specified"@),
            self.artifacts@.len() == 0 ==> (if self.url@.len() == 0 || self.sha256@.len() == 0
                || self.filesize == 0 {
                r matches Err(m) && m@ == "manifest missing artifacts and legacy url/sha256/filesize"@
            } else {
                r matches Ok(a) && is_last_segment(self.url@, a.file@) && a.sha256 == self.sha256
                    && a.size_bytes == self.filesize && a.url == self.url
            }),
    {
        if self.artifacts.len() > 0 {
            if self.entry.as_str().unicode_len() > 0 {
                let mut i: usize = 0;
                while i < self.artifacts.len()
                    invariant
                        i <= self.artifacts@.len(),
                        self.entry@.len() > 0,
                        forall|j: int| 0 <= j < i ==> self.artifacts@[j].file@ != self.entry@,
                    decreases self.artifacts@.len() - i,
                {
                    if same_text(self.artifacts[i].file.as_str(), self.entry.as_str()) {
                        let a = resolved_from(&self.artifacts[i]);
                        assert(is_first_entry(self.artifacts@, self.entry@, i as int));
                        return Ok(a);
                    }
                    i += 1;
                }
                let m = String::from_str("entry '").concat(self.entry.as_str()).concat(
                    "' not found in artifacts[]",
                );
                return Err(m);
            }
            if self.artifacts.len() == 1 {
                return Ok(resolved_from(&self.artifacts[0]));
            }
            return Err(String::from_str("multiple artifacts present but no 'entry' specified"));
        }
        if self.url.as_str().unicode_len() == 0 || self.sha256.as_str().unicode_len() == 0
            || self.filesize == 0 {
            return Err(String::from_str("manifest missing artifacts and legacy url/sha256/filesize"));
        }
        Ok(
            ResolvedArtifact {
                file: last_segment(self.url.as_str()),
                sha256: self.sha256.clone(),
                size_bytes: self.filesize,
                url: self.url.clone(),
            },
        )
    }
}

} // verus!
