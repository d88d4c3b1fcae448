use vstd::prelude::*;
use crate::error::{Branch, StemError};
use crate::model::ModelHandle;
use crate::text::same_text;
use crate::types::ModelManifest;
use vstd::string::StringExecFns;

verus! {

/// Window length, in samples, that the engine takes.
pub const DEMUCS_T: usize = 343980;

/// Frequency bins of the engine's spectrograms.
pub const DEMUCS_F: usize = 2048;

/// Frames of the engine's spectrograms.
pub const DEMUCS_FRAMES: usize = 336;

/// Transform size of the spectral kernel.
pub const DEMUCS_NFFT: usize = 4096;

/// Hop of the spectral kernel.
pub const DEMUCS_HOP: usize = 1024;

/// Bins and frames of the centered spectrogram of `t` samples: the transform
/// keeps `nfft / 2` bins, and centered padding gives one frame per hop plus
/// one.
pub open spec fn spectrogram_dims(t: nat, nfft: nat, hop: nat) -> (nat, nat)
    recommends
        hop > 0,
{
    ((nfft / 2) as nat, (t / hop + 1) as nat)
}

/// Bins and frames of the spectrogram of `t` samples.
pub fn spectrogram_shape(t: usize, nfft: usize, hop: usize) -> (r: (usize, usize))
    requires
        hop > 0,
        t < usize::MAX,
    ensures
        (r.0 as nat, r.1 as nat) == spectrogram_dims(t as nat, nfft as nat, hop as nat),
{
    let frames = t / hop;
    assert(frames <= t) by (nonlinear_arith)
        requires
            frames == t / hop,
            hop > 0,
    ;
    (nfft / 2, frames + 1)
}

/// Checks a window before inference: both channels hold the engine's
/// window length.
pub fn check_window(left_len: usize, right_len: usize) -> (r: Result<(), StemError>)
    ensures
        r is Ok <==> left_len == right_len && left_len == DEMUCS_T,
        left_len != right_len ==> r == Err::<(), StemError>(
            StemError::ChannelLengthMismatch { left: left_len, right: right_len },
        ),
        left_len == right_len && left_len != DEMUCS_T ==> r == Err::<(), StemError>(
            StemError::WindowLengthMismatch { expected_len: DEMUCS_T, actual_len: left_len },
        ),
{
    if left_len != right_len {
        return Err(StemError::ChannelLengthMismatch { left: left_len, right: right_len });
    }
    if left_len != DEMUCS_T {
        return Err(StemError::WindowLengthMismatch { expected_len: DEMUCS_T, actual_len: left_len });
    }
    Ok(())
}

/// Checks the spectrogram's dimensions against the engine's.
pub fn check_spectrogram(bins: usize, frames: usize) -> (r: Result<(), StemError>)
    ensures
        r is Ok <==> bins == DEMUCS_F && frames == DEMUCS_FRAMES,
        r is Err ==> r == Err::<(), StemError>(
            StemError::SpectrogramShapeMismatch {
                expected_bins: DEMUCS_F,
                expected_frames: DEMUCS_FRAMES,
                bins,
                frames,
            },
        ),
{
    if bins != DEMUCS_F || frames != DEMUCS_FRAMES {
        return Err(
            StemError::SpectrogramShapeMismatch {
                expected_bins: DEMUCS_F,
                expected_frames: DEMUCS_FRAMES,
                bins,
                frames,
            },
        );
    }
    Ok(())
}

/// `i` is the first of `names` equal to `wanted`.
pub open spec fn is_first_named(names: Seq<Seq<char>>, wanted: Seq<char>, i: int) -> bool {
    &&& 0 <= i < names.len()
    &&& names[i] == wanted
    &&& forall|j: int| 0 <= j < i ==> names[j] != wanted
}

/// `i` is the last of `names` equal to `wanted`.
pub open spec fn is_last_named(names: Seq<Seq<char>>, wanted: Seq<char>, i: int) -> bool {
    &&& 0 <= i < names.len()
    &&& names[i] == wanted
    &&& forall|j: int| i < j < names.len() ==> names[j] != wanted
}

/// The characters of each name.
pub open spec fn names_view(names: &Vec<String>) -> Seq<Seq<char>> {
    Seq::new(names@.len(), |i: int| names@[i]@)
}

/// The position of the engine input named `wanted`; an engine without it
/// cannot be used.
pub fn find_input(names: &Vec<String>, wanted: &str) -> (r: Result<usize, StemError>)
    ensures
        r matches Ok(i) ==> is_first_named(names_view(names), wanted@, i as int),
        r is Err ==> (forall|j: int| 0 <= j < names@.len() ==> names@[j]@ != wanted@) && (
        r matches Err(StemError::MissingEngineIO { name }) && name@ == wanted@),
{
    let mut i: usize = 0;
    while i < names.len()
        invariant
            i <= names@.len(),
            forall|j: int| 0 <= j < i ==> names@[j]@ != wanted@,
        decreases names@.len() - i,
    {
        if same_text(names[i].as_str(), wanted) {
            return Ok(i);
        }
        i += 1;
    }
    Err(StemError::MissingEngineIO { name: String::from_str(wanted) })
}

/// The position of the last engine output named `wanted`, if any.
fn last_named(names: &Vec<String>, wanted: &str) -> (r: Option<usize>)
    ensures
        r matches Some(i) ==> is_last_named(names_view(names), wanted@, i as int),
        r is None ==> forall|j: int| 0 <= j < names@.len() ==> names@[j]@ != wanted@,
{
    let mut i: usize = names.len();
    while i > 0
        invariant
            i <= names@.len(),
            forall|j: int| i <= j < names@.len() ==> names@[j]@ != wanted@,
        decreases i,
    {
        i -= 1;
        if same_text(names[i].as_str(), wanted) {
            return Some(i);
        }
    }
    None
}

/// Positions of the frequency-branch output (`freq_name`) and the
/// time-branch output (`time_name`) among the engine's outputs; a later
/// output of the same name replaces an earlier one.
pub fn select_outputs(names: &Vec<String>, freq_name: &str, time_name: &str) -> (r: Result<
    (usize, usize),
    StemError,
>)
    ensures
        r matches Ok((f, t)) ==> is_last_named(names_view(names), freq_name@, f as int)
            && is_last_named(names_view(names), time_name@, t as int),
        r is Err ==> (r matches Err(StemError::MissingEngineIO { name }) && (if forall|j: int|
            0 <= j < names@.len() ==> names@[j]@ != freq_name@ {
            name@ == freq_name@
        } else {
            name@ == time_name@ && forall|j: int|
                0 <= j < names@.len() ==> names@[j]@ != time_name@
        })),
{
    let f = match last_named(names, freq_name) {
        Some(f) => f,
        None => {
            return Err(StemError::MissingEngineIO { name: String::from_str(freq_name) });
        },
    };
    let t = match last_named(names, time_name) {
        Some(t) => t,
        None => {
            return Err(StemError::MissingEngineIO { name: String::from_str(time_name) });
        },
    };
    Ok((f, t))
}

/// The time branch's shape is `[1, S, 2, window]` with `S > 0`.
pub open spec fn time_shape_ok(shape: Seq<i64>, window: nat) -> bool {
    &&& shape.len() == 4
    &&& shape[0] == 1
    &&& shape[1] >= 1
    &&& shape[2] == 2
    &&& shape[3] == window
}

/// The frequency branch's shape is `[1, stems, 4, bins, frames]`.
pub open spec fn freq_shape_ok(shape: Seq<i64>, stems: int, bins: nat, frames: nat) -> bool {
    &&& shape.len() == 5
    &&& shape[0] == 1
    &&& shape[1] == stems
    &&& shape[2] == 4
    &&& shape[3] == bins
    &&& shape[4] == frames
}

/// Checks both engine outputs against the declared shapes and returns the
/// number of sources `S`: the time branch is `[1, S, 2, window]`, the
/// frequency branch `[1, S, 4, bins, frames]`, and each holds exactly as
/// many values as its shape.
pub fn check_output_shapes(
    time_shape: &Vec<i64>,
    time_len: usize,
    freq_shape: &Vec<i64>,
    freq_len: usize,
    window: usize,
    bins: usize,
    frames: usize,
) -> (r: Result<usize, StemError>)
    requires
        window > 0,
    ensures
        r is Ok <==> time_shape_ok(time_shape@, window as nat) && time_len == time_shape@[1] * 2
            * window && freq_shape_ok(freq_shape@, time_shape@[1] as int, bins as nat, frames as nat)
            && freq_len == time_shape@[1] * 4 * bins * frames,
        r matches Ok(s) ==> s == time_shape@[1],
        r matches Err(e) ==> (e matches StemError::OutputShapeMismatch { branch, .. } && (branch
            == Branch::Time <==> !(time_shape_ok(time_shape@, window as nat) && time_len
            == time_shape@[1] * 2 * window))),
{
    assert(forall|st: int, b: int, f: int| #[trigger] (st * 4 * b * f) == st * 4 * (b * f))
        by (nonlinear_arith);
    let time_ok = time_shape.len() == 4 && time_shape[0] == 1 && time_shape[1] >= 1
        && time_shape[2] == 2 && time_shape[3] >= 0 && time_shape[3] as u128 == window as u128;
    if !time_ok {
        return Err(
            StemError::OutputShapeMismatch {
                branch: Branch::Time,
                actual_shape: time_shape.clone(),
                data_len: time_len,
            },
        );
    }
    let stems = time_shape[1];
    if !fills(time_len, window as u128, 2, stems) {
        return Err(
            StemError::OutputShapeMismatch {
                branch: Branch::Time,
                actual_shape: time_shape.clone(),
                data_len: time_len,
            },
        );
    }
    let freq_ok = freq_shape.len() == 5 && freq_shape[0] == 1 && freq_shape[1] == stems
        && freq_shape[2] == 4 && freq_shape[3] >= 0 && freq_shape[3] as u128 == bins as u128
        && freq_shape[4] >= 0 && freq_shape[4] as u128 == frames as u128;
    assert((bins as u128) * (frames as u128) <= u128::MAX) by (nonlinear_arith)
        requires
            bins <= usize::MAX,
            frames <= usize::MAX,
            usize::MAX <= u64::MAX,
    ;
    if !freq_ok || !fills(freq_len, (bins as u128) * (frames as u128), 4, stems) {
        return Err(
            StemError::OutputShapeMismatch {
                branch: Branch::Frequency,
                actual_shape: freq_shape.clone(),
                data_len: freq_len,
            },
        );
    }
    assert(stems <= time_len) by (nonlinear_arith)
        requires
            time_len == stems * 2 * window,
            window > 0,
            stems >= 1,
    ;
    Ok(stems as usize)
}

/// Whether `len` values fill `stems` planes of `factor * plane` values.
fn fills(len: usize, plane: u128, factor: u128, stems: i64) -> (r: bool)
    requires
        stems >= 1,
        1 <= factor <= 4,
    ensures
        r == (len == stems * factor * plane),
{
    assert(stems * factor * plane == factor * plane * stems) by (nonlinear_arith);
    match plane.checked_mul(factor) {
        Some(p) => match p.checked_mul(stems as u128) {
            Some(total) => total == len as u128,
            None => {
                assert(p * stems >= p) by (nonlinear_arith)
                    requires
                        stems >= 1,
                        p >= 0,
                ;
                false
            },
        },
        None => {
            assert(plane * factor * stems >= plane * factor) by (nonlinear_arith)
                requires
                    stems >= 1,
                    plane >= 0,
                    factor >= 1,
            ;
            false
        },
    }
}

/// `r` is what `combine` gives for a time-branch sample and the decoded
/// frequency-branch sample at the same place.
pub open spec fn merges<T, F: Fn(T, T) -> T>(combine: F, time: T, freq: T, r: T) -> bool {
    combine.ensures((time, freq), r)
}

/// Merges the engine's two heads for one window. `time` is the time branch,
/// `[S, 2, window]` flattened; `decoded` holds, per source, the frequency
/// branch decoded to `window` samples per channel. Every sample of the result,
/// shaped `[source][channel][sample]`, is `combine` applied to the time
/// sample and the decoded sample at the same place: no weighting, no gating.
pub fn combine_branches<T: Copy, F: Fn(T, T) -> T>(
    time: &[T],
    decoded: &Vec<(Vec<T>, Vec<T>)>,
    window: usize,
    combine: F,
) -> (r: Vec<Vec<Vec<T>>>)
    requires
        time@.len() == decoded@.len() * (2 * window),
        2 * window <= usize::MAX,
        forall|s: int|
            0 <= s < decoded@.len() ==> (#[trigger] decoded@[s]).0@.len() == window
                && decoded@[s].1@.len() == window,
        forall|a: T, b: T| #[trigger] combine.requires((a, b)),
    ensures
        r@.len() == decoded@.len(),
        forall|s: int|
            0 <= s < decoded@.len() ==> (#[trigger] r@[s])@.len() == 2 && r@[s]@[0]@.len() == window
                && r@[s]@[1]@.len() == window,
        forall|s: int, i: int|
            0 <= s < decoded@.len() && 0 <= i < window ==> merges(
                combine,
                time@[s * (2 * window) + i],
                decoded@[s].0@[i],
                #[trigger] r@[s]@[0]@[i],
            ) && merges(combine, time@[s * (2 * window) + window + i], decoded@[s].1@[i], r@[s]@[1]@[i]),
{
    let w2 = 2 * window;
    let sources = decoded.len();
    let tlen = time.len();
    let mut out: Vec<Vec<Vec<T>>> = Vec::with_capacity(sources);
    let mut s: usize = 0;
    let mut base: usize = 0;
    while s < sources
        invariant
            sources == decoded@.len(),
            w2 == 2 * window,
            tlen == time@.len(),
            time@.len() == sources * w2,
            s <= sources,
            base == s * w2,
            out@.len() == s,
            forall|a: T, b: T| #[trigger] combine.requires((a, b)),
            forall|t: int|
                0 <= t < decoded@.len() ==> (#[trigger] decoded@[t]).0@.len() == window
                    && decoded@[t].1@.len() == window,
            forall|t: int|
                0 <= t < s ==> (#[trigger] out@[t])@.len() == 2 && out@[t]@[0]@.len() == window
                    && out@[t]@[1]@.len() == window,
            forall|t: int, i: int|
                0 <= t < s && 0 <= i < window ==> merges(
                    combine,
                    time@[t * w2 + i],
                    decoded@[t].0@[i],
                    #[trigger] out@[t]@[0]@[i],
                ) && merges(combine, time@[t * w2 + window + i], decoded@[t].1@[i], out@[t]@[1]@[i]),
        decreases sources - s,
    {
        assert(base + w2 <= time@.len()) by (nonlinear_arith)
            requires
                base == s * w2,
                s < sources,
                time@.len() == sources * w2,
        ;
        let (freq_left, freq_right) = (&decoded[s].0, &decoded[s].1);
        let mut left: Vec<T> = Vec::with_capacity(window);
        let mut right: Vec<T> = Vec::with_capacity(window);
        let mut i: usize = 0;
        while i < window
            invariant
                i <= window,
                base + w2 <= time@.len(),
                w2 == 2 * window,
                freq_left@ == decoded@[s as int].0@,
                freq_right@ == decoded@[s as int].1@,
                freq_left@.len() == window,
                freq_right@.len() == window,
                left@.len() == i,
                right@.len() == i,
                forall|a: T, b: T| #[trigger] combine.requires((a, b)),
                forall|j: int|
                    0 <= j < i ==> merges(combine, time@[base + j], freq_left@[j], #[trigger] left@[j])
                        && merges(combine, time@[base + window + j], freq_right@[j], right@[j]),
            decreases window - i,
        {
            left.push(combine(time[base + i], freq_left[i]));
            right.push(combine(time[base + window + i], freq_right[i]));
            i += 1;
        }
        let mut planes: Vec<Vec<T>> = Vec::with_capacity(2);
        planes.push(left);
        planes.push(right);
        out.push(planes);
        assert((s + 1) * w2 == base + w2) by (nonlinear_arith)
            requires
                base == s * w2,
        ;
        s += 1;
        base += w2;
    }
    assert forall|t: int, i: int| 0 <= t < decoded@.len() && 0 <= i < window implies merges(
        combine,
        time@[t * (2 * window) + i],
        decoded@[t].0@[i],
        #[trigger] out@[t]@[0]@[i],
    ) && merges(combine, time@[t * (2 * window) + window + i], decoded@[t].1@[i], out@[t]@[1]@[i]) by {
        assert(t * (2 * window) == t * w2);
    }
    out
}

/// The engine's process-wide state: the model it was loaded with. It is
/// loaded at most once; a later load keeps the first model.
pub struct EngineState {
    loaded: Option<ModelManifest>,
}

impl EngineState {
    /// The loaded model's manifest, if any.
    pub closed spec fn spec_loaded(&self) -> Option<ModelManifest> {
        self.loaded
    }

    /// An engine with no model loaded.
    pub fn new() -> (r: EngineState)
        ensures
            r.spec_loaded() is None,
    {
        EngineState { loaded: None }
    }

    /// Whether a model is loaded.
    pub fn is_loaded(&self) -> (r: bool)
        ensures
            r == self.spec_loaded() is Some,
    {
        self.loaded.is_some()
    }
}

/// Loads a model into the engine once: the first model stays for the
/// life of the state, so no run can observe two different models.
pub fn preload(engine: &mut EngineState, h: ModelHandle) -> (r: Result<(), StemError>)
    ensures
        r is Ok,
        final(engine).spec_loaded() == match old(engine).spec_loaded() {
            Some(m) => Some(m),
            None => Some(h.manifest),
        },
{
    if engine.loaded.is_none() {
        engine.loaded = Some(h.manifest);
    }
    Ok(())
}

/// The manifest of the loaded model.
pub fn manifest(engine: &EngineState) -> (r: &ModelManifest)
    requires
        engine.spec_loaded() is Some,
    ensures
        Some(*r) == engine.spec_loaded(),
{
    match &engine.loaded {
        Some(m) => m,
        None => vstd::pervasive::unreached(),
    }
}

} // verus!
