use vstd::prelude::*;
use vstd::arithmetic::div_mod::lemma_fundamental_div_mod;

verus! {

/// Offset of the channel that feeds the right side of a frame: mono feeds
/// both sides, otherwise the second channel does.
pub open spec fn right_channel(channels: nat) -> nat {
    if channels == 1 {
        0
    } else {
        1
    }
}

/// Frame `i` of interleaved audio with `channels` channels, as a stereo pair.
pub open spec fn stereo_frame<T>(samples: Seq<T>, channels: nat, i: int) -> (T, T) {
    (samples[i * channels], samples[i * channels + right_channel(channels)])
}

/// Interleaved audio of any channel count as stereo frames: mono is
/// duplicated to both sides, wider layouts keep their first two channels.
/// A trailing partial frame is dropped.
pub fn to_planar_stereo<T: Copy>(samples: &Vec<T>, channels: u16) -> (r: Vec<(T, T)>)
    ensures
        channels == 0 ==> r@.len() == 0,
        channels > 0 ==> r@.len() == (samples@.len() as int) / (channels as int),
        forall|i: int|
            0 <= i < r@.len() ==> #[trigger] r@[i] == stereo_frame(samples@, channels as nat, i),
{
    let mut out: Vec<(T, T)> = Vec::new();
    if channels == 0 {
        return out;
    }
    let c = channels as usize;
    let frames = samples.len() / c;
    proof {
        lemma_fundamental_div_mod(samples@.len() as int, c as int);
    }
    let right: usize = if c == 1 {
        0
    } else {
        1
    };
    let len = samples.len();
    let mut i: usize = 0;
    let mut base: usize = 0;
    while i < frames
        invariant
            c == channels,
            c > 0,
            len == samples@.len(),
            right == right_channel(c as nat),
            right < c,
            frames == (samples@.len() as int) / (c as int),
            samples@.len() == c * frames + (samples@.len() as int) % (c as int),
            (samples@.len() as int) % (c as int) >= 0,
            i <= frames,
            base == i * c,
            out@.len() == i,
            forall|j: int| 0 <= j < i ==> #[trigger] out@[j] == stereo_frame(samples@, c as nat, j),
        decreases frames - i,
    {
        assert(base + c <= samples@.len()) by (nonlinear_arith)
            requires
                base == i * c,
                i < frames,
                samples@.len() == c * frames + (samples@.len() as int) % (c as int),
                (samples@.len() as int) % (c as int) >= 0,
        ;
        out.push((samples[base], samples[base + right]));
        assert((i + 1) * c == base + c) by (nonlinear_arith)
            requires
                base == i * c,
        ;
        i += 1;
        base += c;
    }
    out
}

} // verus!
