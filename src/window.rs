use vstd::prelude::*;
use crate::error::StemError;
use crate::stems::{folds_to, lemma_folds_empty, lemma_folds_step};
use vstd::arithmetic::div_mod::{lemma_fundamental_div_mod, lemma_fundamental_div_mod_converse};

verus! {

/// Number of windows a run over `n` samples takes when it advances by `hop`.
pub open spec fn window_count(n: nat, hop: nat) -> nat
    recommends
        hop > 0,
{
    ((n + hop - 1) as nat / hop) as nat
}

/// Start of the region of the output that window `k` writes.
pub open spec fn region_start(k: nat, hop: nat) -> nat {
    k * hop
}

/// End (exclusive) of the region of the output that window `k` writes.
pub open spec fn region_end(k: nat, n: nat, hop: nat) -> nat {
    if (k + 1) * hop <= n {
        (k + 1) * hop
    } else {
        n
    }
}

/// Whether window `k` writes position `i`.
pub open spec fn region_contains(k: nat, n: nat, hop: nat, i: int) -> bool {
    region_start(k, hop) <= i < region_end(k, n, hop)
}

/// A window count `c` is exact for `n` samples when the last window starts
/// inside the signal and the next start would lie past it.
proof fn lemma_count_exact(n: nat, hop: nat, c: nat)
    requires
        hop > 0,
        c >= 1,
        (c - 1) * hop < n,
        n <= c * hop,
    ensures
        window_count(n, hop) == c,
{
    let x = (n + hop - 1) as int;
    let r = x - c * hop;
    assert(c * hop == (c - 1) * hop + hop) by (nonlinear_arith)
        requires c >= 1;
    lemma_fundamental_div_mod_converse(x, (hop as int), (c as int), r);
}

/// Windows started at multiples of `hop`, each writing at most `hop` samples
/// and the last one cut at `n`, write every position of `[0, n)` exactly
/// once: position `i` is written by window `i / hop` and by no other.
pub proof fn lemma_partition_coverage(n: nat, window_length: nat, hop: nat)
    requires
        0 < hop <= window_length,
    ensures
        forall|i: int| 0 <= i < n ==> #[trigger] (i / (hop as int)) < window_count(n, hop),
        forall|k: nat, i: int|
            0 <= i < n && k < window_count(n, hop) ==> (#[trigger] region_contains(k, n, hop, i)
                <==> k == i / (hop as int)),
        forall|k: nat| k < window_count(n, hop) ==> #[trigger] region_start(k, hop) < n,
{
    let c = window_count(n, hop);
    let x = (n + hop - 1) as int;
    lemma_fundamental_div_mod(x, (hop as int));
    assert(c * hop >= n) by (nonlinear_arith)
        requires
            x == hop * (x / (hop as int)) + (x % (hop as int)),
            0 <= x % (hop as int) < hop,
            c == x / (hop as int),
            x == n + hop - 1,
    ;
    assert forall|i: int| 0 <= i < n implies #[trigger] (i / (hop as int)) < c by {
        lemma_fundamental_div_mod(i, (hop as int));
        let q = i / (hop as int);
        assert(q < c) by (nonlinear_arith)
            requires
                i == hop * q + (i % (hop as int)),
                0 <= i % (hop as int),
                i < n,
                n <= c * hop,
                hop > 0,
        ;
    }
    assert forall|k: nat, i: int| 0 <= i < n && k < c implies (#[trigger] region_contains(k, n, hop, i)
        <==> k == i / (hop as int)) by {
        lemma_fundamental_div_mod(i, (hop as int));
        if region_contains(k, n, hop, i) {
            assert((k + 1) * hop == k * hop + hop) by (nonlinear_arith);
            lemma_fundamental_div_mod_converse(i, (hop as int), (k as int), i - k * hop);
        }
        if k == i / (hop as int) {
            assert((k + 1) * hop == k * hop + hop) by (nonlinear_arith);
            assert(k * hop == hop * k) by (nonlinear_arith);
        }
    }
    assert forall|k: nat| k < c implies #[trigger] region_start(k, hop) < n by {
        assert(k * hop < n) by (nonlinear_arith)
            requires
                k < c,
                x == hop * (x / (hop as int)) + (x % (hop as int)),
                0 <= x % (hop as int) < hop,
                c == x / (hop as int),
                x == n + hop - 1,
        ;
    }
}

/// The window of `window` samples starting at `pos`, split into left and
/// right channels and padded with `silence` past the end of the signal.
pub fn slice_window<T: Copy>(signal: &Vec<(T, T)>, pos: usize, window: usize, silence: T) -> (r: (
    Vec<T>,
    Vec<T>,
))
    ensures
        r.0@.len() == window,
        r.1@.len() == window,
        forall|i: int|
            0 <= i < window ==> #[trigger] r.0@[i] == (if pos + i < signal@.len() {
                signal@[pos + i].0
            } else {
                silence
            }),
        forall|i: int|
            0 <= i < window ==> #[trigger] r.1@[i] == (if pos + i < signal@.len() {
                signal@[pos + i].1
            } else {
                silence
            }),
{
    let mut left: Vec<T> = Vec::with_capacity(window);
    let mut right: Vec<T> = Vec::with_capacity(window);
    let n = signal.len();
    let mut i: usize = 0;
    while i < window
        invariant
            i <= window,
            n == signal@.len(),
            left@.len() == i,
            right@.len() == i,
            forall|j: int|
                0 <= j < i ==> #[trigger] left@[j] == (if pos + j < n {
                    signal@[pos + j].0
                } else {
                    silence
                }),
            forall|j: int|
                0 <= j < i ==> #[trigger] right@[j] == (if pos + j < n {
                    signal@[pos + j].1
                } else {
                    silence
                }),
        decreases window - i,
    {
        if pos < n && i < n - pos {
            let f = signal[pos + i];
            left.push(f.0);
            right.push(f.1);
        } else {
            left.push(silence);
            right.push(silence);
        }
        i += 1;
    }
    (left, right)
}

/// The engine sources `0 .. count` other than `skip`, in order.
pub open spec fn sources_except(count: nat, skip: int) -> Seq<int>
    decreases count,
{
    if count == 0 {
        seq![]
    } else if count - 1 == skip {
        sources_except((count - 1) as nat, skip)
    } else {
        sources_except((count - 1) as nat, skip).push(count - 1)
    }
}

/// The samples of one channel at frame `i` of the picked buffers, in order.
pub open spec fn source_column<T>(buffers: Seq<Seq<(T, T)>>, picks: Seq<int>, i: int, right: bool) -> Seq<T> {
    Seq::new(
        picks.len(),
        |k: int|
            if right {
                buffers[picks[k]][i].1
            } else {
                buffers[picks[k]][i].0
            },
    )
}

/// The only sample rate the supported models run at.
pub const SUPPORTED_SAMPLE_RATE: u32 = 44100;

/// Phase of a separation run.
#[derive(Debug, Clone, Copy, PartialEq, Eq, Structural)]
pub enum RunState {
    /// Windows remain to be processed.
    Running,
    /// Every position of the signal has been written.
    Finished,
    /// A window was rejected; the run is over and nothing more is written.
    Failed,
}

/// The engine's combined output for one window, as `[stem][channel][sample]`.
pub open spec fn output_view<T>(out: Vec<Vec<Vec<T>>>) -> Seq<Seq<Seq<T>>> {
    Seq::new(out@.len(), |s: int| Seq::new(out@[s]@.len(), |c: int| out@[s]@[c]@))
}

/// A window output holds `stems` stems of two channels of `window` samples each.
pub open spec fn well_shaped<T>(out: Seq<Seq<Seq<T>>>, stems: nat, window: nat) -> bool {
    &&& out.len() == stems
    &&& forall|s: int|
        0 <= s < stems ==> (#[trigger] out[s]).len() == 2 && out[s][0].len() == window
            && out[s][1].len() == window
}

/// Whether a window output is accepted by a run that has established
/// `established` stems (zero before the first window).
pub open spec fn output_accepted<T>(out: Seq<Seq<Seq<T>>>, established: nat, window: nat) -> bool {
    &&& out.len() > 0
    &&& established == 0 || out.len() == established
    &&& well_shaped(out, out.len(), window)
}

/// The stereo frame at position `i` of stem `s` once every window of
/// `history` has been committed: the window that covers `i` is `i / hop`,
/// and `i` lies `i % hop` samples into it.
pub open spec fn stitched<T>(history: Seq<Seq<Seq<Seq<T>>>>, hop: nat, s: int, i: int) -> (T, T) {
    let k = i / (hop as int);
    let j = i % (hop as int);
    (history[k][s][0][j], history[k][s][1][j])
}

/// A separation run over a signal of `len` stereo frames: it hands out
/// windows, accepts the engine's output for each, and copies the first `hop`
/// frames of every stem into that stem's accumulator.
pub struct WindowRun<T> {
    len: usize,
    window: usize,
    hop: usize,
    silence: T,
    pos: usize,
    done: usize,
    stems: usize,
    acc: Vec<Vec<(T, T)>>,
    state: RunState,
    history: Ghost<Seq<Seq<Seq<Seq<T>>>>>,
}

impl<T: Copy> WindowRun<T> {
    /// Number of stereo frames in the signal.
    pub closed spec fn spec_len(&self) -> nat {
        self.len as nat
    }

    /// Length of each window handed to the engine.
    pub closed spec fn spec_window(&self) -> nat {
        self.window as nat
    }

    /// Stride between windows, and the number of frames each window commits.
    pub closed spec fn spec_hop(&self) -> nat {
        self.hop as nat
    }

    /// Value that pads windows past the signal's end and fills unwritten frames.
    pub closed spec fn spec_silence(&self) -> T {
        self.silence
    }

    /// Start of the current window (of the last one once finished).
    pub closed spec fn spec_pos(&self) -> nat {
        self.pos as nat
    }

    /// Number of windows committed.
    pub closed spec fn spec_done(&self) -> nat {
        self.done as nat
    }

    /// Stem count established by the first window; zero before it.
    pub closed spec fn spec_stem_count(&self) -> nat {
        self.stems as nat
    }

    /// One accumulator per stem.
    pub closed spec fn spec_buffers(&self) -> Seq<Seq<(T, T)>> {
        Seq::new(self.acc@.len(), |s: int| self.acc@[s]@)
    }

    pub closed spec fn spec_state(&self) -> RunState {
        self.state
    }

    /// The outputs of the committed windows, in order.
    pub closed spec fn spec_history(&self) -> Seq<Seq<Seq<Seq<T>>>> {
        self.history@
    }

    /// End of the prefix of the signal that committed windows have written.
    pub open spec fn spec_covered(&self) -> nat {
        if self.spec_state() == RunState::Finished {
            self.spec_len()
        } else {
            self.spec_pos()
        }
    }

    /// The run's invariant: geometry, shapes, and the contents of every
    /// accumulator in terms of the committed outputs.
    pub open spec fn wf(&self) -> bool {
        let n = self.spec_len();
        let hop = self.spec_hop();
        let w = self.spec_window();
        let done = self.spec_done();
        let stems = self.spec_stem_count();
        let buffers = self.spec_buffers();
        let history = self.spec_history();
        &&& 0 < hop <= w
        &&& n > 0
        &&& history.len() == done
        &&& (done == 0 <==> stems == 0)
        &&& buffers.len() == stems
        &&& forall|s: int| 0 <= s < stems ==> (#[trigger] buffers[s]).len() == n
        &&& forall|k: int| 0 <= k < done ==> well_shaped(#[trigger] history[k], stems, w)
        &&& if self.spec_state() == RunState::Finished {
            &&& done >= 1
            &&& self.spec_pos() == (done - 1) * hop
            &&& self.spec_pos() < n <= self.spec_pos() + hop
        } else {
            &&& self.spec_pos() == done * hop
            &&& self.spec_pos() < n
        }
        &&& forall|s: int, i: int|
            0 <= s < stems && 0 <= i < n ==> #[trigger] buffers[s][i] == (if i < self.spec_covered() {
                stitched(history, hop, s, i)
            } else {
                (self.spec_silence(), self.spec_silence())
            })
    }

    /// Starts a run over `len` frames, after checking the configuration
    /// before any inference: the sample rate, a non-empty signal, and
    /// `0 < hop <= window`.
    pub fn new(sample_rate: u32, len: usize, window: usize, hop: usize, silence: T) -> (r: Result<
        Self,
        StemError,
    >)
        ensures
            r is Ok <==> sample_rate == SUPPORTED_SAMPLE_RATE && len > 0 && 0 < hop <= window,
            sample_rate != SUPPORTED_SAMPLE_RATE ==> r == Err::<Self, StemError>(
                StemError::UnsupportedSampleRate {
                    expected_rate: SUPPORTED_SAMPLE_RATE,
                    actual_rate: sample_rate,
                },
            ),
            sample_rate == SUPPORTED_SAMPLE_RATE && len == 0 ==> r == Err::<Self, StemError>(
                StemError::EmptyInput,
            ),
            sample_rate == SUPPORTED_SAMPLE_RATE && len > 0 && !(0 < hop <= window) ==> r == Err::<
                Self,
                StemError,
            >(StemError::BadWindowHop { window, hop }),
            r matches Ok(run) ==> {
                &&& run.wf()
                &&& run.spec_state() == RunState::Running
                &&& run.spec_len() == len
                &&& run.spec_window() == window
                &&& run.spec_hop() == hop
                &&& run.spec_silence() == silence
                &&& run.spec_pos() == 0
                &&& run.spec_done() == 0
                &&& run.spec_stem_count() == 0
            },
    {
        if sample_rate != SUPPORTED_SAMPLE_RATE {
            return Err(
                StemError::UnsupportedSampleRate {
                    expected_rate: SUPPORTED_SAMPLE_RATE,
                    actual_rate: sample_rate,
                },
            );
        }
        if len == 0 {
            return Err(StemError::EmptyInput);
        }
        if !(window > 0 && hop > 0 && hop <= window) {
            return Err(StemError::BadWindowHop { window, hop });
        }
        let run = WindowRun {
            len,
            window,
            hop,
            silence,
            pos: 0,
            done: 0,
            stems: 0,
            acc: Vec::new(),
            state: RunState::Running,
            history: Ghost(Seq::empty()),
        };
        Ok(run)
    }

    /// Number of frames in the signal.
    pub fn len(&self) -> (r: usize)
        ensures
            r == self.spec_len(),
    {
        self.len
    }

    /// The accumulator of engine stem `s`.
    pub fn buffer(&self, s: usize) -> (r: &Vec<(T, T)>)
        requires
            self.wf(),
            s < self.spec_stem_count(),
        ensures
            r@ == self.spec_buffers()[s as int],
    {
        &self.acc[s]
    }

    /// Mixes every engine source but `skip`, interleaved: each output sample
    /// is `combine` folded over those sources' samples at that position, in
    /// source order, starting from `silence`.
    pub fn mix_sources_except<F: Fn(T, T) -> T>(&self, skip: usize, silence: T, combine: F) -> (r: Vec<
        T,
    >)
        requires
            self.wf(),
            forall|a: T, b: T| #[trigger] combine.requires((a, b)),
        ensures
            r@.len() == 2 * self.spec_len(),
            forall|i: int|
                0 <= i < self.spec_len() ==> folds_to(
                    combine,
                    silence,
                    source_column(
                        self.spec_buffers(),
                        sources_except(self.spec_stem_count(), skip as int),
                        i,
                        false,
                    ),
                    #[trigger] r@[2 * i],
                ) && folds_to(
                    combine,
                    silence,
                    source_column(
                        self.spec_buffers(),
                        sources_except(self.spec_stem_count(), skip as int),
                        i,
                        true,
                    ),
                    r@[2 * i + 1],
                ),
    {
        let n = self.len;
        let ghost bufs = self.spec_buffers();
        let mut out: Vec<T> = Vec::new();
        let mut i: usize = 0;
        while i < n
            invariant
                i <= n,
                out@.len() == 2 * i,
                forall|j: int| 0 <= j < 2 * i ==> out@[j] == silence,
            decreases n - i,
        {
            out.push(silence);
            out.push(silence);
            i += 1;
        }
        assert(out@.len() == out.len());
        assert forall|j: int| 0 <= j < n implies folds_to(
            combine,
            silence,
            source_column(bufs, sources_except(0, skip as int), j, false),
            #[trigger] out@[2 * j],
        ) && folds_to(combine, silence, source_column(bufs, sources_except(0, skip as int), j, true), out@[2 * j + 1]) by {
            lemma_folds_empty(combine, silence, source_column(bufs, sources_except(0, skip as int), j, false));
            lemma_folds_empty(combine, silence, source_column(bufs, sources_except(0, skip as int), j, true));
        }
        let mut st: usize = 0;
        while st < self.stems
            invariant
                self.wf(),
                bufs == self.spec_buffers(),
                n == self.len,
                2 * n <= usize::MAX,
                st <= self.stems,
                out@.len() == 2 * n,
                forall|a: T, b: T| #[trigger] combine.requires((a, b)),
                forall|j: int|
                    0 <= j < n ==> folds_to(
                        combine,
                        silence,
                        source_column(bufs, sources_except(st as nat, skip as int), j, false),
                        #[trigger] out@[2 * j],
                    ) && folds_to(
                        combine,
                        silence,
                        source_column(bufs, sources_except(st as nat, skip as int), j, true),
                        out@[2 * j + 1],
                    ),
            decreases self.stems - st,
        {
            if st != skip {
                let data = &self.acc[st];
                assert(data@ == bufs[st as int]);
                let ghost before = out@;
                let ghost picks = sources_except((st + 1) as nat, skip as int);
                assert(picks == sources_except(st as nat, skip as int).push(st as int));
                let mut i: usize = 0;
                while i < n
                    invariant
                        self.wf(),
                        bufs == self.spec_buffers(),
                        st < self.stems,
                        data@ == bufs[st as int],
                        data@.len() == n,
                        2 * n <= usize::MAX,
                        i <= n,
                        out@.len() == 2 * n,
                        before.len() == 2 * n,
                        picks == sources_except(st as nat, skip as int).push(st as int),
                        forall|a: T, b: T| #[trigger] combine.requires((a, b)),
                        forall|j: int|
                            0 <= j < n ==> folds_to(
                                combine,
                                silence,
                                source_column(bufs, sources_except(st as nat, skip as int), j, false),
                                #[trigger] before[2 * j],
                            ) && folds_to(
                                combine,
                                silence,
                                source_column(bufs, sources_except(st as nat, skip as int), j, true),
                                before[2 * j + 1],
                            ),
                        forall|j: int|
                            i <= j < n ==> #[trigger] out@[2 * j] == before[2 * j] && out@[2 * j + 1]
                                == before[2 * j + 1],
                        forall|j: int|
                            0 <= j < i ==> folds_to(
                                combine,
                                silence,
                                source_column(bufs, picks, j, false),
                                #[trigger] out@[2 * j],
                            ) && folds_to(combine, silence, source_column(bufs, picks, j, true), out@[2 * j + 1]),
                    decreases n - i,
                {
                    let frame = data[i];
                    let prev_left = out[2 * i];
                    let prev_right = out[2 * i + 1];
                    let left = combine(prev_left, frame.0);
                    let right = combine(prev_right, frame.1);
                    proof {
                        let ji = i as int;
                        let cl = source_column(bufs, picks, ji, false);
                        let cr = source_column(bufs, picks, ji, true);
                        assert(cl.drop_last() =~= source_column(bufs, sources_except(st as nat, skip as int), ji, false));
                        assert(cr.drop_last() =~= source_column(bufs, sources_except(st as nat, skip as int), ji, true));
                        assert(cl.last() == frame.0);
                        assert(cr.last() == frame.1);
                        assert(prev_left == before[2 * ji]);
                        assert(prev_right == before[2 * ji + 1]);
                        lemma_folds_step(combine, silence, cl, prev_left, left);
                        lemma_folds_step(combine, silence, cr, prev_right, right);
                    }
                    let ghost mid = out@;
                    out.set(2 * i, left);
                    out.set(2 * i + 1, right);
                    proof {
                        let ji = i as int;
                        assert forall|j: int| 0 <= j < ji + 1 implies folds_to(
                            combine,
                            silence,
                            source_column(bufs, picks, j, false),
                            #[trigger] out@[2 * j],
                        ) && folds_to(combine, silence, source_column(bufs, picks, j, true), out@[2 * j + 1]) by {
                            if j < ji {
                                assert(out@[2 * j] == mid[2 * j]);
                                assert(out@[2 * j + 1] == mid[2 * j + 1]);
                            }
                        }
                        assert forall|j: int| ji + 1 <= j < n implies #[trigger] out@[2 * j] == before[2
                            * j] && out@[2 * j + 1] == before[2 * j + 1] by {
                            assert(out@[2 * j] == mid[2 * j]);
                            assert(out@[2 * j + 1] == mid[2 * j + 1]);
                        }
                    }
                    i += 1;
                }
            } else {
                assert(sources_except((st + 1) as nat, skip as int) == sources_except(st as nat, skip as int));
            }
            st += 1;
        }
        out
    }

    /// Phase of the run.
    pub fn state(&self) -> (r: RunState)
        ensures
            r == self.spec_state(),
    {
        self.state
    }

    /// Start of the current window.
    pub fn position(&self) -> (r: usize)
        ensures
            r == self.spec_pos(),
    {
        self.pos
    }

    /// Number of windows committed so far.
    pub fn completed_windows(&self) -> (r: usize)
        ensures
            r == self.spec_done(),
    {
        self.done
    }

    /// Stem count established by the first window, zero before it.
    pub fn stem_count(&self) -> (r: usize)
        ensures
            r == self.spec_stem_count(),
    {
        self.stems
    }

    /// Number of windows the whole run takes.
    pub fn total_windows(&self) -> (r: usize)
        requires
            self.wf(),
        ensures
            r == window_count(self.spec_len(), self.spec_hop()),
    {
        let q = self.len / self.hop;
        let rem = self.len % self.hop;
        proof {
            let n = self.len as int;
            let h = self.hop as int;
            lemma_fundamental_div_mod(n, h);
            if rem == 0 {
                assert(q * h == h * q) by (nonlinear_arith);
                lemma_fundamental_div_mod_converse(n + h - 1, h, q as int, h - 1);
            } else {
                assert((q + 1) * h == q * h + h) by (nonlinear_arith);
                assert(q * h == h * q) by (nonlinear_arith);
                lemma_fundamental_div_mod_converse(n + h - 1, h, q + 1, rem - 1);
            }
        }
        if rem == 0 {
            q
        } else {
            assert(q < self.len) by (nonlinear_arith)
                requires
                    self.len as int == self.hop * q + rem,
                    rem > 0,
                    self.hop > 0,
            ;
            q + 1
        }
    }

    /// The current window, split into channels and padded with silence past
    /// the end of `signal`.
    pub fn window_input(&self, signal: &Vec<(T, T)>) -> (r: (Vec<T>, Vec<T>))
        requires
            self.wf(),
            signal@.len() == self.spec_len(),
        ensures
            r.0@.len() == self.spec_window(),
            r.1@.len() == self.spec_window(),
            forall|i: int|
                0 <= i < self.spec_window() ==> #[trigger] r.0@[i] == (if self.spec_pos() + i
                    < self.spec_len() {
                    signal@[self.spec_pos() + i].0
                } else {
                    self.spec_silence()
                }),
            forall|i: int|
                0 <= i < self.spec_window() ==> #[trigger] r.1@[i] == (if self.spec_pos() + i
                    < self.spec_len() {
                    signal@[self.spec_pos() + i].1
                } else {
                    self.spec_silence()
                }),
    {
        slice_window(signal, self.pos, self.window, self.silence)
    }

    /// Accepts the engine's combined output for the current window, shaped
    /// `[stem][channel][sample]`, and copies its first `hop` frames (fewer at
    /// the end of the signal) into the accumulators at the current position.
    /// The first window establishes the stem count; every later window must
    /// report the same one. A rejected output fails the run and commits
    /// nothing.
    pub fn commit(&mut self, out: &Vec<Vec<Vec<T>>>) -> (r: Result<(), StemError>)
        requires
            old(self).wf(),
            old(self).spec_state() == RunState::Running,
        ensures
            final(self).wf(),
            final(self).spec_len() == old(self).spec_len(),
            final(self).spec_window() == old(self).spec_window(),
            final(self).spec_hop() == old(self).spec_hop(),
            final(self).spec_silence() == old(self).spec_silence(),
            r is Ok <==> output_accepted(
                output_view(*out),
                old(self).spec_stem_count(),
                old(self).spec_window(),
            ),
            out@.len() == 0 ==> r == Err::<(), StemError>(StemError::NoStems),
            out@.len() > 0 && old(self).spec_stem_count() > 0 && out@.len()
                != old(self).spec_stem_count() ==> r == Err::<(), StemError>(
                StemError::StemCountChanged {
                    established: old(self).spec_stem_count() as usize,
                    reported: out@.len() as usize,
                },
            ),
            r is Ok ==> {
                &&& final(self).spec_history() == old(self).spec_history().push(output_view(*out))
                &&& final(self).spec_done() == old(self).spec_done() + 1
                &&& final(self).spec_stem_count() == out@.len()
                &&& final(self).spec_state() == if old(self).spec_pos() + old(self).spec_hop()
                    >= old(self).spec_len() {
                    RunState::Finished
                } else {
                    RunState::Running
                }
                &&& final(self).spec_pos() == if old(self).spec_pos() + old(self).spec_hop()
                    >= old(self).spec_len() {
                    old(self).spec_pos()
                } else {
                    old(self).spec_pos() + old(self).spec_hop()
                }
            },
            r is Err ==> {
                &&& final(self).spec_state() == RunState::Failed
                &&& final(self).spec_history() == old(self).spec_history()
                &&& final(self).spec_buffers() == old(self).spec_buffers()
                &&& final(self).spec_done() == old(self).spec_done()
                &&& final(self).spec_stem_count() == old(self).spec_stem_count()
                &&& final(self).spec_pos() == old(self).spec_pos()
            },
    {
        let ghost out_v = output_view(*out);
        let count = out.len();
        if count == 0 {
            self.state = RunState::Failed;
            return Err(StemError::NoStems);
        }
        if self.stems != 0 && count != self.stems {
            self.state = RunState::Failed;
            return Err(StemError::StemCountChanged { established: self.stems, reported: count });
        }
        match check_output_shape(out, self.window) {
            Err(e) => {
                self.state = RunState::Failed;
                return Err(e);
            },
            Ok(()) => {},
        }
        assert(well_shaped(out_v, count as nat, self.window as nat));
        if self.stems == 0 {
            self.acc = silent_buffers(count, self.len, self.silence);
            self.stems = count;
        }
        let ghost before = self.spec_buffers();
        let ghost pos = self.pos as int;
        assert forall|t: int, i: int|
            0 <= t < count && 0 <= i < self.len implies #[trigger] before[t][i] == (if i < pos {
            stitched(self.history@, self.hop as nat, t, i)
        } else {
            (self.silence, self.silence)
        }) by {
            assert(before[t] == self.acc@[t]@);
            if old(self).stems != 0 {
                assert(old(self).spec_buffers()[t] == old(self).acc@[t]@);
            }
        }
        let mut acc: Vec<Vec<(T, T)>> = Vec::new();
        std::mem::swap(&mut acc, &mut self.acc);
        assert(acc@.len() == count);
        let copy_len = if self.hop < self.len - self.pos {
            self.hop
        } else {
            self.len - self.pos
        };
        let mut s: usize = 0;
        while s < count
            invariant
                s <= count,
                count == out@.len() == self.stems,
                out_v == output_view(*out),
                well_shaped(out_v, count as nat, self.window as nat),
                pos == self.pos,
                copy_len <= self.hop <= self.window,
                self.pos + copy_len <= self.len,
                before.len() == count,
                acc@.len() == count,
                forall|t: int| 0 <= t < count ==> (#[trigger] before[t]).len() == self.len,
                forall|t: int| s <= t < count ==> (#[trigger] acc@[t])@ == before[t],
                forall|t: int, i: int|
                    0 <= t < s && 0 <= i < self.len ==> #[trigger] acc@[t]@[i] == (if pos <= i
                        < pos + copy_len {
                        (out_v[t][0][i - pos], out_v[t][1][i - pos])
                    } else {
                        before[t][i]
                    }),
                forall|t: int| 0 <= t < s ==> (#[trigger] acc@[t])@.len() == self.len,
            decreases count - s,
        {
            assert(out_v[s as int].len() == 2);
            assert(out@[s as int]@.len() == 2);
            assert(out_v[s as int][0] == out@[s as int]@[0]@);
            assert(out_v[s as int][1] == out@[s as int]@[1]@);
            let mut i: usize = 0;
            while i < copy_len
                invariant
                    s < count,
                    out@[s as int]@.len() == 2,
                    out@[s as int]@[0]@.len() == self.window,
                    out@[s as int]@[1]@.len() == self.window,
                    out_v[s as int][0] == out@[s as int]@[0]@,
                    out_v[s as int][1] == out@[s as int]@[1]@,
                    i <= copy_len,
                    count == out@.len() == self.stems,
                    out_v == output_view(*out),
                    well_shaped(out_v, count as nat, self.window as nat),
                    pos == self.pos,
                    copy_len <= self.hop <= self.window,
                    self.pos + copy_len <= self.len,
                    before.len() == count,
                    acc@.len() == count,
                    forall|t: int| 0 <= t < count ==> (#[trigger] before[t]).len() == self.len,
                    forall|t: int| s < t < count ==> (#[trigger] acc@[t])@ == before[t],
                    forall|t: int, j: int|
                        0 <= t < s && 0 <= j < self.len ==> #[trigger] acc@[t]@[j] == (if pos
                            <= j < pos + copy_len {
                            (out_v[t][0][j - pos], out_v[t][1][j - pos])
                        } else {
                            before[t][j]
                        }),
                    forall|t: int| 0 <= t < s ==> (#[trigger] acc@[t])@.len() == self.len,
                    acc@[s as int]@.len() == self.len,
                    forall|j: int|
                        0 <= j < self.len ==> #[trigger] acc@[s as int]@[j] == (if pos <= j
                            < pos + i {
                            (out_v[s as int][0][j - pos], out_v[s as int][1][j - pos])
                        } else {
                            before[s as int][j]
                        }),
                decreases copy_len - i,
            {
                let frame = (out[s][0][i], out[s][1][i]);
                acc[s].set(self.pos + i, frame);
                i += 1;
            }
            s += 1;
        }
        self.acc = acc;
        let ghost old_history = self.history@;
        self.history = Ghost(self.history@.push(out_v));
        proof {
            let after = self.spec_buffers();
            assert forall|t: int, i: int|
                0 <= t < count && 0 <= i < self.len implies #[trigger] after[t][i] == (if pos <= i
                < pos + copy_len {
                (out_v[t][0][i - pos], out_v[t][1][i - pos])
            } else {
                before[t][i]
            }) by {
                assert(after[t] == self.acc@[t]@);
            }
            assert(self.pos == self.done * self.hop);
            assert(old_history.len() == self.done);
            assert(well_shaped(out_v, count as nat, self.window as nat));
            assert(self.pos + copy_len <= self.len);
            assert(after.len() == count);
            assert(before.len() == count);
            lemma_commit_contents(
                old_history,
                out_v,
                before,
                after,
                self.len as nat,
                self.hop as nat,
                self.done as nat,
                pos as nat,
                copy_len as nat,
                count as nat,
                self.window as nat,
                self.silence,
            );
        }
        assert(self.done <= self.pos) by (nonlinear_arith)
            requires
                self.pos == self.done * self.hop,
                self.hop > 0,
        ;
        let ghost done = self.done as nat;
        self.done = self.done + 1;
        if self.hop >= self.len - self.pos {
            self.state = RunState::Finished;
        } else {
            self.pos = self.pos + self.hop;
            assert((done + 1) * self.hop == done * self.hop + self.hop) by (nonlinear_arith);
        }
        proof {
            assert forall|k: int| 0 <= k < self.done implies well_shaped(
                #[trigger] self.history@[k],
                self.stems as nat,
                self.window as nat,
            ) by {
                if k < done {
                    assert(self.history@[k] == old(self).history@[k]);
                }
            }
            assert forall|t: int| 0 <= t < self.stems implies (#[trigger] self.spec_buffers()[t]).len()
                == self.len by {
                assert(self.spec_buffers()[t] == self.acc@[t]@);
            }
            assert forall|t: int, i: int|
                0 <= t < self.stems && 0 <= i < self.len implies #[trigger] self.spec_buffers()[t][i]
                == (if i < self.spec_covered() {
                stitched(self.history@, self.hop as nat, t, i)
            } else {
                (self.silence, self.silence)
            }) by {
                assert(self.spec_buffers()[t] == self.acc@[t]@);
            }
        }
        Ok(())
    }
}

/// Copying window `done`'s first `copy_len` frames to position
/// `done * hop` extends the stitched prefix by those frames.
proof fn lemma_commit_contents<T>(
    history: Seq<Seq<Seq<Seq<T>>>>,
    out: Seq<Seq<Seq<T>>>,
    before: Seq<Seq<(T, T)>>,
    after: Seq<Seq<(T, T)>>,
    n: nat,
    hop: nat,
    done: nat,
    pos: nat,
    copy_len: nat,
    stems: nat,
    window: nat,
    silence: T,
)
    requires
        0 < hop <= window,
        pos == done * hop,
        pos + copy_len <= n,
        copy_len <= hop,
        history.len() == done,
        well_shaped(out, stems, window),
        before.len() == stems,
        after.len() == stems,
        forall|s: int, i: int|
            0 <= s < stems && 0 <= i < n ==> #[trigger] before[s][i] == (if i < pos {
                stitched(history, hop, s, i)
            } else {
                (silence, silence)
            }),
        forall|s: int, i: int|
            0 <= s < stems && 0 <= i < n ==> #[trigger] after[s][i] == (if pos <= i < pos
                + copy_len {
                (out[s][0][i - pos], out[s][1][i - pos])
            } else {
                before[s][i]
            }),
    ensures
        forall|s: int, i: int|
            0 <= s < stems && 0 <= i < n ==> #[trigger] after[s][i] == (if i < pos + copy_len {
                stitched(history.push(out), hop, s, i)
            } else {
                (silence, silence)
            }),
{
    let h = history.push(out);
    assert forall|s: int, i: int| 0 <= s < stems && 0 <= i < n implies #[trigger] after[s][i] == (
    if i < pos + copy_len {
        stitched(h, hop, s, i)
    } else {
        (silence, silence)
    }) by {
        if i < pos {
            lemma_fundamental_div_mod(i, hop as int);
            let q = i / (hop as int);
            assert(q < done) by (nonlinear_arith)
                requires
                    i == hop * q + (i % (hop as int)),
                    0 <= i % (hop as int),
                    i < pos,
                    pos == done * hop,
                    hop > 0,
            ;
            assert(h[q] == history[q]);
        } else if i < pos + copy_len {
            assert(done * hop == hop * done) by (nonlinear_arith);
            lemma_fundamental_div_mod_converse(i, hop as int, done as int, i - pos);
            assert(h[done as int] == out);
        }
    }
}

/// Checks that every stem of a window output holds two channels of `window`
/// samples.
fn check_output_shape<T>(out: &Vec<Vec<Vec<T>>>, window: usize) -> (r: Result<(), StemError>)
    ensures
        r is Ok <==> well_shaped(output_view(*out), out@.len(), window as nat),
{
    let ghost out_v = output_view(*out);
    let count = out.len();
    let mut s: usize = 0;
    while s < count
        invariant
            s <= count,
            count == out@.len(),
            out_v == output_view(*out),
            forall|t: int|
                0 <= t < s ==> (#[trigger] out_v[t]).len() == 2 && out_v[t][0].len() == window
                    && out_v[t][1].len() == window,
        decreases count - s,
    {
        assert(out_v[s as int].len() == out@[s as int]@.len());
        if out[s].len() != 2 {
            return Err(StemError::ChannelCountMismatch { stem: s, channels: out[s].len() });
        }
        assert(out_v[s as int][0] == out@[s as int]@[0]@);
        assert(out_v[s as int][1] == out@[s as int]@[1]@);
        if out[s][0].len() != window {
            return Err(
                StemError::WindowLengthMismatch { expected_len: window, actual_len: out[s][0].len() },
            );
        }
        if out[s][1].len() != window {
            return Err(
                StemError::WindowLengthMismatch { expected_len: window, actual_len: out[s][1].len() },
            );
        }
        s += 1;
    }
    Ok(())
}

/// Every window a run has committed reported the stem count that its first
/// window established.
pub proof fn lemma_stem_count_stable<T: Copy>(run: &WindowRun<T>)
    requires
        run.wf(),
    ensures
        forall|k: int|
            0 <= k < run.spec_done() ==> (#[trigger] run.spec_history()[k]).len()
                == run.spec_stem_count(),
        run.spec_done() > 0 ==> run.spec_stem_count() == run.spec_history()[0].len(),
{
    assert forall|k: int| 0 <= k < run.spec_done() implies (#[trigger] run.spec_history()[k]).len()
        == run.spec_stem_count() by {
        assert(well_shaped(run.spec_history()[k], run.spec_stem_count(), run.spec_window()));
    }
    if run.spec_done() > 0 {
        assert(well_shaped(run.spec_history()[0], run.spec_stem_count(), run.spec_window()));
    }
}

/// A finished run took exactly `window_count(len, hop)` windows, and every
/// position of every stem holds the frame of the window that covers it.
pub proof fn lemma_finished_run_is_stitched<T: Copy>(run: &WindowRun<T>)
    requires
        run.wf(),
        run.spec_state() == RunState::Finished,
    ensures
        run.spec_done() == window_count(run.spec_len(), run.spec_hop()),
        forall|s: int, i: int|
            0 <= s < run.spec_stem_count() && 0 <= i < run.spec_len() ==> #[trigger] run.spec_buffers()[s][i]
                == stitched(run.spec_history(), run.spec_hop(), s, i),
{
    let done = run.spec_done();
    let hop = run.spec_hop();
    assert((done - 1) * hop + hop == done * hop) by (nonlinear_arith)
        requires
            done >= 1,
    ;
    lemma_count_exact(run.spec_len(), hop, done);
}

/// Every committed window output gives back, for every stem, the window
/// that was handed in: the signal's frames from the window's start, then
/// silence past its end.
pub open spec fn echoes_input<T: Copy>(run: &WindowRun<T>, signal: Seq<(T, T)>) -> bool {
    forall|k: int, s: int, j: int|
        0 <= k < run.spec_done() && 0 <= s < run.spec_stem_count() && 0 <= j < run.spec_window()
            ==> {
            let p = k * run.spec_hop() + j;
            &&& (#[trigger] run.spec_history()[k][s][0][j]) == (if p < run.spec_len() {
                signal[p].0
            } else {
                run.spec_silence()
            })
            &&& run.spec_history()[k][s][1][j] == (if p < run.spec_len() {
                signal[p].1
            } else {
                run.spec_silence()
            })
        }
}

/// When the engine echoes each window back for every stem, a finished run
/// holds the input signal, frame for frame, in every stem's accumulator.
pub proof fn lemma_echo_run_reproduces_input<T: Copy>(run: &WindowRun<T>, signal: Seq<(T, T)>)
    requires
        run.wf(),
        run.spec_state() == RunState::Finished,
        signal.len() == run.spec_len(),
        echoes_input(run, signal),
    ensures
        forall|s: int, i: int|
            0 <= s < run.spec_stem_count() && 0 <= i < run.spec_len() ==> #[trigger] run.spec_buffers()[s][i]
                == signal[i],
{
    lemma_finished_run_is_stitched(run);
    lemma_partition_coverage(run.spec_len(), run.spec_window(), run.spec_hop());
    let hop = run.spec_hop() as int;
    assert forall|s: int, i: int|
        0 <= s < run.spec_stem_count() && 0 <= i < run.spec_len() implies #[trigger] run.spec_buffers()[s][i]
        == signal[i] by {
        let k = i / hop;
        let j = i % hop;
        lemma_fundamental_div_mod(i, hop);
        assert(k * hop + j == i) by (nonlinear_arith)
            requires
                i == hop * k + j,
        ;
        assert(k < run.spec_done());
        assert(run.spec_history()[k][s][0][j] == signal[i].0);
        assert(run.spec_history()[k][s][1][j] == signal[i].1);
    }
}

/// `count` accumulators of `len` silent frames each.
fn silent_buffers<T: Copy>(count: usize, len: usize, silence: T) -> (r: Vec<Vec<(T, T)>>)
    ensures
        r@.len() == count,
        forall|s: int| 0 <= s < count ==> (#[trigger] r@[s])@.len() == len,
        forall|s: int, i: int|
            0 <= s < count && 0 <= i < len ==> #[trigger] r@[s]@[i] == (silence, silence),
{
    let mut r: Vec<Vec<(T, T)>> = Vec::with_capacity(count);
    let mut s: usize = 0;
    while s < count
        invariant
            s <= count,
            r@.len() == s,
            forall|t: int| 0 <= t < s ==> (#[trigger] r@[t])@.len() == len,
            forall|t: int, i: int|
                0 <= t < s && 0 <= i < len ==> #[trigger] r@[t]@[i] == (silence, silence),
        decreases count - s,
    {
        let mut buf: Vec<(T, T)> = Vec::with_capacity(len);
        let mut i: usize = 0;
        while i < len
            invariant
                i <= len,
                buf@.len() == i,
                forall|j: int| 0 <= j < i ==> #[trigger] buf@[j] == (silence, silence),
            decreases len - i,
        {
            buf.push((silence, silence));
            i += 1;
        }
        r.push(buf);
        s += 1;
    }
    r
}

} // verus!
