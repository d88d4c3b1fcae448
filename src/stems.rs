use vstd::prelude::*;
use crate::error::StemError;
use crate::text::{is_lower_ascii, lower_of, lowercase, same_text};
use crate::window::{RunState, WindowRun};

verus! {

/// The four stems a separation resolves.
#[derive(Debug, Clone, Copy, PartialEq, Eq, Structural, Hash)]
pub enum Stem {
    Vocals,
    Drums,
    Bass,
    Other,
}

/// The stems in their canonical order.
pub open spec fn all_stems() -> Seq<Stem> {
    seq![Stem::Vocals, Stem::Drums, Stem::Bass, Stem::Other]
}

impl Stem {
    /// Lower-case name of the stem, as models declare it.
    pub open spec fn spec_name(self) -> Seq<char> {
        match self {
            Stem::Vocals => "vocals"@,
            Stem::Drums => "drums"@,
            Stem::Bass => "bass"@,
            Stem::Other => "other"@,
        }
    }

    /// Index the stem takes when a model declares no name for it.
    pub open spec fn spec_fallback_index(self) -> nat {
        match self {
            Stem::Vocals => 0,
            Stem::Drums => 1,
            Stem::Bass => 2,
            Stem::Other => 3,
        }
    }

    /// Position of the stem in `all_stems()`.
    pub open spec fn spec_position(self) -> nat {
        self.spec_fallback_index()
    }

    /// Get all available stems.
    pub fn all() -> (r: &'static [Stem])
        ensures
            r@ == all_stems(),
    {
        &[Stem::Vocals, Stem::Drums, Stem::Bass, Stem::Other]
    }

    /// All stems but the excluded ones, in canonical order: the stems that a
    /// complement mix sums.
    pub fn all_except(exclude: &[Stem]) -> (r: Vec<Stem>)
        ensures
            r@ == stems_except(exclude@),
    {
        let mut r: Vec<Stem> = Vec::new();
        if !holds(exclude, Stem::Vocals) {
            r.push(Stem::Vocals);
        }
        if !holds(exclude, Stem::Drums) {
            r.push(Stem::Drums);
        }
        if !holds(exclude, Stem::Bass) {
            r.push(Stem::Bass);
        }
        if !holds(exclude, Stem::Other) {
            r.push(Stem::Other);
        }
        assert(r@ =~= stems_except(exclude@));
        r
    }

    /// Get the stem's name.
    pub fn name(&self) -> (r: &'static str)
        ensures
            r@ == self.spec_name(),
    {
        match self {
            Stem::Vocals => "vocals",
            Stem::Drums => "drums",
            Stem::Bass => "bass",
            Stem::Other => "other",
        }
    }
}

/// `stem` alone, unless `exclude` holds it.
pub open spec fn kept(exclude: Seq<Stem>, stem: Stem) -> Seq<Stem> {
    if exclude.contains(stem) {
        seq![]
    } else {
        seq![stem]
    }
}

/// The stems of `all_stems()` that `exclude` does not hold, in canonical order.
pub open spec fn stems_except(exclude: Seq<Stem>) -> Seq<Stem> {
    kept(exclude, Stem::Vocals) + kept(exclude, Stem::Drums) + kept(exclude, Stem::Bass) + kept(
        exclude,
        Stem::Other,
    )
}

/// The stems a complement mix sums are the set difference of all stems and
/// the excluded ones, each taken once; excluding nothing selects every stem.
pub proof fn lemma_mix_except_is_complement(exclude: Seq<Stem>)
    ensures
        forall|s: Stem|
            #[trigger] stems_except(exclude).contains(s) <==> all_stems().contains(s)
                && !exclude.contains(s),
        stems_except(exclude).no_duplicates(),
        stems_except(seq![]) == all_stems(),
{
    let r = stems_except(exclude);
    assert forall|s: Stem| #[trigger] r.contains(s) <==> all_stems().contains(s) && !exclude.contains(s) by {
        assert(all_stems()[s.spec_position() as int] == s);
        if !exclude.contains(s) {
            let before = match s {
                Stem::Vocals => kept(exclude, Stem::Vocals).len(),
                Stem::Drums => kept(exclude, Stem::Vocals).len() + kept(exclude, Stem::Drums).len(),
                Stem::Bass => kept(exclude, Stem::Vocals).len() + kept(exclude, Stem::Drums).len()
                    + kept(exclude, Stem::Bass).len(),
                Stem::Other => kept(exclude, Stem::Vocals).len() + kept(exclude, Stem::Drums).len()
                    + kept(exclude, Stem::Bass).len() + kept(exclude, Stem::Other).len(),
            };
            assert(r[before - 1] == s);
        }
    }
    assert(r.no_duplicates());
    let e: Seq<Stem> = seq![];
    assert(stems_except(e) =~= all_stems());
}

/// `i` is the last position of `names` that holds `key`.
pub open spec fn is_last_declared(names: Seq<Seq<char>>, key: Seq<char>, i: int) -> bool {
    &&& 0 <= i < names.len()
    &&& names[i] == key
    &&& forall|j: int| i < j < names.len() ==> names[j] != key
}

/// Whether `names` holds `key` at all.
pub open spec fn declares(names: Seq<Seq<char>>, key: Seq<char>) -> bool {
    exists|i: int| 0 <= i < names.len() && names[i] == key
}

/// The positional index of an undeclared stem, clamped to the stems that exist.
pub open spec fn positional_fallback(fallback: nat, count: nat) -> nat {
    if fallback + 1 <= count {
        fallback
    } else if count == 0 {
        0
    } else {
        (count - 1) as nat
    }
}

/// The engine index a stem named `key` resolves to.
pub open spec fn resolved_index(names: Seq<Seq<char>>, key: Seq<char>, fallback: nat, count: nat) -> int {
    if declares(names, key) {
        choose|i: int| is_last_declared(names, key, i)
    } else {
        positional_fallback(fallback, count) as int
    }
}

/// Case-insensitive table from a model's declared stem names to engine
/// output indices, built once per run.
pub struct StemIndex {
    names: Vec<String>,
    count: usize,
}

impl StemIndex {
    /// The table's names, already in lower case.
    pub closed spec fn spec_names(&self) -> Seq<Seq<char>> {
        Seq::new(self.names@.len(), |i: int| self.names@[i]@)
    }

    /// Number of stems the engine produced.
    pub closed spec fn spec_count(&self) -> nat {
        self.count as nat
    }

    /// The index over a model's declared names, compared in lower case. A
    /// model that declares none gets an empty table, so every stem falls back
    /// to its position, clamped to the stems that exist.
    pub fn new(declared: &Vec<String>, count: usize) -> (r: StemIndex)
        ensures
            r.spec_count() == count,
            r.spec_names() == Seq::new(declared@.len(), |i: int| lower_of(declared@[i]@)),
            declared@.len() == 0 ==> r.spec_names().len() == 0,
            forall|i: int|
                0 <= i < declared@.len() && is_lower_ascii(#[trigger] declared@[i]@) ==> r.spec_names()[i]
                    == declared@[i]@,
    {
        let mut names: Vec<String> = Vec::new();
        let mut i: usize = 0;
        while i < declared.len()
            invariant
                i <= declared@.len(),
                names@.len() == i,
                forall|j: int| 0 <= j < i ==> (#[trigger] names@[j])@ == lower_of(declared@[j]@),
                forall|j: int|
                    0 <= j < i && is_lower_ascii(declared@[j]@) ==> (#[trigger] names@[j])@
                        == declared@[j]@,
            decreases declared@.len() - i,
        {
            names.push(lowercase(declared[i].as_str()));
            i += 1;
        }
        let r = StemIndex { names, count };
        assert(r.spec_names() =~= Seq::new(declared@.len(), |i: int| lower_of(declared@[i]@)));
        r
    }

    /// The index over names that are already in lower case.
    pub fn from_lowercase_names(names: Vec<String>, count: usize) -> (r: StemIndex)
        ensures
            r.spec_count() == count,
            r.spec_names() == Seq::new(names@.len(), |i: int| names@[i]@),
    {
        StemIndex { names, count }
    }

    /// The engine index of the stem named `key`: the last declared position
    /// of that name, or else `fallback` clamped to the stems that exist.
    pub fn resolve(&self, key: &str, fallback: usize) -> (r: usize)
        ensures
            r == resolved_index(self.spec_names(), key@, fallback as nat, self.spec_count()),
    {
        let mut i: usize = self.names.len();
        while i > 0
            invariant
                i <= self.names@.len(),
                forall|j: int| i <= j < self.names@.len() ==> self.spec_names()[j] != key@,
            decreases i,
        {
            i -= 1;
            if same_text(self.names[i].as_str(), key) {
                let ghost names = self.spec_names();
                assert(is_last_declared(names, key@, i as int));
                let ghost c = choose|j: int| is_last_declared(names, key@, j);
                assert(is_last_declared(names, key@, c));
                assert(c == i) by {
                    if c < i {
                        assert(names[i as int] != key@);
                    } else if c > i {
                        assert(names[c] != key@);
                    }
                }
                return i;
            }
        }
        if fallback < self.count {
            fallback
        } else if self.count == 0 {
            0
        } else {
            self.count - 1
        }
    }
}

/// `partials` are the running results of folding `combine` over `xs` from
/// `init`: it starts at `init` and each step combines the previous result
/// with the next element.
pub open spec fn fold_steps<T, F: Fn(T, T) -> T>(combine: F, init: T, xs: Seq<T>, partials: Seq<T>) -> bool {
    &&& partials.len() == xs.len() + 1
    &&& partials[0] == init
    &&& forall|k: int|
        0 <= k < xs.len() ==> #[trigger] combine.ensures((partials[k], xs[k]), partials[k + 1])
}

/// `r` is a result of folding `combine` over `xs`, left to right, from `init`.
pub open spec fn folds_to<T, F: Fn(T, T) -> T>(combine: F, init: T, xs: Seq<T>, r: T) -> bool {
    exists|partials: Seq<T>| #[trigger] fold_steps(combine, init, xs, partials) && partials.last() == r
}

/// Folding nothing gives the starting value.
pub(crate) proof fn lemma_folds_empty<T, F: Fn(T, T) -> T>(combine: F, init: T, xs: Seq<T>)
    requires
        xs.len() == 0,
    ensures
        folds_to(combine, init, xs, init),
{
    assert(fold_steps(combine, init, xs, seq![init]));
}

/// One more step of a fold.
pub(crate) proof fn lemma_folds_step<T, F: Fn(T, T) -> T>(combine: F, init: T, xs: Seq<T>, m: T, r: T)
    requires
        xs.len() > 0,
        folds_to(combine, init, xs.drop_last(), m),
        combine.ensures((m, xs.last()), r),
    ensures
        folds_to(combine, init, xs, r),
{
    let p = choose|p: Seq<T>| #[trigger] fold_steps(combine, init, xs.drop_last(), p) && p.last() == m;
    let q = p.push(r);
    assert forall|k: int| 0 <= k < xs.len() implies #[trigger] combine.ensures((q[k], xs[k]), q[k + 1]) by {
        if k < xs.len() - 1 {
            assert(combine.ensures((p[k], xs.drop_last()[k]), p[k + 1]));
        }
    }
    assert(fold_steps(combine, init, xs, q));
}

/// The samples of one channel (`right` or left) at frame `i` of the listed
/// stems, in list order.
pub open spec fn channel_column<T: Copy>(
    stems: &SeparatedStems<T>,
    list: Seq<Stem>,
    i: int,
    right: bool,
) -> Seq<T> {
    Seq::new(
        list.len(),
        |k: int|
            if right {
                stems.spec_stem(list[k])[i].1
            } else {
                stems.spec_stem(list[k])[i].0
            },
    )
}

/// `r` is the interleaved mix of the listed stems: every sample is `combine`
/// folded over the listed stems' samples at that position, from `silence`.
pub open spec fn is_mix<T: Copy, F: Fn(T, T) -> T>(
    stems: &SeparatedStems<T>,
    list: Seq<Stem>,
    silence: T,
    combine: F,
    r: Seq<T>,
) -> bool {
    &&& r.len() == 2 * stems.spec_num_samples()
    &&& forall|i: int|
        0 <= i < stems.spec_num_samples() ==> folds_to(
            combine,
            silence,
            channel_column(stems, list, i, false),
            #[trigger] r[2 * i],
        ) && folds_to(combine, silence, channel_column(stems, list, i, true), r[2 * i + 1])
}

/// Mixing every stem folds, at each position, over the samples of all four
/// stem buffers, each taken once, in canonical order.
pub proof fn lemma_full_mix_sums_every_stem<T: Copy>(stems: &SeparatedStems<T>, i: int, right: bool)
    ensures
        channel_column(stems, all_stems(), i, right) == (if right {
            seq![
                stems.spec_stem(Stem::Vocals)[i].1,
                stems.spec_stem(Stem::Drums)[i].1,
                stems.spec_stem(Stem::Bass)[i].1,
                stems.spec_stem(Stem::Other)[i].1,
            ]
        } else {
            seq![
                stems.spec_stem(Stem::Vocals)[i].0,
                stems.spec_stem(Stem::Drums)[i].0,
                stems.spec_stem(Stem::Bass)[i].0,
                stems.spec_stem(Stem::Other)[i].0,
            ]
        }),
        stems_except(seq![]) == all_stems(),
{
    let c = channel_column(stems, all_stems(), i, right);
    if right {
        assert(c =~= seq![
            stems.spec_stem(Stem::Vocals)[i].1,
            stems.spec_stem(Stem::Drums)[i].1,
            stems.spec_stem(Stem::Bass)[i].1,
            stems.spec_stem(Stem::Other)[i].1,
        ]);
    } else {
        assert(c =~= seq![
            stems.spec_stem(Stem::Vocals)[i].0,
            stems.spec_stem(Stem::Drums)[i].0,
            stems.spec_stem(Stem::Bass)[i].0,
            stems.spec_stem(Stem::Other)[i].0,
        ]);
    }
    lemma_mix_except_is_complement(seq![]);
}

/// The finished result of a separation: one full-length buffer of stereo
/// frames per stem, indexed by the stem's position in `all_stems()`.
pub struct SeparatedStems<T> {
    stems: Vec<Vec<(T, T)>>,
    sample_rate: u32,
    num_samples: usize,
}

/// The engine index each stem resolves to under `index`.
pub open spec fn stem_source(index: &StemIndex, stem: Stem) -> int {
    resolved_index(index.spec_names(), stem.spec_name(), stem.spec_fallback_index(), index.spec_count())
}

impl<T: Copy> SeparatedStems<T> {
    /// The buffer of one stem.
    pub closed spec fn spec_stem(&self, stem: Stem) -> Seq<(T, T)> {
        self.stems@[stem.spec_position() as int]@
    }

    /// Sample rate of every buffer.
    pub closed spec fn spec_sample_rate(&self) -> u32 {
        self.sample_rate
    }

    /// Number of frames in every buffer.
    pub closed spec fn spec_num_samples(&self) -> nat {
        self.num_samples as nat
    }

    /// Sample rate of every buffer.
    pub fn sample_rate(&self) -> (r: u32)
        ensures
            r == self.spec_sample_rate(),
    {
        self.sample_rate
    }

    /// Number of frames in every buffer.
    pub fn num_samples(&self) -> (r: usize)
        ensures
            r == self.spec_num_samples(),
    {
        self.num_samples
    }

    /// Every stem has a buffer of `num_samples` frames.
    pub closed spec fn wf(&self) -> bool {
        &&& self.stems@.len() == 4
        &&& forall|p: int| 0 <= p < 4 ==> (#[trigger] self.stems@[p])@.len() == self.num_samples
    }

    /// Assembles the result of a finished run: each stem takes the buffer of
    /// the engine index its name resolves to. A declared name that points past
    /// the engine's stems is an error.
    pub fn from_run(run: &WindowRun<T>, index: &StemIndex, sample_rate: u32) -> (r: Result<
        SeparatedStems<T>,
        StemError,
    >)
        requires
            run.wf(),
            run.spec_state() == RunState::Finished,
            index.spec_count() == run.spec_stem_count(),
        ensures
            r is Ok <==> forall|st: Stem| stem_source(index, st) < run.spec_stem_count(),
            r is Ok ==> forall|st: Stem| 0 <= #[trigger] stem_source(index, st),
            r matches Ok(stems) ==> {
                &&& stems.wf()
                &&& stems.spec_sample_rate() == sample_rate
                &&& stems.spec_num_samples() == run.spec_len()
                &&& forall|st: Stem|
                    #[trigger] stems.spec_stem(st) == run.spec_buffers()[stem_source(index, st)]
            },
    {
        let stems_order = Stem::all();
        let mut stems: Vec<Vec<(T, T)>> = Vec::with_capacity(4);
        let mut p: usize = 0;
        while p < 4
            invariant
                p <= 4,
                stems_order@ == all_stems(),
                run.wf(),
                index.spec_count() == run.spec_stem_count(),
                stems@.len() == p,
                forall|q: int|
                    0 <= q < p ==> 0 <= #[trigger] stem_source(index, all_stems()[q])
                        < run.spec_stem_count(),
                forall|q: int|
                    0 <= q < p ==> (#[trigger] stems@[q])@ == run.spec_buffers()[stem_source(
                        index,
                        all_stems()[q],
                    )],
            decreases 4 - p,
        {
            let stem = stems_order[p];
            let source = index.resolve(stem.name(), p);
            if source >= run.stem_count() {
                proof {
                    assert(stem_source(index, all_stems()[p as int]) == source);
                }
                return Err(StemError::StemIndexOutOfRange { index: source, stems: run.stem_count() });
            }
            stems.push(copy_frames(run.buffer(source)));
            p += 1;
        }
        let r = SeparatedStems { stems, sample_rate, num_samples: run.len() };
        assert forall|q: int| 0 <= q < 4 implies (#[trigger] r.stems@[q])@.len() == r.num_samples by {
            let src = stem_source(index, all_stems()[q]);
            assert(run.spec_buffers()[src].len() == run.spec_len());
        }
        assert forall|st: Stem| 0 <= #[trigger] stem_source(index, st) < run.spec_stem_count() by {
            assert(all_stems()[st.spec_position() as int] == st);
        }
        assert forall|st: Stem| #[trigger] r.spec_stem(st) == run.spec_buffers()[stem_source(index, st)] by {
            assert(all_stems()[st.spec_position() as int] == st);
        }
        Ok(r)
    }

    /// A single stem's audio as interleaved stereo samples (left, right, ...).
    pub fn get(&self, stem: Stem) -> (r: Vec<T>)
        requires
            self.wf(),
        ensures
            r@.len() == 2 * self.spec_num_samples(),
            r@.len() == 2 * self.spec_stem(stem).len(),
            forall|i: int|
                0 <= i < self.spec_stem(stem).len() ==> r@[2 * i] == self.spec_stem(stem)[i].0
                    && r@[2 * i + 1] == self.spec_stem(stem)[i].1,
    {
        let p = stem_position(stem);
        let data = &self.stems[p];
        assert(data@.len() == self.num_samples);
        let mut out: Vec<T> = Vec::new();
        let mut i: usize = 0;
        while i < data.len()
            invariant
                i <= data@.len(),
                data@ == self.spec_stem(stem),
                out@.len() == 2 * i,
                forall|j: int| 0 <= j < i ==> out@[2 * j] == data@[j].0 && out@[2 * j + 1] == data@[j].1,
            decreases data@.len() - i,
        {
            out.push(data[i].0);
            out.push(data[i].1);
            i += 1;
        }
        out
    }

    /// Mixes the listed stems: each output sample is `combine` folded over the
    /// listed stems' samples at that position, starting from `silence`. A stem
    /// listed twice counts twice.
    pub fn mix<F: Fn(T, T) -> T>(&self, stems: &[Stem], silence: T, combine: F) -> (r: Vec<T>)
        requires
            self.wf(),
            forall|a: T, b: T| #[trigger] combine.requires((a, b)),
        ensures
            is_mix(self, stems@, silence, combine, r@),
    {
        let n = self.num_samples;
        let mut out: Vec<T> = Vec::new();
        let mut i: usize = 0;
        while i < n
            invariant
                i <= n,
                out@.len() == 2 * i,
                forall|j: int| 0 <= j < 2 * i ==> out@[j] == silence,
            decreases n - i,
        {
            out.push(silence);
            out.push(silence);
            i += 1;
        }
        assert(out@.len() == out.len());
        assert forall|j: int| 0 <= j < n implies folds_to(
            combine,
            silence,
            channel_column(self, stems@.take(0), j, false),
            #[trigger] out@[2 * j],
        ) && folds_to(combine, silence, channel_column(self, stems@.take(0), j, true), out@[2 * j + 1]) by {
            lemma_folds_empty(combine, silence, channel_column(self, stems@.take(0), j, false));
            lemma_folds_empty(combine, silence, channel_column(self, stems@.take(0), j, true));
        }
        let mut k: usize = 0;
        while k < stems.len()
            invariant
                self.wf(),
                n == self.num_samples,
                2 * n <= usize::MAX,
                k <= stems@.len(),
                out@.len() == 2 * n,
                forall|a: T, b: T| #[trigger] combine.requires((a, b)),
                forall|j: int|
                    0 <= j < n ==> folds_to(
                        combine,
                        silence,
                        channel_column(self, stems@.take(k as int), j, false),
                        #[trigger] out@[2 * j],
                    ) && folds_to(
                        combine,
                        silence,
                        channel_column(self, stems@.take(k as int), j, true),
                        out@[2 * j + 1],
                    ),
            decreases stems@.len() - k,
        {
            let data = self.frames(stems[k]);
            let ghost before = out@;
            let mut i: usize = 0;
            while i < n
                invariant
                    self.wf(),
                    n == self.num_samples,
                    k < stems@.len(),
                    data@ == self.spec_stem(stems@[k as int]),
                    data@.len() == n,
                    2 * n <= usize::MAX,
                    i <= n,
                    out@.len() == 2 * n,
                    before.len() == 2 * n,
                    forall|a: T, b: T| #[trigger] combine.requires((a, b)),
                    forall|j: int|
                        0 <= j < n ==> folds_to(
                            combine,
                            silence,
                            channel_column(self, stems@.take(k as int), j, false),
                            #[trigger] before[2 * j],
                        ) && folds_to(
                            combine,
                            silence,
                            channel_column(self, stems@.take(k as int), j, true),
                            before[2 * j + 1],
                        ),
                    forall|j: int|
                        i <= j < n ==> #[trigger] out@[2 * j] == before[2 * j] && out@[2 * j + 1]
                            == before[2 * j + 1],
                    forall|j: int|
                        0 <= j < i ==> folds_to(
                            combine,
                            silence,
                            channel_column(self, stems@.take(k + 1), j, false),
                            #[trigger] out@[2 * j],
                        ) && folds_to(
                            combine,
                            silence,
                            channel_column(self, stems@.take(k + 1), j, true),
                            out@[2 * j + 1],
                        ),
                decreases n - i,
            {
                let frame = data[i];
                let prev_left = out[2 * i];
                let prev_right = out[2 * i + 1];
                let left = combine(prev_left, frame.0);
                let right = combine(prev_right, frame.1);
                proof {
                    let ji = i as int;
                    let cl = channel_column(self, stems@.take(k + 1), ji, false);
                    let cr = channel_column(self, stems@.take(k + 1), ji, true);
                    assert(cl.drop_last() =~= channel_column(self, stems@.take(k as int), ji, false));
                    assert(cr.drop_last() =~= channel_column(self, stems@.take(k as int), ji, true));
                    assert(cl.last() == frame.0);
                    assert(cr.last() == frame.1);
                    assert(prev_left == before[2 * ji]);
                    assert(prev_right == before[2 * ji + 1]);
                    assert(folds_to(combine, silence, cl.drop_last(), prev_left));
                    assert(folds_to(combine, silence, cr.drop_last(), prev_right));
                    assert(combine.ensures((prev_left, cl.last()), left));
                    assert(combine.ensures((prev_right, cr.last()), right));
                    assert(cl.len() == k + 1);
                    assert(cr.len() == k + 1);
                    lemma_folds_step(combine, silence, cl, prev_left, left);
                    lemma_folds_step(combine, silence, cr, prev_right, right);
                }
                let ghost mid = out@;
                out.set(2 * i, left);
                out.set(2 * i + 1, right);
                proof {
                    let ji = i as int;
                    assert forall|j: int| 0 <= j < ji + 1 implies folds_to(
                        combine,
                        silence,
                        channel_column(self, stems@.take(k + 1), j, false),
                        #[trigger] out@[2 * j],
                    ) && folds_to(
                        combine,
                        silence,
                        channel_column(self, stems@.take(k + 1), j, true),
                        out@[2 * j + 1],
                    ) by {
                        if j < ji {
                            assert(out@[2 * j] == mid[2 * j]);
                            assert(out@[2 * j + 1] == mid[2 * j + 1]);
                        }
                    }
                    assert forall|j: int| ji + 1 <= j < n implies #[trigger] out@[2 * j] == before[2
                        * j] && out@[2 * j + 1] == before[2 * j + 1] by {
                        assert(out@[2 * j] == mid[2 * j]);
                        assert(out@[2 * j + 1] == mid[2 * j + 1]);
                    }
                }
                i += 1;
            }
            k += 1;
        }
        assert(stems@.take(stems@.len() as int) =~= stems@);
        out
    }

    /// Mixes every stem except the excluded ones: the mix of
    /// `Stem::all_except(exclude)`.
    pub fn mix_except<F: Fn(T, T) -> T>(&self, exclude: &[Stem], silence: T, combine: F) -> (r: Vec<T>)
        requires
            self.wf(),
            forall|a: T, b: T| #[trigger] combine.requires((a, b)),
        ensures
            is_mix(self, stems_except(exclude@), silence, combine, r@),
    {
        let kept_stems = Stem::all_except(exclude);
        self.mix(kept_stems.as_slice(), silence, combine)
    }

    /// The frames of a single stem.
    pub fn frames(&self, stem: Stem) -> (r: &Vec<(T, T)>)
        requires
            self.wf(),
        ensures
            r@ == self.spec_stem(stem),
    {
        &self.stems[stem_position(stem)]
    }
}

/// Whether `list` holds `stem`.
fn holds(list: &[Stem], stem: Stem) -> (r: bool)
    ensures
        r == list@.contains(stem),
{
    let mut i: usize = 0;
    while i < list.len()
        invariant
            i <= list@.len(),
            forall|j: int| 0 <= j < i ==> list@[j] != stem,
        decreases list@.len() - i,
    {
        if list[i] == stem {
            return true;
        }
        i += 1;
    }
    false
}

/// Position of a stem in `all_stems()`.
fn stem_position(stem: Stem) -> (r: usize)
    ensures
        r == stem.spec_position(),
        r < 4,
{
    match stem {
        Stem::Vocals => 0,
        Stem::Drums => 1,
        Stem::Bass => 2,
        Stem::Other => 3,
    }
}

/// A copy of a buffer of frames.
fn copy_frames<T: Copy>(v: &Vec<(T, T)>) -> (r: Vec<(T, T)>)
    ensures
        r@ == v@,
{
    let mut r: Vec<(T, T)> = Vec::with_capacity(v.len());
    let mut i: usize = 0;
    while i < v.len()
        invariant
            i <= v@.len(),
            r@ == v@.subrange(0, i as int),
        decreases v@.len() - i,
    {
        r.push(v[i]);
        i += 1;
        assert(r@ =~= v@.subrange(0, i as int));
    }
    assert(r@ =~= v@);
    r
}

} // verus!
