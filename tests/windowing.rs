use stem_splitter_core::engine::combine_branches;
use stem_splitter_core::{
    slice_window, RunState, SeparatedStems, Stem, StemError, StemIndex, WindowRun,
    SUPPORTED_SAMPLE_RATE,
};

/// Runs a whole separation with an engine that, for every stem, echoes the
/// raw window as its time branch and whose frequency branch decodes to zero;
/// the two branches go through the library's combiner.
fn run_echo(signal: &Vec<(f32, f32)>, window: usize, hop: usize, stems: usize) -> WindowRun<f32> {
    let mut run = WindowRun::new(SUPPORTED_SAMPLE_RATE, signal.len(), window, hop, 0.0f32).unwrap();
    while run.state() == RunState::Running {
        let (left, right) = run.window_input(signal);
        let mut time = Vec::with_capacity(stems * 2 * window);
        for _ in 0..stems {
            time.extend_from_slice(&left);
            time.extend_from_slice(&right);
        }
        let decoded = vec![(vec![0.0f32; window], vec![0.0f32; window]); stems];
        let out = combine_branches(&time, &decoded, window, |a: f32, b: f32| a + b);
        run.commit(&out).unwrap();
    }
    run
}

#[test]
fn two_second_echo_scenario_reproduces_input() {
    let n = 2 * 44100;
    let signal: Vec<(f32, f32)> = (0..n).map(|i| (i as f32 * 0.5, -(i as f32))).collect();
    let run = run_echo(&signal, 4, 2, 2);
    assert_eq!(run.state(), RunState::Finished);
    assert_eq!(run.stem_count(), 2);
    assert_eq!(run.completed_windows(), 44100);
    assert_eq!(run.total_windows(), 44100);
    for s in 0..2 {
        assert_eq!(run.buffer(s), &signal);
    }
}

#[test]
fn partition_covers_each_position_once() {
    for n in 1..20usize {
        for window in 1..6usize {
            for hop in 1..=window {
                let signal: Vec<(i64, i64)> = vec![(0, 0); n];
                let mut run = WindowRun::new(SUPPORTED_SAMPLE_RATE, n, window, hop, -1i64).unwrap();
                let mut k: i64 = 0;
                while run.state() == RunState::Running {
                    let pos = run.position() as i64;
                    let _ = run.window_input(&signal);
                    let chan: Vec<i64> = (0..window as i64).map(|j| k * 1000 + pos + j).collect();
                    run.commit(&vec![vec![chan.clone(), chan]]).unwrap();
                    k += 1;
                }
                assert_eq!(run.completed_windows(), (n + hop - 1) / hop);
                assert_eq!(run.total_windows(), (n + hop - 1) / hop);
                let buf = run.buffer(0);
                for i in 0..n {
                    let expected = (i / hop) as i64 * 1000 + i as i64;
                    assert_eq!(buf[i], (expected, expected), "n={n} w={window} hop={hop} i={i}");
                }
            }
        }
    }
}

#[test]
fn window_is_padded_with_silence_past_the_end() {
    let signal = vec![(1, 2), (3, 4), (5, 6)];
    let (l, r) = slice_window(&signal, 2, 4, 0);
    assert_eq!(l, vec![5, 0, 0, 0]);
    assert_eq!(r, vec![6, 0, 0, 0]);
    let (l, r) = slice_window(&signal, 0, 2, 9);
    assert_eq!(l, vec![1, 3]);
    assert_eq!(r, vec![2, 4]);
}

#[test]
fn short_input_takes_one_window() {
    let signal = vec![(7, 8), (9, 10)];
    let mut run = WindowRun::new(44100, 2, 8, 4, 0).unwrap();
    let (l, r) = run.window_input(&signal);
    assert_eq!(l, vec![7, 9, 0, 0, 0, 0, 0, 0]);
    run.commit(&vec![vec![l.clone(), r.clone()]]).unwrap();
    assert_eq!(run.state(), RunState::Finished);
    assert_eq!(run.buffer(0), &signal);
}

#[test]
fn only_first_hop_of_each_window_is_kept() {
    let signal = vec![(0, 0); 5];
    let mut run = WindowRun::new(44100, 5, 4, 2, 0).unwrap();
    let mut k = 1;
    while run.state() == RunState::Running {
        let chan = vec![k, k * 10, k * 100, k * 1000];
        run.commit(&vec![vec![chan.clone(), chan]]).unwrap();
        let _ = run.window_input(&signal);
        k += 1;
    }
    let left: Vec<i32> = run.buffer(0).iter().map(|f| f.0).collect();
    assert_eq!(left, vec![1, 10, 2, 20, 3]);
}

#[test]
fn configuration_is_checked_before_inference() {
    assert!(matches!(
        WindowRun::new(48000, 10, 4, 2, 0),
        Err(StemError::UnsupportedSampleRate { expected_rate: 44100, actual_rate: 48000 })
    ));
    assert!(matches!(WindowRun::new(44100, 0, 4, 2, 0), Err(StemError::EmptyInput)));
    assert!(matches!(
        WindowRun::new(44100, 10, 4, 0, 0),
        Err(StemError::BadWindowHop { window: 4, hop: 0 })
    ));
    assert!(matches!(
        WindowRun::new(44100, 10, 4, 5, 0),
        Err(StemError::BadWindowHop { window: 4, hop: 5 })
    ));
    assert!(matches!(
        WindowRun::new(44100, 10, 0, 0, 0),
        Err(StemError::BadWindowHop { window: 0, hop: 0 })
    ));
    assert!(WindowRun::new(44100, 10, 4, 4, 0).is_ok());
}

#[test]
fn stem_count_change_fails_the_run() {
    let mut run = WindowRun::new(44100, 10, 2, 2, 0).unwrap();
    let two = vec![vec![vec![1, 1], vec![1, 1]], vec![vec![2, 2], vec![2, 2]]];
    run.commit(&two).unwrap();
    assert_eq!(run.stem_count(), 2);
    let three = vec![vec![vec![1, 1], vec![1, 1]]; 3];
    assert!(matches!(
        run.commit(&three),
        Err(StemError::StemCountChanged { established: 2, reported: 3 })
    ));
    assert_eq!(run.state(), RunState::Failed);
    assert_eq!(run.completed_windows(), 1);
    assert_eq!(run.buffer(0)[2], (0, 0));
}

#[test]
fn malformed_window_outputs_are_rejected() {
    let mut run = WindowRun::new(44100, 10, 2, 2, 0).unwrap();
    let none: Vec<Vec<Vec<i32>>> = vec![];
    assert!(matches!(run.commit(&none), Err(StemError::NoStems)));
    assert_eq!(run.state(), RunState::Failed);

    let mut run = WindowRun::new(44100, 10, 2, 2, 0).unwrap();
    assert!(matches!(
        run.commit(&vec![vec![vec![1, 1]]]),
        Err(StemError::ChannelCountMismatch { stem: 0, channels: 1 })
    ));

    let mut run = WindowRun::new(44100, 10, 2, 2, 0).unwrap();
    assert!(matches!(
        run.commit(&vec![vec![vec![1, 1], vec![1, 1, 1]]]),
        Err(StemError::WindowLengthMismatch { expected_len: 2, actual_len: 3 })
    ));
    assert_eq!(run.completed_windows(), 0);
}

#[test]
fn separated_stems_follow_declared_names() {
    let n = 3;
    let signal = vec![(0, 0); n];
    let mut run = WindowRun::new(44100, n, 4, 4, 0).unwrap();
    let _ = run.window_input(&signal);
    let out: Vec<Vec<Vec<i32>>> =
        (0..4).map(|s| vec![vec![s * 10; 4], vec![s * 10 + 1; 4]]).collect();
    run.commit(&out).unwrap();
    let names: Vec<String> =
        ["drums", "bass", "other", "vocals"].iter().map(|s| s.to_string()).collect();
    let index = StemIndex::new(&names, run.stem_count());
    let stems = SeparatedStems::from_run(&run, &index, 44100).unwrap();
    assert_eq!(stems.get(Stem::Vocals), vec![30, 31, 30, 31, 30, 31]);
    assert_eq!(stems.get(Stem::Drums), vec![0, 1, 0, 1, 0, 1]);
    assert_eq!(stems.frames(Stem::Bass), &vec![(10, 11); 3]);
    assert_eq!(stems.sample_rate(), 44100);
    assert_eq!(stems.num_samples(), 3);
}

#[test]
fn declared_name_past_engine_stems_is_an_error() {
    let mut run = WindowRun::new(44100, 2, 2, 2, 0).unwrap();
    run.commit(&vec![vec![vec![1, 1], vec![2, 2]]; 2]).unwrap();
    let names: Vec<String> =
        ["drums", "bass", "other", "vocals"].iter().map(|s| s.to_string()).collect();
    let index = StemIndex::new(&names, 2);
    assert!(matches!(
        SeparatedStems::from_run(&run, &index, 44100),
        Err(StemError::StemIndexOutOfRange { index: 3, stems: 2 })
    ));
}

#[test]
fn undeclared_stems_fall_back_and_clamp() {
    let mut run = WindowRun::new(44100, 2, 2, 2, 0).unwrap();
    run.commit(&vec![vec![vec![5, 5], vec![6, 6]], vec![vec![7, 7], vec![8, 8]]]).unwrap();
    let index = StemIndex::from_lowercase_names(vec![], 2);
    let stems = SeparatedStems::from_run(&run, &index, 44100).unwrap();
    assert_eq!(stems.get(Stem::Vocals), vec![5, 6, 5, 6]);
    assert_eq!(stems.get(Stem::Drums), vec![7, 8, 7, 8]);
    assert_eq!(stems.get(Stem::Bass), vec![7, 8, 7, 8]);
    assert_eq!(stems.get(Stem::Other), vec![7, 8, 7, 8]);
}

fn four_stem_result() -> SeparatedStems<f32> {
    let mut run = WindowRun::new(44100, 2, 2, 2, 0.0f32).unwrap();
    let out: Vec<Vec<Vec<f32>>> = (0..4)
        .map(|s| {
            let v = (s + 1) as f32;
            vec![vec![v, 10.0 * v], vec![100.0 * v, 1000.0 * v]]
        })
        .collect();
    run.commit(&out).unwrap();
    let index = StemIndex::new(&vec![], 4);
    SeparatedStems::from_run(&run, &index, 44100).unwrap()
}

#[test]
fn mix_sums_listed_stems_from_silence() {
    let stems = four_stem_result();
    let rhythm = stems.mix(&[Stem::Drums, Stem::Bass], 0.0, |a, b| a + b);
    assert_eq!(rhythm, vec![5.0, 500.0, 50.0, 5000.0]);
    let twice = stems.mix(&[Stem::Vocals, Stem::Vocals], 0.0, |a, b| a + b);
    assert_eq!(twice, vec![2.0, 200.0, 20.0, 2000.0]);
    assert_eq!(stems.mix(&[], 0.0, |a, b| a + b), vec![0.0; 4]);
}

#[test]
fn mix_of_all_stems_is_sum_of_every_buffer() {
    let stems = four_stem_result();
    let all = stems.mix(Stem::all(), 0.0, |a: f32, b: f32| a + b);
    let mut expected = vec![0.0f32; 4];
    for &s in Stem::all() {
        for (i, v) in stems.get(s).iter().enumerate() {
            expected[i] += v;
        }
    }
    assert_eq!(all, expected);
    assert_eq!(all, vec![10.0, 1000.0, 100.0, 10000.0]);
}

#[test]
fn mix_except_equals_mix_of_complement() {
    let stems = four_stem_result();
    let add = |a: f32, b: f32| a + b;
    for exclude in [vec![], vec![Stem::Vocals], vec![Stem::Drums, Stem::Other], Stem::all().to_vec()] {
        assert_eq!(
            stems.mix_except(&exclude, 0.0, add),
            stems.mix(&Stem::all_except(&exclude), 0.0, add)
        );
    }
    assert_eq!(stems.mix_except(&[Stem::Vocals], 0.0, add), vec![9.0, 900.0, 90.0, 9000.0]);
}

#[test]
fn two_second_scenario_through_separated_stems() {
    let n = 2 * 44100;
    let signal: Vec<(f32, f32)> = (0..n).map(|i| ((i % 97) as f32, -((i % 31) as f32))).collect();
    let run = run_echo(&signal, 4, 2, 2);
    let names: Vec<String> = vec!["s0".to_string(), "s1".to_string()];
    let index = StemIndex::new(&names, run.stem_count());
    let stems = SeparatedStems::from_run(&run, &index, 44100).unwrap();
    assert_eq!(stems.num_samples(), n);
    let interleaved: Vec<f32> = signal.iter().flat_map(|&(l, r)| [l, r]).collect();
    for &s in Stem::all() {
        assert_eq!(stems.get(s), interleaved);
    }
}

#[test]
fn no_declared_names_with_two_stems_separates() {
    let mut run = WindowRun::new(44100, 2, 2, 2, 0).unwrap();
    run.commit(&vec![vec![vec![1, 1], vec![2, 2]], vec![vec![3, 3], vec![4, 4]]]).unwrap();
    let index = StemIndex::new(&vec![], run.stem_count());
    let stems = SeparatedStems::from_run(&run, &index, 44100).unwrap();
    assert_eq!(stems.get(Stem::Vocals), vec![1, 2, 1, 2]);
    assert_eq!(stems.get(Stem::Drums), vec![3, 4, 3, 4]);
    assert_eq!(stems.get(Stem::Bass), vec![3, 4, 3, 4]);
    assert_eq!(stems.get(Stem::Other), vec![3, 4, 3, 4]);
}

#[test]
fn instrumental_sums_every_source_but_one() {
    let mut run = WindowRun::new(44100, 2, 2, 2, 0.0f32).unwrap();
    let out: Vec<Vec<Vec<f32>>> =
        (1..=3).map(|s| vec![vec![s as f32, 2.0 * s as f32], vec![10.0 * s as f32, 20.0 * s as f32]]).collect();
    run.commit(&out).unwrap();
    let add = |a: f32, b: f32| a + b;
    assert_eq!(run.mix_sources_except(1, 0.0, add), vec![4.0, 40.0, 8.0, 80.0]);
    assert_eq!(run.mix_sources_except(0, 0.0, add), vec![5.0, 50.0, 10.0, 100.0]);
    assert_eq!(run.mix_sources_except(7, 0.0, add), vec![6.0, 60.0, 12.0, 120.0]);
}
