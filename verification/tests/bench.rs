use circuit_bench::bench::{
    bench_sizes, default_bench_sizes, times_compilation, BenchmarkRun, Engine, Timing,
};
use std::time::Duration;

#[test]
fn sizes_within_the_corpus_are_all_used() {
    let requested: Vec<usize> = (200..=5000).step_by(200).collect();
    let sizes = bench_sizes(&requested, 5000);
    assert_eq!(sizes.len(), 25);
    assert_eq!(sizes, requested);
}

#[test]
fn sizes_beyond_the_corpus_are_dropped() {
    let requested: Vec<usize> = (200..=6000).step_by(200).collect();
    let sizes = bench_sizes(&requested, 5000);
    assert_eq!(sizes.len(), 25);
    assert_eq!(sizes.last(), Some(&5000));
    assert!(!sizes.contains(&6000));
    assert_eq!(bench_sizes(&vec![6000], 5000), Vec::<usize>::new());
}

#[test]
fn sizes_keep_their_order() {
    assert_eq!(bench_sizes(&vec![30, 10, 50, 20, 40], 30), vec![30, 10, 20]);
    assert_eq!(bench_sizes(&vec![], 30), Vec::<usize>::new());
    assert_eq!(bench_sizes(&vec![0, 1], 0), vec![0]);
}

#[test]
fn default_sizes_step_by_two_hundred() {
    let sizes = default_bench_sizes();
    assert_eq!(sizes.len(), 50);
    assert_eq!(sizes[0], 200);
    assert_eq!(sizes[1], 400);
    assert_eq!(sizes[49], 10000);
    assert_eq!(sizes, (200..=10000).step_by(200).collect::<Vec<usize>>());
}

#[test]
fn a_run_gives_one_sample_for_each_usable_size() {
    let requested: Vec<usize> = (200..=6000).step_by(200).collect();
    let mut run = BenchmarkRun::new(&requested, 5000);
    let mut measured = Vec::new();
    while let Some(size) = run.next_size() {
        measured.push(size);
        run = run.record(Duration::from_micros(size as u64));
    }
    assert!(run.is_done());
    let samples = run.finish();
    assert_eq!(samples.len(), 25);
    for (i, sample) in samples.iter().enumerate() {
        assert_eq!(sample.corpus_size, 200 * (i + 1));
        assert_eq!(sample.corpus_size, measured[i]);
        assert_eq!(sample.elapsed, Duration::from_micros(sample.corpus_size as u64));
    }
}

#[test]
fn a_finished_run_records_nothing_more() {
    let run = BenchmarkRun::new(&vec![10, 20], 15);
    assert!(!run.is_done());
    assert_eq!(run.next_size(), Some(10));
    let run = run.record(Duration::from_millis(3));
    assert_eq!(run.next_size(), None);
    assert!(run.is_done());
    let run = run.record(Duration::from_millis(4));
    assert!(run.is_done());
    let samples = run.finish();
    assert_eq!(samples.len(), 1);
    assert_eq!(samples[0].corpus_size, 10);
    assert_eq!(samples[0].elapsed, Duration::from_millis(3));
}

#[test]
fn a_run_stopped_early_keeps_its_samples() {
    let run = BenchmarkRun::new(&vec![1, 2, 3], 3);
    let run = run.record(Duration::from_millis(1));
    let run = run.record(Duration::from_millis(2));
    assert_eq!(run.next_size(), Some(3));
    let samples = run.finish();
    assert_eq!(samples.len(), 2);
    assert_eq!(samples[1].corpus_size, 2);
}

#[test]
fn a_run_over_an_empty_corpus_measures_nothing() {
    let run = BenchmarkRun::new(&default_bench_sizes(), 0);
    assert!(run.is_done());
    assert_eq!(run.next_size(), None);
    assert!(run.finish().is_empty());
}

#[test]
fn engines_are_timed_as_their_interfaces_have_it() {
    assert!(times_compilation(Engine::Quartz, Timing::Natural));
    assert!(!times_compilation(Engine::Portmatching, Timing::Natural));
}

#[test]
fn timing_can_be_set_for_both_engines_alike() {
    assert!(!times_compilation(Engine::Quartz, Timing::MatchOnly));
    assert!(!times_compilation(Engine::Portmatching, Timing::MatchOnly));
    assert!(times_compilation(Engine::Quartz, Timing::WithCompilation));
    assert!(times_compilation(Engine::Portmatching, Timing::WithCompilation));
}
