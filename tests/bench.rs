use bindata_bench::bench::run_bench;
use bindata_bench::update_column::{pick_record, random_record, UpdatePlan};
use std::cell::RefCell;

struct Trial {
    records: Vec<Vec<u8>>,
    plan: UpdatePlan,
    id: usize,
    expected: Vec<u8>,
}

fn new_trial(block_size: usize, block_num: usize, to_update: usize) -> Trial {
    let mut rng = rand::thread_rng();
    Trial {
        records: (0..block_num).map(|_| random_record(&mut rng, block_size)).collect(),
        plan: UpdatePlan::from_counts(&mut rng, block_size, to_update),
        id: 0,
        expected: vec![],
    }
}

fn setup(t: &mut Trial) {
    let mut rng = rand::thread_rng();
    t.id = pick_record(&mut rng, t.records.len());
    t.expected = t.plan.apply(&t.records[t.id]);
}

fn run_copy(t: &mut Trial) {
    let updated = t.plan.copy_rebuild(&t.records[t.id]);
    t.records[t.id] = updated;
}

fn run_splices(t: &mut Trial) {
    let ops = t.plan.splice_ops(&t.records[t.id]);
    for (offset, value) in ops {
        t.records[t.id][offset] = value;
    }
}

fn teardown(t: &mut Trial) {
    assert_eq!(t.records[t.id], t.expected);
}

fn mean_and_variance(samples: &[f64]) -> (f64, f64) {
    let n = samples.len() as f64;
    let mean = samples.iter().sum::<f64>() / n;
    let variance = samples.iter().map(|x| (x - mean) * (x - mean)).sum::<f64>() / n;
    (mean, variance)
}

#[test]
fn end_to_end_both_strategies() {
    // block_size 16 with update_percentage 0.5 changes 8 offsets.
    for method in 0..2 {
        let trial = new_trial(16, 4, 8);
        let durations = run_bench(
            10,
            if method == 0 { run_copy } else { run_splices },
            setup,
            teardown,
            trial,
        );
        assert_eq!(durations.len(), 10);
        let micros: Vec<f64> = durations.iter().map(|d| d.as_micros() as f64).collect();
        let (mean, variance) = mean_and_variance(&micros);
        assert!(mean.is_finite() && mean >= 0.0);
        assert!(variance.is_finite() && variance >= 0.0);
    }
}

#[test]
fn run_bench_calls_in_order() {
    let log = RefCell::new(Vec::new());
    let durations = run_bench(
        3,
        |s: &mut u32| {
            log.borrow_mut().push(('f', *s));
            *s += 1;
        },
        |s: &mut u32| log.borrow_mut().push(('s', *s)),
        |s: &mut u32| log.borrow_mut().push(('t', *s)),
        0u32,
    );
    assert_eq!(durations.len(), 3);
    let expected = vec![
        ('s', 0),
        ('f', 0),
        ('t', 1),
        ('s', 1),
        ('f', 1),
        ('t', 2),
        ('s', 2),
        ('f', 2),
        ('t', 3),
    ];
    assert_eq!(*log.borrow(), expected);
}

#[test]
fn run_bench_with_no_retries() {
    let durations = run_bench(0, |_: &mut u8| {}, |_: &mut u8| {}, |_: &mut u8| panic!(), 0u8);
    assert!(durations.is_empty());
}
