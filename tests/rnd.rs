use bindata_bench::rnd::generate_diff_sequence;

#[test]
fn test_generate_diff_sequence_full_range() {
    let mut rng = rand::thread_rng();

    for l in 0..100 {
        for r in l..100 {
            let mut res = generate_diff_sequence(&mut rng, l, r, r - l + 1);
            res.sort();
            assert_eq!(res, (l..r + 1).collect::<Vec<usize>>());
        }
    }
}

#[test]
fn partial_sample_is_distinct_and_in_range() {
    let mut rng = rand::thread_rng();
    for count in 0..20 {
        let res = generate_diff_sequence(&mut rng, 5, 24, count);
        assert_eq!(res.len(), count);
        let mut sorted = res.clone();
        sorted.sort();
        sorted.dedup();
        assert_eq!(sorted.len(), count);
        assert!(res.iter().all(|&x| (5..=24).contains(&x)));
    }
}

#[test]
fn single_value_range() {
    let mut rng = rand::thread_rng();
    assert_eq!(generate_diff_sequence(&mut rng, 7, 7, 1), vec![7]);
    assert_eq!(generate_diff_sequence(&mut rng, 7, 7, 0), Vec::<usize>::new());
}

#[test]
fn samples_are_shuffled() {
    let mut rng = rand::thread_rng();
    let identity: Vec<usize> = (0..100).collect();
    let shuffled = (0..5).any(|_| generate_diff_sequence(&mut rng, 0, 99, 100) != identity);
    assert!(shuffled);
}

#[test]
fn sample_near_top_of_usize() {
    let mut rng = rand::thread_rng();
    let mut res = generate_diff_sequence(&mut rng, usize::MAX - 3, usize::MAX, 4);
    res.sort();
    assert_eq!(res, vec![usize::MAX - 3, usize::MAX - 2, usize::MAX - 1, usize::MAX]);
}
