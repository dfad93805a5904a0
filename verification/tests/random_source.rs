use minesweeper::random::RandomSource;

#[test]
fn a_script_is_replayed_in_order_and_wrapped_into_the_range() {
    let mut source = RandomSource::scripted(vec![4, 7, 12, 0]);
    assert_eq!(source.pick(0, 3), 1);
    assert_eq!(source.pick(0, 3), 1);
    assert_eq!(source.pick(10, 15), 12);
    assert_eq!(source.pick(2, 9), 2);
}

#[test]
fn a_script_starts_over_when_it_runs_out() {
    let mut source = RandomSource::scripted(vec![1, 2, 3]);
    let mut drawn = Vec::new();
    for _ in 0..7 {
        drawn.push(source.pick(0, 10));
    }
    assert_eq!(drawn, vec![1, 2, 3, 1, 2, 3, 1]);
}

#[test]
fn an_empty_script_always_gives_the_lower_bound() {
    let mut source = RandomSource::scripted(Vec::new());
    assert_eq!(source.pick(0, 5), 0);
    assert_eq!(source.pick(3, 4), 3);
    assert_eq!(source.pick(17, 1000), 17);
}

#[test]
fn a_script_value_at_the_top_of_the_machine_range_is_wrapped() {
    let mut source = RandomSource::scripted(vec![usize::MAX]);
    let r = source.pick(usize::MAX - 4, usize::MAX);
    assert_eq!(r, usize::MAX - 4 + usize::MAX % 4);
    assert!(r < usize::MAX);
}

#[test]
fn the_thread_generator_stays_within_the_range() {
    let mut source = RandomSource::thread();
    for _ in 0..2000 {
        let r = source.pick(3, 11);
        assert!(3 <= r && r < 11);
    }
    for low in 0..50 {
        assert_eq!(source.pick(low, low + 1), low);
    }
}

#[test]
fn the_thread_generator_gives_more_than_one_value() {
    let mut source = RandomSource::thread();
    let mut seen = [false; 8];
    for _ in 0..4000 {
        seen[source.pick(0, 8)] = true;
    }
    assert_eq!(seen, [true; 8]);
}
