use footprint::decimate::Decimator;

fn kept(every: usize, count: usize) -> Vec<usize> {
    let mut d = Decimator::new(every);
    let mut out = Vec::new();
    for i in 0..count {
        if d.accept() {
            out.push(i);
        }
    }
    assert_eq!(d.count(), count);
    out
}

#[test]
fn every_one_keeps_all() {
    assert_eq!(kept(1, 5), vec![0, 1, 2, 3, 4]);
}

#[test]
fn every_third_is_kept_starting_with_the_first() {
    assert_eq!(kept(3, 10), vec![0, 3, 6, 9]);
}

#[test]
fn kept_count_is_ceiling_of_count_over_every() {
    for every in 1..7usize {
        for count in 0..30usize {
            assert_eq!(kept(every, count).len(), (count + every - 1) / every);
        }
    }
}

#[test]
fn select_skips_out_of_range_without_counting() {
    let mut d = Decimator::new(2);
    let flags = vec![true, false, true, true, false, true, true];
    // in-range footprints at 0, 2, 3, 5, 6 are the 0th..4th to pass: 0th, 2nd, 4th kept
    assert_eq!(d.select(&flags), vec![0, 3, 6]);
    assert_eq!(d.count(), 5);
}

#[test]
fn select_continues_counting_across_batches() {
    let mut d = Decimator::new(3);
    assert_eq!(d.select(&vec![true, true]), vec![0]);
    assert_eq!(d.count(), 2);
    // the third footprint in range (count 2) is skipped, the fourth (count 3) kept
    assert_eq!(d.select(&vec![true, true, false, true]), vec![1]);
    assert_eq!(d.count(), 5);
}

#[test]
fn select_without_decimation_keeps_all_in_range() {
    let mut d = Decimator::new(1);
    assert_eq!(d.select(&vec![false, true, true, false, true]), vec![1, 2, 4]);
    assert_eq!(d.select(&vec![true, true, true]), vec![0, 1, 2]);
}

#[test]
fn select_matches_kept_count_law() {
    for every in 1..5usize {
        for len in 0..12usize {
            let flags: Vec<bool> = (0..len).map(|i| i % 3 != 1).collect();
            let in_range = flags.iter().filter(|&&b| b).count();
            let mut d = Decimator::new(every);
            assert_eq!(d.select(&flags).len(), (in_range + every - 1) / every);
        }
    }
}
