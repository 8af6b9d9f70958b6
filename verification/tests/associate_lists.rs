use myelin_environment::associate_lists::{
    associate_lists, associate_lists_where_second_is_longer, associate_lists_with_equal_lengths,
};

#[test]
fn generates_correct_result_when_first_list_is_longer_than_second() {
    let first_list = vec![10, 11, 12, 13, 14];
    let second_list = vec![20, 21, 22];
    let expected_pairs = vec![(10, 20), (11, 21), (12, 21), (13, 22), (14, 22)];

    assert_eq!(expected_pairs, associate_lists(&first_list, &second_list));
}

#[test]
fn generates_correct_result_when_second_list_is_longer_than_first() {
    let first_list = vec![10, 11, 12];
    let second_list = vec![20, 21, 22, 23, 24];
    let expected_pairs = vec![(10, 20), (11, 21), (11, 22), (12, 23), (12, 24)];

    assert_eq!(expected_pairs, associate_lists(&first_list, &second_list));
}

#[test]
fn generates_correct_result_when_both_lists_have_the_equal_length() {
    let first_list = vec![10, 20, 30];
    let second_list = vec![40, 50, 60];
    let expected_pairs = vec![(10, 40), (20, 50), (30, 60)];

    assert_eq!(expected_pairs, associate_lists(&first_list, &second_list));
}

#[test]
fn single_element_is_paired_with_every_element() {
    let first_list = vec![7];
    let second_list = vec![1, 2, 3];
    assert_eq!(vec![(7, 1), (7, 2), (7, 3)], associate_lists(&first_list, &second_list));
    assert_eq!(vec![(1, 7), (2, 7), (3, 7)], associate_lists(&second_list, &first_list));
}

#[test]
fn single_elements_are_paired() {
    assert_eq!(vec![(1, 2)], associate_lists(&[1], &[2]));
}

#[test]
fn swapping_the_lists_swaps_the_pairs() {
    let first_list = vec![1, 2, 3, 4, 5, 6, 7];
    let second_list = vec![10, 20, 30];
    let forward = associate_lists(&first_list, &second_list);
    let backward = associate_lists(&second_list, &first_list);
    let swapped: Vec<(i32, i32)> = forward.iter().map(|&(a, b)| (b, a)).collect();
    assert_eq!(swapped, backward);
}

#[test]
fn ends_are_paired_and_count_matches_longer_list() {
    let first_list = vec![1, 2, 3, 4];
    let second_list = vec![10, 20, 30, 40, 50, 60, 70, 80, 90];
    let pairs = associate_lists(&first_list, &second_list);
    assert_eq!(9, pairs.len());
    assert_eq!((1, 10), pairs[0]);
    assert_eq!((4, 90), pairs[8]);
    for window in pairs.windows(2) {
        let step = window[1].0 - window[0].0;
        assert!(step == 0 || step == 1);
    }
}

#[test]
fn spreads_exact_halves_upwards() {
    // index 1 of 5 lies exactly between the first two elements of the shorter list
    let pairs = associate_lists_where_second_is_longer(&[1, 2, 3], &[10, 20, 30, 40, 50]);
    assert_eq!(vec![(1, 10), (2, 20), (2, 30), (3, 40), (3, 50)], pairs);
}

#[test]
fn zips_lists_of_equal_length() {
    let pairs = associate_lists_with_equal_lengths(&['a', 'b'], &['c', 'd']);
    assert_eq!(vec![('a', 'c'), ('b', 'd')], pairs);
}

#[test]
fn spreads_like_binary64_arithmetic_where_it_falls_short_of_a_half() {
    // 1 / 98 * 49 is 0.49999999999999994 in binary64, so element 49 meets the first element
    let first_list = vec![1, 2];
    let second_list: Vec<i32> = (0..99).collect();
    let pairs = associate_lists(&first_list, &second_list);
    assert_eq!((1, 49), pairs[49]);
    assert_eq!((2, 50), pairs[50]);
    assert_eq!((1, 0), pairs[0]);
    assert_eq!((2, 98), pairs[98]);
}

#[test]
fn spread_index_matches_binary64_arithmetic() {
    for long_len in 2..60usize {
        for short_len in 1..long_len {
            let first_list: Vec<usize> = (0..short_len).collect();
            let second_list: Vec<usize> = (0..long_len).collect();
            let pairs = associate_lists(&first_list, &second_list);
            let ratio = (short_len - 1) as f64 / (long_len - 1) as f64;
            for (index, pair) in pairs.iter().enumerate() {
                let expected = (ratio * index as f64).round() as usize;
                assert_eq!((expected, index), *pair);
            }
        }
    }
}

#[test]
fn spread_never_goes_back_never_skips_and_meets_the_ends() {
    for long_len in 2..80usize {
        for short_len in 1..long_len {
            let first_list: Vec<usize> = (0..short_len).collect();
            let second_list: Vec<usize> = (0..long_len).collect();
            let pairs = associate_lists(&first_list, &second_list);
            assert_eq!(0, pairs[0].0);
            assert_eq!(short_len - 1, pairs[long_len - 1].0);
            for window in pairs.windows(2) {
                assert!(window[0].0 <= window[1].0);
                assert!(window[1].0 <= window[0].0 + 1);
            }
        }
    }
}
