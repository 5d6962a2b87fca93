use icp_core::error::IcpError;
use icp_core::order::median;
use icp_core::order::sort;

#[test]
fn sort_puts_keys_in_ascending_order() {
    assert_eq!(sort(&vec![5, 3, 9, 1, 7, 2]), vec![1, 2, 3, 5, 7, 9]);
    assert_eq!(sort(&vec![2, 1]), vec![1, 2]);
    assert_eq!(sort(&vec![4]), vec![4]);
    assert_eq!(sort(&Vec::new()), Vec::<u64>::new());
}

#[test]
fn sort_keeps_every_occurrence() {
    assert_eq!(sort(&vec![3, 1, 3, 1, 3, 0, u64::MAX, 0]), vec![0, 0, 1, 1, 3, 3, 3, u64::MAX]);
}

#[test]
fn sort_agrees_with_the_standard_sort() {
    let mut keys: Vec<u64> = Vec::new();
    let mut x: u64 = 0x9E37_79B9_7F4A_7C15;
    for _ in 0..1000 {
        x ^= x << 13;
        x ^= x >> 7;
        x ^= x << 17;
        keys.push(x % 257);
    }
    let mut expected = keys.clone();
    expected.sort();
    assert_eq!(sort(&keys), expected);
    assert_eq!(median(&keys), Ok(expected[500]));
}

#[test]
fn median_of_odd_count_is_the_middle_key() {
    assert_eq!(median(&vec![9, 1, 5]), Ok(5));
    assert_eq!(median(&vec![7]), Ok(7));
    assert_eq!(median(&vec![3, 100, 1, 2, 0]), Ok(2));
}

#[test]
fn median_of_even_count_is_the_upper_middle_key() {
    assert_eq!(median(&vec![1, 2]), Ok(2));
    assert_eq!(median(&vec![4, 1, 3, 2]), Ok(3));
    assert_eq!(median(&vec![0, 0, 1, 1]), Ok(1));
}

#[test]
fn median_does_not_depend_on_the_order_of_the_keys() {
    assert_eq!(median(&vec![1, 2, 3, 4, 5]), Ok(3));
    assert_eq!(median(&vec![5, 4, 3, 2, 1]), Ok(3));
    assert_eq!(median(&vec![3, 5, 1, 4, 2]), Ok(3));
}

#[test]
fn median_is_not_moved_by_one_outlier() {
    assert_eq!(median(&vec![1, 2, 3, 4, 5]), Ok(3));
    assert_eq!(median(&vec![1, 2, 3, 4, u64::MAX]), Ok(3));
}

#[test]
fn median_of_nothing_is_invalid_input() {
    assert_eq!(median(&Vec::new()), Err(IcpError::InvalidInput));
}

#[test]
fn keys_of_non_negative_doubles_order_as_the_doubles_do() {
    let values = [0.0f64, 1e-300, 1e-5, 0.35, 1.0, 1.4826, 3.0, 1e300, f64::INFINITY];
    for pair in values.windows(2) {
        assert!(pair[0] < pair[1]);
        assert!(pair[0].to_bits() < pair[1].to_bits());
    }
    let shuffled = vec![3.0f64, 0.35, 1e300, 0.0, 1.0];
    let keys: Vec<u64> = shuffled.iter().map(|v| v.to_bits()).collect();
    let back: Vec<f64> = sort(&keys).iter().map(|k| f64::from_bits(*k)).collect();
    assert_eq!(back, vec![0.0, 0.35, 1.0, 3.0, 1e300]);
}
