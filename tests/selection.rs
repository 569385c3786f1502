use vonal::selection::sort;

#[test]
fn test_sort() {
    let mut arr = vec![5, 7, 2, 5, 6, 2, 22, 5, 1, 4, 7, 2];
    sort(&mut arr, 3);
    assert_eq!(arr[0], 22);
    assert_eq!(arr[1], 7);
    assert_eq!(arr[2], 7);
}

#[test]
fn partial_sort_matches_full_sort() {
    let base: Vec<i32> = vec![3, -1, 9, 9, 0, 4, -7, 12, 5, 5, 1];
    for k in 0..=base.len() {
        let mut arr = base.clone();
        sort(&mut arr, k);
        let mut reference = base.clone();
        reference.sort_by(|a, b| b.cmp(a));
        assert_eq!(arr[..k], reference[..k]);
        let mut all = arr.clone();
        all.sort();
        let mut expected = base.clone();
        expected.sort();
        assert_eq!(all, expected);
    }
}

#[test]
fn sort_of_empty_and_zero_limit() {
    let mut empty: Vec<i32> = vec![];
    sort(&mut empty, 0);
    assert!(empty.is_empty());
    let mut arr = vec![2, 1, 3];
    sort(&mut arr, 0);
    assert_eq!(arr, vec![2, 1, 3]);
}

#[test]
fn first_of_equal_maxima_is_taken() {
    let mut arr = vec![1, 4, 4, 2];
    sort(&mut arr, 1);
    assert_eq!(arr, vec![4, 1, 4, 2]);
}
