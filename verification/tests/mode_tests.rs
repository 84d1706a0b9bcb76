use exercises::stats::calculate_mode;

#[test]
fn test_calculate_mode() {
    let nums = vec![1, 2, 3, 4, 4, 5, 5, 5, 6, 7, 7];
    assert_eq!(calculate_mode(&nums), Some(5));

    let nums = vec![1, 9, 3, 4, 4, 5, 5, 5, 6, 7, 7, 8, 9, 9, 9];
    assert_eq!(calculate_mode(&nums), Some(9));

    let nums = vec![1, 3, 4, 5, 8, 10];
    assert_eq!(calculate_mode(&nums), None);
}

#[test]
fn mode_of_empty_is_none() {
    let nums: Vec<i32> = vec![];
    assert_eq!(calculate_mode(&nums), None);
}

#[test]
fn mode_tie_takes_first_occurrence() {
    // 2 and 1 both occur twice; 2 occurs first.
    let nums = vec![2, 1, 1, 2];
    assert_eq!(calculate_mode(&nums), Some(2));
}
