use warlocks_gambit::numbers::decimals;

fn digits_of(n: i32) -> Vec<usize> {
    let mut result = decimals(n);
    result.reverse();
    result
}

#[test]
fn test_decimals() {
    assert_eq!(digits_of(10000), vec![1, 0, 0, 0, 0]);
    assert_eq!(digits_of(10203), vec![1, 0, 2, 0, 3]);
    assert_eq!(digits_of(12), vec![1, 2]);
    assert_eq!(digits_of(10), vec![1, 0]);
    assert_eq!(digits_of(93841345), vec![9, 3, 8, 4, 1, 3, 4, 5]);
    assert_eq!(digits_of(1), vec![1]);
    assert_eq!(digits_of(0), vec![]);
}
