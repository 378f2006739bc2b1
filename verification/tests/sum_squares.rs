use sum_of_squares::square;
use sum_of_squares::sum_squares;
use sum_of_squares::MAX_BOUND;

#[test]
fn square_of_zero() {
    assert_eq!(square(0), 0);
}

#[test]
fn square_of_positive() {
    assert_eq!(square(7), 49);
    assert_eq!(square(13), 169);
}

#[test]
fn square_of_negative() {
    assert_eq!(square(-4), 16);
}

#[test]
fn square_of_largest_argument() {
    assert_eq!(square(46340), 2147395600);
    assert_eq!(square(-46340), 2147395600);
}

#[test]
fn sum_squares_of_ten() {
    assert_eq!(sum_squares(10), 385);
}

#[test]
fn sum_squares_of_one() {
    assert_eq!(sum_squares(1), 1);
}

#[test]
fn sum_squares_of_three() {
    assert_eq!(sum_squares(3), 14);
}

#[test]
fn sum_squares_of_zero() {
    assert_eq!(sum_squares(0), 0);
}

#[test]
fn sum_squares_of_negative_bound() {
    assert_eq!(sum_squares(-1), 0);
    assert_eq!(sum_squares(-100), 0);
}

#[test]
fn sum_squares_matches_closed_form() {
    let n: i64 = 100;
    let expected = n * (n + 1) * (2 * n + 1) / 6;
    assert_eq!(sum_squares(100) as i64, expected);
    assert_eq!(sum_squares(100), 338350);
}

#[test]
fn sum_squares_non_decreasing() {
    let mut previous: i32 = 0;
    let mut n: i32 = 0;
    while n <= 50 {
        let current = sum_squares(n);
        assert!(current >= previous);
        previous = current;
        n += 1;
    }
}

#[test]
fn sum_squares_of_largest_bound() {
    assert_eq!(sum_squares(MAX_BOUND), 2146682110);
}
