use spline_drawer::bezier::binomial;

#[test]
fn binomial_of_small_rows() {
    assert_eq!(binomial(0, 0), 1);
    assert_eq!(binomial(1, 0), 1);
    assert_eq!(binomial(1, 1), 1);
    assert_eq!(binomial(4, 2), 6);
    assert_eq!(binomial(10, 3), 120);
    assert_eq!(binomial(3, 1), 3);
    assert_eq!(binomial(3, 2), 3);
}

#[test]
fn binomial_choosing_nothing_or_everything_is_one() {
    for n in 0..=62u64 {
        assert_eq!(binomial(n, 0), 1);
        assert_eq!(binomial(n, n), 1);
    }
}

#[test]
fn binomial_is_symmetric() {
    for n in 0..=62u64 {
        for k in 0..=n {
            assert_eq!(binomial(n, k), binomial(n, n - k));
        }
    }
}

#[test]
fn binomial_follows_pascals_rule() {
    for n in 1..=62u64 {
        for k in 1..=n {
            assert_eq!(binomial(n, k), binomial(n - 1, k - 1) + binomial(n - 1, k));
        }
    }
}

#[test]
fn binomial_past_the_row_is_zero() {
    assert_eq!(binomial(3, 4), 0);
    assert_eq!(binomial(0, 1), 0);
    assert_eq!(binomial(62, 63), 0);
    assert_eq!(binomial(5, u64::MAX), 0);
}

#[test]
fn binomial_of_the_last_rows() {
    assert_eq!(binomial(61, 30), 232714176627630544);
    assert_eq!(binomial(62, 30), 450883717216034179);
    assert_eq!(binomial(62, 31), 465428353255261088);
}
