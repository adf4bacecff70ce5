use krx_toolkit::tick::krx_tick_size;

#[test]
fn krx_tick_size_boundaries() {
    assert_eq!(krx_tick_size(1), 1);
    assert_eq!(krx_tick_size(1_999), 1);
    assert_eq!(krx_tick_size(2_000), 5);
    assert_eq!(krx_tick_size(4_999), 5);
    assert_eq!(krx_tick_size(5_000), 10);
    assert_eq!(krx_tick_size(19_999), 10);
    assert_eq!(krx_tick_size(20_000), 50);
    assert_eq!(krx_tick_size(49_999), 50);
    assert_eq!(krx_tick_size(50_000), 100);
    assert_eq!(krx_tick_size(199_999), 100);
    assert_eq!(krx_tick_size(200_000), 500);
    assert_eq!(krx_tick_size(499_999), 500);
    assert_eq!(krx_tick_size(500_000), 1_000);
}

#[test]
fn tick_size_of_non_positive_price_is_one() {
    assert_eq!(krx_tick_size(0), 1);
    assert_eq!(krx_tick_size(-1), 1);
    assert_eq!(krx_tick_size(i64::MIN), 1);
}

#[test]
fn tick_size_of_huge_price_is_thousand() {
    assert_eq!(krx_tick_size(i64::MAX), 1_000);
}

#[test]
fn tick_size_never_shrinks_as_price_grows() {
    let prices = [-5, 0, 1, 1_999, 2_000, 4_999, 5_000, 19_999, 20_000, 49_999, 50_000, 199_999, 200_000, 499_999, 500_000, 10_000_000];
    for w in prices.windows(2) {
        assert!(krx_tick_size(w[0]) <= krx_tick_size(w[1]));
    }
    for p in prices {
        assert!([1, 5, 10, 50, 100, 500, 1_000].contains(&krx_tick_size(p)));
    }
}
