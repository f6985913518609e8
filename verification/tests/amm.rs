use mev_engine::amm::checked_swap;
use mev_engine::simulator::constant_product_swap;

#[test]
fn swap_has_an_exact_price() {
    assert_eq!(constant_product_swap(1_000, 1_000_000, 1_000_000, 30), 996);
    assert_eq!(constant_product_swap(1_000, 1_000_000, 2_000_000, 30), 1992);
    assert_eq!(
        constant_product_swap(
            1_000_000_000_000_000_000,
            5_000_000_000_000_000_000_000,
            10_000_000_000_000,
            30
        ),
        1_993_602_475
    );
}

#[test]
fn checked_swap_stops_where_the_swap_leaves_128_bits() {
    assert_eq!(checked_swap(1_000, 1_000_000, 1_000_000, 30), Some(996));
    assert_eq!(checked_swap(u128::MAX, 1, 1, 30), None);
    assert_eq!(checked_swap(1, u128::MAX, 1, 30), None);
    assert_eq!(checked_swap(1, 1, 1, 10_001), None);
    assert_eq!(checked_swap(0, u128::MAX, u128::MAX, 10_001), Some(0));
}

#[test]
fn more_in_gives_more_out_and_never_the_whole_reserve() {
    let mut last: u128 = 0;
    for amount in [1u128, 10, 1_000, 1_000_000, 1_000_000_000_000] {
        let out = constant_product_swap(amount, 1_000_000, 1_000_000, 30);
        assert!(out >= last);
        assert!(out < 1_000_000);
        last = out;
    }
}

#[test]
fn a_higher_fee_pays_less() {
    let cheap = constant_product_swap(10_000, 1_000_000, 1_000_000, 5);
    let dear = constant_product_swap(10_000, 1_000_000, 1_000_000, 30);
    assert!(dear < cheap);
    assert_eq!(constant_product_swap(10_000, 1_000_000, 1_000_000, 10_000), 0);
}

#[test]
fn a_round_trip_never_gains_and_the_product_never_shrinks() {
    let out = constant_product_swap(50_000, 1_000_000, 2_000_000, 30);
    assert!((1_000_000 + 50_000) * (2_000_000 - out) >= 1_000_000 * 2_000_000);
    let back = constant_product_swap(out, 2_000_000, 1_000_000, 30);
    assert!(back < 50_000);
    // without fees too
    let out = constant_product_swap(50_000, 1_000_000, 2_000_000, 0);
    assert!(constant_product_swap(out, 2_000_000, 1_000_000, 0) < 50_000);
}
