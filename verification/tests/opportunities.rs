use mev_engine::opportunities::find_opportunities;
use mev_engine::pools::{get_tokens, PoolData, ARB, USDC, WETH};
use mev_engine::quotes::{checked_quotes, Quote};

fn pool(address: u8, token0: [u8; 20], token1: [u8; 20], reserve0: u128, reserve1: u128) -> PoolData {
    PoolData {
        address: [address; 20],
        token0,
        token1,
        is_v3: false,
        fee_bps: 30,
        reserve0,
        reserve1,
    }
}

fn weth_usdc_pools() -> Vec<PoolData> {
    vec![
        // 100 ETH against 3 million, and against 2 million in the other order
        pool(1, WETH, USDC, 100_000_000_000_000_000_000, 3_000_000_000_000),
        pool(2, USDC, WETH, 2_000_000_000_000, 100_000_000_000_000_000_000),
    ]
}

#[test]
fn round_trips_are_quoted_both_ways() {
    let quotes = checked_quotes(&weth_usdc_pools(), &get_tokens(), WETH).unwrap();
    assert_eq!(quotes.len(), 8);
    let there: Vec<u128> = quotes[..4].iter().map(|quote| quote.weth_out).collect();
    assert_eq!(
        there,
        vec![
            148_731_304_500_565_391,
            736_346_549_189_716_292,
            1_454_817_445_510_112_772,
            6_630_258_826_531_869_380
        ]
    );
    let back: Vec<u128> = quotes[4..].iter().map(|quote| quote.weth_out).collect();
    assert_eq!(
        back,
        vec![
            66_157_466_924_463_109,
            328_609_413_002_779_697,
            651_854_023_579_367_018,
            3_059_476_829_880_179_749
        ]
    );
    for (k, quote) in quotes.iter().enumerate() {
        assert_eq!(quote.token_name, "USDC");
        let (buy, sell) = if k < 4 { (1, 2) } else { (2, 1) };
        assert_eq!(quote.buy_pool, [buy; 20]);
        assert_eq!(quote.sell_pool, [sell; 20]);
    }
    let amounts: Vec<u128> = quotes[..4].iter().map(|quote| quote.amount_in).collect();
    assert_eq!(
        amounts,
        vec![
            100_000_000_000_000_000,
            500_000_000_000_000_000,
            1_000_000_000_000_000_000,
            5_000_000_000_000_000_000
        ]
    );
}

#[test]
fn a_round_trip_needs_two_pools_of_the_same_pair() {
    let pools = weth_usdc_pools();
    assert!(checked_quotes(&pools[..1], &get_tokens(), WETH).unwrap().is_empty());
    let other = vec![pools[0], pool(3, WETH, ARB, 1_000_000, 1_000_000)];
    assert!(checked_quotes(&other, &get_tokens(), WETH).unwrap().is_empty());
}

#[test]
fn trips_that_pay_nothing_are_not_quoted() {
    // so shallow in USDC that not a single unit is paid
    let pools = vec![
        pool(1, WETH, USDC, 100_000_000_000_000_000_000, 1),
        pool(2, WETH, USDC, 100_000_000_000_000_000_000, 1),
    ];
    assert!(checked_quotes(&pools, &get_tokens(), WETH).unwrap().is_empty());
}

#[test]
fn quotes_beyond_128_bits_are_reported() {
    let deep = 1_000_000_000_000_000_000_000_000;
    let pools = vec![pool(1, WETH, USDC, deep, deep), pool(2, WETH, USDC, deep, deep)];
    assert!(checked_quotes(&pools, &get_tokens(), WETH).is_none());
    // one pool alone is never quoted
    assert!(checked_quotes(&pools[..1], &get_tokens(), WETH).is_some());
}

#[test]
fn another_pool_only_adds() {
    let bps = |quotes: &[Quote]| -> Vec<i32> {
        quotes.iter().map(|quote| (quote.weth_out % 5_000) as i32).collect()
    };
    let old = weth_usdc_pools();
    let quotes = checked_quotes(&old, &get_tokens(), WETH).unwrap();
    let found = find_opportunities(&quotes, &bps(&quotes));
    let new = pool(3, WETH, USDC, 100_000_000_000_000_000_000, 2_500_000_000_000);
    for at in 0..3 {
        let mut more = old.clone();
        more.insert(at, new);
        let more_quotes = checked_quotes(&more, &get_tokens(), WETH).unwrap();
        assert_eq!(more_quotes.len(), 24);
        let more_found = find_opportunities(&more_quotes, &bps(&more_quotes));
        let kept: Vec<_> = more_found
            .iter()
            .filter(|found| found.buy_pool != [3; 20] && found.sell_pool != [3; 20])
            .map(|found| (found.buy_pool, found.amount_in, found.profit_bps, found.profit))
            .collect();
        let before: Vec<_> = found
            .iter()
            .map(|found| (found.buy_pool, found.amount_in, found.profit_bps, found.profit))
            .collect();
        assert_eq!(kept, before);
        assert!(more_found.len() > found.len());
    }
}

fn quote(name: &'static str, amount_in: u128, weth_out: u128) -> Quote {
    Quote { token_name: name, buy_pool: [1u8; 20], sell_pool: [2u8; 20], amount_in, weth_out }
}

#[test]
fn opportunities_are_ranked_by_profit() {
    let quotes = vec![
        quote("A", 1_000, 1_002),
        quote("B", 1_000, 1_500),
        quote("C", 1_000, 1_001),
        quote("D", 1_000, 1_500),
        quote("E", 1_000, 999),
        quote("F", 1_000, 1_000),
    ];
    let found = find_opportunities(&quotes, &[20, 5_000, 9, 5_000, 50, 50]);
    let names: Vec<&str> = found.iter().map(|opportunity| opportunity.token_name).collect();
    // too little profit, a loss and a draw are left out, and equals stay in order
    assert_eq!(names, vec!["B", "D", "A"]);
    assert_eq!(found[0].profit_bps, 5_000);
    assert_eq!(found[0].profit, 500);
    assert_eq!(found[0].amount_in, 1_000);
    assert_eq!(found[2].profit, 2);
    assert_eq!(found[2].buy_pool, [1u8; 20]);
    assert_eq!(found[2].sell_pool, [2u8; 20]);
    assert!(find_opportunities(&[], &[]).is_empty());
}

#[test]
fn ten_basis_points_are_enough() {
    let quotes = vec![quote("A", 1_000, 1_001)];
    assert_eq!(find_opportunities(&quotes, &[10]).len(), 1);
    assert_eq!(find_opportunities(&quotes, &[9]).len(), 0);
}
