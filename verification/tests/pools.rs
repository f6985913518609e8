use mev_engine::discovery::{discovery_calls, pool_lookups};
use mev_engine::hexadecimal::addr;
use mev_engine::multicall::can_encode_multicall;
use mev_engine::pool_manager::UltraFastPoolManager;
use mev_engine::pools::{
    factories, get_tokens, PoolData, CAMELOT_FACTORY, SUSHISWAP_FACTORY, UNISWAP_V3_FACTORY, USDC,
    WETH,
};

fn word(n: u128) -> Vec<u8> {
    let mut out = vec![0u8; 16];
    out.extend_from_slice(&n.to_be_bytes());
    out
}

fn address_word(address: [u8; 20]) -> Vec<u8> {
    let mut out = vec![0u8; 12];
    out.extend_from_slice(&address);
    out
}

#[test]
fn tokens_are_the_known_contracts() {
    let expected = [
        ("WETH", "0x82aF49447D8a07e3bd95BD0d56f35241523fBab1"),
        ("USDC", "0xaf88d065e77c8cC2239327C5EDb3A432268e5831"),
        ("USDT", "0xFd086bC7CD5C481DCC9C85ebE478A1C0b69FCbb9"),
        ("ARB", "0x912CE59144191C1204E64559FE8253a0e49E6548"),
        ("WBTC", "0x2f2a2543B76A4166549F7aaB2e75Bef0aefC5B0f"),
        ("GMX", "0xfc5A1A6EB076a2C7aD06eD22C90d7E710E35ad0a"),
        ("LINK", "0xf97f4df75117a78c1A5a0DBb814Af92458539FB4"),
        ("UNI", "0xFa7F8980b0f1E64A2062791cc3b0871572f1F7f0"),
        ("PENDLE", "0x0c880f6761F1af8d9Aa9C466984b80DAb9a8c9e8"),
        ("MAGIC", "0x539bdE0d7Dbd336b79148AA742883198BBF60342"),
        ("GRAIL", "0x3d9907F9a368ad0a51Be60f7Da3b97cf940982D8"),
        ("RDNT", "0x3082CC23568eA640225c2467653dB90e9250AaA0"),
    ];
    let tokens = get_tokens();
    assert_eq!(tokens.len(), expected.len());
    for (token, (name, address)) in tokens.iter().zip(expected) {
        assert_eq!(token.0, name);
        assert_eq!(token.1, addr(address));
    }
}

#[test]
fn factories_are_the_known_contracts() {
    assert_eq!(
        factories(),
        (
            addr("0x1F98431c8aD98523631AE4a59f267346ea31F984"),
            addr("0xc35DADB65012eC5796536bD9864eD8773aBc74C4"),
            addr("0x6EcCab422D763aC031210895C81787E87B43A652"),
        )
    );
}

fn pool(reserve0: u128, reserve1: u128, fee_bps: u32) -> PoolData {
    PoolData {
        address: [1u8; 20],
        token0: WETH,
        token1: USDC,
        is_v3: false,
        fee_bps,
        reserve0,
        reserve1,
    }
}

#[test]
fn pool_pays_in_both_directions() {
    let pool = pool(1_000_000, 2_000_000, 30);
    assert_eq!(pool.get_amount_out(1_000, true), 1_992);
    assert_eq!(pool.get_amount_out(1_000, false), 498);
    assert_eq!(pool.get_amount_out(0, true), 0);
}

#[test]
fn empty_pool_pays_nothing() {
    assert_eq!(pool(0, 2_000_000, 30).get_amount_out(1_000, true), 0);
    assert_eq!(pool(1_000_000, 0, 30).get_amount_out(1_000, true), 0);
    // whatever its fee
    assert_eq!(pool(0, 0, 20_000).checked_amount_out(u128::MAX, true), Some(0));
}

#[test]
fn pool_cannot_quote_beyond_128_bits() {
    assert_eq!(pool(1_000, 1_000, 30).checked_amount_out(u128::MAX, true), None);
    assert_eq!(pool(u128::MAX, 1_000, 30).checked_amount_out(1, true), None);
    assert_eq!(pool(1_000, 1_000, 10_001).checked_amount_out(1, true), None);
}

#[test]
fn every_pair_is_looked_up_five_times() {
    let tokens = get_tokens();
    let lookups = pool_lookups(&tokens);
    assert_eq!(lookups.len(), 330);
    // WETH and USDC come first, the smaller address in front
    for lookup in &lookups[..5] {
        assert_eq!(lookup.token0, WETH);
        assert_eq!(lookup.token1, USDC);
    }
    let fees: Vec<u32> = lookups[..5].iter().map(|lookup| lookup.fee).collect();
    assert_eq!(fees, vec![500, 3000, 10000, 30, 30]);
    let kinds: Vec<bool> = lookups[..5].iter().map(|lookup| lookup.is_v3).collect();
    assert_eq!(kinds, vec![true, true, true, false, false]);
    assert_eq!(lookups[0].factory, UNISWAP_V3_FACTORY);
    assert_eq!(lookups[3].factory, SUSHISWAP_FACTORY);
    assert_eq!(lookups[4].factory, CAMELOT_FACTORY);
    for lookup in &lookups {
        assert!(lookup.token0 < lookup.token1);
    }
    assert!(can_encode_multicall(&discovery_calls(&lookups)));
    assert!(pool_lookups(&tokens[..1]).is_empty());
    for i in 0..tokens.len() {
        for j in i + 1..tokens.len() {
            let (a, b) = (tokens[i].1, tokens[j].1);
            let (token0, token1) = if a < b { (a, b) } else { (b, a) };
            let asked = lookups
                .iter()
                .filter(|lookup| lookup.token0 == token0 && lookup.token1 == token1)
                .count();
            assert_eq!(asked, 5);
        }
    }
}

#[test]
fn tokens_are_looked_up_in_the_order_of_their_addresses() {
    let tokens = get_tokens();
    for pair in [[tokens[0], tokens[1]], [tokens[1], tokens[0]]] {
        for lookup in pool_lookups(&pair) {
            assert_eq!((lookup.token0, lookup.token1), (WETH, USDC));
        }
    }
}

#[test]
fn lookups_become_calls() {
    let calls = discovery_calls(&pool_lookups(&get_tokens()[..2]));
    assert_eq!(calls.len(), 5);
    assert_eq!(calls[1].0, UNISWAP_V3_FACTORY);
    assert_eq!(
        calls[1].1,
        [
            vec![0x16, 0x98, 0xee, 0x82],
            address_word(WETH),
            address_word(USDC),
            word(3000)
        ]
        .concat()
    );
    assert_eq!(calls[4].0, CAMELOT_FACTORY);
    assert_eq!(
        calls[4].1,
        [vec![0xe6, 0xa4, 0x39, 0x05], address_word(WETH), address_word(USDC)].concat()
    );
}

fn manager() -> UltraFastPoolManager {
    let lookups = pool_lookups(&get_tokens()[..2]);
    let mut manager = UltraFastPoolManager::new();
    manager.record_discovery(
        &lookups,
        &[
            Some(address_word([0xa1; 20])),
            // too short, no reply, and no pool
            Some(vec![1; 31]),
            None,
            Some(address_word([0xb1; 20])),
            Some(address_word([0u8; 20])),
            // a reply too many
            Some(address_word([0xcc; 20])),
        ],
    );
    manager
}

#[test]
fn discovery_finds_the_named_pools() {
    let manager = manager();
    assert_eq!(manager.v3_pools().len(), 1);
    assert_eq!(manager.v3_pools()[0].address, [0xa1; 20]);
    assert_eq!(manager.v3_pools()[0].fee_bps, 5);
    assert_eq!(manager.v2_pools().len(), 1);
    assert_eq!(manager.v2_pools()[0].address, [0xb1; 20]);
    assert_eq!(manager.v2_pools()[0].token0, WETH);
    assert_eq!(manager.v2_pools()[0].token1, USDC);
    assert_eq!(manager.v2_pools()[0].fee_bps, 30);
    assert!(manager.pools().is_empty());
    assert_eq!(manager.multicall_addr(), addr("0xcA11bde05977b3631167028862bE2a173976CA11"));
}

#[test]
fn refresh_asks_v2_pools_and_then_v3_pools() {
    assert_eq!(
        manager().refresh_calls(),
        vec![
            ([0xb1; 20], vec![0x09, 0x02, 0xf1, 0xac]),
            ([0xa1; 20], vec![0x38, 0x50, 0xc7, 0xbd]),
            ([0xa1; 20], vec![0x1a, 0x68, 0x65, 0x02]),
        ]
    );
}

#[test]
fn refresh_takes_in_reserves() {
    let mut manager = manager();
    // a square root price of 2 in units of 2^96
    let replies = vec![
        Some([word(5_000), word(7_000)].concat()),
        Some(word(2 << 96)),
        Some(word(1_000_000)),
    ];
    assert!(manager.can_apply_refresh(&replies));
    manager.apply_refresh(&replies);
    let pools = manager.pools().to_vec();
    assert_eq!(pools.len(), 2);
    assert_eq!(pools[0].address, [0xb1; 20]);
    assert!(!pools[0].is_v3);
    assert_eq!((pools[0].reserve0, pools[0].reserve1), (5_000, 7_000));
    assert_eq!(pools[0].fee_bps, 30);
    assert_eq!(pools[1].address, [0xa1; 20]);
    assert!(pools[1].is_v3);
    assert_eq!((pools[1].reserve0, pools[1].reserve1), (500_000, 2_000_000));
    assert_eq!(pools[1].fee_bps, 5);
    assert!(pools[1].reserve0 * pools[1].reserve1 <= 1_000_000 * 1_000_000);

    // replies that do not count leave what is known
    manager.apply_refresh(&[Some([word(1_000), word(7_000)].concat()), Some(word(0)), Some(word(9))]);
    assert_eq!(manager.pools()[0].reserve0, 5_000);
    assert_eq!(manager.pools()[1].reserve0, 500_000);
    manager.apply_refresh(&[]);
    assert_eq!(manager.pools().len(), 2);

    // and those that do take its place
    manager.apply_refresh(&[Some([word(1_001), word(7_001)].concat())]);
    assert_eq!(manager.pools().len(), 2);
    assert_eq!((manager.pools()[0].reserve0, manager.pools()[0].reserve1), (1_001, 7_001));
}

#[test]
fn reserves_beyond_128_bits_are_reported() {
    let manager = manager();
    let huge = vec![0xff; 64];
    assert!(!manager.can_apply_refresh(&[Some(huge.clone())]));
    assert!(!manager.can_apply_refresh(&[None, Some(word(1)), Some(huge[..32].to_vec())]));
    // a price so low that the first reserve is out of range
    assert!(!manager.can_apply_refresh(&[None, Some(word(1)), Some(word(u128::MAX))]));
    // a price so high that the product is
    assert!(!manager.can_apply_refresh(&[None, Some(huge[..32].to_vec()), Some(word(2))]));
    // without liquidity the price does not matter
    assert!(manager.can_apply_refresh(&[None, Some(huge[..32].to_vec()), Some(word(0))]));
    assert!(manager.can_apply_refresh(&[Some(huge[..63].to_vec())]));
}

fn batch_response(replies: &[Vec<u8>]) -> Vec<u8> {
    let mut heads: Vec<u8> = Vec::new();
    let mut tails: Vec<u8> = Vec::new();
    for reply in replies {
        heads.extend(word((32 * replies.len() + tails.len()) as u128));
        tails.extend(word(1));
        tails.extend(word(0x40));
        tails.extend(word(reply.len() as u128));
        tails.extend(reply);
    }
    [word(0x20), word(replies.len() as u128), heads, tails].concat()
}

#[test]
fn responses_are_taken_in_as_bytes() {
    let lookups = pool_lookups(&get_tokens()[..2]);
    let mut manager = UltraFastPoolManager::new();
    manager.record_discovery_response(
        &lookups,
        &batch_response(&[address_word([0xa1; 20]), address_word([0u8; 20])]),
    );
    assert_eq!(manager.v3_pools().len(), 1);
    assert!(manager.v2_pools().is_empty());

    assert!(manager.apply_refresh_response(&batch_response(&[word(1 << 96), word(4_000)])));
    assert_eq!(manager.pools().len(), 1);
    assert_eq!((manager.pools()[0].reserve0, manager.pools()[0].reserve1), (4_000, 4_000));

    // what is no response changes nothing, and what cannot be held is reported
    assert!(manager.apply_refresh_response(&[1, 2, 3]));
    assert!(!manager.apply_refresh_response(&batch_response(&[word(1), word(u128::MAX)])));
    assert_eq!((manager.pools()[0].reserve0, manager.pools()[0].reserve1), (4_000, 4_000));
}
