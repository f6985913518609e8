use mev_engine::hexadecimal::addr;
use mev_engine::swap_decoder::{
    decode_swap_info, get_router_type, is_swap_selector, DexType, Transaction,
    CAMELOT_ROUTER, SUSHISWAP_ROUTER, UNISWAP_UNIVERSAL_ROUTER, UNISWAP_V3_ROUTER,
    UNISWAP_V3_ROUTER_02,
};
use mev_engine::types::Address;
use mev_engine::u256::U256;

fn word(n: u64) -> Vec<u8> {
    let mut out = vec![0u8; 24];
    out.extend_from_slice(&n.to_be_bytes());
    out
}

fn address_word(address: Address) -> Vec<u8> {
    let mut out = vec![0u8; 12];
    out.extend_from_slice(&address);
    out
}

fn calldata(selector: [u8; 4], words: Vec<Vec<u8>>) -> Vec<u8> {
    let mut out = selector.to_vec();
    for word in words {
        out.extend(word);
    }
    out
}

fn transaction(to: Option<Address>, input: Vec<u8>, value: u128) -> Transaction {
    Transaction { to, input, value: U256::from_u128(value) }
}

#[test]
fn routers_are_the_known_contracts() {
    assert_eq!(UNISWAP_V3_ROUTER, addr("0xE592427A0AEce92De3Edee1F18E0157C05861564"));
    assert_eq!(UNISWAP_V3_ROUTER_02, addr("0x68b3465833fb72A70ecDF485E0e4C7bD8665Fc45"));
    assert_eq!(UNISWAP_UNIVERSAL_ROUTER, addr("0x3fC91A3afd70395Cd496C647d5a6CC9D4B2b7FAD"));
    assert_eq!(SUSHISWAP_ROUTER, addr("0x1b02dA8Cb0d097eB8D57A175b88c7D8b47997506"));
    assert_eq!(CAMELOT_ROUTER, addr("0xc873fEcbd354f5A56E00E710B90EF4201db2448d"));
    assert_eq!(get_router_type(UNISWAP_V3_ROUTER), Some(DexType::UniswapV3));
    assert_eq!(get_router_type(UNISWAP_V3_ROUTER_02), Some(DexType::UniswapV3));
    assert_eq!(get_router_type(UNISWAP_UNIVERSAL_ROUTER), Some(DexType::UniswapV3));
    assert_eq!(get_router_type(SUSHISWAP_ROUTER), Some(DexType::SushiSwap));
    assert_eq!(get_router_type(CAMELOT_ROUTER), Some(DexType::Camelot));
    assert_eq!(get_router_type([0u8; 20]), None);
}

#[test]
fn swap_selectors_are_recognised() {
    let selectors: [[u8; 4]; 10] = [
        [0x38, 0xed, 0x17, 0x39],
        [0x88, 0x03, 0xdb, 0xee],
        [0x7f, 0xf3, 0x6a, 0xb5],
        [0x18, 0xcb, 0xaf, 0xe5],
        [0x41, 0x4b, 0xf3, 0x89],
        [0xc0, 0x4b, 0x8d, 0x59],
        [0xdb, 0x3e, 0x21, 0x98],
        [0xf2, 0x8c, 0x05, 0x98],
        [0x3c, 0xd0, 0x71, 0x37],
        [0x24, 0x85, 0x6b, 0xc3],
    ];
    for selector in selectors {
        assert!(is_swap_selector(&selector));
        assert!(!is_swap_selector(&selector[..3]));
    }
    assert!(is_swap_selector(&[0x38, 0xed, 0x17, 0x39, 0xff]));
    assert!(!is_swap_selector(&[0x38, 0xed, 0x17, 0x38]));
}

#[test]
fn v2_swap_from_tokens_is_read() {
    for selector in [[0x38, 0xed, 0x17, 0x39], [0x18, 0xcb, 0xaf, 0xe5]] {
        let input = calldata(
            selector,
            vec![
                word(1_000),
                word(900),
                word(160),
                address_word([9u8; 20]),
                word(77),
                word(3),
                address_word([1u8; 20]),
                address_word([2u8; 20]),
                address_word([3u8; 20]),
            ],
        );
        let tx = transaction(Some(SUSHISWAP_ROUTER), input, 5);
        let swap = decode_swap_info(&tx).unwrap();
        assert_eq!(swap.router, SUSHISWAP_ROUTER);
        assert_eq!(swap.dex_type, DexType::SushiSwap);
        assert_eq!(swap.token_in, [1u8; 20]);
        assert_eq!(swap.token_out, [2u8; 20]);
        assert_eq!(swap.amount_in.as_u128(), 1_000);
        assert_eq!(swap.min_amount_out.as_u128(), 900);
    }
}

#[test]
fn v2_swap_from_ether_takes_the_value_sent() {
    let input = calldata(
        [0x7f, 0xf3, 0x6a, 0xb5],
        vec![
            word(900),
            word(128),
            address_word([9u8; 20]),
            word(77),
            word(2),
            address_word([1u8; 20]),
            address_word([2u8; 20]),
        ],
    );
    let tx = transaction(Some(CAMELOT_ROUTER), input, 5_000);
    let swap = decode_swap_info(&tx).unwrap();
    assert_eq!(swap.dex_type, DexType::Camelot);
    assert_eq!(swap.token_in, [1u8; 20]);
    assert_eq!(swap.token_out, [2u8; 20]);
    assert_eq!(swap.amount_in.as_u128(), 5_000);
    assert_eq!(swap.min_amount_out.as_u128(), 900);
}

#[test]
fn v3_single_swap_is_read() {
    let mut input = calldata(
        [0x41, 0x4b, 0xf3, 0x89],
        vec![
            address_word([1u8; 20]),
            address_word([2u8; 20]),
            word(3000),
            address_word([9u8; 20]),
            word(77),
            word(1_000),
            word(900),
            word(0),
        ],
    );
    let tx = transaction(Some(UNISWAP_V3_ROUTER), input.clone(), 0);
    let swap = decode_swap_info(&tx).unwrap();
    assert_eq!(swap.dex_type, DexType::UniswapV3);
    assert_eq!(swap.token_in, [1u8; 20]);
    assert_eq!(swap.token_out, [2u8; 20]);
    assert_eq!(swap.amount_in.as_u128(), 1_000);
    assert_eq!(swap.min_amount_out.as_u128(), 900);
    input.pop();
    assert!(decode_swap_info(&transaction(Some(UNISWAP_V3_ROUTER), input, 0)).is_none());
}

#[test]
fn other_swaps_are_taken_at_their_value() {
    let tx = transaction(Some(UNISWAP_UNIVERSAL_ROUTER), vec![0x3c, 0xd0, 0x71, 0x37], 42);
    let swap = decode_swap_info(&tx).unwrap();
    assert_eq!(swap.token_in, [0u8; 20]);
    assert_eq!(swap.token_out, [0u8; 20]);
    assert_eq!(swap.amount_in.as_u128(), 42);
    assert!(swap.min_amount_out.is_zero());
}

#[test]
fn what_is_no_swap_is_not_decoded() {
    let swap = vec![0x3c, 0xd0, 0x71, 0x37];
    assert!(decode_swap_info(&transaction(None, swap.clone(), 1)).is_none());
    assert!(decode_swap_info(&transaction(Some([7u8; 20]), swap, 1)).is_none());
    assert!(decode_swap_info(&transaction(Some(CAMELOT_ROUTER), vec![0x3c, 0xd0, 0x71], 1)).is_none());
    assert!(decode_swap_info(&transaction(Some(CAMELOT_ROUTER), vec![1, 2, 3, 4, 5], 1)).is_none());
}

#[test]
fn paths_must_lie_within_the_calldata() {
    let head = |offset: u64, len: u64, hops: usize| {
        let mut words = vec![
            word(1_000),
            word(900),
            word(offset),
            address_word([9u8; 20]),
            word(77),
            word(len),
        ];
        for _ in 0..hops {
            words.push(address_word([1u8; 20]));
        }
        transaction(Some(CAMELOT_ROUTER), calldata([0x38, 0xed, 0x17, 0x39], words), 0)
    };
    assert!(decode_swap_info(&head(160, 2, 2)).is_some());
    // a path of one token, one longer than the calldata, and one far outside
    assert!(decode_swap_info(&head(160, 1, 2)).is_none());
    assert!(decode_swap_info(&head(160, 3, 2)).is_none());
    assert!(decode_swap_info(&head(100_000, 2, 2)).is_none());
}

#[test]
fn unaddressable_paths_are_not_decoded() {
    let path_at = |offset: Vec<u8>, len: Vec<u8>| {
        let mut words = vec![word(1_000), word(900), offset, word(0), word(0), len];
        for _ in 0..4 {
            words.push(word(0));
        }
        transaction(Some(CAMELOT_ROUTER), calldata([0x38, 0xed, 0x17, 0x39], words), 0)
    };
    assert!(decode_swap_info(&path_at(vec![0xff; 32], word(2))).is_none());
    assert!(decode_swap_info(&path_at(word(u64::MAX), word(2))).is_none());
    assert!(decode_swap_info(&path_at(word(u64::MAX - 100), word(2))).is_none());
    assert!(decode_swap_info(&path_at(word(160), vec![0xff; 32])).is_none());
    assert!(decode_swap_info(&path_at(word(160), word(u64::MAX))).is_none());
    assert!(decode_swap_info(&path_at(word(160), word(2))).is_some());
}
