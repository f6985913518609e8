use mev_engine::hot_path::{
    address_eq, calc_price_impact_batch, function_selector, init_pools, keccak256_fast, parse_swap,
    rlp_encode_address, rlp_encode_u256, selector_of_hash, swap_from_record, DexType,
    OpportunityQueue, SwapInfoFFI, TxBuffer,
};
use mev_engine::u256::U256;

#[test]
fn test_keccak256() {
    let hash = keccak256_fast(b"hello");
    assert!(hash != [0u8; 32]);
    assert_eq!(
        hash.to_vec(),
        hex::decode("1c8aff950685c2ed4bc3174f3472287b56d9517b9c948127319a09a7a36deac8").unwrap()
    );
}

#[test]
fn selector_is_the_start_of_the_digest() {
    assert_eq!(function_selector("transfer(address,uint256)"), [0xa9, 0x05, 0x9c, 0xbb]);
    assert_eq!(function_selector("getReserves()"), [0x09, 0x02, 0xf1, 0xac]);
    let mut hash = [7u8; 32];
    hash[0] = 1;
    assert_eq!(selector_of_hash(&hash), [1, 7, 7, 7]);
}

#[test]
fn addresses_compare_by_their_bytes() {
    let mut other = [3u8; 20];
    assert!(address_eq(&[3u8; 20], &other));
    other[19] = 4;
    assert!(!address_eq(&[3u8; 20], &other));
}

#[test]
fn batch_prices_each_pool() {
    let out = calc_price_impact_batch(
        &[1_000_000, 0, 1_000_000, 5_000],
        &[2_000_000, 5, 1_000_000, 10],
        1_000,
    );
    assert_eq!(out, [1992, 0, 996, 1]);
}

#[test]
fn memory_pools_and_fallback_parser() {
    assert!(init_pools());
    assert!(parse_swap(&[0x38, 0xed, 0x17, 0x39]).is_none());
}

#[test]
fn record_becomes_a_swap() {
    let mut record = SwapInfoFFI::default();
    record.token_in = [1u8; 20];
    record.token_out = [2u8; 20];
    record.amount_in[31] = 9;
    record.amount_out_min[30] = 1;
    record.pool_address = [5u8; 20];
    record.fee = 3000;
    // a record of code 0 names no exchange
    assert!(swap_from_record(0, &record).is_none());
    record.dex_type = 4;
    assert!(swap_from_record(0, &record).is_none());
    record.dex_type = 2;
    assert!(swap_from_record(1, &record).is_none());
    let swap = swap_from_record(0, &record).unwrap();
    assert_eq!(swap.dex_type, DexType::UniswapV3);
    assert_eq!(swap.token_in, [1u8; 20]);
    assert_eq!(swap.token_out, [2u8; 20]);
    assert_eq!(swap.amount_in.limbs, [9, 0, 0, 0]);
    assert_eq!(swap.amount_out_min.limbs, [256, 0, 0, 0]);
    assert_eq!(swap.pool_address, [5u8; 20]);
    assert_eq!(swap.fee, 3000);
    record.dex_type = 1;
    assert_eq!(swap_from_record(0, &record).unwrap().dex_type, DexType::UniswapV2);
    record.dex_type = 3;
    assert_eq!(swap_from_record(0, &record).unwrap().dex_type, DexType::SushiSwap);
}

#[test]
fn rlp_of_an_address() {
    let item = rlp_encode_address(&[0x11; 20]);
    assert_eq!(item.len(), 21);
    assert_eq!(item[0], 0x94);
    assert_eq!(item[1..], [0x11; 20]);
}

#[test]
fn rlp_of_numbers() {
    assert_eq!(rlp_encode_u256(U256::zero()), vec![0]);
    assert_eq!(rlp_encode_u256(U256::from_u128(0x7f)), vec![0x7f]);
    assert_eq!(rlp_encode_u256(U256::from_u128(0x80)), vec![0x81, 0x80]);
    assert_eq!(rlp_encode_u256(U256::from_u128(0x0400)), vec![0x82, 0x04, 0x00]);
    let max = U256 { limbs: [u64::MAX; 4] };
    let item = rlp_encode_u256(max);
    assert_eq!(item.len(), 33);
    assert_eq!(item[0], 0xa0);
    assert_eq!(item[1..], [0xff; 32]);
}

#[test]
fn queue_is_first_in_first_out() {
    let mut queue: OpportunityQueue<u32> = OpportunityQueue::new(2).unwrap();
    assert!(queue.is_empty());
    assert_eq!(queue.pop(), None);
    assert!(queue.push(1));
    assert!(queue.push(2));
    assert!(queue.push(3));
    assert_eq!(queue.len(), 3);
    assert_eq!(queue.pop(), Some(1));
    assert!(queue.push(4));
    assert_eq!(queue.pop(), Some(2));
    assert_eq!(queue.pop(), Some(3));
    assert_eq!(queue.pop(), Some(4));
    assert!(queue.is_empty());
}

#[test]
fn buffer_reads_back_what_was_written() {
    let mut buffer = TxBuffer::new().unwrap();
    assert!(buffer.as_slice().is_empty());
    buffer.as_mut_slice(3).copy_from_slice(&[1, 2, 3]);
    assert_eq!(buffer.as_slice(), [1, 2, 3]);
    // a longer slice finds the old bytes and zeros behind them
    assert_eq!(buffer.as_mut_slice(5).to_vec(), vec![1, 2, 3, 0, 0]);
    assert_eq!(buffer.as_mut_slice(10_000).len(), 512);
    assert_eq!(buffer.as_slice().len(), 512);
}
