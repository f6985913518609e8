use mev_engine::abi::calldata;
use mev_engine::hexadecimal::addr;
use mev_engine::multicall::{
    can_encode_multicall, collect_replies, encode_multicall, parse_multicall_response, MULTICALL3,
};

fn word(n: u64) -> Vec<u8> {
    let mut out = vec![0u8; 24];
    out.extend_from_slice(&n.to_be_bytes());
    out
}

fn join(parts: Vec<Vec<u8>>) -> Vec<u8> {
    parts.concat()
}

#[test]
fn multicall_contract() {
    assert_eq!(MULTICALL3, addr("0xcA11bde05977b3631167028862bE2a173976CA11"));
}

#[test]
fn batch_of_one_call_is_laid_out() {
    let calls = vec![([0x11u8; 20], vec![0x09, 0x02, 0xf1, 0xac])];
    assert!(can_encode_multicall(&calls));
    let mut data = vec![0x09, 0x02, 0xf1, 0xac];
    data.resize(32, 0);
    let mut target = vec![0u8; 12];
    target.extend_from_slice(&[0x11; 20]);
    let expected = join(vec![
        vec![0xbc, 0xe3, 0x8b, 0xd7],
        word(0),    // success is not required
        word(0x40), // where the calls start
        word(1),
        word(0x20), // where the first call starts
        target,
        word(0x40), // where its calldata starts
        word(4),
        data,
    ]);
    assert_eq!(encode_multicall(&calls), expected);
}

#[test]
fn batch_of_two_calls_is_laid_out() {
    // calldata of no bytes, and of one byte more than a word
    let calls = vec![([0x11u8; 20], vec![]), ([0x22u8; 20], vec![0xaa; 33])];
    let target = |byte: u8| [vec![0u8; 12], vec![byte; 20]].concat();
    let expected = join(vec![
        vec![0xbc, 0xe3, 0x8b, 0xd7],
        word(0),
        word(0x40),
        word(2),
        word(0x40),
        word(0xa0),
        target(0x11),
        word(0x40),
        word(0),
        target(0x22),
        word(0x40),
        word(33),
        vec![0xaa; 33],
        vec![0; 31],
    ]);
    assert_eq!(encode_multicall(&calls), expected);
    // other calls, or the same in another order, give other bytes
    let swapped = vec![calls[1].clone(), calls[0].clone()];
    assert!(encode_multicall(&swapped) != expected);
}

#[test]
fn batch_of_no_calls() {
    let expected = join(vec![vec![0xbc, 0xe3, 0x8b, 0xd7], word(0), word(0x40), word(0)]);
    assert_eq!(encode_multicall(&[]), expected);
}

#[test]
fn calldata_is_the_selector_and_the_arguments() {
    assert_eq!(calldata([1, 2, 3, 4], &[5, 6]), vec![1, 2, 3, 4, 5, 6]);
    assert_eq!(calldata([1, 2, 3, 4], &[]), vec![1, 2, 3, 4]);
}

fn response() -> Vec<u8> {
    let mut data = vec![0xaa, 0xbb];
    data.resize(32, 0);
    join(vec![
        word(0x20),
        word(3),
        word(0x60),
        word(0xe0),
        word(0x160),
        // a success with two bytes
        word(1),
        word(0x40),
        word(2),
        data.clone(),
        // a failure with two bytes
        word(0),
        word(0x40),
        word(2),
        data,
        // a success without bytes
        word(1),
        word(0x40),
        word(0),
    ])
}

#[test]
fn replies_are_read_one_by_one() {
    assert_eq!(
        parse_multicall_response(&response()),
        vec![Some(vec![0xaa, 0xbb]), None, None]
    );
}

#[test]
fn malformed_responses_have_no_replies() {
    assert!(parse_multicall_response(&[]).is_empty());
    assert!(parse_multicall_response(&response()[..63]).is_empty());
    assert!(parse_multicall_response(&[0xff; 96]).is_empty());
    let whole = response();
    assert!(parse_multicall_response(&whole[..whole.len() - 1]).is_empty());
}

#[test]
fn only_successes_with_bytes_are_replies() {
    let results = vec![(true, vec![1]), (false, vec![2]), (true, vec![]), (true, vec![3, 4])];
    assert_eq!(
        collect_replies(results),
        vec![Some(vec![1]), None, None, Some(vec![3, 4])]
    );
}
