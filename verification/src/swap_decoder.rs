//! Detection of swaps in pending transactions, from their recipient and calldata.
use crate::bytes::{
    array20, be_bytes, be_value, law_spelling_is_unique, lemma_be_bytes_len, lemma_be_value_of_bytes,
    lemma_be_value_of_four, lemma_twenty_bytes, word, zeros,
};
use crate::hot_path::address_eq;
use crate::types::Address;
use crate::u256::{lemma_two_256, read_word, two_256, U256};
use vstd::prelude::*;

verus! {

/// Exchanges whose routers are known.
#[derive(Debug, Clone, Copy, PartialEq, Eq, Structural)]
pub enum DexType {
    UniswapV3,
    UniswapV2,
    SushiSwap,
    Camelot,
    Unknown,
}

/// What swap detection reads of a transaction.
#[derive(Debug, Clone)]
pub struct Transaction {
    /// Recipient (none for contract creation).
    pub to: Option<Address>,
    /// Calldata.
    pub input: Vec<u8>,
    /// Value sent, in wei.
    pub value: U256,
}

/// A swap found in a transaction.
#[derive(Debug, Clone, Copy)]
pub struct SwapInfo {
    pub router: Address,
    pub token_in: Address,
    pub token_out: Address,
    pub amount_in: U256,
    pub min_amount_out: U256,
    pub dex_type: DexType,
}

/// What a swap says, over byte strings and numbers.
#[verifier::ext_equal]
pub struct SwapView {
    pub router: Seq<u8>,
    pub token_in: Seq<u8>,
    pub token_out: Seq<u8>,
    pub amount_in: nat,
    pub min_amount_out: nat,
    pub dex_type: DexType,
}

impl View for SwapInfo {
    type V = SwapView;

    open spec fn view(&self) -> SwapView {
        SwapView {
            router: self.router@,
            token_in: self.token_in@,
            token_out: self.token_out@,
            amount_in: self.amount_in@,
            min_amount_out: self.min_amount_out@,
            dex_type: self.dex_type,
        }
    }
}

/// Uniswap V3 SwapRouter on Arbitrum.
pub const UNISWAP_V3_ROUTER: Address = [
    0xe5, 0x92, 0x42, 0x7a, 0x0a, 0xec, 0xe9, 0x2d, 0xe3, 0xed, 0xee, 0x1f, 0x18, 0xe0, 0x15, 0x7c,
    0x05, 0x86, 0x15, 0x64,
];

/// Uniswap V3 SwapRouter02 on Arbitrum.
pub const UNISWAP_V3_ROUTER_02: Address = [
    0x68, 0xb3, 0x46, 0x58, 0x33, 0xfb, 0x72, 0xa7, 0x0e, 0xcd, 0xf4, 0x85, 0xe0, 0xe4, 0xc7, 0xbd,
    0x86, 0x65, 0xfc, 0x45,
];

/// Uniswap Universal Router on Arbitrum.
pub const UNISWAP_UNIVERSAL_ROUTER: Address = [
    0x3f, 0xc9, 0x1a, 0x3a, 0xfd, 0x70, 0x39, 0x5c, 0xd4, 0x96, 0xc6, 0x47, 0xd5, 0xa6, 0xcc, 0x9d,
    0x4b, 0x2b, 0x7f, 0xad,
];

/// SushiSwap Router on Arbitrum.
pub const SUSHISWAP_ROUTER: Address = [
    0x1b, 0x02, 0xda, 0x8c, 0xb0, 0xd0, 0x97, 0xeb, 0x8d, 0x57, 0xa1, 0x75, 0xb8, 0x8c, 0x7d, 0x8b,
    0x47, 0x99, 0x75, 0x06,
];

/// Camelot Router on Arbitrum.
pub const CAMELOT_ROUTER: Address = [
    0xc8, 0x73, 0xfe, 0xcb, 0xd3, 0x54, 0xf5, 0xa5, 0x6e, 0x00, 0xe7, 0x10, 0xb9, 0x0e, 0xf4, 0x20,
    0x1d, 0xb2, 0x44, 0x8d,
];

/// The exchange behind a router's address.
pub open spec fn router_dex(address: Seq<u8>) -> Option<DexType> {
    if address == UNISWAP_V3_ROUTER@ || address == UNISWAP_V3_ROUTER_02@ || address
        == UNISWAP_UNIVERSAL_ROUTER@ {
        Some(DexType::UniswapV3)
    } else if address == SUSHISWAP_ROUTER@ {
        Some(DexType::SushiSwap)
    } else if address == CAMELOT_ROUTER@ {
        Some(DexType::Camelot)
    } else {
        None
    }
}

/// The exchange behind an address, if it is a known router on Arbitrum.
pub fn get_router_type(addr: Address) -> (r: Option<DexType>)
    ensures
        r == router_dex(addr@),
{
    if address_eq(&addr, &UNISWAP_V3_ROUTER) || address_eq(&addr, &UNISWAP_V3_ROUTER_02)
        || address_eq(&addr, &UNISWAP_UNIVERSAL_ROUTER) {
        Some(DexType::UniswapV3)
    } else if address_eq(&addr, &SUSHISWAP_ROUTER) {
        Some(DexType::SushiSwap)
    } else if address_eq(&addr, &CAMELOT_ROUTER) {
        Some(DexType::Camelot)
    } else {
        None
    }
}

/// `swapExactTokensForTokens`.
pub const SWAP_EXACT_TOKENS_FOR_TOKENS: [u8; 4] = [0x38, 0xed, 0x17, 0x39];

/// `swapTokensForExactTokens`.
pub const SWAP_TOKENS_FOR_EXACT_TOKENS: [u8; 4] = [0x88, 0x03, 0xdb, 0xee];

/// `swapExactETHForTokens`.
pub const SWAP_EXACT_ETH_FOR_TOKENS: [u8; 4] = [0x7f, 0xf3, 0x6a, 0xb5];

/// `swapExactTokensForETH`.
pub const SWAP_EXACT_TOKENS_FOR_ETH: [u8; 4] = [0x18, 0xcb, 0xaf, 0xe5];

/// `exactInputSingle` (V3).
pub const EXACT_INPUT_SINGLE: [u8; 4] = [0x41, 0x4b, 0xf3, 0x89];

/// `exactInput` (V3).
pub const EXACT_INPUT: [u8; 4] = [0xc0, 0x4b, 0x8d, 0x59];

/// `exactOutputSingle` (V3).
pub const EXACT_OUTPUT_SINGLE: [u8; 4] = [0xdb, 0x3e, 0x21, 0x98];

/// `exactOutput` (V3).
pub const EXACT_OUTPUT: [u8; 4] = [0xf2, 0x8c, 0x05, 0x98];

/// `execute` (Universal Router).
pub const EXECUTE: [u8; 4] = [0x3c, 0xd0, 0x71, 0x37];

/// `execute` (Universal Router with deadline).
pub const EXECUTE_WITH_DEADLINE: [u8; 4] = [0x24, 0x85, 0x6b, 0xc3];

/// Calldata that starts with the given selector.
pub open spec fn calls(data: Seq<u8>, selector: [u8; 4]) -> bool {
    data.len() >= 4 && data.take(4) == selector@
}

/// Calldata that starts with the selector of a swap.
pub open spec fn calls_swap(data: Seq<u8>) -> bool {
    ||| calls(data, SWAP_EXACT_TOKENS_FOR_TOKENS)
    ||| calls(data, SWAP_TOKENS_FOR_EXACT_TOKENS)
    ||| calls(data, SWAP_EXACT_ETH_FOR_TOKENS)
    ||| calls(data, SWAP_EXACT_TOKENS_FOR_ETH)
    ||| calls(data, EXACT_INPUT_SINGLE)
    ||| calls(data, EXACT_INPUT)
    ||| calls(data, EXACT_OUTPUT_SINGLE)
    ||| calls(data, EXACT_OUTPUT)
    ||| calls(data, EXECUTE)
    ||| calls(data, EXECUTE_WITH_DEADLINE)
}

/// Whether calldata starts with the given selector.
fn starts_with(data: &[u8], selector: [u8; 4]) -> (r: bool)
    ensures
        r == calls(data@, selector),
{
    if data.len() < 4 {
        return false;
    }
    let r: bool = data[0] == selector[0] && data[1] == selector[1] && data[2] == selector[2]
        && data[3] == selector[3];
    proof {
        if r {
            assert(data@.take(4) =~= selector@);
        } else {
            assert(data@.take(4)[0] == data@[0] && data@.take(4)[1] == data@[1]);
            assert(data@.take(4)[2] == data@[2] && data@.take(4)[3] == data@[3]);
        }
    }
    r
}

/// Whether calldata starts with the selector of a swap.
pub fn is_swap_selector(selector: &[u8]) -> (r: bool)
    ensures
        r == calls_swap(selector@),
{
    starts_with(selector, SWAP_EXACT_TOKENS_FOR_TOKENS) || starts_with(
        selector,
        SWAP_TOKENS_FOR_EXACT_TOKENS,
    ) || starts_with(selector, SWAP_EXACT_ETH_FOR_TOKENS) || starts_with(
        selector,
        SWAP_EXACT_TOKENS_FOR_ETH,
    ) || starts_with(selector, EXACT_INPUT_SINGLE) || starts_with(selector, EXACT_INPUT)
        || starts_with(selector, EXACT_OUTPUT_SINGLE) || starts_with(selector, EXACT_OUTPUT)
        || starts_with(selector, EXECUTE) || starts_with(selector, EXECUTE_WITH_DEADLINE)
}

/// The address in the 32-byte word of calldata that starts at `at`.
pub open spec fn address_word(data: Seq<u8>, at: int) -> Seq<u8> {
    data.subrange(at + 12, at + 32)
}

/// The first two tokens of the path to which the word at `head` points: none where the path
/// does not lie within the calldata or holds fewer than two tokens.
pub open spec fn path_tokens(data: Seq<u8>, head: int) -> Option<(Seq<u8>, Seq<u8>)> {
    let path = word(data, head) + 4;
    if data.len() < path + 96 {
        None
    } else {
        let len = word(data, path as int);
        if len < 2 || data.len() < path + 32 + len * 32 {
            None
        } else {
            Some((address_word(data, path as int + 32), address_word(data, path as int + 64)))
        }
    }
}

/// The V2 swaps from tokens, which give the amount, the minimum and a path.
pub open spec fn calls_v2_from_tokens(data: Seq<u8>) -> bool {
    calls(data, SWAP_EXACT_TOKENS_FOR_TOKENS) || calls(data, SWAP_EXACT_TOKENS_FOR_ETH)
}

/// The tokens and amounts that the calldata of a swap names, for a transaction that sends
/// `value`: those of the V2 swaps and of the V3 single swap are read, and any other swap is
/// taken at the value sent, with no tokens. None where the calldata is too short.
pub open spec fn swap_terms(data: Seq<u8>, value: nat) -> Option<(Seq<u8>, Seq<u8>, nat, nat)> {
    if calls_v2_from_tokens(data) {
        if data.len() < 4 + 5 * 32 {
            None
        } else {
            match path_tokens(data, 68) {
                Some((token_in, token_out)) => Some(
                    (token_in, token_out, word(data, 4), word(data, 36)),
                ),
                None => None,
            }
        }
    } else if calls(data, SWAP_EXACT_ETH_FOR_TOKENS) {
        if data.len() < 4 + 4 * 32 {
            None
        } else {
            match path_tokens(data, 36) {
                Some((token_in, token_out)) => Some((token_in, token_out, value, word(data, 4))),
                None => None,
            }
        }
    } else if calls(data, EXACT_INPUT_SINGLE) {
        if data.len() < 4 + 8 * 32 {
            None
        } else {
            Some(
                (
                    address_word(data, 4),
                    address_word(data, 36),
                    word(data, 164),
                    word(data, 196),
                ),
            )
        }
    } else {
        Some((zeros(20), zeros(20), value, 0))
    }
}

/// The swap in a transaction: none unless it calls a swap on a known router and its calldata
/// holds what the swap needs.
pub open spec fn decoded_swap(tx: Transaction) -> Option<SwapView> {
    match tx.to {
        None => None,
        Some(to) => match (router_dex(to@), swap_terms(tx.input@, tx.value@)) {
            (Some(dex_type), Some((token_in, token_out, amount_in, min_amount_out))) => if calls_swap(
                tx.input@,
            ) {
                Some(
                    SwapView {
                        router: to@,
                        token_in,
                        token_out,
                        amount_in,
                        min_amount_out,
                        dex_type,
                    },
                )
            } else {
                None
            },
            _ => None,
        },
    }
}

/// The address in a word of calldata.
fn read_address(data: &[u8], at: usize) -> (r: Address)
    requires
        at + 32 <= data.len(),
    ensures
        r@ == address_word(data@, at as int),
{
    array20(vstd::slice::slice_subrange(data, at + 12, at + 32))
}

/// The first two tokens of a path.
fn read_path(data: &[u8], head: usize) -> (r: Option<(Address, Address)>)
    requires
        head + 32 <= data.len(),
    ensures
        match r {
            Some((token_in, token_out)) => path_tokens(data@, head as int) == Some(
                (token_in@, token_out@),
            ),
            None => path_tokens(data@, head as int) is None,
        },
{
    let path: usize = match read_word(data, head).to_usize() {
        Some(offset) => if offset <= usize::MAX - 100 {
            offset + 4
        } else {
            return None;
        },
        None => {
            return None;
        },
    };
    if data.len() < path + 96 {
        return None;
    }
    let len: usize = match read_word(data, path).to_usize() {
        Some(len) => len,
        None => {
            return None;
        },
    };
    if len < 2 || (data.len() - path - 32) / 32 < len {
        return None;
    }
    Some((read_address(data, path + 32), read_address(data, path + 64)))
}

/// The swap in a transaction, if there is one.
pub fn decode_swap_info(tx: &Transaction) -> (r: Option<SwapInfo>)
    ensures
        match r {
            Some(swap) => decoded_swap(*tx) == Some(swap@),
            None => decoded_swap(*tx) is None,
        },
{
    let to: Address = match tx.to {
        Some(to) => to,
        None => {
            return None;
        },
    };
    let data = tx.input.as_slice();
    if data.len() < 4 {
        return None;
    }
    let dex_type = match get_router_type(to) {
        Some(dex_type) => dex_type,
        None => {
            return None;
        },
    };
    if !is_swap_selector(data) {
        return None;
    }
    let (token_in, token_out, amount_in, min_amount_out): (Address, Address, U256, U256) =
        if starts_with(data, SWAP_EXACT_TOKENS_FOR_TOKENS) || starts_with(
        data,
        SWAP_EXACT_TOKENS_FOR_ETH,
    ) {
        // (uint256 amountIn, uint256 amountOutMin, address[] path, address to, uint256 deadline)
        if data.len() < 4 + 5 * 32 {
            return None;
        }
        match read_path(data, 68) {
            Some((token_in, token_out)) => (
                token_in,
                token_out,
                read_word(data, 4),
                read_word(data, 36),
            ),
            None => {
                return None;
            },
        }
    } else if starts_with(data, SWAP_EXACT_ETH_FOR_TOKENS) {
        // (uint256 amountOutMin, address[] path, address to, uint256 deadline)
        if data.len() < 4 + 4 * 32 {
            return None;
        }
        match read_path(data, 36) {
            Some((token_in, token_out)) => (token_in, token_out, tx.value, read_word(data, 4)),
            None => {
                return None;
            },
        }
    } else if starts_with(data, EXACT_INPUT_SINGLE) {
        // (tokenIn, tokenOut, fee, recipient, deadline, amountIn, amountOutMin, priceLimit)
        if data.len() < 4 + 8 * 32 {
            return None;
        }
        (
            read_address(data, 4),
            read_address(data, 36),
            read_word(data, 4 + 5 * 32),
            read_word(data, 4 + 6 * 32),
        )
    } else {
        // recognised, but its layout is not read
        let no_token: Address = [0u8;20];
        assert(no_token@ =~= zeros(20));
        (no_token, no_token, tx.value, U256::zero())
    };
    Some(SwapInfo { router: to, token_in, token_out, amount_in, min_amount_out, dex_type })
}

/// An address as a word of calldata.
pub open spec fn word_of_address(address: Seq<u8>) -> Seq<u8> {
    zeros(12) + address
}

/// The words of a path.
pub open spec fn path_words(path: Seq<Seq<u8>>) -> Seq<u8>
    decreases path.len(),
{
    if path.len() == 0 {
        Seq::empty()
    } else {
        word_of_address(path[0]) + path_words(path.skip(1))
    }
}

/// A path of at least one hop, of addresses.
pub open spec fn is_path(path: Seq<Seq<u8>>) -> bool {
    path.len() >= 2 && forall|i: int| 0 <= i < path.len() ==> #[trigger] path[i].len() == 20
}

/// The calldata of a V2 swap from tokens.
pub open spec fn v2_from_tokens_calldata(
    selector: [u8; 4],
    amount_in: nat,
    min_amount_out: nat,
    path: Seq<Seq<u8>>,
    recipient: Seq<u8>,
    deadline: nat,
) -> Seq<u8> {
    selector@ + be_bytes(amount_in, 32) + be_bytes(min_amount_out, 32) + be_bytes(160, 32)
        + word_of_address(recipient) + be_bytes(deadline, 32) + be_bytes(path.len(), 32)
        + path_words(path)
}

/// The calldata of a V2 swap from ether.
pub open spec fn v2_from_ether_calldata(
    min_amount_out: nat,
    path: Seq<Seq<u8>>,
    recipient: Seq<u8>,
    deadline: nat,
) -> Seq<u8> {
    SWAP_EXACT_ETH_FOR_TOKENS@ + be_bytes(min_amount_out, 32) + be_bytes(128, 32)
        + word_of_address(recipient) + be_bytes(deadline, 32) + be_bytes(path.len(), 32)
        + path_words(path)
}

/// The calldata of a V3 single swap.
pub open spec fn v3_single_calldata(
    token_in: Seq<u8>,
    token_out: Seq<u8>,
    fee: nat,
    recipient: Seq<u8>,
    deadline: nat,
    amount_in: nat,
    min_amount_out: nat,
    price_limit: nat,
) -> Seq<u8> {
    EXACT_INPUT_SINGLE@ + word_of_address(token_in) + word_of_address(token_out) + be_bytes(fee, 32)
        + word_of_address(recipient) + be_bytes(deadline, 32) + be_bytes(amount_in, 32) + be_bytes(
        min_amount_out,
        32,
    ) + be_bytes(price_limit, 32)
}

proof fn lemma_path_words(path: Seq<Seq<u8>>)
    requires
        forall|i: int| 0 <= i < path.len() ==> #[trigger] path[i].len() == 20,
    ensures
        path_words(path).len() == 32 * path.len(),
        path.len() >= 1 ==> path_words(path).subrange(12, 32) == path[0],
        path.len() >= 2 ==> path_words(path).subrange(44, 64) == path[1],
    decreases path.len(),
{
    if path.len() > 0 {
        let rest = path.skip(1);
        assert forall|i: int| 0 <= i < rest.len() implies #[trigger] rest[i].len() == 20 by {
            assert(rest[i] == path[i + 1]);
        }
        lemma_path_words(rest);
        assert(path_words(path).subrange(12, 32) =~= path[0]);
        if path.len() >= 2 {
            assert(rest[0] == path[1]);
            assert(path_words(path).subrange(44, 64) =~= path_words(rest).subrange(12, 32));
        }
    }
}

/// The swap of a transaction to a known router, on the given terms.
pub open spec fn swap_on_router(
    tx: Transaction,
    token_in: Seq<u8>,
    token_out: Seq<u8>,
    amount_in: nat,
    min_amount_out: nat,
) -> SwapView {
    SwapView {
        router: tx.to->0@,
        token_in,
        token_out,
        amount_in,
        min_amount_out,
        dex_type: router_dex(tx.to->0@)->0,
    }
}

/// The transaction goes to a known router.
pub open spec fn goes_to_router(tx: Transaction) -> bool {
    tx.to matches Some(to) && router_dex(to@) is Some
}

/// Decoding a V2 swap from tokens gives back its amounts and the first two tokens of its path.
pub proof fn law_v2_from_tokens_reads_back(
    tx: Transaction,
    selector: [u8; 4],
    amount_in: nat,
    min_amount_out: nat,
    path: Seq<Seq<u8>>,
    recipient: Seq<u8>,
    deadline: nat,
)
    requires
        goes_to_router(tx),
        selector == SWAP_EXACT_TOKENS_FOR_TOKENS || selector == SWAP_EXACT_TOKENS_FOR_ETH,
        amount_in < two_256(),
        min_amount_out < two_256(),
        is_path(path),
        recipient.len() == 20,
        tx.input@ == v2_from_tokens_calldata(
            selector,
            amount_in,
            min_amount_out,
            path,
            recipient,
            deadline,
        ),
    ensures
        decoded_swap(tx) == Some(
            swap_on_router(tx, path[0], path[1], amount_in, min_amount_out),
        ),
{
    let data = tx.input@;
    assert(data.len() == tx.input.len());
    lemma_two_256();
    lemma_path_words(path);
    lemma_be_bytes_len(amount_in, 32);
    lemma_be_bytes_len(min_amount_out, 32);
    lemma_be_bytes_len(160, 32);
    lemma_be_bytes_len(deadline, 32);
    lemma_be_bytes_len(path.len(), 32);
    lemma_be_value_of_bytes(amount_in, 32);
    lemma_be_value_of_bytes(min_amount_out, 32);
    lemma_be_value_of_bytes(160, 32);
    lemma_be_value_of_bytes(path.len(), 32);
    assert(data.take(4) =~= selector@);
    assert(data.take(4)[0] == selector@[0]);
    assert(data.subrange(4, 36) =~= be_bytes(amount_in, 32));
    assert(data.subrange(36, 68) =~= be_bytes(min_amount_out, 32));
    assert(data.subrange(68, 100) =~= be_bytes(160, 32));
    assert(data.subrange(164, 196) =~= be_bytes(path.len(), 32));
    assert(address_word(data, 196) =~= path_words(path).subrange(12, 32));
    assert(address_word(data, 228) =~= path_words(path).subrange(44, 64));
}

/// Decoding a V2 swap from ether gives back the value sent, its minimum and the first two tokens
/// of its path.
pub proof fn law_v2_from_ether_reads_back(
    tx: Transaction,
    min_amount_out: nat,
    path: Seq<Seq<u8>>,
    recipient: Seq<u8>,
    deadline: nat,
)
    requires
        goes_to_router(tx),
        min_amount_out < two_256(),
        is_path(path),
        recipient.len() == 20,
        tx.input@ == v2_from_ether_calldata(min_amount_out, path, recipient, deadline),
    ensures
        decoded_swap(tx) == Some(
            swap_on_router(tx, path[0], path[1], tx.value@, min_amount_out),
        ),
{
    let data = tx.input@;
    assert(data.len() == tx.input.len());
    lemma_two_256();
    lemma_path_words(path);
    lemma_be_bytes_len(min_amount_out, 32);
    lemma_be_bytes_len(128, 32);
    lemma_be_bytes_len(deadline, 32);
    lemma_be_bytes_len(path.len(), 32);
    lemma_be_value_of_bytes(min_amount_out, 32);
    lemma_be_value_of_bytes(128, 32);
    lemma_be_value_of_bytes(path.len(), 32);
    assert(data.take(4) =~= SWAP_EXACT_ETH_FOR_TOKENS@);
    assert(data.take(4)[0] == 0x7f);
    assert(data.subrange(4, 36) =~= be_bytes(min_amount_out, 32));
    assert(data.subrange(36, 68) =~= be_bytes(128, 32));
    assert(data.subrange(132, 164) =~= be_bytes(path.len(), 32));
    assert(address_word(data, 164) =~= path_words(path).subrange(12, 32));
    assert(address_word(data, 196) =~= path_words(path).subrange(44, 64));
}

/// Decoding a V3 single swap gives back its tokens and amounts.
pub proof fn law_v3_single_reads_back(
    tx: Transaction,
    token_in: Seq<u8>,
    token_out: Seq<u8>,
    fee: nat,
    recipient: Seq<u8>,
    deadline: nat,
    amount_in: nat,
    min_amount_out: nat,
    price_limit: nat,
)
    requires
        goes_to_router(tx),
        token_in.len() == 20,
        token_out.len() == 20,
        recipient.len() == 20,
        amount_in < two_256(),
        min_amount_out < two_256(),
        tx.input@ == v3_single_calldata(
            token_in,
            token_out,
            fee,
            recipient,
            deadline,
            amount_in,
            min_amount_out,
            price_limit,
        ),
    ensures
        decoded_swap(tx) == Some(
            swap_on_router(tx, token_in, token_out, amount_in, min_amount_out),
        ),
{
    let data = tx.input@;
    lemma_two_256();
    lemma_be_bytes_len(fee, 32);
    lemma_be_bytes_len(deadline, 32);
    lemma_be_bytes_len(amount_in, 32);
    lemma_be_bytes_len(min_amount_out, 32);
    lemma_be_bytes_len(price_limit, 32);
    lemma_be_value_of_bytes(amount_in, 32);
    lemma_be_value_of_bytes(min_amount_out, 32);
    assert(data.take(4) =~= EXACT_INPUT_SINGLE@);
    assert(data.take(4)[0] == 0x41);
    assert(address_word(data, 4) =~= token_in);
    assert(address_word(data, 36) =~= token_out);
    assert(data.subrange(164, 196) =~= be_bytes(amount_in, 32));
    assert(data.subrange(196, 228) =~= be_bytes(min_amount_out, 32));
}

/// A swap is found only in a call of a swap on a known router, and then names that router and
/// its exchange.
pub proof fn law_swaps_are_router_calls(tx: Transaction)
    ensures
        decoded_swap(tx) matches Some(swap) ==> {
            &&& tx.to matches Some(to)
            &&& swap.router == to@
            &&& router_dex(to@) == Some(swap.dex_type)
            &&& calls_swap(tx.input@)
        },
{
}

/// The five routers, by the numbers that their addresses spell.
pub proof fn law_known_routers(address: Seq<u8>)
    requires
        address.len() == 20,
    ensures
        router_dex(address) == Some(DexType::UniswapV3) <==> be_value(address)
            == 0xE592427A0AEce92De3Edee1F18E0157C05861564nat || be_value(address)
            == 0x68b3465833fb72A70ecDF485E0e4C7bD8665Fc45nat || be_value(address)
            == 0x3fC91A3afd70395Cd496C647d5a6CC9D4B2b7FADnat,
        router_dex(address) == Some(DexType::SushiSwap) <==> be_value(address)
            == 0x1b02dA8Cb0d097eB8D57A175b88c7D8b47997506nat,
        router_dex(address) == Some(DexType::Camelot) <==> be_value(address)
            == 0xc873fEcbd354f5A56E00E710B90EF4201db2448dnat,
        router_dex(address) != Some(DexType::UniswapV2),
        router_dex(address) != Some(DexType::Unknown),
{
    lemma_spells(UNISWAP_V3_ROUTER, address);
    lemma_spells(UNISWAP_V3_ROUTER_02, address);
    lemma_spells(UNISWAP_UNIVERSAL_ROUTER, address);
    lemma_spells(SUSHISWAP_ROUTER, address);
    lemma_spells(CAMELOT_ROUTER, address);
    assert(be_value(UNISWAP_V3_ROUTER@) == 0xE592427A0AEce92De3Edee1F18E0157C05861564nat) by {
        lemma_twenty_bytes(UNISWAP_V3_ROUTER@);
    }
    assert(be_value(UNISWAP_V3_ROUTER_02@) == 0x68b3465833fb72A70ecDF485E0e4C7bD8665Fc45nat) by {
        lemma_twenty_bytes(UNISWAP_V3_ROUTER_02@);
    }
    assert(be_value(UNISWAP_UNIVERSAL_ROUTER@) == 0x3fC91A3afd70395Cd496C647d5a6CC9D4B2b7FADnat) by {
        lemma_twenty_bytes(UNISWAP_UNIVERSAL_ROUTER@);
    }
    assert(be_value(SUSHISWAP_ROUTER@) == 0x1b02dA8Cb0d097eB8D57A175b88c7D8b47997506nat) by {
        lemma_twenty_bytes(SUSHISWAP_ROUTER@);
    }
    assert(be_value(CAMELOT_ROUTER@) == 0xc873fEcbd354f5A56E00E710B90EF4201db2448dnat) by {
        lemma_twenty_bytes(CAMELOT_ROUTER@);
    }
}

/// An address is the known one exactly if it spells the same number.
proof fn lemma_spells(known: Address, address: Seq<u8>)
    requires
        address.len() == 20,
    ensures
        address == known@ <==> be_value(address) == be_value(known@),
{
    if be_value(address) == be_value(known@) {
        law_spelling_is_unique(address, known@);
    }
}

/// Whether a number is the selector of a swap whose layout is read: the V2 swaps from tokens, from
/// ether, and the V3 single swap.
pub open spec fn is_read_selector(selector: nat) -> bool {
    selector == 0x38ed1739 || selector == 0x18cbafe5 || selector == 0x7ff36ab5 || selector
        == 0x414bf389
}

/// Whether a number is the selector of a swap whose layout is not read: `swapTokensForExactTokens`,
/// `exactInput`, `exactOutputSingle`, `exactOutput` and the two forms of `execute`.
pub open spec fn is_unread_selector(selector: nat) -> bool {
    selector == 0x8803dbee || selector == 0xc04b8d59 || selector == 0xdb3e2198 || selector
        == 0xf28c0598 || selector == 0x3cd07137 || selector == 0x24856bc3
}

/// Calldata starts with a selector exactly if its first four bytes spell the selector's number.
proof fn lemma_selector_number(data: Seq<u8>, selector: [u8; 4])
    ensures
        calls(data, selector) <==> data.len() >= 4 && be_value(data.take(4)) == selector@[0]
            * 0x100_0000 + selector@[1] * 0x1_0000 + selector@[2] * 0x100 + selector@[3],
{
    lemma_be_value_of_four(selector@);
    if data.len() >= 4 {
        lemma_be_value_of_four(data.take(4));
        if be_value(data.take(4)) == be_value(selector@) {
            law_spelling_is_unique(data.take(4), selector@);
        }
    }
}

proof fn lemma_selector_numbers(data: Seq<u8>)
    ensures
        calls(data, SWAP_EXACT_TOKENS_FOR_TOKENS) <==> data.len() >= 4 && be_value(data.take(4))
            == 0x38ed1739,
        calls(data, SWAP_TOKENS_FOR_EXACT_TOKENS) <==> data.len() >= 4 && be_value(data.take(4))
            == 0x8803dbee,
        calls(data, SWAP_EXACT_ETH_FOR_TOKENS) <==> data.len() >= 4 && be_value(data.take(4))
            == 0x7ff36ab5,
        calls(data, SWAP_EXACT_TOKENS_FOR_ETH) <==> data.len() >= 4 && be_value(data.take(4))
            == 0x18cbafe5,
        calls(data, EXACT_INPUT_SINGLE) <==> data.len() >= 4 && be_value(data.take(4))
            == 0x414bf389,
        calls(data, EXACT_INPUT) <==> data.len() >= 4 && be_value(data.take(4)) == 0xc04b8d59,
        calls(data, EXACT_OUTPUT_SINGLE) <==> data.len() >= 4 && be_value(data.take(4))
            == 0xdb3e2198,
        calls(data, EXACT_OUTPUT) <==> data.len() >= 4 && be_value(data.take(4)) == 0xf28c0598,
        calls(data, EXECUTE) <==> data.len() >= 4 && be_value(data.take(4)) == 0x3cd07137,
        calls(data, EXECUTE_WITH_DEADLINE) <==> data.len() >= 4 && be_value(data.take(4))
            == 0x24856bc3,
{
    lemma_selector_number(data, SWAP_EXACT_TOKENS_FOR_TOKENS);
    lemma_selector_number(data, SWAP_TOKENS_FOR_EXACT_TOKENS);
    lemma_selector_number(data, SWAP_EXACT_ETH_FOR_TOKENS);
    lemma_selector_number(data, SWAP_EXACT_TOKENS_FOR_ETH);
    lemma_selector_number(data, EXACT_INPUT_SINGLE);
    lemma_selector_number(data, EXACT_INPUT);
    lemma_selector_number(data, EXACT_OUTPUT_SINGLE);
    lemma_selector_number(data, EXACT_OUTPUT);
    lemma_selector_number(data, EXECUTE);
    lemma_selector_number(data, EXECUTE_WITH_DEADLINE);
}

/// Calldata calls a swap exactly if its first four bytes spell one of ten numbers, whatever
/// follows.
pub proof fn law_swap_selectors(data: Seq<u8>)
    ensures
        calls_swap(data) <==> data.len() >= 4 && (is_read_selector(be_value(data.take(4)))
            || is_unread_selector(be_value(data.take(4)))),
{
    lemma_selector_numbers(data);
}

/// A swap on a known router whose layout is not read is always found, with no tokens, at the value
/// sent and without a minimum, whatever follows the selector.
pub proof fn law_unread_swaps_are_taken_at_value(tx: Transaction)
    requires
        goes_to_router(tx),
        tx.input@.len() >= 4,
        is_unread_selector(be_value(tx.input@.take(4))),
    ensures
        decoded_swap(tx) matches Some(swap) && {
            &&& swap.router == tx.to->0@
            &&& Some(swap.dex_type) == router_dex(tx.to->0@)
            &&& swap.token_in.len() == 20 && forall|i: int|
                0 <= i < 20 ==> #[trigger] swap.token_in[i] == 0
            &&& swap.token_out.len() == 20 && forall|i: int|
                0 <= i < 20 ==> #[trigger] swap.token_out[i] == 0
            &&& swap.amount_in == tx.value@
            &&& swap.min_amount_out == 0
        },
{
    lemma_selector_numbers(tx.input@);
}

/// The number in the word of calldata with the given index behind the selector.
pub open spec fn param(data: Seq<u8>, index: int) -> nat {
    be_value(data.subrange(4 + 32 * index, 36 + 32 * index))
}

/// A V2 swap from tokens on a known router is found exactly if its five words are there and the
/// third points to a path of at least two tokens that lies within the calldata. It then trades the
/// first two tokens of the path, for the amounts in the first two words.
pub proof fn law_v2_from_tokens_is_read(tx: Transaction)
    requires
        goes_to_router(tx),
        tx.input@.len() >= 4,
        be_value(tx.input@.take(4)) == 0x38ed1739 || be_value(tx.input@.take(4)) == 0x18cbafe5,
    ensures
        ({
            let data = tx.input@;
            let path = 4 + param(data, 2) as int;
            let count = be_value(data.subrange(path, path + 32)) as int;
            &&& decoded_swap(tx) is Some <==> data.len() >= 164 && data.len() >= path + 96 && count
                >= 2 && data.len() >= path + 32 + 32 * count
            &&& decoded_swap(tx) matches Some(swap) ==> {
                &&& swap.router == tx.to->0@
                &&& Some(swap.dex_type) == router_dex(tx.to->0@)
                &&& swap.token_in == data.subrange(path + 44, path + 64)
                &&& swap.token_out == data.subrange(path + 76, path + 96)
                &&& swap.amount_in == param(data, 0)
                &&& swap.min_amount_out == param(data, 1)
            }
        }),
{
    lemma_selector_numbers(tx.input@);
}

/// A V2 swap from ether on a known router is found exactly if its four words are there and the
/// second points to a path of at least two tokens that lies within the calldata. It then trades the
/// first two tokens of the path, for the value sent and the minimum in the first word.
pub proof fn law_v2_from_ether_is_read(tx: Transaction)
    requires
        goes_to_router(tx),
        tx.input@.len() >= 4,
        be_value(tx.input@.take(4)) == 0x7ff36ab5,
    ensures
        ({
            let data = tx.input@;
            let path = 4 + param(data, 1) as int;
            let count = be_value(data.subrange(path, path + 32)) as int;
            &&& decoded_swap(tx) is Some <==> data.len() >= 132 && data.len() >= path + 96 && count
                >= 2 && data.len() >= path + 32 + 32 * count
            &&& decoded_swap(tx) matches Some(swap) ==> {
                &&& swap.router == tx.to->0@
                &&& Some(swap.dex_type) == router_dex(tx.to->0@)
                &&& swap.token_in == data.subrange(path + 44, path + 64)
                &&& swap.token_out == data.subrange(path + 76, path + 96)
                &&& swap.amount_in == tx.value@
                &&& swap.min_amount_out == param(data, 0)
            }
        }),
{
    lemma_selector_numbers(tx.input@);
}

/// A V3 single swap on a known router is found exactly if its eight words are there. It then trades
/// the tokens in the first two words, for the amounts in the sixth and the seventh.
pub proof fn law_v3_single_is_read(tx: Transaction)
    requires
        goes_to_router(tx),
        tx.input@.len() >= 4,
        be_value(tx.input@.take(4)) == 0x414bf389,
    ensures
        ({
            let data = tx.input@;
            &&& decoded_swap(tx) is Some <==> data.len() >= 260
            &&& decoded_swap(tx) matches Some(swap) ==> {
                &&& swap.router == tx.to->0@
                &&& Some(swap.dex_type) == router_dex(tx.to->0@)
                &&& swap.token_in == data.subrange(16, 36)
                &&& swap.token_out == data.subrange(48, 68)
                &&& swap.amount_in == param(data, 5)
                &&& swap.min_amount_out == param(data, 6)
            }
        }),
{
    lemma_selector_numbers(tx.input@);
}

/// No swap is found in a transaction that creates a contract, goes to no known router, or does not
/// start with one of the ten selectors.
pub proof fn law_nothing_else_is_a_swap(tx: Transaction)
    requires
        tx.to is None || router_dex(tx.to->0@) is None || tx.input@.len() < 4 || !(
        is_read_selector(be_value(tx.input@.take(4))) || is_unread_selector(
            be_value(tx.input@.take(4)),
        )),
    ensures
        decoded_swap(tx) is None,
{
    lemma_selector_numbers(tx.input@);
}

/// What is said of a swap is said of its fields.
pub proof fn law_swap_view_shows_fields(swap: SwapInfo)
    ensures
        swap@.router == swap.router@,
        swap@.token_in == swap.token_in@,
        swap@.token_out == swap.token_out@,
        swap@.amount_in == swap.amount_in@,
        swap@.min_amount_out == swap.min_amount_out@,
        swap@.dex_type == swap.dex_type,
{
}

} // verus!
