//! Pools of the exchanges on Arbitrum: where to look for them, what they hold, and what they pay.
use crate::amm::{is_fair_output, law_output_is_greatest, swap_out, BPS};
use crate::bytes::{be_value, lemma_twenty_bytes};
use crate::types::Address;
use vstd::arithmetic::mul::lemma_mul_nonnegative;
use vstd::prelude::*;

verus! {

/// Wrapped ether.
pub const WETH: Address = [
    0x82, 0xaf, 0x49, 0x44, 0x7d, 0x8a, 0x07, 0xe3, 0xbd, 0x95, 0xbd, 0x0d, 0x56, 0xf3, 0x52, 0x41,
    0x52, 0x3f, 0xba, 0xb1,
];

pub const USDC: Address = [
    0xaf, 0x88, 0xd0, 0x65, 0xe7, 0x7c, 0x8c, 0xc2, 0x23, 0x93, 0x27, 0xc5, 0xed, 0xb3, 0xa4, 0x32,
    0x26, 0x8e, 0x58, 0x31,
];

pub const USDT: Address = [
    0xfd, 0x08, 0x6b, 0xc7, 0xcd, 0x5c, 0x48, 0x1d, 0xcc, 0x9c, 0x85, 0xeb, 0xe4, 0x78, 0xa1, 0xc0,
    0xb6, 0x9f, 0xcb, 0xb9,
];

pub const ARB: Address = [
    0x91, 0x2c, 0xe5, 0x91, 0x44, 0x19, 0x1c, 0x12, 0x04, 0xe6, 0x45, 0x59, 0xfe, 0x82, 0x53, 0xa0,
    0xe4, 0x9e, 0x65, 0x48,
];

pub const WBTC: Address = [
    0x2f, 0x2a, 0x25, 0x43, 0xb7, 0x6a, 0x41, 0x66, 0x54, 0x9f, 0x7a, 0xab, 0x2e, 0x75, 0xbe, 0xf0,
    0xae, 0xfc, 0x5b, 0x0f,
];

pub const GMX: Address = [
    0xfc, 0x5a, 0x1a, 0x6e, 0xb0, 0x76, 0xa2, 0xc7, 0xad, 0x06, 0xed, 0x22, 0xc9, 0x0d, 0x7e, 0x71,
    0x0e, 0x35, 0xad, 0x0a,
];

pub const LINK: Address = [
    0xf9, 0x7f, 0x4d, 0xf7, 0x51, 0x17, 0xa7, 0x8c, 0x1a, 0x5a, 0x0d, 0xbb, 0x81, 0x4a, 0xf9, 0x24,
    0x58, 0x53, 0x9f, 0xb4,
];

pub const UNI: Address = [
    0xfa, 0x7f, 0x89, 0x80, 0xb0, 0xf1, 0xe6, 0x4a, 0x20, 0x62, 0x79, 0x1c, 0xc3, 0xb0, 0x87, 0x15,
    0x72, 0xf1, 0xf7, 0xf0,
];

pub const PENDLE: Address = [
    0x0c, 0x88, 0x0f, 0x67, 0x61, 0xf1, 0xaf, 0x8d, 0x9a, 0xa9, 0xc4, 0x66, 0x98, 0x4b, 0x80, 0xda,
    0xb9, 0xa8, 0xc9, 0xe8,
];

pub const MAGIC: Address = [
    0x53, 0x9b, 0xde, 0x0d, 0x7d, 0xbd, 0x33, 0x6b, 0x79, 0x14, 0x8a, 0xa7, 0x42, 0x88, 0x31, 0x98,
    0xbb, 0xf6, 0x03, 0x42,
];

pub const GRAIL: Address = [
    0x3d, 0x99, 0x07, 0xf9, 0xa3, 0x68, 0xad, 0x0a, 0x51, 0xbe, 0x60, 0xf7, 0xda, 0x3b, 0x97, 0xcf,
    0x94, 0x09, 0x82, 0xd8,
];

pub const RDNT: Address = [
    0x30, 0x82, 0xcc, 0x23, 0x56, 0x8e, 0xa6, 0x40, 0x22, 0x5c, 0x24, 0x67, 0x65, 0x3d, 0xb9, 0x0e,
    0x92, 0x50, 0xaa, 0xa0,
];

/// The Uniswap V3 factory.
pub const UNISWAP_V3_FACTORY: Address = [
    0x1f, 0x98, 0x43, 0x1c, 0x8a, 0xd9, 0x85, 0x23, 0x63, 0x1a, 0xe4, 0xa5, 0x9f, 0x26, 0x73, 0x46,
    0xea, 0x31, 0xf9, 0x84,
];

/// The SushiSwap factory.
pub const SUSHISWAP_FACTORY: Address = [
    0xc3, 0x5d, 0xad, 0xb6, 0x50, 0x12, 0xec, 0x57, 0x96, 0x53, 0x6b, 0xd9, 0x86, 0x4e, 0xd8, 0x77,
    0x3a, 0xbc, 0x74, 0xc4,
];

/// The Camelot factory.
pub const CAMELOT_FACTORY: Address = [
    0x6e, 0xcc, 0xab, 0x42, 0x2d, 0x76, 0x3a, 0xc0, 0x31, 0x21, 0x08, 0x95, 0xc8, 0x17, 0x87, 0xe8,
    0x7b, 0x43, 0xa6, 0x52,
];

/// The names of the tokens that pools are looked for, in order.
pub open spec fn token_names() -> Seq<Seq<char>> {
    seq![
        "WETH"@,
        "USDC"@,
        "USDT"@,
        "ARB"@,
        "WBTC"@,
        "GMX"@,
        "LINK"@,
        "UNI"@,
        "PENDLE"@,
        "MAGIC"@,
        "GRAIL"@,
        "RDNT"@,
    ]
}

/// The addresses of the tokens that pools are looked for, in order.
pub open spec fn token_addresses() -> Seq<Address> {
    seq![WETH, USDC, USDT, ARB, WBTC, GMX, LINK, UNI, PENDLE, MAGIC, GRAIL, RDNT]
}

/// The names in a list of tokens.
pub open spec fn names_of(tokens: Seq<(&'static str, Address)>) -> Seq<Seq<char>> {
    tokens.map_values(|token: (&'static str, Address)| token.0@)
}

/// The addresses in a list of tokens.
pub open spec fn addresses_of(tokens: Seq<(&'static str, Address)>) -> Seq<Address> {
    tokens.map_values(|token: (&'static str, Address)| token.1)
}

/// The tokens that pools are looked for. The first is wrapped ether.
pub fn get_tokens() -> (r: Vec<(&'static str, Address)>)
    ensures
        names_of(r@) == token_names(),
        addresses_of(r@) == token_addresses(),
{
    let tokens: Vec<(&'static str, Address)> = vec![
        ("WETH", WETH),
        ("USDC", USDC),
        ("USDT", USDT),
        ("ARB", ARB),
        ("WBTC", WBTC),
        ("GMX", GMX),
        ("LINK", LINK),
        ("UNI", UNI),
        ("PENDLE", PENDLE),
        ("MAGIC", MAGIC),
        ("GRAIL", GRAIL),
        ("RDNT", RDNT),
    ];
    assert(names_of(tokens@) =~= token_names());
    assert(addresses_of(tokens@) =~= token_addresses());
    tokens
}

/// The Uniswap V3, SushiSwap and Camelot factories.
pub fn factories() -> (r: (Address, Address, Address))
    ensures
        r == (UNISWAP_V3_FACTORY, SUSHISWAP_FACTORY, CAMELOT_FACTORY),
{
    (UNISWAP_V3_FACTORY, SUSHISWAP_FACTORY, CAMELOT_FACTORY)
}

/// A pool and what it holds.
#[derive(Clone, Copy, Debug)]
pub struct PoolData {
    pub address: Address,
    pub token0: Address,
    pub token1: Address,
    pub is_v3: bool,
    pub fee_bps: u32,
    pub reserve0: u128,
    pub reserve1: u128,
}

/// The arithmetic of a quote stays within 128 bits. A pool with an empty side needs none.
pub open spec fn quote_fits(amount_in: int, reserve_in: int, reserve_out: int, fee_bps: int) -> bool {
    reserve_in != 0 && reserve_out != 0 ==> {
        let after_fee = amount_in * (BPS - fee_bps);
        &&& fee_bps <= BPS
        &&& after_fee <= u128::MAX
        &&& after_fee * reserve_out <= u128::MAX
        &&& reserve_in * BPS + after_fee <= u128::MAX
    }
}

impl PoolData {
    /// What the pool holds of the token that goes in.
    pub open spec fn reserve_in(self, zero_for_one: bool) -> int {
        if zero_for_one {
            self.reserve0 as int
        } else {
            self.reserve1 as int
        }
    }

    /// What the pool pays for an amount of its first token (`zero_for_one`) or its second.
    pub open spec fn amount_out(self, amount_in: int, zero_for_one: bool) -> int {
        swap_out(
            amount_in,
            self.reserve_in(zero_for_one),
            self.reserve_in(!zero_for_one),
            self.fee_bps as int,
        )
    }

    /// The arithmetic of `amount_out` stays within 128 bits.
    pub open spec fn amount_out_fits(self, amount_in: int, zero_for_one: bool) -> bool {
        quote_fits(
            amount_in,
            self.reserve_in(zero_for_one),
            self.reserve_in(!zero_for_one),
            self.fee_bps as int,
        )
    }

    /// What the pool pays, or nothing where the arithmetic leaves 128 bits.
    pub fn checked_amount_out(&self, amount_in: u128, zero_for_one: bool) -> (r: Option<u128>)
        ensures
            r == if self.amount_out_fits(amount_in as int, zero_for_one) {
                Some(self.amount_out(amount_in as int, zero_for_one) as u128)
            } else {
                None
            },
            r matches Some(out) ==> out == self.amount_out(amount_in as int, zero_for_one),
            r matches Some(out) ==> is_fair_output(
                amount_in as int,
                if zero_for_one {
                    self.reserve0 as int
                } else {
                    self.reserve1 as int
                },
                if zero_for_one {
                    self.reserve1 as int
                } else {
                    self.reserve0 as int
                },
                self.fee_bps as int,
                out as int,
            ),
    {
        let (r_in, r_out): (u128, u128) = if zero_for_one {
            (self.reserve0, self.reserve1)
        } else {
            (self.reserve1, self.reserve0)
        };
        if r_in == 0 || r_out == 0 {
            return Some(0);
        }
        if self.fee_bps > 10_000 {
            return None;
        }
        let fee_factor: u128 = BPS - self.fee_bps as u128;
        proof {
            lemma_mul_nonnegative(amount_in as int, fee_factor as int);
            lemma_mul_nonnegative(amount_in * fee_factor, r_out as int);
            law_output_is_greatest(
                amount_in as int,
                r_in as int,
                r_out as int,
                self.fee_bps as int,
            );
        }
        match amount_in.checked_mul(fee_factor) {
            None => None,
            Some(after_fee) => match (after_fee.checked_mul(r_out), r_in.checked_mul(BPS)) {
                (Some(numerator), Some(scaled)) => match scaled.checked_add(after_fee) {
                    Some(denominator) => {
                        proof {
                            if amount_in == 0 {
                                assert(numerator == 0) by (nonlinear_arith)
                                    requires
                                        numerator == after_fee * r_out,
                                        after_fee == amount_in * fee_factor,
                                        amount_in == 0,
                                ;
                            }
                        }
                        Some(numerator / denominator)
                    },
                    None => None,
                },
                _ => None,
            },
        }
    }

    /// What the pool pays for an amount of its first token (`zero_for_one`) or its second.
    pub fn get_amount_out(&self, amount_in: u128, zero_for_one: bool) -> (r: u128)
        requires
            self.amount_out_fits(amount_in as int, zero_for_one),
        ensures
            r == self.amount_out(amount_in as int, zero_for_one),
    {
        self.checked_amount_out(amount_in, zero_for_one).unwrap()
    }
}

/// In either direction and at every fee, a pool pays the most that the constant product of its
/// two reserves leaves.
pub proof fn law_pool_pays_fair_output(pool: PoolData, amount_in: int)
    requires
        0 <= amount_in,
        pool.fee_bps <= 10_000,
    ensures
        is_fair_output(
            amount_in,
            pool.reserve0 as int,
            pool.reserve1 as int,
            pool.fee_bps as int,
            pool.amount_out(amount_in, true),
        ),
        is_fair_output(
            amount_in,
            pool.reserve1 as int,
            pool.reserve0 as int,
            pool.fee_bps as int,
            pool.amount_out(amount_in, false),
        ),
{
    law_output_is_greatest(
        amount_in,
        pool.reserve0 as int,
        pool.reserve1 as int,
        pool.fee_bps as int,
    );
    law_output_is_greatest(
        amount_in,
        pool.reserve1 as int,
        pool.reserve0 as int,
        pool.fee_bps as int,
    );
}

/// A quote can be computed wherever the fee is at most everything and its products and its sum
/// stay below `2^128`, and wherever a side of the pool is empty.
pub proof fn law_quote_fits_in_128_bits(pool: PoolData, amount_in: int, zero_for_one: bool)
    requires
        0 <= amount_in,
    ensures
        ({
            let (r_in, r_out) = if zero_for_one {
                (pool.reserve0 as int, pool.reserve1 as int)
            } else {
                (pool.reserve1 as int, pool.reserve0 as int)
            };
            let kept = amount_in * (10_000 - pool.fee_bps);
            &&& r_in == 0 || r_out == 0 ==> pool.amount_out_fits(amount_in, zero_for_one)
            &&& r_in > 0 && r_out > 0 ==> (pool.amount_out_fits(amount_in, zero_for_one)
                <==> pool.fee_bps <= 10_000 && kept * r_out
                < 0x1_0000_0000_0000_0000_0000_0000_0000_0000int && r_in * 10_000 + kept
                < 0x1_0000_0000_0000_0000_0000_0000_0000_0000int)
        }),
{
    let (r_in, r_out) = if zero_for_one {
        (pool.reserve0 as int, pool.reserve1 as int)
    } else {
        (pool.reserve1 as int, pool.reserve0 as int)
    };
    if r_in > 0 && r_out > 0 && pool.fee_bps <= 10_000 {
        let kept = amount_in * (10_000 - pool.fee_bps);
        lemma_mul_nonnegative(amount_in, 10_000 - pool.fee_bps);
        assert(kept <= kept * r_out) by (nonlinear_arith)
            requires
                0 <= kept,
                r_out > 0,
        ;
    }
}

/// A token of a list has the given name, and its address spells the given number.
pub open spec fn is_listed_as(
    tokens: Seq<(&'static str, Address)>,
    i: int,
    name: Seq<char>,
    number: nat,
) -> bool {
    0 <= i < tokens.len() && tokens[i].0@ == name && be_value(tokens[i].1@) == number
}

/// Pools are looked for twelve tokens.
pub proof fn law_listed_tokens(tokens: Seq<(&'static str, Address)>)
    requires
        names_of(tokens) == token_names(),
        addresses_of(tokens) == token_addresses(),
    ensures
        tokens.len() == 12,
        is_listed_as(tokens, 0, "WETH"@, 0x82aF49447D8a07e3bd95BD0d56f35241523fBab1nat),
        is_listed_as(tokens, 1, "USDC"@, 0xaf88d065e77c8cC2239327C5EDb3A432268e5831nat),
        is_listed_as(tokens, 2, "USDT"@, 0xFd086bC7CD5C481DCC9C85ebE478A1C0b69FCbb9nat),
        is_listed_as(tokens, 3, "ARB"@, 0x912CE59144191C1204E64559FE8253a0e49E6548nat),
        is_listed_as(tokens, 4, "WBTC"@, 0x2f2a2543B76A4166549F7aaB2e75Bef0aefC5B0fnat),
        is_listed_as(tokens, 5, "GMX"@, 0xfc5A1A6EB076a2C7aD06eD22C90d7E710E35ad0anat),
        is_listed_as(tokens, 6, "LINK"@, 0xf97f4df75117a78c1A5a0DBb814Af92458539FB4nat),
        is_listed_as(tokens, 7, "UNI"@, 0xFa7F8980b0f1E64A2062791cc3b0871572f1F7f0nat),
        is_listed_as(tokens, 8, "PENDLE"@, 0x0c880f6761F1af8d9Aa9C466984b80DAb9a8c9e8nat),
        is_listed_as(tokens, 9, "MAGIC"@, 0x539bdE0d7Dbd336b79148AA742883198BBF60342nat),
        is_listed_as(tokens, 10, "GRAIL"@, 0x3d9907F9a368ad0a51Be60f7Da3b97cf940982D8nat),
        is_listed_as(tokens, 11, "RDNT"@, 0x3082CC23568eA640225c2467653dB90e9250AaA0nat),
{
    assert(names_of(tokens).len() == 12);
    assert forall|i: int| 0 <= i < 12 implies tokens[i].0@ == token_names()[i] && #[trigger] tokens[i].1
        == token_addresses()[i] by {
        assert(names_of(tokens)[i] == tokens[i].0@);
        assert(addresses_of(tokens)[i] == tokens[i].1);
    }
    lemma_token_numbers();
    lemma_more_token_numbers();
}

proof fn lemma_token_numbers()
    ensures
        be_value(WETH@) == 0x82aF49447D8a07e3bd95BD0d56f35241523fBab1nat,
        be_value(USDC@) == 0xaf88d065e77c8cC2239327C5EDb3A432268e5831nat,
        be_value(USDT@) == 0xFd086bC7CD5C481DCC9C85ebE478A1C0b69FCbb9nat,
        be_value(ARB@) == 0x912CE59144191C1204E64559FE8253a0e49E6548nat,
        be_value(WBTC@) == 0x2f2a2543B76A4166549F7aaB2e75Bef0aefC5B0fnat,
        be_value(GMX@) == 0xfc5A1A6EB076a2C7aD06eD22C90d7E710E35ad0anat,
{
    assert(be_value(WETH@) == 0x82aF49447D8a07e3bd95BD0d56f35241523fBab1nat) by {
        lemma_twenty_bytes(WETH@);
    }
    assert(be_value(USDC@) == 0xaf88d065e77c8cC2239327C5EDb3A432268e5831nat) by {
        lemma_twenty_bytes(USDC@);
    }
    assert(be_value(USDT@) == 0xFd086bC7CD5C481DCC9C85ebE478A1C0b69FCbb9nat) by {
        lemma_twenty_bytes(USDT@);
    }
    assert(be_value(ARB@) == 0x912CE59144191C1204E64559FE8253a0e49E6548nat) by {
        lemma_twenty_bytes(ARB@);
    }
    assert(be_value(WBTC@) == 0x2f2a2543B76A4166549F7aaB2e75Bef0aefC5B0fnat) by {
        lemma_twenty_bytes(WBTC@);
    }
    assert(be_value(GMX@) == 0xfc5A1A6EB076a2C7aD06eD22C90d7E710E35ad0anat) by {
        lemma_twenty_bytes(GMX@);
    }
}

proof fn lemma_more_token_numbers()
    ensures
        be_value(LINK@) == 0xf97f4df75117a78c1A5a0DBb814Af92458539FB4nat,
        be_value(UNI@) == 0xFa7F8980b0f1E64A2062791cc3b0871572f1F7f0nat,
        be_value(PENDLE@) == 0x0c880f6761F1af8d9Aa9C466984b80DAb9a8c9e8nat,
        be_value(MAGIC@) == 0x539bdE0d7Dbd336b79148AA742883198BBF60342nat,
        be_value(GRAIL@) == 0x3d9907F9a368ad0a51Be60f7Da3b97cf940982D8nat,
        be_value(RDNT@) == 0x3082CC23568eA640225c2467653dB90e9250AaA0nat,
{
    assert(be_value(LINK@) == 0xf97f4df75117a78c1A5a0DBb814Af92458539FB4nat) by {
        lemma_twenty_bytes(LINK@);
    }
    assert(be_value(UNI@) == 0xFa7F8980b0f1E64A2062791cc3b0871572f1F7f0nat) by {
        lemma_twenty_bytes(UNI@);
    }
    assert(be_value(PENDLE@) == 0x0c880f6761F1af8d9Aa9C466984b80DAb9a8c9e8nat) by {
        lemma_twenty_bytes(PENDLE@);
    }
    assert(be_value(MAGIC@) == 0x539bdE0d7Dbd336b79148AA742883198BBF60342nat) by {
        lemma_twenty_bytes(MAGIC@);
    }
    assert(be_value(GRAIL@) == 0x3d9907F9a368ad0a51Be60f7Da3b97cf940982D8nat) by {
        lemma_twenty_bytes(GRAIL@);
    }
    assert(be_value(RDNT@) == 0x3082CC23568eA640225c2467653dB90e9250AaA0nat) by {
        lemma_twenty_bytes(RDNT@);
    }
}

/// The factories that are asked for pools.
pub proof fn law_known_factories()
    ensures
        be_value(UNISWAP_V3_FACTORY@) == 0x1F98431c8aD98523631AE4a59f267346ea31F984nat,
        be_value(SUSHISWAP_FACTORY@) == 0xc35DADB65012eC5796536bD9864eD8773aBc74C4nat,
        be_value(CAMELOT_FACTORY@) == 0x6EcCab422D763aC031210895C81787E87B43A652nat,
{
    assert(be_value(UNISWAP_V3_FACTORY@) == 0x1F98431c8aD98523631AE4a59f267346ea31F984nat) by {
        lemma_twenty_bytes(UNISWAP_V3_FACTORY@);
    }
    assert(be_value(SUSHISWAP_FACTORY@) == 0xc35DADB65012eC5796536bD9864eD8773aBc74C4nat) by {
        lemma_twenty_bytes(SUSHISWAP_FACTORY@);
    }
    assert(be_value(CAMELOT_FACTORY@) == 0x6EcCab422D763aC031210895C81787E87B43A652nat) by {
        lemma_twenty_bytes(CAMELOT_FACTORY@);
    }
}

} // verus!
