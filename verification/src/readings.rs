//! What pools answer about their reserves.
use crate::bytes::{be_value, word};
use crate::multicall::replies_view;
use crate::pools::PoolData;
use crate::types::Address;
use crate::u256::{read_word, two_128, two_256, u256_div, u256_mul, U256};
use vstd::arithmetic::div_mod::lemma_fundamental_div_mod;
use vstd::prelude::*;

verus! {
/// What both reserves of a pool must exceed for the pool to count.
pub const MIN_RESERVE: u128 = 1000;

/// A pool that a factory named.
#[derive(Clone, Copy, Debug)]
pub struct KnownPool {
    pub address: Address,
    pub token0: Address,
    pub token1: Address,
    pub fee_bps: u32,
}

/// A pool that a factory named, over byte strings.
#[verifier::ext_equal]
pub struct KnownPoolView {
    pub address: Seq<u8>,
    pub token0: Seq<u8>,
    pub token1: Seq<u8>,
    pub fee_bps: u32,
}

impl View for KnownPool {
    type V = KnownPoolView;

    open spec fn view(&self) -> KnownPoolView {
        KnownPoolView {
            address: self.address@,
            token0: self.token0@,
            token1: self.token1@,
            fee_bps: self.fee_bps,
        }
    }
}

/// Known pools over byte strings.
pub open spec fn known_view(known: Seq<KnownPool>) -> Seq<KnownPoolView> {
    known.map_values(|pool: KnownPool| pool@)
}

/// Reply `i`, if there is one.
pub open spec fn reply_at(replies: Seq<Option<Seq<u8>>>, i: int) -> Option<Seq<u8>> {
    if 0 <= i < replies.len() {
        replies[i]
    } else {
        None
    }
}

/// A reply over byte strings.
pub open spec fn bytes_view(reply: Option<&[u8]>) -> Option<Seq<u8>> {
    match reply {
        Some(data) => Some(data@),
        None => None,
    }
}

/// Reply `i`, if there is one.
pub(crate) fn reply_bytes(replies: &[Option<Vec<u8>>], i: usize) -> (r: Option<&[u8]>)
    ensures
        bytes_view(r) == reply_at(replies_view(replies@), i as int),
{
    if i < replies.len() {
        match &replies[i] {
            Some(data) => Some(data.as_slice()),
            None => None,
        }
    } else {
        None
    }
}

/// What a V2 pool holds by its reply, where both reserves count.
pub open spec fn v2_reading(known: KnownPool, reply: Option<Seq<u8>>) -> Option<PoolData> {
    match reply {
        Some(data) => if data.len() >= 64 && word(data, 0) > MIN_RESERVE && word(data, 32)
            > MIN_RESERVE {
            Some(
                PoolData {
                    address: known.address,
                    token0: known.token0,
                    token1: known.token1,
                    is_v3: false,
                    fee_bps: known.fee_bps,
                    reserve0: word(data, 0) as u128,
                    reserve1: word(data, 32) as u128,
                },
            )
        } else {
            None
        },
        None => None,
    }
}

/// The reserves of a V2 reply fit in 128 bits.
pub open spec fn v2_fits(reply: Option<Seq<u8>>) -> bool {
    reply matches Some(data) ==> data.len() >= 64 ==> word(data, 0) < two_128() && word(data, 32)
        < two_128()
}

/// `2^96`, the unit of V3 prices.
#[verifier::inline]
pub open spec fn two_96() -> nat {
    0x1_0000_0000_0000_0000_0000_0000nat
}

/// What a V3 pool of the given liquidity effectively holds of its first token, at the square
/// root of its price in units of `2^-96`.
pub open spec fn v3_reserve0(liquidity: nat, sqrt_price: nat) -> nat {
    liquidity * two_96() / sqrt_price
}

/// What a V3 pool of the given liquidity effectively holds of its second token.
pub open spec fn v3_reserve1(liquidity: nat, sqrt_price: nat) -> nat {
    liquidity * sqrt_price / two_96()
}

/// What a V3 pool effectively holds by its replies, where it has liquidity and a price and both
/// reserves count.
pub open spec fn v3_reading(
    known: KnownPool,
    slot0: Option<Seq<u8>>,
    liquidity: Option<Seq<u8>>,
) -> Option<PoolData> {
    match (slot0, liquidity) {
        (Some(s0), Some(liq)) => {
            let price = word(s0, 0);
            let depth = word(liq, 0);
            if s0.len() >= 32 && liq.len() >= 32 && depth > 0 && price > 0 && v3_reserve0(
                depth,
                price,
            ) > MIN_RESERVE && v3_reserve1(depth, price) > MIN_RESERVE {
                Some(
                    PoolData {
                        address: known.address,
                        token0: known.token0,
                        token1: known.token1,
                        is_v3: true,
                        fee_bps: known.fee_bps,
                        reserve0: v3_reserve0(depth, price) as u128,
                        reserve1: v3_reserve1(depth, price) as u128,
                    },
                )
            } else {
                None
            }
        },
        _ => None,
    }
}

/// The liquidity and the effective reserves of V3 replies fit in 128 bits, and their products
/// in 256.
pub open spec fn v3_fits(slot0: Option<Seq<u8>>, liquidity: Option<Seq<u8>>) -> bool {
    match (slot0, liquidity) {
        (Some(s0), Some(liq)) => s0.len() >= 32 && liq.len() >= 32 ==> {
            let price = word(s0, 0);
            let depth = word(liq, 0);
            &&& depth < two_128()
            &&& depth > 0 && price > 0 ==> {
                &&& depth * price < two_256()
                &&& v3_reserve0(depth, price) < two_128()
                &&& v3_reserve1(depth, price) < two_128()
            }
        },
        _ => true,
    }
}

/// Whether the reserves of a V2 reply fit in 128 bits.
pub(crate) fn can_read_v2(reply: Option<&[u8]>) -> (r: bool)
    ensures
        r == v2_fits(bytes_view(reply)),
{
    match reply {
        Some(data) => data.len() < 64 || (read_word(data, 0).fits_u128() && read_word(
            data,
            32,
        ).fits_u128()),
        None => true,
    }
}

/// What a V2 pool holds by its reply.
pub(crate) fn read_v2(known: &KnownPool, reply: Option<&[u8]>) -> (r: Option<PoolData>)
    requires
        v2_fits(bytes_view(reply)),
    ensures
        r == v2_reading(*known, bytes_view(reply)),
{
    match reply {
        Some(data) => {
            if data.len() < 64 {
                return None;
            }
            let reserve0: u128 = read_word(data, 0).as_u128();
            let reserve1: u128 = read_word(data, 32).as_u128();
            if reserve0 > MIN_RESERVE && reserve1 > MIN_RESERVE {
                Some(
                    PoolData {
                        address: known.address,
                        token0: known.token0,
                        token1: known.token1,
                        is_v3: false,
                        fee_bps: known.fee_bps,
                        reserve0,
                        reserve1,
                    },
                )
            } else {
                None
            }
        },
        None => None,
    }
}

/// `2^96`.
fn q96() -> (r: U256)
    ensures
        r@ == two_96(),
{
    U256 { limbs: [0, 0x1_0000_0000, 0, 0] }
}

/// A 128-bit number times `2^96` fits in 256 bits.
proof fn lemma_scaled_fits(depth: nat)
    requires
        depth < two_128(),
    ensures
        depth * two_96() < two_256(),
{
}

/// Whether the product of two numbers fits in 256 bits.
fn product_fits(a: &U256, b: &U256) -> (r: bool)
    requires
        a@ > 0,
    ensures
        r == (a@ * b@ < two_256()),
{
    let max: U256 = U256 { limbs: [u64::MAX, u64::MAX, u64::MAX, u64::MAX] };
    assert(max@ == two_256() - 1);
    let most: U256 = u256_div(&max, a);
    proof {
        let m = max@ as int;
        let q = most@ as int;
        let x = a@ as int;
        let y = b@ as int;
        lemma_fundamental_div_mod(m, x);
        if y <= q {
            assert(x * y <= m) by (nonlinear_arith)
                requires
                    m == x * q + m % x,
                    0 <= m % x,
                    y <= q,
                    x > 0,
            ;
        } else {
            assert(x * y > m) by (nonlinear_arith)
                requires
                    m == x * q + m % x,
                    m % x < x,
                    y >= q + 1,
                    x > 0,
            ;
        }
    }
    b.at_most(&most)
}

/// Whether V3 replies can be read.
pub(crate) fn can_read_v3(slot0: Option<&[u8]>, liquidity: Option<&[u8]>) -> (r: bool)
    ensures
        r == v3_fits(bytes_view(slot0), bytes_view(liquidity)),
{
    match (slot0, liquidity) {
        (Some(s0), Some(liq)) => {
            if s0.len() < 32 || liq.len() < 32 {
                return true;
            }
            let price: U256 = read_word(s0, 0);
            let depth: U256 = read_word(liq, 0);
            if !depth.fits_u128() {
                return false;
            }
            if depth.is_zero() || price.is_zero() {
                return true;
            }
            if !product_fits(&depth, &price) {
                return false;
            }
            let q96: U256 = q96();
            proof {
                lemma_scaled_fits(depth@);
            }
            u256_div(&u256_mul(&depth, &q96), &price).fits_u128() && u256_div(
                &u256_mul(&depth, &price),
                &q96,
            ).fits_u128()
        },
        _ => true,
    }
}

/// What a V3 pool effectively holds by its replies.
pub(crate) fn read_v3(known: &KnownPool, slot0: Option<&[u8]>, liquidity: Option<&[u8]>) -> (r: Option<
    PoolData,
>)
    requires
        v3_fits(bytes_view(slot0), bytes_view(liquidity)),
    ensures
        r == v3_reading(*known, bytes_view(slot0), bytes_view(liquidity)),
{
    match (slot0, liquidity) {
        (Some(s0), Some(liq)) => {
            if s0.len() < 32 || liq.len() < 32 {
                return None;
            }
            let price: U256 = read_word(s0, 0);
            let depth: u128 = read_word(liq, 0).as_u128();
            if depth == 0 || price.is_zero() {
                return None;
            }
            let q96: U256 = q96();
            let depth: U256 = U256::from_u128(depth);
            proof {
                lemma_scaled_fits(depth@);
            }
            let reserve0: u128 = u256_div(&u256_mul(&depth, &q96), &price).as_u128();
            let reserve1: u128 = u256_div(&u256_mul(&depth, &price), &q96).as_u128();
            if reserve0 > MIN_RESERVE && reserve1 > MIN_RESERVE {
                Some(
                    PoolData {
                        address: known.address,
                        token0: known.token0,
                        token1: known.token1,
                        is_v3: true,
                        fee_bps: known.fee_bps,
                        reserve0,
                        reserve1,
                    },
                )
            } else {
                None
            }
        },
        _ => None,
    }
}

/// The effective reserves of a V3 pool never multiply to more than the square of its liquidity.
pub proof fn law_v3_reserves_within_liquidity(liquidity: nat, sqrt_price: nat)
    requires
        sqrt_price > 0,
    ensures
        v3_reserve0(liquidity, sqrt_price) * v3_reserve1(liquidity, sqrt_price) <= liquidity
            * liquidity,
{
    let l = liquidity as int;
    let p = sqrt_price as int;
    let q = two_96() as int;
    let a = v3_reserve0(liquidity, sqrt_price) as int;
    let b = v3_reserve1(liquidity, sqrt_price) as int;
    lemma_fundamental_div_mod(l * q, p);
    lemma_fundamental_div_mod(l * p, q);
    assert(p * a <= l * q);
    assert(q * b <= l * p);
    assert((p * a) * (q * b) <= (l * q) * (l * p)) by (nonlinear_arith)
        requires
            0 <= p * a <= l * q,
            0 <= q * b <= l * p,
    ;
    assert((p * a) * (q * b) == (p * q) * (a * b)) by (nonlinear_arith);
    assert((l * q) * (l * p) == (p * q) * (l * l)) by (nonlinear_arith);
    assert(a * b <= l * l) by (nonlinear_arith)
        requires
            (p * q) * (a * b) <= (p * q) * (l * l),
            p > 0,
            q > 0,
    ;
}

/// A pool is read by its reply number, and there is no reply outside the list.
pub proof fn law_replies_are_read_by_place(replies: Seq<Option<Seq<u8>>>, i: int)
    ensures
        0 <= i < replies.len() ==> reply_at(replies, i) == replies[i],
        i < 0 || i >= replies.len() ==> reply_at(replies, i) is None,
{
}

/// What is known of a pool after a reading: the pool and its tokens and fee stay as they are, and
/// its reserves are the given ones.
pub open spec fn shows_reserves(
    pool: PoolData,
    known: KnownPool,
    is_v3: bool,
    reserve0: int,
    reserve1: int,
) -> bool {
    &&& pool.address == known.address
    &&& pool.token0 == known.token0
    &&& pool.token1 == known.token1
    &&& pool.fee_bps == known.fee_bps
    &&& pool.is_v3 == is_v3
    &&& pool.reserve0 == reserve0
    &&& pool.reserve1 == reserve1
}

/// The reserves of a V2 pool are the numbers in the first two words of its reply. They are taken
/// where both are above 1000, and can be held where both are below `2^128`.
pub proof fn law_v2_reading_is_two_words(known: KnownPool, data: Seq<u8>)
    ensures
        v2_reading(known, None) is None,
        v2_fits(None),
        data.len() < 64 ==> v2_reading(known, Some(data)) is None && v2_fits(Some(data)),
        data.len() >= 64 ==> {
            let reserve0 = be_value(data.subrange(0, 32));
            let reserve1 = be_value(data.subrange(32, 64));
            &&& v2_fits(Some(data)) <==> reserve0
                < 0x1_0000_0000_0000_0000_0000_0000_0000_0000nat && reserve1
                < 0x1_0000_0000_0000_0000_0000_0000_0000_0000nat
            &&& v2_reading(known, Some(data)) is Some <==> reserve0 > 1000 && reserve1 > 1000
            &&& v2_fits(Some(data)) ==> (v2_reading(known, Some(data)) matches Some(pool)
                ==> shows_reserves(pool, known, false, reserve0 as int, reserve1 as int))
        },
{
}

/// The number in the first word of a reply that has one.
pub open spec fn first_word(reply: Option<Seq<u8>>) -> Option<nat> {
    match reply {
        Some(data) => if data.len() >= 32 {
            Some(be_value(data.subrange(0, 32)))
        } else {
            None
        },
        None => None,
    }
}

/// The effective reserves of a V3 pool are the greatest whole numbers within its liquidity divided,
/// and multiplied, by the square root of its price in units of `2^-96`.
pub open spec fn are_effective_reserves(
    liquidity: int,
    sqrt_price: int,
    reserve0: int,
    reserve1: int,
) -> bool {
    &&& reserve0 * sqrt_price <= liquidity * 0x1_0000_0000_0000_0000_0000_0000
    &&& liquidity * 0x1_0000_0000_0000_0000_0000_0000 < (reserve0 + 1) * sqrt_price
    &&& reserve1 * 0x1_0000_0000_0000_0000_0000_0000 <= liquidity * sqrt_price
    &&& liquidity * sqrt_price < (reserve1 + 1) * 0x1_0000_0000_0000_0000_0000_0000
}

/// A V3 pool without a price or without liquidity, or without a reply to either question, has no
/// reading, and nothing of it has to be held but a liquidity below `2^128`.
pub proof fn law_v3_needs_price_and_liquidity(
    known: KnownPool,
    slot0: Option<Seq<u8>>,
    liquidity: Option<Seq<u8>>,
)
    ensures
        first_word(slot0) is None || first_word(liquidity) is None ==> v3_reading(
            known,
            slot0,
            liquidity,
        ) is None && v3_fits(slot0, liquidity),
        first_word(slot0) == Some(0nat) || first_word(liquidity) == Some(0nat) ==> v3_reading(
            known,
            slot0,
            liquidity,
        ) is None && (v3_fits(slot0, liquidity) <==> (first_word(slot0) is Some ==> (first_word(
            liquidity,
        ) matches Some(depth) ==> depth < 0x1_0000_0000_0000_0000_0000_0000_0000_0000nat))),
{
}

/// A V3 pool with a price and liquidity holds its effective reserves. They are taken where both are
/// above 1000, and can be held where the liquidity and both of them are below `2^128` and the
/// product of price and liquidity is below `2^256`.
pub proof fn law_v3_reading_is_effective_reserves(
    known: KnownPool,
    slot0: Option<Seq<u8>>,
    liquidity: Option<Seq<u8>>,
    price: nat,
    depth: nat,
    reserve0: int,
    reserve1: int,
)
    requires
        first_word(slot0) == Some(price),
        first_word(liquidity) == Some(depth),
        price > 0,
        depth > 0,
        are_effective_reserves(depth as int, price as int, reserve0, reserve1),
    ensures
        v3_fits(slot0, liquidity) <==> depth < 0x1_0000_0000_0000_0000_0000_0000_0000_0000nat
            && depth * price
            < 0x1_0000_0000_0000_0000_0000_0000_0000_0000_0000_0000_0000_0000_0000_0000_0000_0000nat
            && reserve0 < 0x1_0000_0000_0000_0000_0000_0000_0000_0000nat && reserve1
            < 0x1_0000_0000_0000_0000_0000_0000_0000_0000nat,
        v3_reading(known, slot0, liquidity) is Some <==> reserve0 > 1000 && reserve1 > 1000,
        v3_fits(slot0, liquidity) ==> (v3_reading(known, slot0, liquidity) matches Some(pool)
            ==> shows_reserves(pool, known, true, reserve0, reserve1)),
{
    let p = price as int;
    let l = depth as int;
    let q = 0x1_0000_0000_0000_0000_0000_0000int;
    let a = v3_reserve0(depth, price) as int;
    let b = v3_reserve1(depth, price) as int;
    lemma_fundamental_div_mod(l * q, p);
    lemma_fundamental_div_mod(l * p, q);
    assert(l * p == depth * price);
    assert(a == reserve0) by (nonlinear_arith)
        requires
            reserve0 * p <= l * q,
            l * q < (reserve0 + 1) * p,
            l * q == p * a + (l * q) % p,
            0 <= (l * q) % p < p,
            p > 0,
    ;
    assert(b == reserve1);
}

/// What is said of known pools is said of their addresses, tokens and fees.
pub proof fn law_known_view_shows_fields(known: Seq<KnownPool>, i: int)
    requires
        0 <= i < known.len(),
    ensures
        known_view(known).len() == known.len(),
        known_view(known)[i].address == known[i].address@,
        known_view(known)[i].token0 == known[i].token0@,
        known_view(known)[i].token1 == known[i].token1@,
        known_view(known)[i].fee_bps == known[i].fee_bps,
{
}

} // verus!
