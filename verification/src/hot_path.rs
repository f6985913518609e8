//! Hot-path primitives: hashing, address comparison, batched price impact, swap records,
//! the opportunity queue and the transaction buffer.
use crate::amm::{law_output_below_reserve, lemma_per_mille_price, swap_out};
use crate::bytes::{be_value, zeros};
pub use crate::rlp::{rlp_encode_address, rlp_encode_u256};
use crate::types::Address;
use crate::u256::{u256_from_big_endian, U256};
use sha3::Digest;
use std::collections::VecDeque;
use vstd::arithmetic::div_mod::lemma_fundamental_div_mod;
use vstd::prelude::*;
use vstd::utf8::encode_utf8;

verus! {

/// Exchanges that a swap record can name.
#[derive(Debug, Clone, Copy, PartialEq, Eq, Structural)]
pub enum DexType {
    UniswapV2,
    UniswapV3,
    SushiSwap,
}

/// Swap record in the form in which the calldata parser fills it.
#[derive(Debug, Clone, Copy)]
pub struct SwapInfoFFI {
    /// 1 for Uniswap V2, 2 for Uniswap V3, 3 for SushiSwap.
    pub dex_type: u8,
    pub token_in: [u8; 20],
    pub token_out: [u8; 20],
    /// A 256-bit number, most significant byte first.
    pub amount_in: [u8; 32],
    /// A 256-bit number, most significant byte first.
    pub amount_out_min: [u8; 32],
    pub pool_address: [u8; 20],
    pub fee: u32,
}

impl Default for SwapInfoFFI {
    /// A record of zeros, which names no exchange.
    fn default() -> (r: Self)
        ensures
            r.dex_type == 0,
            r.token_in@ == zeros(20),
            r.token_out@ == zeros(20),
            r.amount_in@ == zeros(32),
            r.amount_out_min@ == zeros(32),
            r.pool_address@ == zeros(20),
            r.fee == 0,
    {
        let r = Self {
            dex_type: 0,
            token_in: [0u8;20],
            token_out: [0u8;20],
            amount_in: [0u8;32],
            amount_out_min: [0u8;32],
            pool_address: [0u8;20],
            fee: 0,
        };
        assert(r.token_in@ =~= zeros(20) && r.amount_in@ =~= zeros(32));
        r
    }
}

/// Swap parameters parsed from calldata.
#[derive(Debug, Clone, Copy)]
pub struct SwapInfo {
    pub dex_type: DexType,
    pub token_in: Address,
    pub token_out: Address,
    pub amount_in: U256,
    pub amount_out_min: U256,
    pub pool_address: Address,
    pub fee: u32,
}

/// The exchange that a record's code names.
pub open spec fn dex_of_code(code: u8) -> Option<DexType> {
    if code == 1 {
        Some(DexType::UniswapV2)
    } else if code == 2 {
        Some(DexType::UniswapV3)
    } else if code == 3 {
        Some(DexType::SushiSwap)
    } else {
        None
    }
}

/// The swap that a filled record stands for: none where the parser reported a failure (any
/// status but 0) or the record's code names no exchange.
pub fn swap_from_record(status: i32, info: &SwapInfoFFI) -> (r: Option<SwapInfo>)
    ensures
        r is Some <==> status == 0 && dex_of_code(info.dex_type) is Some,
        r matches Some(swap) ==> {
            &&& Some(swap.dex_type) == dex_of_code(info.dex_type)
            &&& swap.token_in@ == info.token_in@
            &&& swap.token_out@ == info.token_out@
            &&& swap.amount_in@ == be_value(info.amount_in@)
            &&& swap.amount_out_min@ == be_value(info.amount_out_min@)
            &&& swap.pool_address@ == info.pool_address@
            &&& swap.fee == info.fee
        },
{
    if status != 0 {
        return None;
    }
    let dex_type = match info.dex_type {
        1 => DexType::UniswapV2,
        2 => DexType::UniswapV3,
        3 => DexType::SushiSwap,
        _ => {
            return None;
        },
    };
    Some(
        SwapInfo {
            dex_type,
            token_in: info.token_in,
            token_out: info.token_out,
            amount_in: u256_from_big_endian(info.amount_in.as_slice()),
            amount_out_min: u256_from_big_endian(info.amount_out_min.as_slice()),
            pool_address: info.pool_address,
            fee: info.fee,
        },
    )
}

/// The memory pools need no setup.
pub fn init_pools() -> (r: bool)
    ensures
        r,
{
    true
}

/// The Keccak-256 digest of a byte string.
pub uninterp spec fn keccak256(data: Seq<u8>) -> Seq<u8>;

/// Calls `sha3::Keccak256` (`new`, `update`, `finalize`): the Keccak-256 digest of the bytes.
#[verifier::external_body]
fn keccak256_digest(data: &[u8]) -> (r: [u8; 32])
    ensures
        r@ == keccak256(data@),
{
    let mut hasher = sha3::Keccak256::new();
    hasher.update(data);
    hasher.finalize().into()
}

/// Keccak-256 of a byte string.
pub fn keccak256_fast(data: &[u8]) -> (r: [u8; 32])
    ensures
        r@ == keccak256(data@),
{
    keccak256_digest(data)
}

/// The first four bytes of a digest.
pub fn selector_of_hash(hash: &[u8; 32]) -> (r: [u8; 4])
    ensures
        r@ == hash@.take(4),
{
    let r: [u8; 4] = [hash[0], hash[1], hash[2], hash[3]];
    assert(r@ =~= hash@.take(4));
    r
}

/// The selector of a function: the first four bytes of the digest of its signature.
pub fn function_selector(signature: &str) -> (r: [u8; 4])
    ensures
        r@ == keccak256(encode_utf8(signature@)).take(4),
{
    let hash = keccak256_fast(signature.as_bytes());
    selector_of_hash(&hash)
}

/// Whether two addresses are the same.
pub fn address_eq(a: &Address, b: &Address) -> (r: bool)
    ensures
        r == (a@ == b@),
        r == (*a == *b),
{
    let mut i: usize = 0;
    while i < 20
        invariant
            i <= 20,
            forall|j: int| 0 <= j < i ==> a@[j] == b@[j],
        decreases 20 - i,
    {
        if a[i] != b[i] {
            return false;
        }
        i = i + 1;
    }
    assert(a@ =~= b@);
    assert(*a =~= *b);
    true
}

/// What one pool of a batch pays for `amount_in`, at a fee of three per mille. An empty pool
/// pays nothing.
pub open spec fn price_impact(reserve0: u64, reserve1: u64, amount_in: u64) -> int {
    if reserve0 == 0 {
        0
    } else {
        (amount_in * reserve1 * 997) / (reserve0 * 1000 + amount_in * 997)
    }
}

/// The arithmetic of one pool of a batch stays within 128 bits.
pub open spec fn price_impact_fits(reserve0: u64, reserve1: u64, amount_in: u64) -> bool {
    reserve0 != 0 ==> amount_in * reserve1 * 997 <= u128::MAX
}

/// What each of four pools pays for the same amount.
pub fn calc_price_impact_batch(
    reserves0: &[u64; 4],
    reserves1: &[u64; 4],
    amount_in: u64,
) -> (outputs: [u64; 4])
    requires
        forall|i: int|
            0 <= i < 4 ==> #[trigger] price_impact_fits(reserves0@[i], reserves1@[i], amount_in),
    ensures
        forall|i: int|
            0 <= i < 4 ==> #[trigger] outputs@[i] == price_impact(
                reserves0@[i],
                reserves1@[i],
                amount_in,
            ),
{
    let mut outputs: [u64; 4] = [0u64; 4];
    let mut i: usize = 0;
    while i < 4
        invariant
            i <= 4,
            forall|j: int|
                0 <= j < 4 ==> #[trigger] price_impact_fits(
                    reserves0@[j],
                    reserves1@[j],
                    amount_in,
                ),
            forall|j: int|
                0 <= j < i ==> #[trigger] outputs@[j] == price_impact(
                    reserves0@[j],
                    reserves1@[j],
                    amount_in,
                ),
        decreases 4 - i,
    {
        let r0: u128 = reserves0[i] as u128;
        let r1: u128 = reserves1[i] as u128;
        if r0 == 0 {
            outputs[i] = 0;
        } else {
            let amt: u128 = amount_in as u128;
            proof {
                assert(price_impact_fits(reserves0@[i as int], reserves1@[i as int], amount_in));
                law_price_impact_is_swap(reserves0@[i as int], reserves1@[i as int], amount_in);
                assert(0 <= amt * r1 <= u64::MAX * u64::MAX) by (nonlinear_arith)
                    requires
                        0 <= amt <= u64::MAX,
                        0 <= r1 <= u64::MAX,
                ;
            }
            let numerator: u128 = amt * r1 * 997;
            let denominator: u128 = r0 * 1000 + amt * 997;
            let out: u128 = numerator / denominator;
            outputs[i] = out as u64;
        }
        i = i + 1;
    }
    outputs
}

/// A pool of a batch prices as a constant-product pool at 30 basis points, and so never pays
/// out its whole reserve.
pub proof fn law_price_impact_is_swap(reserve0: u64, reserve1: u64, amount_in: u64)
    ensures
        price_impact(reserve0, reserve1, amount_in) == swap_out(
            amount_in as int,
            reserve0 as int,
            reserve1 as int,
            30,
        ),
        0 <= price_impact(reserve0, reserve1, amount_in) <= reserve1,
        reserve1 > 0 ==> price_impact(reserve0, reserve1, amount_in) < reserve1,
{
    law_output_below_reserve(amount_in as int, reserve0 as int, reserve1 as int, 30);
    if reserve0 != 0 {
        lemma_per_mille_price(amount_in as int, reserve0 as int, reserve1 as int);
    }
}

/// Without the calldata parser no calldata is recognised as a swap.
pub fn parse_swap(_calldata: &[u8]) -> (r: Option<SwapInfo>)
    ensures
        r is None,
{
    None
}

/// A first-in, first-out queue of opportunities.
pub struct OpportunityQueue<T> {
    inner: VecDeque<T>,
}

impl<T> View for OpportunityQueue<T> {
    type V = Seq<T>;

    /// The waiting items, the oldest first.
    closed spec fn view(&self) -> Seq<T> {
        self.inner@
    }
}

impl<T> OpportunityQueue<T> {
    /// An empty queue with room for `capacity` items. The room must be a size that the
    /// allocator can be asked for.
    pub fn new(capacity: usize) -> (r: Option<Self>)
        requires
            capacity * vstd::layout::size_of::<T>() <= isize::MAX,
        ensures
            r matches Some(queue) && queue@ == Seq::<T>::empty(),
    {
        Some(Self { inner: VecDeque::with_capacity(capacity) })
    }

    /// Puts an item at the end.
    pub fn push(&mut self, item: T) -> (r: bool)
        ensures
            r,
            final(self)@ == old(self)@.push(item),
    {
        self.inner.push_back(item);
        true
    }

    /// Takes the oldest item, if any is waiting.
    pub fn pop(&mut self) -> (r: Option<T>)
        ensures
            old(self)@.len() == 0 ==> r is None && final(self)@ == old(self)@,
            old(self)@.len() > 0 ==> r == Some(old(self)@[0]) && final(self)@ == old(self)@.skip(1),
    {
        self.inner.pop_front()
    }

    /// How many items are waiting.
    pub fn len(&self) -> (r: usize)
        ensures
            r == self@.len(),
    {
        self.inner.len()
    }

    /// Whether no item is waiting.
    pub fn is_empty(&self) -> (r: bool)
        ensures
            r == (self@.len() == 0),
    {
        self.len() == 0
    }
}

/// How many bytes a transaction buffer holds.
pub const TX_BUFFER_SIZE: usize = 512;

/// A transaction buffer: 512 bytes, of which the first `len` are in use.
pub struct TxBuffer {
    buf: Vec<u8>,
    len: usize,
}

/// The bytes of a transaction buffer and how many of them are in use.
#[verifier::ext_equal]
pub struct TxBufferView {
    pub storage: Seq<u8>,
    pub len: int,
}

impl View for TxBuffer {
    type V = TxBufferView;

    closed spec fn view(&self) -> TxBufferView {
        TxBufferView { storage: self.buf@, len: self.len as int }
    }
}

/// The length that a request for `len` bytes gets.
pub open spec fn granted(len: usize) -> int {
    if len < TX_BUFFER_SIZE {
        len as int
    } else {
        TX_BUFFER_SIZE as int
    }
}

impl TxBufferView {
    /// The buffer has its full size, and no more than that is in use.
    pub open spec fn wf(self) -> bool {
        self.storage.len() == TX_BUFFER_SIZE && 0 <= self.len <= TX_BUFFER_SIZE
    }

    /// The bytes in use.
    pub open spec fn used(self) -> Seq<u8> {
        self.storage.take(self.len)
    }

    /// The buffer once its first `len` bytes were handed out and came back as `written`.
    pub open spec fn after_write(self, len: int, written: Seq<u8>) -> TxBufferView {
        TxBufferView { storage: written + self.storage.skip(len), len }
    }
}

impl TxBuffer {
    /// A buffer of zeros with nothing in use.
    pub fn new() -> (r: Option<Self>)
        ensures
            r matches Some(buffer) && buffer@.wf() && buffer@ == (TxBufferView {
                storage: zeros(TX_BUFFER_SIZE as nat),
                len: 0,
            }),
    {
        let buf: Vec<u8> = vec![0u8; TX_BUFFER_SIZE];
        assert(buf@ =~= zeros(TX_BUFFER_SIZE as nat));
        Some(Self { buf, len: 0 })
    }

    /// The bytes in use.
    pub fn as_slice(&self) -> (r: &[u8])
        requires
            self@.wf(),
        ensures
            r@ == self@.used(),
    {
        vstd::slice::slice_subrange(self.buf.as_slice(), 0, self.len)
    }

    /// Puts the first `len` bytes in use, 512 at most, and hands them out for writing.
    pub fn as_mut_slice(&mut self, len: usize) -> (r: &mut [u8])
        requires
            old(self)@.wf(),
        ensures
            r@ == old(self)@.storage.take(granted(len)),
            final(self)@ == old(self)@.after_write(granted(len), final(r)@),
    {
        self.len = if len < TX_BUFFER_SIZE {
            len
        } else {
            TX_BUFFER_SIZE
        };
        let (head, _tail) = self.buf.as_mut_slice().split_at_mut(self.len);
        head
    }
}

/// A transaction buffer reads back what was last written to it: behind a request for `len`
/// bytes, the bytes in use are those that were written, and the others are untouched.
pub proof fn law_buffer_reads_back(before: TxBufferView, len: usize, written: Seq<u8>)
    requires
        before.wf(),
        written.len() == granted(len),
    ensures
        before.after_write(granted(len), written).wf(),
        before.after_write(granted(len), written).used() == written,
        before.after_write(granted(len), written).storage.skip(granted(len))
            == before.storage.skip(granted(len)),
{
    let after = before.after_write(granted(len), written);
    assert(after.used() =~= written);
    assert(after.storage.skip(granted(len)) =~= before.storage.skip(granted(len)));
}

/// An item leaves the queue behind exactly those that were waiting before it came: pushing
/// changes nothing of what the pops before it return, and then it is the next.
pub proof fn law_queue_keeps_order<T>(waiting: Seq<T>, item: T, pops: nat)
    requires
        pops <= waiting.len(),
    ensures
        waiting.push(item).skip(pops as int)[0] == if pops < waiting.len() {
            waiting.skip(pops as int)[0]
        } else {
            item
        },
        waiting.push(item).skip(pops as int) == waiting.skip(pops as int).push(item),
{
    assert(waiting.push(item).skip(pops as int) =~= waiting.skip(pops as int).push(item));
}

/// A request for bytes of the buffer gets as many as it asks for, and 512 at most.
pub proof fn law_buffer_grants_what_it_has(before: TxBufferView, len: usize, written: Seq<u8>)
    requires
        before.storage.len() == 512,
    ensures
        len <= 512 ==> granted(len) == len,
        len > 512 ==> granted(len) == 512,
        before.after_write(granted(len), written).len == granted(len),
        written.len() == granted(len) ==> before.after_write(granted(len), written).storage.len()
            == 512,
{
}

/// The codes 1, 2 and 3 name the three exchanges in order, and no other code names any.
pub proof fn law_codes_of_exchanges(code: u8)
    ensures
        dex_of_code(code) == Some(DexType::UniswapV2) <==> code == 1,
        dex_of_code(code) == Some(DexType::UniswapV3) <==> code == 2,
        dex_of_code(code) == Some(DexType::SushiSwap) <==> code == 3,
        dex_of_code(code) is None <==> code == 0 || code > 3,
{
}

/// A pool of a batch pays the most that the constant product leaves for 99.7% of the amount. It
/// can be computed wherever the product of the amount, the reserve and 997 stays below `2^128`.
pub proof fn law_price_impact_is_greatest(reserve0: u64, reserve1: u64, amount_in: u64)
    ensures
        reserve0 == 0 ==> price_impact(reserve0, reserve1, amount_in) == 0,
        reserve0 > 0 ==> {
            let out = price_impact(reserve0, reserve1, amount_in);
            let whole = reserve0 * 1000 + amount_in * 997;
            &&& 0 <= out
            &&& out * whole <= amount_in * reserve1 * 997
            &&& amount_in * reserve1 * 997 < (out + 1) * whole
        },
        reserve0 == 0 || amount_in * reserve1 * 997
            < 0x1_0000_0000_0000_0000_0000_0000_0000_0000int <==> price_impact_fits(
            reserve0,
            reserve1,
            amount_in,
        ),
{
    if reserve0 > 0 {
        let out = price_impact(reserve0, reserve1, amount_in);
        let top = amount_in * reserve1 * 997;
        let whole = reserve0 * 1000 + amount_in * 997;
        assert(0 <= top) by (nonlinear_arith)
            requires
                top == amount_in * reserve1 * 997,
                0 <= amount_in,
                0 <= reserve1,
        ;
        lemma_fundamental_div_mod(top, whole);
        assert(out * whole <= top && top < (out + 1) * whole && 0 <= out) by (nonlinear_arith)
            requires
                top == whole * out + top % whole,
                0 <= top % whole < whole,
                0 <= top,
                whole > 0,
        ;
    }
}

} // verus!
