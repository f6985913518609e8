//! Simulation of opportunities and bundles against modelled pool state.
//!
//! Produces gas and profit figures before a bundle is committed to.
use crate::amm::{
    checked_swap, is_fair_output, law_fair_output_is_unique, law_output_below_reserve,
    law_output_is_greatest, law_round_trip_never_gains, swap_fits, swap_out, BPS,
};
use crate::bytes::{
    be_bytes, be_value, law_leading_zeros_spell_nothing, lemma_be_bytes_len,
    lemma_be_value_of_bytes, zeros,
};
use crate::config::Config;
use crate::hexadecimal::{has_0x, hex_bytes, hex_decode, is_hex, strip_0x, without_0x};
use crate::types::{
    Bundle, BundleTransaction, DexType, Opportunity, OpportunityType, SimulationResult,
    SimulationView, StateChange, StateChangeView,
};
use crate::u256::lemma_two_256;
use std::sync::Arc;
use vstd::arithmetic::mul::lemma_mul_nonnegative;
use vstd::prelude::*;
use vstd::string::StringSliceAdditionalSpecFns;
use vstd::utf8::encode_utf8;

verus! {

/// The modelled pool's WETH reserve: 5000 ETH.
pub const WETH_RESERVE: u128 = 5_000_000_000_000_000_000_000;

/// The modelled pool's USDC reserve: 10M USDC (6 decimals).
pub const USDC_RESERVE: u128 = 10_000_000_000_000;

/// The modelled pool's fee: 0.30%.
pub const FEE_BPS: u128 = 30;

/// Constant-product AMM: `dy = y * dx * (1-fee) / (x + dx * (1-fee))`.
pub fn constant_product_swap(
    amount_in: u128,
    reserve_in: u128,
    reserve_out: u128,
    fee_bps: u128,
) -> (out: u128)
    requires
        swap_fits(amount_in as int, reserve_in as int, reserve_out as int, fee_bps as int),
    ensures
        out == swap_out(amount_in as int, reserve_in as int, reserve_out as int, fee_bps as int),
        is_fair_output(
            amount_in as int,
            reserve_in as int,
            reserve_out as int,
            fee_bps as int,
            out as int,
        ),
{
    if reserve_in == 0 || reserve_out == 0 || amount_in == 0 {
        return 0;
    }
    proof {
        lemma_mul_nonnegative(amount_in as int, BPS - fee_bps);
        lemma_mul_nonnegative(amount_in * (BPS - fee_bps), reserve_out as int);
        law_output_is_greatest(
            amount_in as int,
            reserve_in as int,
            reserve_out as int,
            fee_bps as int,
        );
    }
    let amount_in_with_fee: u128 = amount_in * (BPS - fee_bps);
    let numerator: u128 = amount_in_with_fee * reserve_out;
    let denominator: u128 = reserve_in * BPS + amount_in_with_fee;
    numerator / denominator
}

/// The gas that calldata costs: 4 for a zero byte, 16 for any other.
pub open spec fn calldata_gas(data: Seq<u8>) -> nat
    decreases data.len(),
{
    if data.len() == 0 {
        0
    } else {
        calldata_gas(data.drop_last()) + if data.last() == 0 {
            4nat
        } else {
            16nat
        }
    }
}

/// The estimated gas of a transaction: the base cost, its calldata and a flat amount for
/// contract execution, and never more than its limit.
pub open spec fn tx_gas(gas_limit: nat, data: Seq<u8>) -> nat {
    let estimated = 21_000 + calldata_gas(data) + 100_000;
    if estimated < gas_limit {
        estimated
    } else {
        gas_limit
    }
}

/// Calldata costs 16 for each byte, less 12 for each that is zero.
proof fn lemma_calldata_gas_counts(data: Seq<u8>)
    ensures
        calldata_gas(data) == 16 * data.len() - 12 * data.to_multiset().count(0),
        data.to_multiset().count(0) <= data.len(),
    decreases data.len(),
{
    broadcast use vstd::seq_lib::group_to_multiset_ensures;

    if data.len() > 0 {
        lemma_calldata_gas_counts(data.drop_last());
        assert(data.drop_last().push(data.last()) =~= data);
    }
}

/// The gas of joined calldata is the sum of the gas of its parts. So is the estimated gas, but
/// for what every transaction costs anyway, as long as the limit does not cap it.
pub proof fn law_calldata_gas_adds_up(a: Seq<u8>, b: Seq<u8>, gas_limit: nat)
    ensures
        calldata_gas(a + b) == calldata_gas(a) + calldata_gas(b),
        121_000 + calldata_gas(a + b) <= gas_limit ==> tx_gas(gas_limit, a + b) + 121_000 == tx_gas(
            gas_limit,
            a,
        ) + tx_gas(gas_limit, b),
    decreases b.len(),
{
    if b.len() == 0 {
        assert(a + b =~= a);
    } else {
        law_calldata_gas_adds_up(a, b.drop_last(), gas_limit);
        assert((a + b).drop_last() =~= a + b.drop_last());
    }
}

/// The order of the bytes of calldata does not matter for gas.
pub proof fn law_calldata_gas_ignores_order(a: Seq<u8>, b: Seq<u8>, gas_limit: nat)
    requires
        a.to_multiset() == b.to_multiset(),
    ensures
        calldata_gas(a) == calldata_gas(b),
        tx_gas(gas_limit, a) == tx_gas(gas_limit, b),
{
    broadcast use vstd::seq_lib::group_to_multiset_ensures;

    lemma_calldata_gas_counts(a);
    lemma_calldata_gas_counts(b);
    assert(a.len() == a.to_multiset().len() && b.len() == b.to_multiset().len());
}

/// A higher gas limit never gives less gas, and no estimate exceeds its limit.
pub proof fn law_gas_grows_with_limit(low: nat, high: nat, data: Seq<u8>)
    requires
        low <= high,
    ensures
        tx_gas(low, data) <= tx_gas(high, data),
        tx_gas(low, data) <= low,
{
}

/// A prefix of calldata costs no more than the whole.
proof fn lemma_calldata_gas_prefix(data: Seq<u8>, n: int)
    requires
        0 <= n <= data.len(),
    ensures
        calldata_gas(data.take(n)) <= calldata_gas(data),
    decreases data.len() - n,
{
    if n < data.len() {
        lemma_calldata_gas_prefix(data, n + 1);
        assert(data.take(n + 1).drop_last() =~= data.take(n));
    } else {
        assert(data.take(n) =~= data);
    }
}

/// Estimate gas for a bundle transaction based on its data.
pub fn estimate_tx_gas(gas_limit: u64, data: &[u8]) -> (gas: u64)
    requires
        21_000 + calldata_gas(data@) + 100_000 <= u64::MAX,
    ensures
        gas == tx_gas(gas_limit as nat, data@),
{
    let mut total: u64 = 0;
    let mut i: usize = 0;
    while i < data.len()
        invariant
            i <= data@.len(),
            total == calldata_gas(data@.take(i as int)),
            21_000 + calldata_gas(data@) + 100_000 <= u64::MAX,
        decreases data@.len() - i,
    {
        proof {
            lemma_calldata_gas_prefix(data@, i + 1);
            assert(data@.take(i + 1).drop_last() =~= data@.take(i as int));
        }
        total = total + if data[i] == 0 {
            4
        } else {
            16
        };
        i = i + 1;
    }
    assert(data@.take(i as int) =~= data@);
    let estimated: u64 = 21_000 + total + 100_000;
    if estimated < gas_limit {
        estimated
    } else {
        gas_limit
    }
}

/// The estimated gas of a transaction, or nothing where the estimate leaves 64 bits.
fn checked_tx_gas(gas_limit: u64, data: &[u8]) -> (r: Option<u64>)
    ensures
        r == if 21_000 + calldata_gas(data@) + 100_000 <= u64::MAX {
            Some(tx_gas(gas_limit as nat, data@) as u64)
        } else {
            None
        },
{
    let mut total: u64 = 121_000;
    let mut i: usize = 0;
    while i < data.len()
        invariant
            i <= data@.len(),
            total == 121_000 + calldata_gas(data@.take(i as int)),
        decreases data@.len() - i,
    {
        proof {
            lemma_calldata_gas_prefix(data@, i + 1);
            assert(data@.take(i + 1).drop_last() =~= data@.take(i as int));
        }
        let cost: u64 = if data[i] == 0 {
            4
        } else {
            16
        };
        total = match total.checked_add(cost) {
            Some(sum) => sum,
            None => {
                return None;
            },
        };
        i = i + 1;
    }
    assert(data@.take(i as int) =~= data@);
    if total < gas_limit {
        Some(total)
    } else {
        Some(gas_limit)
    }
}

/// A number as a 32-byte big-endian word.
pub fn u128_to_bytes32(val: u128) -> (out: [u8; 32])
    ensures
        out@ == be_bytes(val as nat, 32),
        be_value(out@) == val,
{
    let mut out: [u8; 32] = [0u8; 32];
    let mut rest: u128 = val;
    let mut i: usize = 32;
    assert(be_bytes(val as nat, 32) =~= be_bytes(rest as nat, 32) + out@.skip(32));
    while i > 0
        invariant
            i <= 32,
            be_bytes(val as nat, 32) == be_bytes(rest as nat, i as nat) + out@.skip(i as int),
        decreases i,
    {
        let ghost before = out@;
        i = i - 1;
        out[i] = (rest % 256) as u8;
        assert(be_bytes(rest as nat, (i + 1) as nat) + before.skip(i + 1) =~= be_bytes(
            rest as nat / 256,
            i as nat,
        ) + out@.skip(i as int));
        rest = rest / 256;
    }
    assert(be_bytes(val as nat, 32) =~= out@);
    proof {
        lemma_two_256();
        lemma_be_value_of_bytes(val as nat, 32);
    }
    out
}

/// The bytes that the text of an address stands for in a state change: the bytes that it
/// spells behind an optional `0x`, or none where it is not hexadecimal; the first 20 of
/// them, behind zeros.
pub open spec fn addr_bytes(text: Seq<u8>) -> Seq<u8> {
    let digits = without_0x(text);
    let bytes = if is_hex(digits) {
        hex_bytes(digits)
    } else {
        Seq::empty()
    };
    let len = if bytes.len() < 20 {
        bytes.len()
    } else {
        20
    };
    zeros((20 - len) as nat) + bytes.take(len as int)
}

/// The 20 address bytes of a hexadecimal text, right-aligned.
pub fn decode_addr_bytes(hex_str: &str) -> (out: [u8; 20])
    ensures
        out@ == addr_bytes(hex_str.spec_bytes()),
{
    let digits = strip_0x(hex_str.as_bytes());
    let bytes: Vec<u8> = match hex_decode(digits) {
        Ok(bytes) => bytes,
        Err(_) => Vec::new(),
    };
    let mut out: [u8; 20] = [0u8; 20];
    let len: usize = if bytes.len() < 20 {
        bytes.len()
    } else {
        20
    };
    let mut i: usize = 0;
    while i < len
        invariant
            i <= len <= 20,
            len <= bytes@.len(),
            out@ =~= zeros((20 - len) as nat) + bytes@.take(i as int) + zeros((len - i) as nat),
        decreases len - i,
    {
        out[20 - len + i] = bytes[i];
        i = i + 1;
    }
    assert(out@ =~= zeros((20 - len) as nat) + bytes@.take(len as int));
    out
}

/// The fee, in basis points, of one hop of a swap path: 0.05% on Uniswap V3, and 0.30% on any
/// other exchange or where the path is too short to name one.
pub open spec fn hop_fee(path: Seq<DexType>, hop: int) -> int {
    if hop < path.len() && path[hop] is UniswapV3 {
        5
    } else {
        30
    }
}

/// What gas costs, in wei, at a price in gwei.
pub open spec fn gas_cost(gas: int, gwei: int) -> int {
    gas * gwei * 1_000_000_000
}

/// The fee of a flash loan: 0.05%.
pub open spec fn flash_fee(amount: int) -> int {
    amount * 5 / 10_000
}

/// What the entry exchange pays in an arbitrage.
pub open spec fn arbitrage_mid(opp: Opportunity) -> int {
    swap_out(
        opp.amount_in as int,
        WETH_RESERVE as int,
        USDC_RESERVE as int,
        hop_fee(opp.path@, 0),
    )
}

/// What the exit exchange pays back in an arbitrage.
pub open spec fn arbitrage_out(opp: Opportunity) -> int {
    swap_out(
        arbitrage_mid(opp),
        USDC_RESERVE as int,
        WETH_RESERVE as int,
        hop_fee(opp.path@, 1),
    )
}

/// The net profit of an arbitrage: what comes back, less the flash loan, its fee and the gas.
pub open spec fn arbitrage_profit(gwei: int, opp: Opportunity) -> int {
    arbitrage_out(opp) - opp.amount_in - gas_cost(opp.gas_estimate as int, gwei) - flash_fee(
        opp.amount_in as int,
    )
}

/// The outcome of an arbitrage: it fails where it nets no profit, and it moves the reserves of
/// the two pools.
pub open spec fn arbitrage_outcome(gwei: int, opp: Opportunity) -> SimulationView {
    let net = arbitrage_profit(gwei, opp);
    SimulationView {
        success: net > 0,
        profit: net,
        gas_used: opp.gas_estimate as int,
        error: if net <= 0 {
            Some("Not profitable after gas"@)
        } else {
            None
        },
        state_changes: seq![
            StateChangeView {
                address: Seq::new(20, |i: int| 0xA0u8),
                slot: zeros(32),
                old_value: be_bytes(WETH_RESERVE as nat, 32),
                new_value: be_bytes((WETH_RESERVE + opp.amount_in) as nat, 32),
            },
            StateChangeView {
                address: Seq::new(20, |i: int| 0xB0u8),
                slot: zeros(32),
                old_value: be_bytes(USDC_RESERVE as nat, 32),
                new_value: be_bytes((USDC_RESERVE + arbitrage_mid(opp)) as nat, 32),
            },
        ],
    }
}

/// The arithmetic of an arbitrage stays within its 128-bit types.
pub open spec fn arbitrage_fits(gwei: int, opp: Opportunity) -> bool {
    &&& swap_fits(
        opp.amount_in as int,
        WETH_RESERVE as int,
        USDC_RESERVE as int,
        hop_fee(opp.path@, 0),
    )
    &&& swap_fits(
        arbitrage_mid(opp),
        USDC_RESERVE as int,
        WETH_RESERVE as int,
        hop_fee(opp.path@, 1),
    )
    &&& gas_cost(opp.gas_estimate as int, gwei) <= i128::MAX
    &&& i128::MIN <= arbitrage_profit(gwei, opp)
}

/// The WETH reserve behind a large swap: 0.2% above the fair one.
pub const SKEWED_WETH_RESERVE: u128 = WETH_RESERVE * 10020 / 10000;

/// The USDC reserve behind a large swap: 0.2% below the fair one.
pub const SKEWED_USDC_RESERVE: u128 = USDC_RESERVE * 9980 / 10000;

/// What the skewed pool pays in a backrun.
pub open spec fn backrun_mid(opp: Opportunity) -> int {
    swap_out(
        opp.amount_in as int,
        SKEWED_WETH_RESERVE as int,
        SKEWED_USDC_RESERVE as int,
        FEE_BPS as int,
    )
}

/// What the fair pool pays back in a backrun.
pub open spec fn backrun_out(opp: Opportunity) -> int {
    swap_out(backrun_mid(opp), USDC_RESERVE as int, WETH_RESERVE as int, FEE_BPS as int)
}

/// The net profit of a backrun: what comes back, less what went in and the gas.
pub open spec fn backrun_profit(gwei: int, opp: Opportunity) -> int {
    backrun_out(opp) - opp.amount_in - gas_cost(opp.gas_estimate as int, gwei)
}

/// The arithmetic of a backrun stays within its 128-bit types.
pub open spec fn backrun_fits(gwei: int, opp: Opportunity) -> bool {
    &&& swap_fits(
        opp.amount_in as int,
        SKEWED_WETH_RESERVE as int,
        SKEWED_USDC_RESERVE as int,
        FEE_BPS as int,
    )
    &&& swap_fits(backrun_mid(opp), USDC_RESERVE as int, WETH_RESERVE as int, FEE_BPS as int)
    &&& gas_cost(opp.gas_estimate as int, gwei) <= i128::MAX
    &&& i128::MIN <= backrun_profit(gwei, opp)
}

/// The cost of swapping collateral back: 0.30% of the debt and the bonus.
pub open spec fn liquidation_swap_cost(opp: Opportunity) -> int {
    (opp.amount_in + opp.expected_profit) * 30 / 10_000
}

/// The net profit of a liquidation: the bonus, less the swap, the gas and the flash loan's fee.
pub open spec fn liquidation_profit(gwei: int, opp: Opportunity) -> int {
    opp.expected_profit - liquidation_swap_cost(opp) - gas_cost(opp.gas_estimate as int, gwei)
        - flash_fee(opp.amount_in as int)
}

/// The arithmetic of a liquidation stays within its 128-bit types.
pub open spec fn liquidation_fits(gwei: int, opp: Opportunity) -> bool {
    &&& (opp.amount_in + opp.expected_profit) * 30 <= u128::MAX
    &&& gas_cost(opp.gas_estimate as int, gwei) <= i128::MAX
    &&& i128::MIN <= liquidation_profit(gwei, opp)
}

/// The outcome of a trade that executes without revert and records no state changes.
pub open spec fn plain_outcome(net: int, gas: int) -> SimulationView {
    SimulationView {
        success: true,
        profit: net,
        gas_used: gas,
        error: None,
        state_changes: Seq::empty(),
    }
}

/// The outcome of an opportunity, by its kind.
pub open spec fn outcome(gwei: int, opp: Opportunity) -> SimulationView {
    match opp.opportunity_type {
        OpportunityType::Arbitrage => arbitrage_outcome(gwei, opp),
        OpportunityType::Backrun => plain_outcome(
            backrun_profit(gwei, opp),
            opp.gas_estimate as int,
        ),
        OpportunityType::Liquidation => plain_outcome(
            liquidation_profit(gwei, opp),
            opp.gas_estimate as int,
        ),
    }
}

/// The arithmetic of the opportunity's simulation stays within its 128-bit types.
pub open spec fn simulation_fits(gwei: int, opp: Opportunity) -> bool {
    match opp.opportunity_type {
        OpportunityType::Arbitrage => arbitrage_fits(gwei, opp),
        OpportunityType::Backrun => backrun_fits(gwei, opp),
        OpportunityType::Liquidation => liquidation_fits(gwei, opp),
    }
}

/// A 128-bit tip read as a signed number of the same bits.
pub open spec fn signed_tip(tip: u128) -> int {
    if tip <= i128::MAX {
        tip as int
    } else {
        tip - 0x1_0000_0000_0000_0000_0000_0000_0000_0000int
    }
}

/// The tip per gas that a transaction pays: 1 gwei where it names none.
pub open spec fn tx_tip(tx: BundleTransaction) -> int {
    match tx.max_priority_fee_per_gas {
        Some(tip) => signed_tip(tip),
        None => 1_000_000_000,
    }
}

/// The estimated gas of a transaction of a bundle.
pub open spec fn bundle_tx_gas(tx: BundleTransaction) -> int {
    tx_gas(tx.gas_limit as nat, tx.data@) as int
}

/// What a transaction of a bundle costs: its gas at its tip.
pub open spec fn bundle_tx_cost(tx: BundleTransaction) -> int {
    bundle_tx_gas(tx) * tx_tip(tx)
}

/// The gas of all transactions of a bundle.
pub open spec fn bundle_gas(txs: Seq<BundleTransaction>) -> int
    decreases txs.len(),
{
    if txs.len() == 0 {
        0
    } else {
        bundle_gas(txs.drop_last()) + bundle_tx_gas(txs.last())
    }
}

/// What is left behind the costs of all transactions of a bundle.
pub open spec fn bundle_profit(txs: Seq<BundleTransaction>) -> int
    decreases txs.len(),
{
    if txs.len() == 0 {
        0
    } else {
        bundle_profit(txs.drop_last()) - bundle_tx_cost(txs.last())
    }
}

/// The state change that a transaction of a bundle records: its gas, at its recipient.
pub open spec fn bundle_tx_change(tx: BundleTransaction) -> StateChangeView {
    StateChangeView {
        address: addr_bytes(encode_utf8(tx.to@)),
        slot: zeros(32),
        old_value: zeros(32),
        new_value: be_bytes(bundle_tx_gas(tx) as nat, 32),
    }
}

/// The outcome of a bundle, which executes without revert.
pub open spec fn bundle_outcome(txs: Seq<BundleTransaction>) -> SimulationView {
    SimulationView {
        success: true,
        profit: bundle_profit(txs),
        gas_used: bundle_gas(txs),
        error: None,
        state_changes: txs.map_values(|tx: BundleTransaction| bundle_tx_change(tx)),
    }
}

/// The running sums behind the first `n` transactions of a bundle, and the cost of the `n`th,
/// stay within their types.
pub open spec fn bundle_step_fits(txs: Seq<BundleTransaction>, n: int) -> bool {
    &&& 21_000 + calldata_gas(txs[n].data@) + 100_000 <= u64::MAX
    &&& bundle_gas(txs.take(n + 1)) <= u64::MAX
    &&& i128::MIN <= bundle_tx_cost(txs[n]) <= i128::MAX
    &&& i128::MIN <= bundle_profit(txs.take(n + 1)) <= i128::MAX
}

/// The arithmetic of a bundle's simulation stays within its types.
pub open spec fn bundle_fits(txs: Seq<BundleTransaction>) -> bool {
    forall|n: int| 0 <= n < txs.len() ==> #[trigger] bundle_step_fits(txs, n)
}

/// Casting a 128-bit number to the signed type of its width keeps its bits.
proof fn lemma_signed_tip(tip: u128)
    ensures
        tip as i128 == signed_tip(tip),
{
    assert(tip <= 0x7fff_ffff_ffff_ffff_ffff_ffff_ffff_ffff ==> (tip as i128) == tip)
        by (bit_vector);
    assert(tip > 0x7fff_ffff_ffff_ffff_ffff_ffff_ffff_ffff ==> (tip as i128) == tip
        - 0xffff_ffff_ffff_ffff_ffff_ffff_ffff_ffffu128 - 1) by (bit_vector);
}

/// The gas price and the counters of a simulator.
pub struct SimulatorView {
    pub max_gas_price_gwei: u64,
    pub count: u64,
    pub success_count: u64,
    pub total_latency_us: u64,
}

/// The state of a simulator behind one more simulation with the given outcome. A success that
/// made a profit is counted as one.
pub open spec fn counted(before: SimulatorView, sim: SimulationView) -> SimulatorView {
    SimulatorView {
        count: before.count.wrapping_add(1),
        success_count: if sim.success && sim.profit > 0 {
            before.success_count.wrapping_add(1)
        } else {
            before.success_count
        },
        ..before
    }
}

/// Simulates opportunities and bundles, and counts what it simulated.
pub struct EvmSimulator {
    config: Arc<Config>,
    count: u64,
    success_count: u64,
    total_latency_us: u64,
}

impl View for EvmSimulator {
    type V = SimulatorView;

    closed spec fn view(&self) -> SimulatorView {
        SimulatorView {
            max_gas_price_gwei: self.config.strategy.max_gas_price_gwei,
            count: self.count,
            success_count: self.success_count,
            total_latency_us: self.total_latency_us,
        }
    }
}

/// `2^127`, how far below zero an `i128` reaches.
const I128_MIN_SIZE: u128 = 0x8000_0000_0000_0000_0000_0000_0000_0000;

/// The fee, in basis points, of one hop of a swap path.
fn path_fee(path: &Vec<DexType>, hop: usize) -> (fee: u128)
    ensures
        fee == hop_fee(path@, hop as int),
{
    if path.len() > hop {
        match path[hop] {
            DexType::UniswapV3 => 5,
            _ => 30,
        }
    } else {
        30
    }
}

/// The gas cost in wei, or nothing where it leaves the positive range of an `i128`.
fn checked_gas_cost(gas: u64, gwei: u64) -> (r: Option<u128>)
    ensures
        r == if gas_cost(gas as int, gwei as int) <= i128::MAX {
            Some(gas_cost(gas as int, gwei as int) as u128)
        } else {
            None
        },
{
    proof {
        lemma_gas_cost(gas, gwei);
    }
    let units: u128 = gas as u128 * gwei as u128;
    match units.checked_mul(1_000_000_000) {
        Some(cost) => if cost <= i128::MAX as u128 {
            Some(cost)
        } else {
            None
        },
        None => None,
    }
}

/// Gas costs are never negative, and the product of gas and gwei fits in 128 bits.
proof fn lemma_gas_cost(gas: u64, gwei: u64)
    ensures
        0 <= gas * gwei <= u64::MAX * u64::MAX,
        0 <= gas_cost(gas as int, gwei as int),
{
    assert(0 <= gas * gwei <= u64::MAX * u64::MAX) by (nonlinear_arith)
        requires
            0 <= gas <= u64::MAX,
            0 <= gwei <= u64::MAX,
    ;
}

impl EvmSimulator {
    /// A simulator that has simulated nothing yet.
    pub fn new(config: Arc<Config>) -> (r: Self)
        ensures
            r@ == (SimulatorView {
                max_gas_price_gwei: config.strategy.max_gas_price_gwei,
                count: 0,
                success_count: 0,
                total_latency_us: 0,
            }),
    {
        Self { config, count: 0, success_count: 0, total_latency_us: 0 }
    }

    /// Whether an arbitrage can be simulated without leaving the 128-bit types.
    fn can_simulate_arbitrage(&self, opp: &Opportunity) -> (r: bool)
        ensures
            r == arbitrage_fits(self@.max_gas_price_gwei as int, *opp),
    {
        let entry_fee: u128 = path_fee(&opp.path, 0);
        let exit_fee: u128 = path_fee(&opp.path, 1);
        let amount_in: u128 = opp.amount_in;
        let mid = checked_swap(amount_in, WETH_RESERVE, USDC_RESERVE, entry_fee);
        proof {
            law_output_below_reserve(
                amount_in as int,
                WETH_RESERVE as int,
                USDC_RESERVE as int,
                entry_fee as int,
            );
            law_output_below_reserve(
                arbitrage_mid(*opp),
                USDC_RESERVE as int,
                WETH_RESERVE as int,
                exit_fee as int,
            );
        }
        match mid {
            None => false,
            Some(mid) => match checked_swap(mid, USDC_RESERVE, WETH_RESERVE, exit_fee) {
                None => false,
                Some(out) => match checked_gas_cost(
                    opp.gas_estimate,
                    self.config.strategy.max_gas_price_gwei,
                ) {
                    None => false,
                    Some(cost) => {
                        assert(amount_in * 9970 <= u128::MAX) by (nonlinear_arith)
                            requires
                                amount_in != 0 ==> amount_in * (BPS - entry_fee) <= u128::MAX,
                                entry_fee <= 30,
                        ;
                        amount_in + cost + amount_in * 5 / 10_000 <= I128_MIN_SIZE + out
                    },
                },
            },
        }
    }

    /// Whether a backrun can be simulated without leaving the 128-bit types.
    fn can_simulate_backrun(&self, opp: &Opportunity) -> (r: bool)
        ensures
            r == backrun_fits(self@.max_gas_price_gwei as int, *opp),
    {
        let amount_in: u128 = opp.amount_in;
        let mid = checked_swap(amount_in, SKEWED_WETH_RESERVE, SKEWED_USDC_RESERVE, FEE_BPS);
        proof {
            law_output_below_reserve(
                amount_in as int,
                SKEWED_WETH_RESERVE as int,
                SKEWED_USDC_RESERVE as int,
                FEE_BPS as int,
            );
            law_output_below_reserve(
                backrun_mid(*opp),
                USDC_RESERVE as int,
                WETH_RESERVE as int,
                FEE_BPS as int,
            );
        }
        match mid {
            None => false,
            Some(mid) => match checked_swap(mid, USDC_RESERVE, WETH_RESERVE, FEE_BPS) {
                None => false,
                Some(out) => match checked_gas_cost(
                    opp.gas_estimate,
                    self.config.strategy.max_gas_price_gwei,
                ) {
                    None => false,
                    Some(cost) => amount_in + cost <= I128_MIN_SIZE + out,
                },
            },
        }
    }

    /// Whether a liquidation can be simulated without leaving the 128-bit types.
    fn can_simulate_liquidation(&self, opp: &Opportunity) -> (r: bool)
        ensures
            r == liquidation_fits(self@.max_gas_price_gwei as int, *opp),
    {
        let total = opp.amount_in.checked_add(opp.expected_profit);
        match total {
            None => false,
            Some(total) => match total.checked_mul(30) {
                None => false,
                Some(scaled) => match checked_gas_cost(
                    opp.gas_estimate,
                    self.config.strategy.max_gas_price_gwei,
                ) {
                    None => false,
                    Some(cost) => scaled / 10_000 + cost + opp.amount_in * 5 / 10_000
                        <= I128_MIN_SIZE + opp.expected_profit,
                },
            },
        }
    }

    /// Whether an opportunity can be simulated without leaving the 128-bit types.
    pub fn can_simulate(&self, opp: &Opportunity) -> (r: bool)
        ensures
            r == simulation_fits(self@.max_gas_price_gwei as int, *opp),
    {
        match opp.opportunity_type {
            OpportunityType::Arbitrage => self.can_simulate_arbitrage(opp),
            OpportunityType::Backrun => self.can_simulate_backrun(opp),
            OpportunityType::Liquidation => self.can_simulate_liquidation(opp),
        }
    }

    /// Whether a bundle can be simulated without leaving the integer types.
    pub fn can_simulate_bundle(bundle: &Bundle) -> (r: bool)
        ensures
            r == bundle_fits(bundle.transactions@),
    {
        let ghost txs = bundle.transactions@;
        let mut total_profit: i128 = 0;
        let mut total_gas: u64 = 0;
        let mut idx: usize = 0;
        assert(txs.take(0) =~= Seq::empty());
        while idx < bundle.transactions.len()
            invariant
                idx <= txs.len(),
                txs == bundle.transactions@,
                total_profit == bundle_profit(txs.take(idx as int)),
                total_gas == bundle_gas(txs.take(idx as int)),
                forall|n: int| 0 <= n < idx ==> #[trigger] bundle_step_fits(txs, n),
            decreases txs.len() - idx,
        {
            let tx = &bundle.transactions[idx];
            proof {
                assert(txs.take(idx + 1).drop_last() =~= txs.take(idx as int));
            }
            let tip: u128 = tx.max_priority_fee_per_gas.unwrap_or(1_000_000_000);
            proof {
                lemma_signed_tip(tip);
            }
            let gas: u64 = match checked_tx_gas(tx.gas_limit, tx.data.as_slice()) {
                Some(gas) => gas,
                None => {
                    assert(!bundle_step_fits(txs, idx as int));
                    return false;
                },
            };
            total_gas = match total_gas.checked_add(gas) {
                Some(sum) => sum,
                None => {
                    assert(!bundle_step_fits(txs, idx as int));
                    return false;
                },
            };
            let gas_cost: i128 = match (gas as i128).checked_mul(tip as i128) {
                Some(cost) => cost,
                None => {
                    assert(!bundle_step_fits(txs, idx as int));
                    return false;
                },
            };
            total_profit = match total_profit.checked_sub(gas_cost) {
                Some(rest) => rest,
                None => {
                    assert(!bundle_step_fits(txs, idx as int));
                    return false;
                },
            };
            idx = idx + 1;
        }
        true
    }

    /// Simulates an arbitrage: buy on the entry exchange, sell on the exit exchange, and see
    /// whether the flash loan's fee and the gas leave a profit.
    pub fn simulate_arbitrage(&self, opp: &Opportunity) -> (r: Result<SimulationResult, String>)
        requires
            arbitrage_fits(self@.max_gas_price_gwei as int, *opp),
        ensures
            r matches Ok(sim) && sim@ == arbitrage_outcome(self@.max_gas_price_gwei as int, *opp),
    {
        let flash_amount: u128 = opp.amount_in;
        let entry_fee: u128 = path_fee(&opp.path, 0);
        let amount_mid: u128 = constant_product_swap(
            flash_amount,
            WETH_RESERVE,
            USDC_RESERVE,
            entry_fee,
        );
        let exit_fee: u128 = path_fee(&opp.path, 1);
        let amount_out: u128 = constant_product_swap(
            amount_mid,
            USDC_RESERVE,
            WETH_RESERVE,
            exit_fee,
        );
        proof {
            law_output_below_reserve(
                flash_amount as int,
                WETH_RESERVE as int,
                USDC_RESERVE as int,
                entry_fee as int,
            );
            law_output_below_reserve(
                amount_mid as int,
                USDC_RESERVE as int,
                WETH_RESERVE as int,
                exit_fee as int,
            );
            lemma_gas_cost(opp.gas_estimate, self.config.strategy.max_gas_price_gwei);
            assert(flash_amount * 9970 <= u128::MAX) by (nonlinear_arith)
                requires
                    flash_amount != 0 ==> flash_amount * (BPS - entry_fee) <= u128::MAX,
                    entry_fee <= 30,
            ;
        }
        let gross: i128 = amount_out as i128 - flash_amount as i128;
        let gas: u64 = opp.gas_estimate;
        let gas_price: u128 = self.config.strategy.max_gas_price_gwei as u128 * 1_000_000_000;
        assert(gas * gas_price == gas_cost(
            gas as int,
            self.config.strategy.max_gas_price_gwei as int,
        )) by (nonlinear_arith)
            requires
                gas_price == self.config.strategy.max_gas_price_gwei * 1_000_000_000,
        ;
        let gas_cost: i128 = gas as i128 * gas_price as i128;
        let flash_fee: i128 = (flash_amount as i128) * 5 / 10_000;
        let net_profit: i128 = gross - gas_cost - flash_fee;
        let mut state_changes: Vec<StateChange> = Vec::new();
        state_changes.push(
            StateChange {
                address: [0xA0;20],
                slot: [0u8;32],
                old_value: u128_to_bytes32(WETH_RESERVE),
                new_value: u128_to_bytes32(WETH_RESERVE + flash_amount),
            },
        );
        state_changes.push(
            StateChange {
                address: [0xB0;20],
                slot: [0u8;32],
                old_value: u128_to_bytes32(USDC_RESERVE),
                new_value: u128_to_bytes32(USDC_RESERVE + amount_mid),
            },
        );
        let sim = SimulationResult {
            success: net_profit > 0,
            profit: net_profit,
            gas_used: gas,
            error: if net_profit <= 0 {
                Some("Not profitable after gas".to_owned())
            } else {
                None
            },
            state_changes,
        };
        assert(sim@ =~~= arbitrage_outcome(self@.max_gas_price_gwei as int, *opp));
        Ok(sim)
    }

    /// Simulates a backrun: execute after a large swap to capture the price recovery.
    pub fn simulate_backrun(&self, opp: &Opportunity) -> (r: Result<SimulationResult, String>)
        requires
            backrun_fits(self@.max_gas_price_gwei as int, *opp),
        ensures
            r matches Ok(sim) && sim@ == plain_outcome(
                backrun_profit(self@.max_gas_price_gwei as int, *opp),
                opp.gas_estimate as int,
            ),
    {
        let amount_mid: u128 = constant_product_swap(
            opp.amount_in,
            SKEWED_WETH_RESERVE,
            SKEWED_USDC_RESERVE,
            FEE_BPS,
        );
        let amount_out: u128 = constant_product_swap(
            amount_mid,
            USDC_RESERVE,
            WETH_RESERVE,
            FEE_BPS,
        );
        proof {
            law_output_below_reserve(
                amount_mid as int,
                USDC_RESERVE as int,
                WETH_RESERVE as int,
                FEE_BPS as int,
            );
            lemma_gas_cost(opp.gas_estimate, self.config.strategy.max_gas_price_gwei);
        }
        let gas_cost: i128 = opp.gas_estimate as i128
            * self.config.strategy.max_gas_price_gwei as i128 * 1_000_000_000;
        let net_profit: i128 = amount_out as i128 - opp.amount_in as i128 - gas_cost;
        let sim = SimulationResult {
            success: true,
            profit: net_profit,
            gas_used: opp.gas_estimate,
            error: None,
            state_changes: Vec::new(),
        };
        assert(sim@ =~~= plain_outcome(
            backrun_profit(self@.max_gas_price_gwei as int, *opp),
            opp.gas_estimate as int,
        ));
        Ok(sim)
    }

    /// Simulates a liquidation: flash borrow, repay the debt, receive the collateral.
    pub fn simulate_liquidation(&self, opp: &Opportunity) -> (r: Result<SimulationResult, String>)
        requires
            liquidation_fits(self@.max_gas_price_gwei as int, *opp),
        ensures
            r matches Ok(sim) && sim@ == plain_outcome(
                liquidation_profit(self@.max_gas_price_gwei as int, *opp),
                opp.gas_estimate as int,
            ),
    {
        let flash_amount: u128 = opp.amount_in;
        let bonus_amount: u128 = opp.expected_profit;
        let swap_cost: u128 = (flash_amount + bonus_amount) * 30 / 10_000;
        proof {
            lemma_gas_cost(opp.gas_estimate, self.config.strategy.max_gas_price_gwei);
        }
        let gas_cost: i128 = opp.gas_estimate as i128
            * self.config.strategy.max_gas_price_gwei as i128 * 1_000_000_000;
        let flash_fee: i128 = flash_amount as i128 * 5 / 10_000;
        let net: i128 = bonus_amount as i128 - swap_cost as i128 - gas_cost - flash_fee;
        let sim = SimulationResult {
            success: true,
            profit: net,
            gas_used: opp.gas_estimate,
            error: None,
            state_changes: Vec::new(),
        };
        assert(sim@ =~~= plain_outcome(
            liquidation_profit(self@.max_gas_price_gwei as int, *opp),
            opp.gas_estimate as int,
        ));
        Ok(sim)
    }

    /// What is reported of a finished simulation: the simulation itself, or a failure that
    /// carries the reason and nothing else. Counts a success that made a profit.
    fn settle(&mut self, result: Result<SimulationResult, String>) -> (sim: SimulationResult)
        ensures
            match result {
                Ok(done) => sim == done && final(self)@ == (SimulatorView {
                    success_count: if done.success && done.profit > 0 {
                        old(self)@.success_count.wrapping_add(1)
                    } else {
                        old(self)@.success_count
                    },
                    ..old(self)@
                }),
                Err(reason) => sim@ == (SimulationView {
                    success: false,
                    profit: 0,
                    gas_used: 0,
                    error: Some(reason@),
                    state_changes: Seq::empty(),
                }) && final(self)@ == old(self)@,
            },
    {
        match result {
            Ok(sim) => {
                if sim.success && sim.profit > 0 {
                    self.success_count = self.success_count.wrapping_add(1);
                }
                sim
            },
            Err(reason) => {
                let sim = SimulationResult {
                    success: false,
                    profit: 0,
                    gas_used: 0,
                    error: Some(reason),
                    state_changes: Vec::new(),
                };
                assert(sim@.state_changes =~= Seq::empty());
                sim
            },
        }
    }

    /// Simulates an opportunity.
    pub fn simulate(&mut self, opportunity: &Opportunity) -> (sim: SimulationResult)
        requires
            simulation_fits(old(self)@.max_gas_price_gwei as int, *opportunity),
        ensures
            sim@ == outcome(old(self)@.max_gas_price_gwei as int, *opportunity),
            final(self)@ == counted(old(self)@, sim@),
    {
        self.count = self.count.wrapping_add(1);
        let result = match opportunity.opportunity_type {
            OpportunityType::Arbitrage => self.simulate_arbitrage(opportunity),
            OpportunityType::Backrun => self.simulate_backrun(opportunity),
            OpportunityType::Liquidation => self.simulate_liquidation(opportunity),
        };
        self.settle(result)
    }

    /// Simulates a complete bundle (sequential transaction execution).
    pub fn simulate_bundle(&mut self, bundle: &Bundle) -> (sim: SimulationResult)
        requires
            bundle_fits(bundle.transactions@),
        ensures
            sim@ == bundle_outcome(bundle.transactions@),
            final(self)@ == counted(old(self)@, sim@),
    {
        self.count = self.count.wrapping_add(1);
        let mut total_profit: i128 = 0;
        let mut total_gas: u64 = 0;
        let mut all_changes: Vec<StateChange> = Vec::new();
        let ghost txs = bundle.transactions@;
        let mut idx: usize = 0;
        assert(txs.take(0) =~= Seq::empty());
        while idx < bundle.transactions.len()
            invariant
                idx <= txs.len(),
                txs == bundle.transactions@,
                bundle_fits(txs),
                total_profit == bundle_profit(txs.take(idx as int)),
                total_gas == bundle_gas(txs.take(idx as int)),
                all_changes@.len() == idx,
                forall|j: int|
                    0 <= j < idx ==> (#[trigger] all_changes@[j])@ == bundle_tx_change(txs[j]),
            decreases txs.len() - idx,
        {
            let tx = &bundle.transactions[idx];
            proof {
                assert(bundle_step_fits(txs, idx as int));
                assert(txs.take(idx + 1).drop_last() =~= txs.take(idx as int));
            }
            let gas: u64 = estimate_tx_gas(tx.gas_limit, tx.data.as_slice());
            total_gas = total_gas + gas;
            let tip: u128 = tx.max_priority_fee_per_gas.unwrap_or(1_000_000_000);
            proof {
                lemma_signed_tip(tip);
            }
            let gas_cost: i128 = gas as i128 * (tip as i128);
            total_profit = total_profit - gas_cost;
            let change = StateChange {
                address: decode_addr_bytes(tx.to.as_str()),
                slot: [0u8;32],
                old_value: [0u8;32],
                new_value: u128_to_bytes32(gas as u128),
            };
            assert(change@ =~= bundle_tx_change(*tx));
            all_changes.push(change);
            idx = idx + 1;
        }
        assert(txs.take(idx as int) =~= txs);
        if total_profit > 0 {
            self.success_count = self.success_count.wrapping_add(1);
        }
        let sim = SimulationResult {
            success: true,
            profit: total_profit,
            gas_used: total_gas,
            error: None,
            state_changes: all_changes,
        };
        assert(sim@ =~~= bundle_outcome(txs));
        sim
    }

    /// Adds the time that a simulation took.
    pub fn record_latency(&mut self, micros: u64)
        ensures
            final(self)@ == (SimulatorView {
                total_latency_us: old(self)@.total_latency_us.wrapping_add(micros),
                ..old(self)@
            }),
    {
        self.total_latency_us = self.total_latency_us.wrapping_add(micros);
    }

    /// How many simulations ran.
    pub fn count(&self) -> (r: u64)
        ensures
            r == self@.count,
    {
        self.count
    }

    /// How many simulations made a profit.
    pub fn success_count(&self) -> (r: u64)
        ensures
            r == self@.success_count,
    {
        self.success_count
    }

    /// The figures that a stopped simulator leaves behind.
    pub fn stop(&self) -> (r: SimulatorReport)
        ensures
            r.total == self@.count,
            r.succeeded == self@.success_count,
            r.avg_latency_us == if self@.count > 0 {
                self@.total_latency_us / self@.count
            } else {
                0
            },
    {
        SimulatorReport {
            total: self.count,
            succeeded: self.success_count,
            avg_latency_us: if self.count > 0 {
                self.total_latency_us / self.count
            } else {
                0
            },
        }
    }
}

/// With the same reserves on both exchanges, a round trip loses to the fees: an arbitrage
/// never nets a profit, whatever the amount, the path and the gas, and nets a loss wherever there
/// is anything to swap.
pub proof fn law_arbitrage_never_profits(gwei: int, opp: Opportunity)
    requires
        0 <= gwei,
    ensures
        arbitrage_profit(gwei, opp) <= 0,
        opp.amount_in > 0 ==> arbitrage_profit(gwei, opp) < 0,
        !arbitrage_outcome(gwei, opp).success,
{
    law_round_trip_never_gains(
        opp.amount_in as int,
        WETH_RESERVE as int,
        USDC_RESERVE as int,
        hop_fee(opp.path@, 0),
        USDC_RESERVE as int,
        WETH_RESERVE as int,
        hop_fee(opp.path@, 1),
    );
    lemma_mul_nonnegative(opp.gas_estimate as int, gwei);
}

/// A pool skewed by a large swap in the same direction pays no more than the fair pool takes
/// back: a backrun never nets a profit, and nets a loss wherever there is anything to swap.
pub proof fn law_backrun_never_profits(gwei: int, opp: Opportunity)
    requires
        0 <= gwei,
    ensures
        backrun_profit(gwei, opp) <= 0,
        opp.amount_in > 0 ==> backrun_profit(gwei, opp) < 0,
{
    law_round_trip_never_gains(
        opp.amount_in as int,
        SKEWED_WETH_RESERVE as int,
        SKEWED_USDC_RESERVE as int,
        FEE_BPS as int,
        USDC_RESERVE as int,
        WETH_RESERVE as int,
        FEE_BPS as int,
    );
    lemma_mul_nonnegative(opp.gas_estimate as int, gwei);
}

/// A liquidation nets at most its bonus.
pub proof fn law_liquidation_profit_bounded(gwei: int, opp: Opportunity)
    requires
        0 <= gwei,
    ensures
        liquidation_profit(gwei, opp) <= opp.expected_profit,
{
    lemma_mul_nonnegative(opp.gas_estimate as int, gwei);
}

/// A bundle only pays for gas: where no tip reaches into the sign bit, it never nets a profit.
pub proof fn law_bundle_never_profits(txs: Seq<BundleTransaction>)
    requires
        forall|i: int| 0 <= i < txs.len() ==> 0 <= #[trigger] tx_tip(txs[i]),
    ensures
        bundle_profit(txs) <= 0,
    decreases txs.len(),
{
    if txs.len() > 0 {
        assert forall|i: int| 0 <= i < txs.drop_last().len() implies 0 <= #[trigger] tx_tip(
            txs.drop_last()[i],
        ) by {
            assert(txs.drop_last()[i] == txs[i]);
        }
        law_bundle_never_profits(txs.drop_last());
        assert(0 <= tx_tip(txs[txs.len() - 1]));
        lemma_mul_nonnegative(bundle_tx_gas(txs.last()), tx_tip(txs.last()));
    }
}

/// A simulation succeeds exactly if it reports no error.
pub proof fn law_success_is_no_error(gwei: int, opp: Opportunity, txs: Seq<BundleTransaction>)
    ensures
        outcome(gwei, opp).success <==> outcome(gwei, opp).error is None,
        bundle_outcome(txs).success <==> bundle_outcome(txs).error is None,
{
}

/// As long as the counter of simulations does not wrap, there are never more successes than
/// simulations.
pub proof fn law_successes_within_count(before: SimulatorView, sim: SimulationView)
    requires
        before.success_count <= before.count < u64::MAX,
    ensures
        counted(before, sim).success_count <= counted(before, sim).count,
        counted(before, sim).count == before.count + 1,
{
}

/// The figures of a stopped simulator.
#[derive(Debug, Clone, Copy, PartialEq, Eq, Structural)]
pub struct SimulatorReport {
    /// How many simulations ran.
    pub total: u64,
    /// How many of them made a profit.
    pub succeeded: u64,
    /// The mean time of a simulation, in whole microseconds.
    pub avg_latency_us: u64,
}

/// The gas of a transaction in closed form: 21000 to start with, 100000 for the contract, 4 for
/// each zero byte and 16 for each other byte, up to the limit.
pub proof fn law_gas_in_closed_form(gas_limit: nat, data: Seq<u8>)
    ensures
        ({
            let nonzero = data.filter(|b: u8| b != 0).len();
            let full = 21_000 + 100_000 + 4 * (data.len() - nonzero) + 16 * nonzero;
            tx_gas(gas_limit, data) == if full < gas_limit {
                full
            } else {
                gas_limit as int
            }
        }),
{
    lemma_nonzero_gas(data);
}

proof fn lemma_nonzero_gas(data: Seq<u8>)
    ensures
        calldata_gas(data) == 4 * (data.len() - data.filter(|b: u8| b != 0).len()) + 16
            * data.filter(|b: u8| b != 0).len(),
    decreases data.len(),
{
    reveal(Seq::filter);
    if data.len() > 0 {
        lemma_nonzero_gas(data.drop_last());
    }
}

/// Each further gwei of gas price lowers the profit of every kind of opportunity by the gas, in
/// units of a billion wei, and changes nothing else.
pub proof fn law_gas_price_lowers_profit(gwei: int, opp: Opportunity)
    ensures
        outcome(gwei + 1, opp).profit == outcome(gwei, opp).profit - opp.gas_estimate
            * 1_000_000_000,
        outcome(gwei + 1, opp).gas_used == outcome(gwei, opp).gas_used,
        outcome(gwei + 1, opp).state_changes == outcome(gwei, opp).state_changes,
{
    assert(opp.gas_estimate * (gwei + 1) * 1_000_000_000 == opp.gas_estimate * gwei * 1_000_000_000
        + opp.gas_estimate * 1_000_000_000) by (nonlinear_arith);
}

/// Without a gas price a liquidation nets its bonus, less 30 basis points of what is swapped back
/// and 5 basis points of what is borrowed, each rounded down.
pub proof fn law_liquidation_profit_without_gas(opp: Opportunity)
    requires
        opp.opportunity_type == OpportunityType::Liquidation,
    ensures
        ({
            let swapped = opp.amount_in + opp.expected_profit;
            let costs = opp.expected_profit - outcome(0, opp).profit;
            exists|swap_cost: int, loan_fee: int|
                costs == swap_cost + loan_fee && #[trigger] is_share(swapped, 30, swap_cost)
                    && #[trigger] is_share(opp.amount_in as int, 5, loan_fee)
        }),
{
    assert(opp.gas_estimate * 0 * 1_000_000_000 == 0) by (nonlinear_arith);
    assert(is_share(
        opp.amount_in + opp.expected_profit,
        30,
        (opp.amount_in + opp.expected_profit) * 30 / 10_000,
    ));
    assert(is_share(opp.amount_in as int, 5, opp.amount_in * 5 / 10_000));
}

/// `part` is `bps` basis points of `whole`, rounded down.
pub open spec fn is_share(whole: int, bps: int, part: int) -> bool {
    part * 10_000 <= whole * bps < (part + 1) * 10_000
}

/// Without a gas price an arbitrage nets what the exit exchange pays for what the entry exchange
/// paid, less the loan and 5 basis points of it. Uniswap V3 takes 5 basis points and any other
/// exchange 30; the pools hold 5000 WETH and ten million USDC.
pub proof fn law_arbitrage_profit_without_gas(opp: Opportunity, mid: int, back: int, loan_fee: int)
    requires
        opp.opportunity_type == OpportunityType::Arbitrage,
        is_fair_output(
            opp.amount_in as int,
            5_000_000_000_000_000_000_000,
            10_000_000_000_000,
            if opp.path@.len() > 0 && opp.path@[0] == DexType::UniswapV3 {
                5
            } else {
                30
            },
            mid,
        ),
        is_fair_output(
            mid,
            10_000_000_000_000,
            5_000_000_000_000_000_000_000,
            if opp.path@.len() > 1 && opp.path@[1] == DexType::UniswapV3 {
                5
            } else {
                30
            },
            back,
        ),
        is_share(opp.amount_in as int, 5, loan_fee),
    ensures
        outcome(0, opp).profit == back - opp.amount_in - loan_fee,
{
    lemma_arbitrage_outputs(opp, mid, back);
    assert(opp.gas_estimate * 0 * 1_000_000_000 == 0) by (nonlinear_arith);
}

proof fn lemma_arbitrage_outputs(opp: Opportunity, mid: int, back: int)
    requires
        is_fair_output(
            opp.amount_in as int,
            5_000_000_000_000_000_000_000,
            10_000_000_000_000,
            if opp.path@.len() > 0 && opp.path@[0] == DexType::UniswapV3 {
                5
            } else {
                30
            },
            mid,
        ),
        is_fair_output(
            mid,
            10_000_000_000_000,
            5_000_000_000_000_000_000_000,
            if opp.path@.len() > 1 && opp.path@[1] == DexType::UniswapV3 {
                5
            } else {
                30
            },
            back,
        ),
    ensures
        mid == arbitrage_mid(opp),
        back == arbitrage_out(opp),
{
    law_fair_output_is_unique(
        opp.amount_in as int,
        5_000_000_000_000_000_000_000,
        10_000_000_000_000,
        hop_fee(opp.path@, 0),
        mid,
    );
    law_fair_output_is_unique(
        mid,
        10_000_000_000_000,
        5_000_000_000_000_000_000_000,
        hop_fee(opp.path@, 1),
        back,
    );
}

/// Without a gas price a backrun nets what the fair pool pays for what the skewed pool paid, less
/// what went in, at 30 basis points each. The skewed pool holds 0.2% more WETH and 0.2% less USDC
/// than the fair one.
pub proof fn law_backrun_profit_without_gas(opp: Opportunity, mid: int, back: int)
    requires
        opp.opportunity_type == OpportunityType::Backrun,
        is_fair_output(
            opp.amount_in as int,
            5_010_000_000_000_000_000_000,
            9_980_000_000_000,
            30,
            mid,
        ),
        is_fair_output(mid, 10_000_000_000_000, 5_000_000_000_000_000_000_000, 30, back),
    ensures
        outcome(0, opp).profit == back - opp.amount_in,
{
    lemma_backrun_outputs(opp, mid, back);
    assert(opp.gas_estimate * 0 * 1_000_000_000 == 0) by (nonlinear_arith);
}

proof fn lemma_backrun_outputs(opp: Opportunity, mid: int, back: int)
    requires
        is_fair_output(
            opp.amount_in as int,
            5_010_000_000_000_000_000_000,
            9_980_000_000_000,
            30,
            mid,
        ),
        is_fair_output(mid, 10_000_000_000_000, 5_000_000_000_000_000_000_000, 30, back),
    ensures
        mid == backrun_mid(opp),
        back == backrun_out(opp),
{
    assert(SKEWED_WETH_RESERVE == 5_010_000_000_000_000_000_000);
    assert(SKEWED_USDC_RESERVE == 9_980_000_000_000);
    law_fair_output_is_unique(
        opp.amount_in as int,
        5_010_000_000_000_000_000_000,
        9_980_000_000_000,
        30,
        mid,
    );
    law_fair_output_is_unique(mid, 10_000_000_000_000, 5_000_000_000_000_000_000_000, 30, back);
}

/// Every simulation uses the estimated gas. An arbitrage without profit fails, with its reason,
/// and nothing else does. Only an arbitrage changes state: slot zero of its two pools goes from
/// what each held of the token that came in to that and what came in.
pub proof fn law_outcome_besides_profit(gwei: int, opp: Opportunity, mid: int, back: int)
    requires
        is_fair_output(
            opp.amount_in as int,
            5_000_000_000_000_000_000_000,
            10_000_000_000_000,
            if opp.path@.len() > 0 && opp.path@[0] == DexType::UniswapV3 {
                5
            } else {
                30
            },
            mid,
        ),
        is_fair_output(
            mid,
            10_000_000_000_000,
            5_000_000_000_000_000_000_000,
            if opp.path@.len() > 1 && opp.path@[1] == DexType::UniswapV3 {
                5
            } else {
                30
            },
            back,
        ),
    ensures
        ({
            let sim = outcome(gwei, opp);
            &&& sim.gas_used == opp.gas_estimate
            &&& sim.success <==> opp.opportunity_type != OpportunityType::Arbitrage || sim.profit
                > 0
            &&& sim.success ==> sim.error is None
            &&& !sim.success ==> sim.error == Some("Not profitable after gas"@)
            &&& opp.opportunity_type != OpportunityType::Arbitrage ==> sim.state_changes.len() == 0
            &&& opp.opportunity_type == OpportunityType::Arbitrage ==> {
                &&& sim.state_changes.len() == 2
                &&& is_slot_change(
                    sim.state_changes[0],
                    0xA0,
                    5_000_000_000_000_000_000_000,
                    opp.amount_in as int,
                )
                &&& is_slot_change(sim.state_changes[1], 0xB0, 10_000_000_000_000, mid)
            }
        }),
{
    lemma_arbitrage_outputs(opp, mid, back);
    law_output_below_reserve(
        opp.amount_in as int,
        5_000_000_000_000_000_000_000,
        10_000_000_000_000,
        hop_fee(opp.path@, 0),
    );
    law_output_is_greatest(
        opp.amount_in as int,
        5_000_000_000_000_000_000_000,
        10_000_000_000_000,
        hop_fee(opp.path@, 0),
    );
    lemma_two_256();
    lemma_be_value_of_bytes(5_000_000_000_000_000_000_000, 32);
    lemma_be_value_of_bytes((5_000_000_000_000_000_000_000 + opp.amount_in) as nat, 32);
    lemma_be_value_of_bytes(10_000_000_000_000, 32);
    lemma_be_value_of_bytes((10_000_000_000_000 + mid) as nat, 32);
    lemma_be_bytes_len(5_000_000_000_000_000_000_000, 32);
    lemma_be_bytes_len((5_000_000_000_000_000_000_000 + opp.amount_in) as nat, 32);
    lemma_be_bytes_len(10_000_000_000_000, 32);
    lemma_be_bytes_len((10_000_000_000_000 + mid) as nat, 32);
}

/// Slot zero of the contract whose address repeats one byte goes from a number to one that is
/// larger by `added`, as 32-byte words.
pub open spec fn is_slot_change(change: StateChangeView, byte: u8, from: int, added: int) -> bool {
    &&& change.address.len() == 20
    &&& forall|i: int| 0 <= i < 20 ==> #[trigger] change.address[i] == byte
    &&& change.slot.len() == 32
    &&& forall|i: int| 0 <= i < 32 ==> #[trigger] change.slot[i] == 0
    &&& change.old_value.len() == 32
    &&& be_value(change.old_value) == from
    &&& change.new_value.len() == 32
    &&& be_value(change.new_value) == from + added
}

/// An arbitrage can be simulated exactly if both swaps can be computed, and the gas cost and the
/// profit fit in 128 bits.
pub proof fn law_arbitrage_fits(gwei: int, opp: Opportunity, mid: int, back: int)
    requires
        0 <= gwei,
        opp.opportunity_type == OpportunityType::Arbitrage,
        is_fair_output(
            opp.amount_in as int,
            5_000_000_000_000_000_000_000,
            10_000_000_000_000,
            if opp.path@.len() > 0 && opp.path@[0] == DexType::UniswapV3 {
                5
            } else {
                30
            },
            mid,
        ),
        is_fair_output(
            mid,
            10_000_000_000_000,
            5_000_000_000_000_000_000_000,
            if opp.path@.len() > 1 && opp.path@[1] == DexType::UniswapV3 {
                5
            } else {
                30
            },
            back,
        ),
    ensures
        simulation_fits(gwei, opp) <==> swap_fits(
            opp.amount_in as int,
            5_000_000_000_000_000_000_000,
            10_000_000_000_000,
            if opp.path@.len() > 0 && opp.path@[0] == DexType::UniswapV3 {
                5
            } else {
                30
            },
        ) && swap_fits(
            mid,
            10_000_000_000_000,
            5_000_000_000_000_000_000_000,
            if opp.path@.len() > 1 && opp.path@[1] == DexType::UniswapV3 {
                5
            } else {
                30
            },
        ) && opp.gas_estimate * gwei * 1_000_000_000 <= i128::MAX && i128::MIN <= outcome(
            gwei,
            opp,
        ).profit,
{
    lemma_arbitrage_outputs(opp, mid, back);
}

/// A backrun can be simulated exactly if both swaps can be computed, and the gas cost and the
/// profit fit in 128 bits.
pub proof fn law_backrun_fits(gwei: int, opp: Opportunity, mid: int, back: int)
    requires
        0 <= gwei,
        opp.opportunity_type == OpportunityType::Backrun,
        is_fair_output(
            opp.amount_in as int,
            5_010_000_000_000_000_000_000,
            9_980_000_000_000,
            30,
            mid,
        ),
        is_fair_output(mid, 10_000_000_000_000, 5_000_000_000_000_000_000_000, 30, back),
    ensures
        simulation_fits(gwei, opp) <==> swap_fits(
            opp.amount_in as int,
            5_010_000_000_000_000_000_000,
            9_980_000_000_000,
            30,
        ) && swap_fits(mid, 10_000_000_000_000, 5_000_000_000_000_000_000_000, 30)
            && opp.gas_estimate * gwei * 1_000_000_000 <= i128::MAX && i128::MIN <= outcome(
            gwei,
            opp,
        ).profit,
{
    lemma_backrun_outputs(opp, mid, back);
    assert(SKEWED_WETH_RESERVE == 5_010_000_000_000_000_000_000);
    assert(SKEWED_USDC_RESERVE == 9_980_000_000_000);
}

/// A liquidation can be simulated exactly if thirty times what is swapped back, the gas cost and
/// the profit fit in 128 bits.
pub proof fn law_liquidation_fits(gwei: int, opp: Opportunity)
    requires
        opp.opportunity_type == OpportunityType::Liquidation,
    ensures
        simulation_fits(gwei, opp) <==> 30 * (opp.amount_in + opp.expected_profit) <= u128::MAX
            && opp.gas_estimate * gwei * 1_000_000_000 <= i128::MAX && i128::MIN <= outcome(
            gwei,
            opp,
        ).profit,
{
}

/// Bundles add up: what two bundles cost, use and change is what both cost, use and change
/// together. An empty bundle costs, uses and changes nothing. A bundle never reverts.
pub proof fn law_bundles_add_up(a: Seq<BundleTransaction>, b: Seq<BundleTransaction>)
    ensures
        bundle_outcome(a + b).profit == bundle_outcome(a).profit + bundle_outcome(b).profit,
        bundle_outcome(a + b).gas_used == bundle_outcome(a).gas_used + bundle_outcome(b).gas_used,
        bundle_outcome(a + b).state_changes == bundle_outcome(a).state_changes + bundle_outcome(
            b,
        ).state_changes,
        bundle_outcome(Seq::empty()).profit == 0,
        bundle_outcome(Seq::empty()).gas_used == 0,
        bundle_outcome(a).state_changes.len() == a.len(),
        bundle_outcome(a).success,
        bundle_outcome(a).error is None,
    decreases b.len(),
{
    assert(bundle_outcome(a + b).state_changes =~= bundle_outcome(a).state_changes
        + bundle_outcome(b).state_changes);
    if b.len() == 0 {
        assert(a + b =~= a);
    } else {
        law_bundles_add_up(a, b.drop_last());
        assert((a + b).drop_last() =~= a + b.drop_last());
    }
}

/// A bundle of one transaction uses that transaction's gas, pays for it at the tip it names, or at
/// one gwei, and records the gas in slot zero of the recipient. A tip of 128 bits is read as a
/// signed number.
pub proof fn law_bundle_of_one(tx: BundleTransaction)
    ensures
        ({
            let sim = bundle_outcome(seq![tx]);
            let gas = tx_gas(tx.gas_limit as nat, tx.data@) as int;
            let change = sim.state_changes[0];
            &&& sim.gas_used == gas
            &&& tx.max_priority_fee_per_gas is None ==> sim.profit == -gas * 1_000_000_000
            &&& tx.max_priority_fee_per_gas matches Some(tip) ==> if tip
                < 0x8000_0000_0000_0000_0000_0000_0000_0000 {
                sim.profit == -gas * tip
            } else {
                sim.profit == -gas * (tip - 0x1_0000_0000_0000_0000_0000_0000_0000_0000int)
            }
            &&& sim.state_changes.len() == 1
            &&& change.address == addr_bytes(encode_utf8(tx.to@))
            &&& change.slot.len() == 32 && change.old_value.len() == 32
            &&& forall|i: int| 0 <= i < 32 ==> #[trigger] change.slot[i] == 0
            &&& forall|i: int| 0 <= i < 32 ==> #[trigger] change.old_value[i] == 0
            &&& change.new_value.len() == 32
            &&& be_value(change.new_value) == gas
        }),
{
    let txs = seq![tx];
    let gas = tx_gas(tx.gas_limit as nat, tx.data@);
    assert(txs.drop_last() =~= Seq::empty());
    reveal_with_fuel(bundle_gas, 2);
    reveal_with_fuel(bundle_profit, 2);
    lemma_two_256();
    lemma_be_value_of_bytes(gas, 32);
    lemma_be_bytes_len(gas, 32);
    let tip = tx_tip(tx);
    assert(-(gas * tip) == -gas * tip) by (nonlinear_arith);
}

/// After transaction `n` of a bundle the estimate and the gas used so far fit in 64 bits, and the
/// cost and the profit so far in 128.
pub open spec fn fits_after(txs: Seq<BundleTransaction>, n: int) -> bool {
    let before = bundle_outcome(txs.take(n)).profit;
    let after = bundle_outcome(txs.take(n + 1));
    let nonzero = txs[n].data@.filter(|b: u8| b != 0).len();
    &&& 121_000 + 4 * (txs[n].data@.len() - nonzero) + 16 * nonzero <= u64::MAX
    &&& after.gas_used <= u64::MAX
    &&& i128::MIN <= before - after.profit <= i128::MAX
    &&& i128::MIN <= after.profit <= i128::MAX
}

/// A bundle can be simulated exactly if everything fits after each of its transactions.
pub proof fn law_bundle_fits(txs: Seq<BundleTransaction>)
    ensures
        bundle_fits(txs) <==> forall|n: int| 0 <= n < txs.len() ==> #[trigger] fits_after(txs, n),
{
    assert forall|n: int| 0 <= n < txs.len() implies #[trigger] bundle_step_fits(txs, n)
        == fits_after(txs, n) by {
        lemma_nonzero_gas(txs[n].data@);
        assert(txs.take(n + 1).drop_last() =~= txs.take(n));
    }
    if forall|n: int| 0 <= n < txs.len() ==> #[trigger] fits_after(txs, n) {
        assert forall|n: int| 0 <= n < txs.len() implies #[trigger] bundle_step_fits(txs, n) by {
            assert(fits_after(txs, n));
        }
    }
    if bundle_fits(txs) {
        assert forall|n: int| 0 <= n < txs.len() implies #[trigger] fits_after(txs, n) by {
            assert(bundle_step_fits(txs, n));
        }
    }
}

/// Every simulation counts as one, and as a success exactly if it succeeded with a profit. The gas
/// price and the latency stay.
pub proof fn law_simulations_are_counted(before: SimulatorView, sim: SimulationView)
    requires
        before.count < u64::MAX,
        before.success_count < u64::MAX,
    ensures
        counted(before, sim).count == before.count + 1,
        sim.success && sim.profit > 0 ==> counted(before, sim).success_count
            == before.success_count + 1,
        !(sim.success && sim.profit > 0) ==> counted(before, sim).success_count
            == before.success_count,
        counted(before, sim).max_gas_price_gwei == before.max_gas_price_gwei,
        counted(before, sim).total_latency_us == before.total_latency_us,
{
}

/// The text of an address gives 20 bytes. Up to 40 hexadecimal digits spell the same number as
/// the bytes, more digits give the first 20 bytes that they spell, and any other text gives zeros.
/// A `0x` in front changes nothing.
pub proof fn law_address_text(text: Seq<u8>)
    requires
        !has_0x(text),
    ensures
        addr_bytes(text).len() == 20,
        addr_bytes(seq![0x30u8, 0x78u8] + text) == addr_bytes(text),
        is_hex(text) && text.len() <= 40 ==> be_value(addr_bytes(text)) == be_value(
            hex_bytes(text),
        ),
        is_hex(text) && text.len() >= 40 ==> addr_bytes(text) == hex_bytes(text).take(20),
        !is_hex(text) ==> forall|i: int| 0 <= i < 20 ==> #[trigger] addr_bytes(text)[i] == 0,
{
    let with_prefix = seq![0x30u8, 0x78u8] + text;
    assert(with_prefix.skip(2) =~= text);
    assert(has_0x(with_prefix));
    if is_hex(text) && text.len() <= 40 {
        let bytes = hex_bytes(text);
        assert(bytes.take(bytes.len() as int) =~= bytes);
        law_leading_zeros_spell_nothing((20 - bytes.len()) as nat, bytes);
    }
    if is_hex(text) && text.len() >= 40 {
        assert(addr_bytes(text) =~= hex_bytes(text).take(20));
    }
}

} // verus!
