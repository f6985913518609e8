//! Core types of the engine pipeline.
//!
//! They flow through the whole path from detection over simulation to the bundle:
//! `PendingTx` -> `SwapInfo` -> `Opportunity` -> `SimulationResult` -> `Bundle`.
use vstd::prelude::*;

verus! {

/// A 20-byte account or contract address.
pub type Address = [u8; 20];

/// MEV opportunity classification.
#[derive(Debug, Clone, Copy, PartialEq, Eq, Structural)]
pub enum OpportunityType {
    /// Cross-DEX price discrepancy (buy low, sell high).
    Arbitrage,
    /// Capture of the price recovery after a large swap.
    Backrun,
    /// Repayment of an under-collateralized lending position for its bonus.
    Liquidation,
}

/// Supported decentralized exchange protocols.
#[derive(Debug, Clone, Copy, PartialEq, Eq, Structural)]
pub enum DexType {
    UniswapV2,
    UniswapV3,
    SushiSwap,
    Curve,
    Balancer,
}

/// Raw pending transaction from the mempool.
#[derive(Debug, Clone)]
pub struct PendingTx {
    /// Keccak-256 transaction hash.
    pub hash: [u8; 32],
    /// Sender address.
    pub from: [u8; 20],
    /// Recipient (none for contract creation).
    pub to: Option<[u8; 20]>,
    /// ETH value in wei.
    pub value: u128,
    /// Gas price in wei (legacy) or the maximum fee per gas (EIP-1559).
    pub gas_price: u128,
    /// Maximum gas units allowed.
    pub gas_limit: u64,
    /// Raw calldata (ABI-encoded function call).
    pub input: Vec<u8>,
    /// Sender nonce.
    pub nonce: u64,
    /// Unix timestamp at which the mempool first showed it.
    pub timestamp: u64,
}

/// Swap parameters decoded from calldata.
#[derive(Debug, Clone)]
pub struct SwapInfo {
    /// The DEX protocol that the swap targets.
    pub dex: DexType,
    /// Input token address (checksummed hex).
    pub token_in: String,
    /// Output token address (checksummed hex).
    pub token_out: String,
    /// Input amount in the token's smallest unit.
    pub amount_in: u128,
    /// Minimum acceptable output (slippage protection).
    pub amount_out_min: u128,
    /// Pool fee in hundredths of a basis point (3000 is 0.30%).
    pub fee: u32,
}

/// Detected MEV opportunity, ready for simulation.
#[derive(Debug, Clone)]
pub struct Opportunity {
    /// Classification of the MEV strategy.
    pub opportunity_type: OpportunityType,
    /// Token to acquire, or debt token to repay.
    pub token_in: String,
    /// Token to sell, or collateral token to receive.
    pub token_out: String,
    /// Flash loan or swap input amount (wei).
    pub amount_in: u128,
    /// Estimated profit after gas and fees (wei).
    pub expected_profit: u128,
    /// Estimated gas units for the full bundle.
    pub gas_estimate: u64,
    /// Block deadline after which the opportunity expires.
    pub deadline: u64,
    /// Multi-hop swap path (DEX sequence).
    pub path: Vec<DexType>,
    /// Hash of the target transaction to backrun, if any.
    pub target_tx: Option<[u8; 32]>,
}

/// Result of the simulation of an opportunity.
#[derive(Debug, Clone)]
pub struct SimulationResult {
    /// Whether the simulated bundle executed without revert.
    pub success: bool,
    /// Net profit in wei (negative for a loss).
    pub profit: i128,
    /// Gas consumed in simulation.
    pub gas_used: u64,
    /// Revert reason or simulation error.
    pub error: Option<String>,
    /// Storage slot changes for state-diff validation.
    pub state_changes: Vec<StateChange>,
}

/// Single storage slot mutation from simulation.
#[derive(Debug, Clone)]
pub struct StateChange {
    /// Contract address whose storage changed.
    pub address: [u8; 20],
    /// Storage slot index.
    pub slot: [u8; 32],
    /// Value before the simulated bundle.
    pub old_value: [u8; 32],
    /// Value after the simulated bundle.
    pub new_value: [u8; 32],
}

/// Flashbots-compatible bundle for relay submission.
#[derive(Debug, Clone)]
pub struct Bundle {
    /// Ordered transactions in the bundle.
    pub transactions: Vec<BundleTransaction>,
    /// Preferred inclusion block.
    pub target_block: Option<u64>,
    /// Latest block to attempt inclusion.
    pub max_block_number: Option<u64>,
    /// Earliest valid timestamp (MEV timing constraint).
    pub min_timestamp: Option<u64>,
    /// Latest valid timestamp.
    pub max_timestamp: Option<u64>,
    /// Transaction hashes allowed to revert without failing the bundle.
    pub reverting_tx_hashes: Vec<[u8; 32]>,
}

/// Single transaction within a Flashbots bundle.
#[derive(Debug, Clone)]
pub struct BundleTransaction {
    /// Recipient contract address (executor).
    pub to: String,
    /// ETH value to send (usually 0 for MEV bundles).
    pub value: u128,
    /// Gas limit for this transaction.
    pub gas_limit: u64,
    /// Legacy gas price (mutually exclusive with the EIP-1559 fields).
    pub gas_price: Option<u128>,
    /// EIP-1559 maximum fee per gas.
    pub max_fee_per_gas: Option<u128>,
    /// EIP-1559 priority fee (miner tip), the key for bundle ordering.
    pub max_priority_fee_per_gas: Option<u128>,
    /// ABI-encoded calldata for the executor contract.
    pub data: Vec<u8>,
    /// Explicit nonce (none for the pending nonce).
    pub nonce: Option<u64>,
}

/// Result of the submission of a bundle to a relay.
#[derive(Debug, Clone)]
pub struct BundleResult {
    /// Bundle hash returned by the relay.
    pub bundle_hash: [u8; 32],
    /// Whether the relay accepted the submission.
    pub submitted: bool,
    /// Block that includes the bundle (none if pending or dropped).
    pub included_block: Option<u64>,
    /// Error message of the relay's rejection.
    pub error: Option<String>,
}

/// AMM pool state for constant-product simulation.
#[derive(Debug, Clone)]
pub struct PoolState {
    /// Pool contract address.
    pub address: [u8; 20],
    /// Token0 address (sorted lower).
    pub token0: [u8; 20],
    /// Token1 address (sorted higher).
    pub token1: [u8; 20],
    /// Reserve of token0 in the pool's smallest unit.
    pub reserve0: u128,
    /// Reserve of token1 in the pool's smallest unit.
    pub reserve1: u128,
    /// Pool fee in hundredths of a basis point.
    pub fee: u32,
}

/// What a storage slot mutation says, over byte strings.
#[verifier::ext_equal]
pub struct StateChangeView {
    pub address: Seq<u8>,
    pub slot: Seq<u8>,
    pub old_value: Seq<u8>,
    pub new_value: Seq<u8>,
}

impl View for StateChange {
    type V = StateChangeView;

    open spec fn view(&self) -> StateChangeView {
        StateChangeView {
            address: self.address@,
            slot: self.slot@,
            old_value: self.old_value@,
            new_value: self.new_value@,
        }
    }
}

/// What a simulation result says, over mathematical values.
#[verifier::ext_equal]
pub struct SimulationView {
    pub success: bool,
    pub profit: int,
    pub gas_used: int,
    pub error: Option<Seq<char>>,
    pub state_changes: Seq<StateChangeView>,
}

impl View for SimulationResult {
    type V = SimulationView;

    open spec fn view(&self) -> SimulationView {
        SimulationView {
            success: self.success,
            profit: self.profit as int,
            gas_used: self.gas_used as int,
            error: match self.error {
                Some(text) => Some(text@),
                None => None,
            },
            state_changes: self.state_changes@.map_values(|c: StateChange| c@),
        }
    }
}

/// What is said of a simulation result and of its state changes is said of their fields.
pub proof fn law_simulation_view_shows_fields(sim: SimulationResult, i: int)
    ensures
        sim@.success == sim.success,
        sim@.profit == sim.profit,
        sim@.gas_used == sim.gas_used,
        sim@.error is Some <==> sim.error is Some,
        sim.error matches Some(text) ==> sim@.error == Some(text@),
        sim@.state_changes.len() == sim.state_changes@.len(),
        0 <= i < sim.state_changes@.len() ==> {
            let change = sim.state_changes@[i];
            &&& sim@.state_changes[i].address == change.address@
            &&& sim@.state_changes[i].slot == change.slot@
            &&& sim@.state_changes[i].old_value == change.old_value@
            &&& sim@.state_changes[i].new_value == change.new_value@
        },
{
}

} // verus!
