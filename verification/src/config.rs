//! Engine configuration.
use vstd::prelude::*;

verus! {

/// Engine configuration, as far as simulation reads it.
#[derive(Debug, Clone)]
pub struct Config {
    pub strategy: StrategyConfig,
}

/// Settings of the trading strategies.
#[derive(Debug, Clone)]
pub struct StrategyConfig {
    /// The gas price, in gwei, at which simulated gas is charged.
    pub max_gas_price_gwei: u64,
}

} // verus!
