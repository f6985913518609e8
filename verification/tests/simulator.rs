use mev_engine::config::{Config, StrategyConfig};
use mev_engine::simulator::{
    constant_product_swap, decode_addr_bytes, estimate_tx_gas, u128_to_bytes32, EvmSimulator,
};
use mev_engine::types::{Bundle, BundleTransaction, DexType, Opportunity, OpportunityType};
use std::sync::Arc;

#[test]
fn test_constant_product_swap() {
    // 1 ETH into 5000 ETH / 10M USDC pool at 0.3% fee
    let out = constant_product_swap(
        1_000_000_000_000_000_000,     // 1 ETH
        5_000_000_000_000_000_000_000, // 5000 ETH
        10_000_000_000_000,            // 10M USDC
        30,                            // 0.3%
    );
    // Expected: ~1994 USDC (slightly less than 2000 due to fee + impact)
    assert!(
        out > 1_990_000_000 && out < 2_000_000_000,
        "Expected ~1994 USDC, got {}",
        out
    );
}

#[test]
fn test_constant_product_zero_reserves() {
    assert_eq!(constant_product_swap(1000, 0, 1000, 30), 0);
    assert_eq!(constant_product_swap(1000, 1000, 0, 30), 0);
    assert_eq!(constant_product_swap(0, 1000, 1000, 30), 0);
}

#[test]
fn test_estimate_tx_gas() {
    let data = vec![0x12, 0x34, 0x00, 0x56]; // 3 non-zero, 1 zero
    let gas = estimate_tx_gas(500_000, &data);
    // 21000 + 3*16 + 1*4 + 100000 = 121052
    assert_eq!(gas, 121_052);
}

fn test_config() -> Arc<Config> {
    Arc::new(Config {
        strategy: StrategyConfig {
            max_gas_price_gwei: 1, // Arbitrum
        },
    })
}

#[test]
fn test_simulation_arbitrage() {
    let mut sim = EvmSimulator::new(test_config());

    let opp = Opportunity {
        opportunity_type: OpportunityType::Arbitrage,
        token_in: "WETH".to_string(),
        token_out: "USDC".to_string(),
        amount_in: 1_000_000_000_000_000_000, // 1 ETH
        expected_profit: 10_000_000_000_000_000, // 0.01 ETH
        gas_estimate: 250_000,
        deadline: 0,
        path: vec![DexType::UniswapV2, DexType::UniswapV3],
        target_tx: None,
    };

    assert!(sim.can_simulate(&opp));
    let result = sim.simulate(&opp);
    // With same reserves on both DEXes, round-trip loses to fees
    assert!(!result.success || result.profit <= 0);
    assert!(result.gas_used > 0);

    assert_eq!(result.profit, -4_645_647_437_207_615);
    assert_eq!(result.gas_used, 250_000);
    assert_eq!(result.error, Some("Not profitable after gas".to_string()));
    assert_eq!(result.state_changes.len(), 2);
    assert_eq!(result.state_changes[0].address, [0xa0; 20]);
    assert_eq!(
        result.state_changes[0].old_value,
        u128_to_bytes32(5_000_000_000_000_000_000_000)
    );
    assert_eq!(
        result.state_changes[0].new_value,
        u128_to_bytes32(5_001_000_000_000_000_000_000)
    );
    assert_eq!(result.state_changes[1].address, [0xb0; 20]);
    assert_eq!(
        result.state_changes[1].new_value,
        u128_to_bytes32(10_001_993_602_475)
    );
    assert_eq!(sim.count(), 1);
    assert_eq!(sim.success_count(), 0);
}

#[test]
fn test_simulation_count() {
    let mut sim = EvmSimulator::new(test_config());

    let opp = Opportunity {
        opportunity_type: OpportunityType::Liquidation,
        token_in: "USDC".to_string(),
        token_out: "WETH".to_string(),
        amount_in: 50_000_000_000_000_000_000,
        expected_profit: 5_000_000_000_000_000_000,
        gas_estimate: 500_000,
        deadline: 0,
        path: vec![],
        target_tx: None,
    };

    sim.simulate(&opp);
    let result = sim.simulate(&opp);
    assert_eq!(sim.count(), 2);

    assert!(result.success);
    assert_eq!(result.profit, 4_809_500_000_000_000_000);
    assert_eq!(result.gas_used, 500_000);
    assert_eq!(result.error, None);
    assert!(result.state_changes.is_empty());
    assert_eq!(sim.success_count(), 2);
}

#[test]
fn backrun_loses_to_the_skewed_pool() {
    let mut sim = EvmSimulator::new(test_config());
    let opp = Opportunity {
        opportunity_type: OpportunityType::Backrun,
        token_in: "WETH".to_string(),
        token_out: "USDC".to_string(),
        amount_in: 1_000_000_000_000_000_000,
        expected_profit: 0,
        gas_estimate: 300_000,
        deadline: 0,
        path: vec![],
        target_tx: None,
    };
    let result = sim.simulate(&opp);
    // a loss, but no revert
    assert!(result.success);
    assert_eq!(result.profit, -10_652_000_568_806_224);
    assert_eq!(result.error, None);
    assert_eq!((sim.count(), sim.success_count()), (1, 0));
}

#[test]
fn amounts_beyond_128_bits_cannot_be_simulated() {
    let sim = EvmSimulator::new(test_config());
    let opp = Opportunity {
        opportunity_type: OpportunityType::Liquidation,
        token_in: "USDC".to_string(),
        token_out: "WETH".to_string(),
        amount_in: u128::MAX,
        expected_profit: 1,
        gas_estimate: 0,
        deadline: 0,
        path: vec![],
        target_tx: None,
    };
    assert!(!sim.can_simulate(&opp));
}

fn bundle_transaction(to: &str, gas_limit: u64, data: Vec<u8>, tip: Option<u128>) -> BundleTransaction {
    BundleTransaction {
        to: to.to_string(),
        value: 0,
        gas_limit,
        gas_price: None,
        max_fee_per_gas: None,
        max_priority_fee_per_gas: tip,
        data,
        nonce: None,
    }
}

#[test]
fn bundle_pays_for_its_gas() {
    let mut sim = EvmSimulator::new(test_config());
    let bundle = Bundle {
        transactions: vec![
            bundle_transaction(
                "0x0102030405060708090a0b0c0d0e0f1011121314",
                500_000,
                vec![1, 0],
                Some(3),
            ),
            bundle_transaction("ff", 50_000, vec![], None),
        ],
        target_block: None,
        max_block_number: None,
        min_timestamp: None,
        max_timestamp: None,
        reverting_tx_hashes: vec![],
    };
    assert!(EvmSimulator::can_simulate_bundle(&bundle));
    let result = sim.simulate_bundle(&bundle);
    // a loss, but no revert
    assert!(result.success);
    assert_eq!(result.gas_used, 121_020 + 50_000);
    assert_eq!(result.profit, -(121_020 * 3 + 50_000 * 1_000_000_000));
    assert_eq!(result.error, None);
    assert_eq!(result.state_changes.len(), 2);
    assert_eq!(
        result.state_changes[0].address,
        [1, 2, 3, 4, 5, 6, 7, 8, 9, 10, 11, 12, 13, 14, 15, 16, 17, 18, 19, 20]
    );
    assert_eq!(result.state_changes[0].new_value, u128_to_bytes32(121_020));
    assert_eq!(result.state_changes[0].old_value, [0u8; 32]);
    assert_eq!(result.state_changes[1].address[19], 0xff);
    assert_eq!(result.state_changes[1].address[..19], [0u8; 19]);
    assert_eq!((sim.count(), sim.success_count()), (1, 0));
}

#[test]
fn gas_is_capped_by_the_limit() {
    assert_eq!(estimate_tx_gas(100, &[1, 2, 3]), 100);
    assert_eq!(estimate_tx_gas(121_000, &[]), 121_000);
}

#[test]
fn gas_of_joined_calldata_adds_up_in_any_order() {
    let limit = u64::MAX;
    let (a, b): ([u8; 3], [u8; 2]) = ([1, 0, 2], [0, 3]);
    let joined = [a.as_slice(), b.as_slice()].concat();
    assert_eq!(
        estimate_tx_gas(limit, &joined) + 121_000,
        estimate_tx_gas(limit, &a) + estimate_tx_gas(limit, &b)
    );
    assert_eq!(estimate_tx_gas(limit, &joined), estimate_tx_gas(limit, &[0, 0, 3, 2, 1]));
    assert!(estimate_tx_gas(121_010, &joined) <= estimate_tx_gas(121_040, &joined));
}

#[test]
fn address_text_that_is_not_hexadecimal_is_zero() {
    assert_eq!(decode_addr_bytes("0xzz"), [0u8; 20]);
    assert_eq!(decode_addr_bytes("0x123"), [0u8; 20]);
    assert_eq!(decode_addr_bytes(""), [0u8; 20]);
    // only the first 20 of 21 bytes are taken
    let long = "0x0102030405060708090a0b0c0d0e0f101112131415";
    assert_eq!(
        decode_addr_bytes(long),
        [1, 2, 3, 4, 5, 6, 7, 8, 9, 10, 11, 12, 13, 14, 15, 16, 17, 18, 19, 20]
    );
}

#[test]
fn numbers_are_spelt_at_the_end_of_a_slot() {
    let slot = u128_to_bytes32(0x0102);
    assert_eq!(slot[..30], [0u8; 30]);
    assert_eq!(slot[30..], [1, 2]);
}

#[test]
fn stopped_simulator_reports_its_figures() {
    let mut sim = EvmSimulator::new(test_config());
    let empty = sim.stop();
    assert_eq!((empty.total, empty.succeeded, empty.avg_latency_us), (0, 0, 0));
    let bundle = Bundle {
        transactions: vec![],
        target_block: None,
        max_block_number: None,
        min_timestamp: None,
        max_timestamp: None,
        reverting_tx_hashes: vec![],
    };
    sim.simulate_bundle(&bundle);
    sim.record_latency(7);
    sim.simulate_bundle(&bundle);
    sim.record_latency(4);
    let report = sim.stop();
    assert_eq!((report.total, report.succeeded, report.avg_latency_us), (2, 0, 5));
}
