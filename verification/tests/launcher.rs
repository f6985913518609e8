use mev_engine::launcher::{
    amounts_to_scan, count_scan, inspect_transaction, monitor_step, record_execution,
    record_simulation, triage_opportunity, MonitorAction, MonitorEvent, OpportunityAction,
    ScanTrigger, Stats,
};
use mev_engine::mev_config::{ConfigError, ConfigVars, MevConfig};
use mev_engine::providers::{race_step, refresh_route, RaceState, RefreshTimes, Route};
use mev_engine::swap_decoder::{Transaction, CAMELOT_ROUTER};
use mev_engine::u256::U256;

const KEY: &str = "6f142508b4eea641e33cb2a0161221105086a84584c74245ca463a49effea30b";

fn no_vars() -> ConfigVars {
    ConfigVars {
        rpc_url: None,
        ws_url: None,
        contract_address: None,
        min_profit_bps: None,
        execute_mode: None,
    }
}

#[test]
fn settings_have_defaults() {
    let config = MevConfig::from_env(&no_vars(), KEY).unwrap();
    assert_eq!(config.http_rpc, "https://arb1.arbitrum.io/rpc");
    assert_eq!(config.ws_rpc, "wss://arb1.arbitrum.io/rpc");
    assert_eq!(
        config.contract_address.to_vec(),
        hex::decode("42a372E2f161e978ee9791F399c27c56D6CB55eb").unwrap()
    );
    assert_eq!(config.min_profit_bps, 10);
    assert!(!config.execute_live);
    let amounts: Vec<u128> = config.flash_amounts.iter().map(|amount| amount.as_u128()).collect();
    assert_eq!(
        amounts,
        vec![
            1_000_000_000_000_000_000,
            5_000_000_000_000_000_000,
            10_000_000_000_000_000_000,
            50_000_000_000_000_000_000
        ]
    );
}

#[test]
fn settings_come_from_the_environment() {
    let mut vars = no_vars();
    vars.rpc_url = Some("http://localhost:8545".to_string());
    vars.contract_address = Some("0101010101010101010101010101010101010101".to_string());
    vars.min_profit_bps = Some("+25".to_string());
    vars.execute_mode = Some("live".to_string());
    let config = MevConfig::from_env(&vars, KEY).unwrap();
    assert_eq!(config.http_rpc, "http://localhost:8545");
    assert_eq!(config.ws_rpc, "http://localhost:8545");
    assert_eq!(config.contract_address, [1u8; 20]);
    assert_eq!(config.min_profit_bps, 25);
    assert!(config.execute_live);

    vars.ws_url = Some("ws://localhost:8546".to_string());
    vars.execute_mode = Some("LIVE".to_string());
    let config = MevConfig::from_env(&vars, KEY).unwrap();
    assert_eq!(config.ws_rpc, "ws://localhost:8546");
    assert!(!config.execute_live);
}

#[test]
fn every_secure_endpoint_in_the_text_is_replaced() {
    let mut vars = no_vars();
    vars.rpc_url = Some("https://a/https://b/v2/c".to_string());
    assert_eq!(MevConfig::from_env(&vars, KEY).unwrap().ws_rpc, "wss://a/wss://b/v2/c");
}

#[test]
fn what_is_no_number_leaves_the_least_profit() {
    let mut vars = no_vars();
    for text in ["", "ten", "-1", " 5", "1_0", "+", "4294967296"] {
        vars.min_profit_bps = Some(text.to_string());
        assert_eq!(MevConfig::from_env(&vars, KEY).unwrap().min_profit_bps, 10);
    }
    vars.min_profit_bps = Some("4294967295".to_string());
    assert_eq!(MevConfig::from_env(&vars, KEY).unwrap().min_profit_bps, u32::MAX);
    vars.min_profit_bps = Some("007".to_string());
    assert_eq!(MevConfig::from_env(&vars, KEY).unwrap().min_profit_bps, 7);
}

#[test]
fn the_contract_must_have_an_address() {
    let mut vars = no_vars();
    for text in ["", "0x", "0x1234", "0x42a372E2f161e978ee9791F399c27c56D6CB55eg"] {
        vars.contract_address = Some(text.to_string());
        assert_eq!(MevConfig::from_env(&vars, KEY).err(), Some(ConfigError::ContractAddress));
    }
}

#[test]
fn the_key_signs_for_arbitrum() {
    let config = MevConfig::from_env(&no_vars(), KEY).unwrap();
    assert_eq!(config.wallet.key.to_vec(), hex::decode(KEY).unwrap());
    assert_eq!(config.wallet.chain_id, 42161);
    for prefix in ["0x", "0X", "0X0x", "0X0X"] {
        let text = format!("{}{}", prefix, KEY.to_uppercase());
        assert!(MevConfig::from_env(&no_vars(), &text).unwrap().wallet == config.wallet);
    }
    let other = MevConfig::from_vars(&no_vars(), [7u8; 32]).unwrap();
    assert_eq!(other.wallet.key, [7u8; 32]);
    assert_eq!(other.wallet.chain_id, 42161);
}

#[test]
fn what_is_no_key_is_reported() {
    // the order of the curve
    let order = "fffffffffffffffffffffffffffffffebaaedce6af48a03bbfd25e8cd0364141";
    let below = "fffffffffffffffffffffffffffffffebaaedce6af48a03bbfd25e8cd0364140";
    let zero = "0000000000000000000000000000000000000000000000000000000000000000";
    let mut vars = no_vars();
    assert!(MevConfig::from_env(&vars, below).is_ok());
    // an address that is none is reported only with a key
    vars.contract_address = Some("0x".to_string());
    let doubled = format!("0x0x{}", KEY);
    let spaced = format!(" {}", KEY);
    for text in [order, zero, "", "0x", &KEY[2..], "key", &doubled, &spaced] {
        assert_eq!(MevConfig::from_env(&vars, text).err(), Some(ConfigError::PrivateKey));
    }
    assert_eq!(MevConfig::from_env(&vars, KEY).err(), Some(ConfigError::ContractAddress));
}

#[test]
fn monitor_runs_and_winds_down() {
    let mut stats = Stats::new();
    let steps = [
        (MonitorEvent::Ready, true, MonitorAction::Connect),
        (MonitorEvent::ConnectFailed, true, MonitorAction::Sleep),
        (MonitorEvent::Connected, true, MonitorAction::Subscribe),
        (MonitorEvent::SubscribeFailed, true, MonitorAction::Sleep),
        (MonitorEvent::Subscribed, true, MonitorAction::AwaitTransaction),
        (MonitorEvent::TransactionSeen, true, MonitorAction::StartFetch),
        (MonitorEvent::FetchStarted, true, MonitorAction::AwaitTransaction),
        (MonitorEvent::TransactionSeen, true, MonitorAction::StartFetch),
        (MonitorEvent::StreamEnded, true, MonitorAction::Sleep),
        (MonitorEvent::TransactionSeen, false, MonitorAction::Sleep),
        (MonitorEvent::Ready, false, MonitorAction::Stop),
    ];
    for (event, running, action) in steps {
        assert_eq!(monitor_step(event, running, &mut stats), action);
    }
    assert_eq!(stats, Stats { mempool_txs: 2, ..Stats::new() });
}

#[test]
fn swaps_are_counted() {
    let mut stats = Stats::new();
    let mut tx = Transaction {
        to: Some(CAMELOT_ROUTER),
        input: vec![0xc0, 0x4b, 0x8d, 0x59],
        value: U256::from_u128(3),
    };
    assert!(inspect_transaction(&tx, &mut stats).is_some());
    tx.to = None;
    assert!(inspect_transaction(&tx, &mut stats).is_none());
    assert_eq!(stats, Stats { swaps_detected: 1, ..Stats::new() });
}

#[test]
fn every_tenth_scan_is_reported() {
    assert_eq!(count_scan(0), (1, false));
    assert_eq!(count_scan(9), (10, true));
    assert_eq!(count_scan(10), (11, false));
}

#[test]
fn scans_use_all_amounts_or_the_first() {
    let amounts = [U256::from_u128(1), U256::from_u128(2)];
    assert_eq!(amounts_to_scan(ScanTrigger::Swap, &amounts).len(), 2);
    let first = amounts_to_scan(ScanTrigger::Timer, &amounts);
    assert_eq!(first.len(), 1);
    assert_eq!(first[0].as_u128(), 1);
}

#[test]
fn opportunities_are_taken_only_when_live() {
    let mut stats = Stats::new();
    let swap = ScanTrigger::Swap;
    assert_eq!(triage_opportunity(swap, true, true, &mut stats), OpportunityAction::Execute);
    assert_eq!(triage_opportunity(swap, true, false, &mut stats), OpportunityAction::Simulate);
    assert_eq!(triage_opportunity(swap, false, true, &mut stats), OpportunityAction::Skip);
    assert_eq!(
        triage_opportunity(ScanTrigger::Timer, true, true, &mut stats),
        OpportunityAction::Skip
    );
    assert_eq!(stats, Stats { opportunities_found: 4, ..Stats::new() });
}

#[test]
fn results_are_counted() {
    let mut stats = Stats::new();
    record_simulation(&mut stats);
    record_execution(&U256::from_u128(500), &mut stats);
    stats.total_profit_wei = u64::MAX;
    record_execution(&U256::from_u128(3), &mut stats);
    assert_eq!(
        stats,
        Stats {
            simulations_ok: 1,
            executions_sent: 2,
            executions_success: 2,
            total_profit_wei: 2,
            ..Stats::new()
        }
    );
}

#[test]
fn websocket_comes_before_races() {
    assert_eq!(refresh_route(true, 5), Route::WebSocket);
    assert_eq!(refresh_route(true, 0), Route::WebSocket);
    assert_eq!(refresh_route(false, 2), Route::Race);
    assert_eq!(refresh_route(false, 1), Route::Single);
}

#[test]
fn the_first_success_wins_a_race() {
    assert_eq!(race_step(false, 2), RaceState::Open);
    assert_eq!(race_step(true, 1), RaceState::Won);
    assert_eq!(race_step(true, 0), RaceState::Won);
    assert_eq!(race_step(false, 0), RaceState::Lost);
}

#[test]
fn refresh_times_add_up() {
    let mut times = RefreshTimes::new();
    assert_eq!(times, RefreshTimes { count: 0, total: 0, min: 999_000_000_000, max: 0 });
    assert!(!times.record(5));
    assert!(!times.record(2));
    assert!(!times.record(9));
    assert_eq!(times, RefreshTimes { count: 3, total: 16, min: 2, max: 9 });
    assert_eq!(times.average(), 5);
    for _ in 0..6 {
        assert!(!times.record(1));
    }
    assert!(times.record(1));
}
