//! Decisions of the launcher's loops: the mempool monitor, the pool scanner and the arbitrage
//! engine. Each loop carries out an action and hands back what came of it.
use crate::swap_decoder::{decode_swap_info, decoded_swap, SwapInfo, Transaction};
use crate::u256::{two_64, U256};
use vstd::prelude::*;

verus! {

/// Counters of what the engine has done. A counter that passes its maximum starts again at zero.
#[derive(Debug, Clone, Copy, PartialEq, Eq, Structural)]
pub struct Stats {
    pub mempool_txs: u64,
    pub swaps_detected: u64,
    pub opportunities_found: u64,
    pub simulations_ok: u64,
    pub executions_sent: u64,
    pub executions_success: u64,
    pub total_profit_wei: u64,
}

impl Stats {
    /// Counters at zero.
    pub fn new() -> (r: Self)
        ensures
            r == (Stats {
                mempool_txs: 0,
                swaps_detected: 0,
                opportunities_found: 0,
                simulations_ok: 0,
                executions_sent: 0,
                executions_success: 0,
                total_profit_wei: 0,
            }),
    {
        Stats {
            mempool_txs: 0,
            swaps_detected: 0,
            opportunities_found: 0,
            simulations_ok: 0,
            executions_sent: 0,
            executions_success: 0,
            total_profit_wei: 0,
        }
    }
}

/// What came of the monitor's last action.
#[derive(Debug, Clone, Copy, PartialEq, Eq, Structural)]
pub enum MonitorEvent {
    /// The monitor starts, or has slept.
    Ready,
    Connected,
    ConnectFailed,
    Subscribed,
    SubscribeFailed,
    /// The hash of a pending transaction came in.
    TransactionSeen,
    /// The fetching of a transaction was started.
    FetchStarted,
    /// The subscription ended.
    StreamEnded,
}

/// What the monitor does next.
#[derive(Debug, Clone, Copy, PartialEq, Eq, Structural)]
pub enum MonitorAction {
    Connect,
    Subscribe,
    /// Wait for the hash of the next pending transaction.
    AwaitTransaction,
    /// Start fetching the transaction, whose hash came in.
    StartFetch,
    /// Sleep before the next connection.
    Sleep,
    Stop,
}

/// The monitor connects, subscribes and fetches every transaction, and starts over after a sleep
/// when anything fails or ends. It stops only between two connections.
pub open spec fn monitor_action(event: MonitorEvent, running: bool) -> MonitorAction {
    match event {
        MonitorEvent::Ready => if running {
            MonitorAction::Connect
        } else {
            MonitorAction::Stop
        },
        MonitorEvent::Connected => MonitorAction::Subscribe,
        MonitorEvent::ConnectFailed => MonitorAction::Sleep,
        MonitorEvent::Subscribed => MonitorAction::AwaitTransaction,
        MonitorEvent::SubscribeFailed => MonitorAction::Sleep,
        MonitorEvent::TransactionSeen => if running {
            MonitorAction::StartFetch
        } else {
            MonitorAction::Sleep
        },
        MonitorEvent::FetchStarted => MonitorAction::AwaitTransaction,
        MonitorEvent::StreamEnded => MonitorAction::Sleep,
    }
}

/// What the monitor does next. Counts the transactions to be fetched.
pub fn monitor_step(event: MonitorEvent, running: bool, stats: &mut Stats) -> (r: MonitorAction)
    ensures
        r == monitor_action(event, running),
        *final(stats) == (Stats {
            mempool_txs: if r == MonitorAction::StartFetch {
                old(stats).mempool_txs.wrapping_add(1)
            } else {
                old(stats).mempool_txs
            },
            ..*old(stats)
        }),
{
    match event {
        MonitorEvent::Ready => if running {
            MonitorAction::Connect
        } else {
            MonitorAction::Stop
        },
        MonitorEvent::Connected => MonitorAction::Subscribe,
        MonitorEvent::ConnectFailed => MonitorAction::Sleep,
        MonitorEvent::Subscribed => MonitorAction::AwaitTransaction,
        MonitorEvent::SubscribeFailed => MonitorAction::Sleep,
        MonitorEvent::TransactionSeen => if running {
            stats.mempool_txs = stats.mempool_txs.wrapping_add(1);
            MonitorAction::StartFetch
        } else {
            MonitorAction::Sleep
        },
        MonitorEvent::FetchStarted => MonitorAction::AwaitTransaction,
        MonitorEvent::StreamEnded => MonitorAction::Sleep,
    }
}

/// The swap in a transaction that was fetched, if there is one. Counts it.
pub fn inspect_transaction(tx: &Transaction, stats: &mut Stats) -> (r: Option<SwapInfo>)
    ensures
        match r {
            Some(swap) => decoded_swap(*tx) == Some(swap@),
            None => decoded_swap(*tx) is None,
        },
        *final(stats) == (Stats {
            swaps_detected: if r is Some {
                old(stats).swaps_detected.wrapping_add(1)
            } else {
                old(stats).swaps_detected
            },
            ..*old(stats)
        }),
{
    let swap: Option<SwapInfo> = decode_swap_info(tx);
    if swap.is_some() {
        stats.swaps_detected = stats.swaps_detected.wrapping_add(1);
    }
    swap
}

/// Counts a scan of the pools: the new count, and whether it is one to report, as every tenth is.
pub fn count_scan(scan_count: u64) -> (r: (u64, bool))
    requires
        scan_count < u64::MAX,
    ensures
        r.0 == scan_count + 1,
        r.1 == (r.0 % 10 == 0),
{
    let count: u64 = scan_count + 1;
    (count, count % 10 == 0)
}

/// What makes the engine scan for opportunities.
#[derive(Debug, Clone, Copy, PartialEq, Eq, Structural)]
pub enum ScanTrigger {
    /// A swap was seen in the mempool.
    Swap,
    /// Nothing was seen for a while.
    Timer,
}

/// The flash loans to scan with: all of them on a swap, and only the first on the timer.
pub fn amounts_to_scan(trigger: ScanTrigger, flash_amounts: &[U256]) -> (r: &[U256])
    requires
        trigger == ScanTrigger::Timer ==> flash_amounts@.len() >= 1,
    ensures
        r@ == match trigger {
            ScanTrigger::Swap => flash_amounts@,
            ScanTrigger::Timer => flash_amounts@.take(1),
        },
{
    match trigger {
        ScanTrigger::Swap => flash_amounts,
        ScanTrigger::Timer => vstd::slice::slice_subrange(flash_amounts, 0, 1),
    }
}

/// What the engine does about an opportunity.
#[derive(Debug, Clone, Copy, PartialEq, Eq, Structural)]
pub enum OpportunityAction {
    /// Leave it.
    Skip,
    /// Take it with a flash loan.
    Execute,
    /// Simulate taking it.
    Simulate,
}

/// An opportunity that a swap triggered and that is worth its gas is taken when live, and
/// otherwise simulated. Any other is left.
pub open spec fn opportunity_action(
    trigger: ScanTrigger,
    worth_gas: bool,
    live: bool,
) -> OpportunityAction {
    if trigger == ScanTrigger::Timer || !worth_gas {
        OpportunityAction::Skip
    } else if live {
        OpportunityAction::Execute
    } else {
        OpportunityAction::Simulate
    }
}

/// What the engine does about an opportunity. Counts it.
pub fn triage_opportunity(
    trigger: ScanTrigger,
    worth_gas: bool,
    live: bool,
    stats: &mut Stats,
) -> (r: OpportunityAction)
    ensures
        r == opportunity_action(trigger, worth_gas, live),
        *final(stats) == (Stats {
            opportunities_found: old(stats).opportunities_found.wrapping_add(1),
            ..*old(stats)
        }),
{
    stats.opportunities_found = stats.opportunities_found.wrapping_add(1);
    match trigger {
        ScanTrigger::Timer => OpportunityAction::Skip,
        ScanTrigger::Swap => if !worth_gas {
            OpportunityAction::Skip
        } else if live {
            OpportunityAction::Execute
        } else {
            OpportunityAction::Simulate
        },
    }
}

/// Counts an execution that was sent: as sent, as a success, and with its profit.
pub fn record_execution(net_profit: &U256, stats: &mut Stats)
    requires
        net_profit@ < two_64(),
    ensures
        *final(stats) == (Stats {
            executions_sent: old(stats).executions_sent.wrapping_add(1),
            executions_success: old(stats).executions_success.wrapping_add(1),
            total_profit_wei: old(stats).total_profit_wei.wrapping_add(net_profit@ as u64),
            ..*old(stats)
        }),
{
    stats.executions_sent = stats.executions_sent.wrapping_add(1);
    stats.executions_success = stats.executions_success.wrapping_add(1);
    stats.total_profit_wei = stats.total_profit_wei.wrapping_add(net_profit.as_u64());
}

/// Counts a simulation that succeeded.
pub fn record_simulation(stats: &mut Stats)
    ensures
        *final(stats) == (Stats {
            simulations_ok: old(stats).simulations_ok.wrapping_add(1),
            ..*old(stats)
        }),
{
    stats.simulations_ok = stats.simulations_ok.wrapping_add(1);
}

/// No transaction is ever sent unless the engine is live.
pub proof fn law_simulation_mode_never_executes(trigger: ScanTrigger, worth_gas: bool)
    ensures
        opportunity_action(trigger, worth_gas, false) != OpportunityAction::Execute,
{
}

/// Once the engine is to stop, the monitor connects to nothing and fetches nothing, and stops
/// when it next gets ready.
pub proof fn law_monitor_winds_down(event: MonitorEvent)
    ensures
        monitor_action(event, false) != MonitorAction::Connect,
        monitor_action(event, false) != MonitorAction::StartFetch,
        event == MonitorEvent::Ready <==> monitor_action(event, false) == MonitorAction::Stop,
{
}

/// While the engine runs, the monitor never stops.
pub proof fn law_monitor_keeps_going(event: MonitorEvent)
    ensures
        monitor_action(event, true) != MonitorAction::Stop,
{
}

/// What the monitor does on each event. Only when it gets ready, and when a transaction comes in,
/// does it matter whether the engine runs.
pub proof fn law_monitor_answers_every_event(running: bool)
    ensures
        monitor_action(MonitorEvent::Ready, true) == MonitorAction::Connect,
        monitor_action(MonitorEvent::Ready, false) == MonitorAction::Stop,
        monitor_action(MonitorEvent::Connected, running) == MonitorAction::Subscribe,
        monitor_action(MonitorEvent::ConnectFailed, running) == MonitorAction::Sleep,
        monitor_action(MonitorEvent::Subscribed, running) == MonitorAction::AwaitTransaction,
        monitor_action(MonitorEvent::SubscribeFailed, running) == MonitorAction::Sleep,
        monitor_action(MonitorEvent::TransactionSeen, true) == MonitorAction::StartFetch,
        monitor_action(MonitorEvent::TransactionSeen, false) == MonitorAction::Sleep,
        monitor_action(MonitorEvent::FetchStarted, running) == MonitorAction::AwaitTransaction,
        monitor_action(MonitorEvent::StreamEnded, running) == MonitorAction::Sleep,
{
}

/// An opportunity is taken if and only if a swap triggered it, it is worth its gas and the engine
/// is live, and simulated if and only if the engine is not live and the rest holds.
pub proof fn law_worthy_swaps_are_acted_on(trigger: ScanTrigger, worth_gas: bool, live: bool)
    ensures
        opportunity_action(trigger, worth_gas, live) == OpportunityAction::Execute <==> trigger
            == ScanTrigger::Swap && worth_gas && live,
        opportunity_action(trigger, worth_gas, live) == OpportunityAction::Simulate <==> trigger
            == ScanTrigger::Swap && worth_gas && !live,
        opportunity_action(trigger, worth_gas, live) == OpportunityAction::Skip <==> trigger
            == ScanTrigger::Timer || !worth_gas,
{
}

} // verus!
