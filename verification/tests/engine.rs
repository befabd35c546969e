use raptorbt::engine::{
    exit_choice, fill_decision, is_stop_hit, is_target_hit, ExitReason, FillDecision, FillRefusal, OrderStatus,
};
use raptorbt::orders::OrderSide;
use raptorbt::portfolio::PositionPolicy;
use raptorbt::stepping::{
    entry_check, margin_breach, market_sweep_tail, signal_plan, step_plan, step_start, step_tail, DeferredIntent,
    EntryCheck, EntryRefusal, Phase, StepFlags, StepStart,
};
use raptorbt::fill::Tail;
use raptorbt::orders::TimeInForce;
use raptorbt::portfolio::StepMode;
use raptorbt::types::Direction;

#[test]
fn choosing_a_side_under_netting() {
    let net = PositionPolicy::Net;
    // Flat: the order's own side opens.
    assert_eq!(fill_decision(net, None, OrderSide::Sell, false, false, false, true, false), FillDecision::Open(Direction::Short));
    // Opposing the position closes it.
    assert_eq!(fill_decision(net, Some(Direction::Long), OrderSide::Sell, false, false, false, true, false), FillDecision::Close);
    // Agreeing with it is refused under plain netting...
    assert_eq!(
        fill_decision(net, Some(Direction::Long), OrderSide::Buy, false, false, false, true, false),
        FillDecision::Reject(FillRefusal::PositionOpen)
    );
    // ...unless the order is finishing the opening it started.
    assert_eq!(
        fill_decision(net, Some(Direction::Long), OrderSide::Buy, false, true, false, true, false),
        FillDecision::Open(Direction::Long)
    );
    // Netting with averaging adds.
    assert_eq!(
        fill_decision(PositionPolicy::NetAveraging, Some(Direction::Long), OrderSide::Buy, false, false, false, true, false),
        FillDecision::Open(Direction::Long)
    );
}

#[test]
fn reduce_only_never_opens() {
    assert_eq!(fill_decision(PositionPolicy::Net, None, OrderSide::Buy, true, false, false, true, false), FillDecision::Reject(FillRefusal::ReduceOnly));
    assert_eq!(
        fill_decision(PositionPolicy::Net, Some(Direction::Long), OrderSide::Buy, true, false, false, true, false),
        FillDecision::Close
    );
    assert_eq!(
        fill_decision(PositionPolicy::Independent, Some(Direction::Long), OrderSide::Sell, true, false, false, true, false),
        FillDecision::Reject(FillRefusal::ReduceOnly)
    );
}

#[test]
fn hedging_opens_every_order_in_its_own_side() {
    assert_eq!(
        fill_decision(PositionPolicy::Independent, Some(Direction::Long), OrderSide::Sell, false, false, false, true, false),
        FillDecision::Open(Direction::Short)
    );
    assert_eq!(
        fill_decision(PositionPolicy::Independent, Some(Direction::Long), OrderSide::Buy, false, false, true, true, false),
        FillDecision::Reject(FillRefusal::MarginCall)
    );
}

#[test]
fn stop_outranks_target_outranks_signal() {
    assert_eq!(exit_choice(true, true, true, false, Direction::Long, 100, 90), Some(ExitReason::StopLoss));
    assert_eq!(exit_choice(false, true, true, false, Direction::Long, 100, 90), Some(ExitReason::TakeProfit));
    assert_eq!(exit_choice(false, false, true, false, Direction::Long, 100, 90), Some(ExitReason::Signal));
    assert_eq!(exit_choice(false, false, false, true, Direction::Long, 100, 90), None);
    // The adaptive path reads a down-candle as visiting a long's target first.
    assert_eq!(exit_choice(true, true, false, true, Direction::Long, 100, 90), Some(ExitReason::TakeProfit));
    assert_eq!(exit_choice(true, true, false, true, Direction::Long, 90, 100), Some(ExitReason::StopLoss));
    assert_eq!(exit_choice(true, true, false, true, Direction::Short, 90, 100), Some(ExitReason::TakeProfit));
}

#[test]
fn protective_levels_by_side() {
    assert!(is_stop_hit(Some(95), Direction::Long, 94, 103));
    assert!(!is_stop_hit(Some(95), Direction::Long, 97, 103));
    assert!(is_stop_hit(Some(102), Direction::Short, 97, 103));
    assert!(!is_stop_hit(None, Direction::Short, 0, 1_000));
    assert!(is_target_hit(Some(103), Direction::Long, 97, 103));
    assert!(is_target_hit(Some(97), Direction::Short, 97, 103));
    assert!(!is_target_hit(Some(96), Direction::Short, 97, 103));
}

#[test]
fn statuses_that_finish_an_order() {
    for s in [OrderStatus::Filled, OrderStatus::Canceled, OrderStatus::Expired, OrderStatus::Rejected] {
        assert!(s.is_terminal());
    }
    for s in [OrderStatus::Submitted, OrderStatus::Accepted, OrderStatus::Triggered, OrderStatus::PartiallyFilled] {
        assert!(!s.is_terminal());
    }
}

#[test]
fn an_expired_contract_ends_the_step() {
    let mut deferred = Some(DeferredIntent { entry: Some(7u8), exit: true });
    assert_eq!(step_start(&mut deferred, true, StepMode::Bar, true), StepStart::Expire { refuse_entry: true });
    assert_eq!(deferred, None);
}

#[test]
fn a_bar_fills_the_deferred_intent_and_a_print_leaves_it() {
    let mut deferred = Some(DeferredIntent { entry: Some(7u8), exit: true });
    assert_eq!(
        step_start(&mut deferred, false, StepMode::Trade, false),
        StepStart::Proceed { close_all: false, deferred_entry: None }
    );
    assert!(deferred.is_some());
    assert_eq!(
        step_start(&mut deferred, false, StepMode::Bar, false),
        StepStart::Proceed { close_all: true, deferred_entry: Some(7) }
    );
    assert_eq!(deferred, None);
}

#[test]
fn entry_checks_in_order() {
    assert_eq!(entry_check(true, false, true), EntryCheck::Skip);
    assert_eq!(entry_check(false, false, true), EntryCheck::Refuse(EntryRefusal::Inactive));
    assert_eq!(entry_check(false, true, true), EntryCheck::Refuse(EntryRefusal::MarginCall));
    assert_eq!(entry_check(false, true, false), EntryCheck::AskRisk);
}

#[test]
fn next_bar_open_defers_signals() {
    let p = signal_plan(true, StepMode::Bar, true, true, false);
    assert!(p.defer_entry && p.defer_exit && !p.enter_now && !p.exit_now);
    let q = signal_plan(true, StepMode::Trade, true, true, false);
    assert!(!q.defer_entry && !q.defer_exit && q.enter_now && q.exit_now);
    let r = signal_plan(false, StepMode::Bar, true, false, true);
    assert!(!r.enter_now);
}

#[test]
fn a_margin_breach_needs_a_position_and_a_shortfall() {
    assert!(margin_breach(true, false, true, true));
    assert!(!margin_breach(true, true, true, true));
    assert!(!margin_breach(false, false, true, true));
    assert!(!margin_breach(true, false, false, true));
    assert!(!margin_breach(true, false, true, false));
}

#[test]
fn an_opening_is_refused_by_the_risk_limits_and_for_an_unsized_whole_position() {
    let net = PositionPolicy::Net;
    assert_eq!(
        fill_decision(net, None, OrderSide::Buy, false, false, false, false, false),
        FillDecision::Reject(FillRefusal::Risk)
    );
    // A margin call outranks the risk limits.
    assert_eq!(
        fill_decision(net, None, OrderSide::Buy, false, false, true, false, false),
        FillDecision::Reject(FillRefusal::MarginCall)
    );
    assert_eq!(
        fill_decision(net, None, OrderSide::Buy, false, false, false, true, true),
        FillDecision::Reject(FillRefusal::InvalidQty)
    );
    // A resumed opening sizes from what it has left.
    assert_eq!(
        fill_decision(PositionPolicy::NetAveraging, Some(Direction::Long), OrderSide::Buy, false, true, false, true, true),
        FillDecision::Open(Direction::Long)
    );
    // A close never asks the risk limits.
    assert_eq!(
        fill_decision(net, Some(Direction::Long), OrderSide::Sell, false, false, true, false, true),
        FillDecision::Close
    );
}

fn flags(expired: bool, mode: StepMode, next_bar_open: bool, entry: bool, exit: bool) -> StepFlags {
    StepFlags { expired, mode, next_bar_open, entry, exit, deferred_exit: false, deferred_entry: false }
}

#[test]
fn a_step_runs_its_phases_in_order() {
    let plan = step_plan(StepFlags { deferred_exit: true, deferred_entry: true, ..flags(false, StepMode::Bar, false, true, true) });
    assert_eq!(
        plan,
        vec![
            Phase::DeliverQueuedEvents,
            Phase::CloseAllForDeferredExit,
            Phase::DeferredEntry,
            Phase::TrackExtremes,
            Phase::ProtectiveExits,
            Phase::RequestedCloses,
            Phase::MarginCheck,
            Phase::MatchRestingOrders,
            Phase::SignalEntry,
        ]
    );
    assert_eq!(
        step_tail(flags(false, StepMode::Bar, false, true, true), false),
        vec![Phase::ReleaseSchedules, Phase::SweepMarketOrders]
    );
}

#[test]
fn next_bar_open_defers_and_acknowledges() {
    let f = flags(false, StepMode::Bar, true, true, true);
    let plan = step_plan(f);
    assert_eq!(plan[2], Phase::DeferExit);
    assert_eq!(plan.last(), Some(&Phase::DeferEntry));
    assert_eq!(step_tail(f, false), vec![Phase::ReleaseSchedules, Phase::AcknowledgeMarketOrders, Phase::SweepMarketOrders]);
    // A print does not take the deferred intent.
    let print = step_plan(StepFlags { deferred_exit: true, ..flags(false, StepMode::Trade, true, false, false) });
    assert!(!print.contains(&Phase::CloseAllForDeferredExit));
}

#[test]
fn an_expired_step_settles_and_refuses() {
    let f = flags(true, StepMode::Bar, false, true, false);
    assert_eq!(
        step_plan(f),
        vec![
            Phase::DeliverQueuedEvents,
            Phase::SettleExpiry,
            Phase::CancelAllOrders,
            Phase::RefuseEntry(EntryRefusal::Expired)
        ]
    );
    assert!(step_tail(f, false).is_empty());
}

#[test]
fn a_refused_signal_entry_skips_release_and_sweep() {
    assert!(step_tail(flags(false, StepMode::Bar, false, true, false), true).is_empty());
    assert_eq!(market_sweep_tail(TimeInForce::Ioc), Tail::Rests);
    assert_eq!(market_sweep_tail(TimeInForce::Gtc), Tail::Sweep);
}
