//! Matching scenarios for the resting-order book, run through a small
//! harness that keeps the tape and the trailing watermarks between steps.

use raptorbt::engine::OrderStatus;
use raptorbt::fill::StepKind;
use raptorbt::matching::{
    match_step, modify, MatchOutcome, OrderBook, OrderKind, OrderLevels, StepContext, WorkingOrder,
};
use raptorbt::orders::{OrderSide, TimeInForce};
use raptorbt::portfolio::StepMode;
use raptorbt::tape::{BarTape, FillDepth, Level, StepPrices};
use raptorbt::types::NS_PER_DAY;

fn lv(price: f64) -> Level<f64> {
    Level { rank: (price * 1_000.0).round() as i64, price }
}

struct Bar {
    ts: i64,
    open: f64,
    high: f64,
    low: f64,
    close: f64,
}

fn bar(ts: i64, open: f64, high: f64, low: f64, close: f64) -> Bar {
    Bar { ts, open, high, low, close }
}

/// An order book under the default fill model: unbounded liquidity, no
/// slippage.
struct Engine {
    orders: Vec<WorkingOrder<f64, f64>>,
    watermarks: Vec<Option<f64>>,
    tape: BarTape<f64, f64>,
    same_bar_close: bool,
}

impl Engine {
    fn new() -> Self {
        Engine { orders: Vec::new(), watermarks: Vec::new(), tape: BarTape::new(), same_bar_close: false }
    }

    fn submit(&mut self, side: OrderSide, kind: OrderKind<f64>, tif: TimeInForce, status: OrderStatus) -> u64 {
        let id = self.orders.len() as u64;
        self.orders.push(WorkingOrder {
            id,
            side,
            kind,
            qty: 1.0,
            tif,
            status,
            triggered: false,
            submitted_idx: 0,
            submitted_ts: 0,
            parent_id: None,
            oco_group: None,
            post_only: false,
            arrives_before_bar: false,
        });
        self.watermarks.push(None);
        id
    }

    fn cancel(&mut self, id: u64) -> bool {
        let o = &mut self.orders[id as usize];
        if o.status.is_terminal() {
            return false;
        }
        o.status = OrderStatus::Canceled;
        true
    }

    fn match_bar(&mut self, idx: u64, b: &Bar) -> Vec<MatchOutcome<f64, f64>> {
        let prices = StepPrices { open: lv(b.open), high: lv(b.high), low: lv(b.low), close: lv(b.close) };
        let prior = self.tape.clone();
        let step = self.tape.replay(prices, None, StepKind::Bar);
        let mut candidates = Vec::new();
        let levels: Vec<OrderLevels<f64>> = self
            .orders
            .iter()
            .zip(&self.watermarks)
            .map(|(o, w)| {
                let favorable = if o.side == OrderSide::Sell { b.high } else { b.low };
                let wm = match (*w, o.side) {
                    (None, _) => favorable,
                    (Some(w), OrderSide::Sell) => w.max(favorable),
                    (Some(w), OrderSide::Buy) => w.min(favorable),
                };
                candidates.push(wm);
                let offset = match o.kind {
                    OrderKind::TrailingStopMarket { offset } => offset,
                    _ => 0.0,
                };
                let trigger = lv(if o.side == OrderSide::Sell { wm - offset } else { wm + offset });
                let limit = raptorbt::matching::limit_level(o, lv(b.close), trigger);
                OrderLevels { trail_trigger: trigger, trail_limit: lv(b.close), limit_fill: limit }
            })
            .collect();
        let ctx = StepContext {
            idx,
            ts: b.ts,
            tz_offset_ns: 0,
            prices,
            mode: StepMode::Bar,
            same_bar_close: self.same_bar_close,
        };
        let (out, ratcheted) = match_step(&mut self.orders, &levels, &ctx, &step, &prior, &self.tape);
        for (k, r) in ratcheted.iter().enumerate() {
            if *r {
                self.watermarks[k] = Some(candidates[k]);
            }
        }
        out
    }
}

fn engine_with(kind: OrderKind<f64>, side: OrderSide, tif: TimeInForce) -> (Engine, u64) {
    let mut engine = Engine::new();
    let id = engine.submit(side, kind, tif, OrderStatus::Accepted);
    (engine, id)
}

fn filled(order_id: u64, price: f64) -> MatchOutcome<f64, f64> {
    MatchOutcome::Fill { order_id, price, depth: FillDepth::unlimited(), on_arrival: false }
}

fn filled_on_arrival(order_id: u64, price: f64) -> MatchOutcome<f64, f64> {
    MatchOutcome::Fill { order_id, price, depth: FillDepth::unlimited(), on_arrival: true }
}

fn limit(price: f64) -> OrderKind<f64> {
    OrderKind::Limit { price: lv(price) }
}

#[test]
fn buy_limit_fills_when_low_touches() {
    let (mut engine, id) = engine_with(limit(99.0), OrderSide::Buy, TimeInForce::Gtc);
    assert!(engine.match_bar(1, &bar(1, 100.0, 101.0, 99.5, 100.5)).is_empty());
    let outcomes = engine.match_bar(2, &bar(2, 100.0, 100.5, 98.5, 99.5));
    assert_eq!(outcomes, vec![filled(id, 99.0)]);
}

#[test]
fn same_bar_submission_never_matches() {
    let (mut engine, _) = engine_with(limit(99.0), OrderSide::Buy, TimeInForce::Gtc);
    assert!(engine.match_bar(0, &bar(0, 100.0, 100.5, 98.0, 99.5)).is_empty());
}

#[test]
fn compatibility_market_limit_fills_at_same_close_without_using_range() {
    let (mut engine, id) = engine_with(limit(101.0), OrderSide::Buy, TimeInForce::Gtd { expire_ns: 12 });
    engine.same_bar_close = true;
    let outcomes = engine.match_bar(0, &bar(0, 100.0, 102.0, 98.0, 100.5));
    assert_eq!(outcomes, vec![filled(id, 100.5)]);

    let (mut engine, _) = engine_with(limit(99.0), OrderSide::Buy, TimeInForce::Gtc);
    engine.same_bar_close = true;
    assert!(engine.match_bar(0, &bar(0, 100.0, 102.0, 98.0, 100.5)).is_empty());
}

#[test]
fn order_arriving_before_its_bar_meets_the_standing_book() {
    let (mut engine, id) = engine_with(limit(101.0), OrderSide::Buy, TimeInForce::Gtd { expire_ns: 12 });
    engine.orders[id as usize].arrives_before_bar = true;
    engine.orders[0].submitted_idx = 1;
    assert!(engine.match_bar(0, &bar(0, 99.0, 100.0, 98.5, 99.5)).is_empty());
    let outcomes = engine.match_bar(1, &bar(1, 100.0, 102.0, 98.0, 100.5));
    assert_eq!(outcomes, vec![filled_on_arrival(id, 99.5)]);
}

#[test]
fn order_submitted_on_its_bar_meets_the_book_that_bar_leaves() {
    let (mut engine, id) = engine_with(limit(101.0), OrderSide::Buy, TimeInForce::Gtd { expire_ns: 12 });
    engine.same_bar_close = true;
    engine.orders[0].submitted_idx = 1;
    assert!(engine.match_bar(0, &bar(0, 99.0, 100.0, 98.5, 99.5)).is_empty());
    let outcomes = engine.match_bar(1, &bar(1, 100.0, 102.0, 98.0, 100.5));
    assert_eq!(outcomes, vec![filled(id, 100.5)]);
}

#[test]
fn arriving_before_the_bar_does_not_need_the_session_flag() {
    let (mut engine, id) = engine_with(limit(101.0), OrderSide::Buy, TimeInForce::Gtd { expire_ns: 12 });
    engine.orders[id as usize].arrives_before_bar = true;
    assert!(!engine.same_bar_close);
    engine.orders[0].submitted_idx = 1;
    assert!(engine.match_bar(0, &bar(0, 99.0, 100.0, 98.5, 99.5)).is_empty());
    assert_eq!(engine.match_bar(1, &bar(1, 100.0, 102.0, 98.0, 100.5)), vec![filled_on_arrival(id, 99.5)]);
}

#[test]
fn arriving_before_the_first_bar_meets_no_book_and_rests_into_it() {
    let (mut engine, id) = engine_with(limit(101.0), OrderSide::Buy, TimeInForce::Gtc);
    engine.orders[id as usize].arrives_before_bar = true;
    assert_eq!(engine.match_bar(0, &bar(0, 100.0, 102.0, 98.0, 100.5)), vec![filled(id, 101.0)]);
}

#[test]
fn order_arriving_before_its_bar_rests_into_the_bar_it_beat() {
    let (mut engine, id) = engine_with(limit(99.0), OrderSide::Buy, TimeInForce::Gtc);
    engine.orders[id as usize].arrives_before_bar = true;
    engine.orders[0].submitted_idx = 1;
    assert!(engine.match_bar(0, &bar(0, 99.0, 100.0, 98.5, 99.5)).is_empty());
    assert_eq!(engine.match_bar(1, &bar(1, 100.0, 102.0, 98.0, 100.5)), vec![filled(id, 99.0)]);
}

#[test]
fn order_submitted_from_its_bar_never_meets_that_bar_range() {
    let (mut engine, id) = engine_with(limit(99.0), OrderSide::Buy, TimeInForce::Gtc);
    engine.orders[0].submitted_idx = 1;
    assert!(engine.match_bar(0, &bar(0, 99.0, 100.0, 98.5, 99.5)).is_empty());
    assert!(engine.match_bar(1, &bar(1, 100.0, 102.0, 98.0, 100.5)).is_empty());
    assert_eq!(engine.match_bar(2, &bar(2, 100.0, 102.0, 98.0, 100.5)), vec![filled(id, 99.0)]);
}

#[test]
fn an_immediate_order_arriving_before_its_bar_does_not_rest_into_it() {
    let (mut engine, id) = engine_with(limit(99.0), OrderSide::Buy, TimeInForce::Ioc);
    engine.orders[id as usize].arrives_before_bar = true;
    engine.orders[0].submitted_idx = 1;
    assert!(engine.match_bar(0, &bar(0, 99.0, 100.0, 98.5, 99.5)).is_empty());
    assert_eq!(engine.match_bar(1, &bar(1, 100.0, 102.0, 98.0, 100.5)), vec![MatchOutcome::Cancel { order_id: id }]);
}

#[test]
fn sell_stop_gap_through_fills_at_open() {
    let (mut engine, id) = engine_with(OrderKind::StopMarket { trigger: lv(95.0) }, OrderSide::Sell, TimeInForce::Gtc);
    let outcomes = engine.match_bar(1, &bar(1, 93.0, 94.0, 92.0, 93.5));
    assert_eq!(outcomes, vec![filled(id, 93.0)]);
}

#[test]
fn stop_limit_triggers_then_fills_next_bar() {
    let (mut engine, id) = engine_with(
        OrderKind::StopLimit { trigger: lv(105.0), price: lv(104.5) },
        OrderSide::Buy,
        TimeInForce::Gtc,
    );
    let outcomes = engine.match_bar(1, &bar(1, 104.0, 105.5, 103.5, 105.2));
    assert_eq!(outcomes, vec![MatchOutcome::Trigger { order_id: id }]);
    assert_eq!(engine.orders[id as usize].status, OrderStatus::Triggered);
    let outcomes = engine.match_bar(2, &bar(2, 105.0, 105.5, 104.0, 104.8));
    assert_eq!(outcomes, vec![filled(id, 104.5)]);
}

#[test]
fn ioc_cancels_after_one_missed_bar() {
    let (mut engine, id) = engine_with(limit(90.0), OrderSide::Buy, TimeInForce::Ioc);
    let outcomes = engine.match_bar(1, &bar(1, 100.0, 101.0, 99.0, 100.0));
    assert_eq!(outcomes, vec![MatchOutcome::Cancel { order_id: id }]);
    assert_eq!(engine.orders[id as usize].status, OrderStatus::Canceled);
}

#[test]
fn gtd_expires_at_timestamp() {
    let (mut engine, id) = engine_with(limit(90.0), OrderSide::Buy, TimeInForce::Gtd { expire_ns: 100 });
    assert!(engine.match_bar(1, &bar(99, 100.0, 101.0, 99.0, 100.0)).is_empty());
    let outcomes = engine.match_bar(2, &bar(100, 100.0, 101.0, 89.0, 100.0));
    assert_eq!(outcomes, vec![MatchOutcome::Expire { order_id: id }]);
}

#[test]
fn day_expires_on_utc_date_rollover() {
    let (mut engine, id) = engine_with(limit(90.0), OrderSide::Buy, TimeInForce::Day);
    assert!(engine.match_bar(1, &bar(NS_PER_DAY - 1, 100.0, 101.0, 99.0, 100.0)).is_empty());
    let outcomes = engine.match_bar(2, &bar(NS_PER_DAY, 100.0, 101.0, 99.0, 100.0));
    assert_eq!(outcomes, vec![MatchOutcome::Expire { order_id: id }]);
}

#[test]
fn expiries_precede_fills_in_outcome_order() {
    let mut engine = Engine::new();
    let fill_id = engine.submit(OrderSide::Buy, limit(99.0), TimeInForce::Gtc, OrderStatus::Accepted);
    let expire_id = engine.submit(OrderSide::Buy, limit(99.0), TimeInForce::Gtd { expire_ns: 50 }, OrderStatus::Accepted);
    let outcomes = engine.match_bar(1, &bar(60, 100.0, 100.5, 98.0, 99.5));
    assert_eq!(outcomes, vec![MatchOutcome::Expire { order_id: expire_id }, filled(fill_id, 99.0)]);
}

#[test]
fn mit_buy_triggers_on_favorable_touch() {
    let (mut engine, id) =
        engine_with(OrderKind::MarketIfTouched { trigger: lv(98.0) }, OrderSide::Buy, TimeInForce::Gtc);
    assert!(engine.match_bar(1, &bar(1, 100.0, 101.0, 99.0, 100.0)).is_empty());
    let outcomes = engine.match_bar(2, &bar(2, 99.0, 99.5, 97.5, 98.5));
    assert_eq!(outcomes, vec![filled(id, 98.0)]);
}

#[test]
fn market_to_limit_fills_at_open() {
    let (mut engine, id) = engine_with(OrderKind::MarketToLimit, OrderSide::Buy, TimeInForce::Gtc);
    let outcomes = engine.match_bar(1, &bar(1, 101.5, 102.0, 100.5, 101.0));
    assert_eq!(outcomes, vec![filled(id, 101.5)]);
}

#[test]
fn at_open_market_fills_at_next_open() {
    let (mut engine, id) = engine_with(OrderKind::Market, OrderSide::Buy, TimeInForce::AtOpen);
    let outcomes = engine.match_bar(1, &bar(1, 102.5, 103.0, 101.0, 101.5));
    assert_eq!(outcomes, vec![filled(id, 102.5)]);
}

#[test]
fn post_only_rejects_when_marketable_at_open() {
    let (mut engine, id) = engine_with(limit(101.0), OrderSide::Buy, TimeInForce::Gtc);
    engine.orders[id as usize].post_only = true;
    let outcomes = engine.match_bar(1, &bar(1, 100.0, 102.0, 99.0, 101.5));
    assert_eq!(outcomes, vec![MatchOutcome::RejectPostOnly { order_id: id }]);
    assert_eq!(engine.orders[id as usize].status, OrderStatus::Rejected);
}

#[test]
fn trailing_sell_stop_ratchets_and_triggers() {
    let (mut engine, id) =
        engine_with(OrderKind::TrailingStopMarket { offset: 2.0 }, OrderSide::Sell, TimeInForce::Gtc);
    assert!(engine.match_bar(1, &bar(1, 104.5, 105.0, 104.0, 104.8)).is_empty());
    assert!(engine.match_bar(2, &bar(2, 105.0, 108.0, 107.0, 107.5)).is_empty());
    assert!((engine.watermarks[id as usize].unwrap() - 2.0 - 106.0).abs() < 1e-9);
    let outcomes = engine.match_bar(3, &bar(3, 107.0, 107.5, 105.5, 106.0));
    assert_eq!(outcomes, vec![filled(id, 106.0)]);
}

#[test]
fn held_child_waits_for_parent_and_dies_with_it() {
    let mut engine = Engine::new();
    let parent_id = engine.submit(OrderSide::Buy, limit(99.0), TimeInForce::Gtc, OrderStatus::Accepted);
    let child_id = engine.submit(OrderSide::Sell, limit(105.0), TimeInForce::Gtc, OrderStatus::Submitted);
    engine.orders[child_id as usize].parent_id = Some(parent_id);

    assert!(engine
        .match_bar(1, &bar(1, 106.0, 107.0, 99.5, 106.0))
        .iter()
        .all(|o| !matches!(o, MatchOutcome::Fill { order_id, .. } if *order_id == child_id)));

    assert!(engine.cancel(parent_id));
    let outcomes = engine.match_bar(2, &bar(2, 106.0, 107.0, 105.5, 106.0));
    assert_eq!(outcomes, vec![MatchOutcome::Cancel { order_id: child_id }]);
}

#[test]
fn modify_moves_limit_price() {
    let (mut engine, id) = engine_with(limit(90.0), OrderSide::Buy, TimeInForce::Gtc);
    assert!(modify(&mut engine.orders[id as usize], None, Some(lv(99.0)), None));
    let outcomes = engine.match_bar(1, &bar(1, 100.0, 100.5, 98.5, 99.5));
    assert_eq!(outcomes, vec![filled(id, 99.0)]);
}

#[test]
fn cancel_stops_matching() {
    let (mut engine, id) = engine_with(limit(99.0), OrderSide::Buy, TimeInForce::Gtc);
    assert!(engine.cancel(id));
    assert!(!engine.cancel(id), "double-cancel must fail");
    assert!(engine.match_bar(1, &bar(1, 100.0, 100.5, 98.0, 99.5)).is_empty());
}

fn plain(kind: OrderKind<f64>, tif: TimeInForce) -> WorkingOrder<f64, f64> {
    WorkingOrder {
        id: 0,
        side: OrderSide::Buy,
        kind,
        qty: 1.0,
        tif,
        status: OrderStatus::Accepted,
        triggered: false,
        submitted_idx: 0,
        submitted_ts: 0,
        parent_id: None,
        oco_group: None,
        post_only: false,
        arrives_before_bar: false,
    }
}

fn book_step(book: &mut OrderBook<f64, f64>, tape: &mut BarTape<f64, f64>, idx: u64, b: &Bar) -> Vec<MatchOutcome<f64, f64>> {
    let prices = StepPrices { open: lv(b.open), high: lv(b.high), low: lv(b.low), close: lv(b.close) };
    let prior = tape.clone();
    let step = tape.replay(prices, None, StepKind::Bar);
    let levels: Vec<OrderLevels<f64>> = book
        .all()
        .iter()
        .map(|o| {
            let l = raptorbt::matching::limit_level(o, lv(b.close), lv(b.close));
            OrderLevels { trail_trigger: lv(b.close), trail_limit: lv(b.close), limit_fill: l }
        })
        .collect();
    let ctx = StepContext { idx, ts: b.ts, tz_offset_ns: 0, prices, mode: StepMode::Bar, same_bar_close: false };
    book.match_step(&levels, &ctx, &step, &prior, tape).0
}

#[test]
fn an_orders_id_is_its_slot_in_the_ledger() {
    let mut book = OrderBook::<f64, f64>::new();
    for n in 0..5 {
        let id = book.submit(plain(limit(99.0), TimeInForce::Gtc));
        assert_eq!(id, n, "ids are handed out in submission order");
    }
    for (slot, order) in book.all().iter().enumerate() {
        assert_eq!(order.id as usize, slot, "an id indexes the ledger");
        assert_eq!(book.get(order.id).map(|o| o.id), Some(order.id));
    }
    assert!(book.get(99).is_none(), "an unknown id is absent, not a panic");
}

#[test]
fn a_finished_order_stops_costing_the_match_pass_anything() {
    let mut book = OrderBook::<f64, f64>::new();
    let mut tape = BarTape::<f64, f64>::new();
    for _ in 0..10 {
        book.submit(plain(limit(1.0), TimeInForce::Ioc));
    }
    let survivor = book.submit(plain(limit(1.0), TimeInForce::Gtc));

    book_step(&mut book, &mut tape, 1, &bar(1, 100.0, 101.0, 99.5, 100.5));
    assert_eq!(book.all().len(), 11, "the ledger keeps every order");

    book_step(&mut book, &mut tape, 2, &bar(2, 100.0, 101.0, 99.5, 100.5));
    assert_eq!(book.working(), vec![survivor], "only the resting order is still working");
    assert_eq!(book.all().len(), 11, "and the ledger is untouched");
}

#[test]
fn a_book_cancels_modifies_and_releases_by_id() {
    let mut book = OrderBook::<f64, f64>::new();
    let a = book.submit(plain(limit(90.0), TimeInForce::Gtc));
    let b = book.submit(plain(limit(95.0), TimeInForce::Gtc));
    assert!(book.modify(a, Some(2.0), Some(lv(91.0)), None));
    assert_eq!(book.get(a).unwrap().kind, limit(91.0));
    assert!(!book.modify(7, None, Some(lv(91.0)), None));
    assert!(book.cancel(b));
    assert!(!book.cancel(b));
    assert_eq!(book.cancel_all(), vec![a]);
    assert!(book.working().is_empty());
}

#[test]
fn a_walk_of_the_book_reaches_only_working_limits_it_crosses() {
    let mut book = OrderBook::<f64, f64>::new();
    let buy = book.submit(plain(limit(100.0), TimeInForce::Gtc));
    let _below = book.submit(plain(limit(99.0), TimeInForce::Gtc));
    let _stop = book.submit(plain(OrderKind::StopMarket { trigger: lv(101.0) }, TimeInForce::Gtc));
    let mut sell = plain(limit(100.0), TimeInForce::Gtc);
    sell.side = OrderSide::Sell;
    let sell = book.submit(sell);
    let mut held = plain(limit(101.0), TimeInForce::Gtc);
    held.parent_id = Some(buy);
    held.status = OrderStatus::Submitted;
    let _held = book.submit(held);
    let done = book.submit(plain(limit(101.0), TimeInForce::Gtc));
    assert!(book.cancel(done));
    assert_eq!(book.walk_book(Some(lv(100.0).rank)), vec![buy, sell]);
    assert!(book.walk_book(None).is_empty());
}
