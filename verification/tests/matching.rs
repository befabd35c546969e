use raptorbt::engine::OrderStatus;
use raptorbt::fill::{StepKind, Tail};
use raptorbt::matching::{
    accepted_on_submit, after_fill, next_level, NextLevel, cancels_remainder, match_step, modify, MatchOutcome, OrderEvent, OrderKind, OrderLevels, StepContext, WorkingOrder,
};
use raptorbt::orders::{OrderSide, TimeInForce};
use raptorbt::portfolio::StepMode;
use raptorbt::tape::{BarTape, FillDepth, Level, Size, StepPrices};

fn lv(price: f64) -> Level<f64> {
    Level { rank: (price * 100.0).round() as i64, price }
}

fn order(id: u64, side: OrderSide, kind: OrderKind<f64>, submitted_idx: u64) -> WorkingOrder<f64, f64> {
    WorkingOrder {
        id,
        side,
        kind,
        qty: 1.0,
        tif: TimeInForce::Gtc,
        status: OrderStatus::Accepted,
        triggered: false,
        submitted_idx,
        submitted_ts: 0,
        parent_id: None,
        oco_group: None,
        post_only: false,
        arrives_before_bar: false,
    }
}

fn prices(p: [f64; 4]) -> StepPrices<f64> {
    StepPrices { open: lv(p[0]), high: lv(p[1]), low: lv(p[2]), close: lv(p[3]) }
}

fn ctx(idx: u64, p: [f64; 4]) -> StepContext<f64> {
    StepContext { idx, ts: idx as i64 * 60_000_000_000, tz_offset_ns: 0, prices: prices(p), mode: StepMode::Bar, same_bar_close: false }
}

fn levels(n: usize) -> Vec<OrderLevels<f64>> {
    vec![OrderLevels { trail_trigger: lv(0.0), trail_limit: lv(0.0), limit_fill: lv(0.0) }; n]
}

/// Levels where every order's slipped fill is its own limit.
fn limit_levels(orders: &[WorkingOrder<f64, f64>]) -> Vec<OrderLevels<f64>> {
    orders
        .iter()
        .map(|o| {
            let l = match o.kind {
                OrderKind::Limit { price } | OrderKind::StopLimit { price, .. } | OrderKind::LimitIfTouched { price, .. } => price,
                OrderKind::MarketIfTouched { trigger } => trigger,
                _ => lv(0.0),
            };
            OrderLevels { trail_trigger: lv(0.0), trail_limit: lv(0.0), limit_fill: l }
        })
        .collect()
}

fn ids(outcomes: &[MatchOutcome<f64, f64>]) -> Vec<(char, u64)> {
    outcomes
        .iter()
        .map(|o| match o {
            MatchOutcome::Fill { order_id, .. } => ('F', *order_id),
            MatchOutcome::Trigger { order_id } => ('T', *order_id),
            MatchOutcome::Expire { order_id } => ('E', *order_id),
            MatchOutcome::Cancel { order_id } => ('C', *order_id),
            MatchOutcome::RejectPostOnly { order_id } => ('R', *order_id),
        })
        .collect()
}

#[test]
fn modify_replaces_a_limit_price_and_quantity() {
    let mut o = order(0, OrderSide::Buy, OrderKind::Limit { price: lv(100.0) }, 0);
    assert!(modify(&mut o, Some(2.0), Some(lv(99.0)), None));
    assert_eq!(o.kind, OrderKind::Limit { price: lv(99.0) });
    assert_eq!(o.qty, 2.0);
    // A limit has no trigger: refused, but the price given with it stays
    // replaced and the quantity does not change.
    assert!(!modify(&mut o, Some(3.0), Some(lv(98.0)), Some(lv(97.0))));
    assert_eq!(o.kind, OrderKind::Limit { price: lv(98.0) });
    assert_eq!(o.qty, 2.0);
}

#[test]
fn modify_refuses_market_trailing_finished_and_fired_triggers() {
    let mut m = order(0, OrderSide::Buy, OrderKind::Market, 0);
    assert!(!modify(&mut m, Some(2.0), None, None));
    let mut t = order(0, OrderSide::Sell, OrderKind::TrailingStopMarket { offset: 1.0 }, 0);
    assert!(!modify(&mut t, None, None, Some(lv(90.0))));
    let mut done = order(0, OrderSide::Buy, OrderKind::Limit { price: lv(100.0) }, 0);
    done.status = OrderStatus::Filled;
    assert!(!modify(&mut done, None, Some(lv(90.0)), None));
    assert_eq!(done.kind, OrderKind::Limit { price: lv(100.0) });
    let mut fired = order(0, OrderSide::Buy, OrderKind::StopLimit { trigger: lv(101.0), price: lv(102.0) }, 0);
    fired.triggered = true;
    assert!(!modify(&mut fired, None, Some(lv(103.0)), Some(lv(100.0))));
    assert_eq!(fired.kind, OrderKind::StopLimit { trigger: lv(101.0), price: lv(103.0) });
    assert!(modify(&mut fired, None, Some(lv(104.0)), None));
}

#[test]
fn a_fill_releases_children_then_cancels_oco_siblings() {
    let mut parent = order(0, OrderSide::Buy, OrderKind::Limit { price: lv(100.0) }, 0);
    parent.status = OrderStatus::Filled;
    let mut stop = order(1, OrderSide::Sell, OrderKind::StopMarket { trigger: lv(95.0) }, 0);
    stop.parent_id = Some(0);
    stop.status = OrderStatus::Submitted;
    stop.oco_group = Some(7);
    let mut target = order(2, OrderSide::Sell, OrderKind::Limit { price: lv(110.0) }, 0);
    target.parent_id = Some(0);
    target.status = OrderStatus::Submitted;
    target.oco_group = Some(7);
    let mut orders = vec![parent, stop, target];
    let events = after_fill(&mut orders, 0);
    assert_eq!(events, vec![OrderEvent::Accepted(1), OrderEvent::Accepted(2)]);
    assert_eq!(orders[1].status, OrderStatus::Accepted);

    // The stop leg fills: its target sibling is canceled.
    orders[1].status = OrderStatus::Filled;
    let events = after_fill(&mut orders, 1);
    assert_eq!(events, vec![OrderEvent::Canceled(2)]);
    assert_eq!(orders[2].status, OrderStatus::Canceled);
}

#[test]
fn resting_orders_begin_matching_on_the_next_bar() {
    let mut tape = BarTape::<f64, f64>::new();
    let prior = tape.clone();
    let step = tape.replay(prices([100.0, 101.0, 98.0, 100.0]), Some((5.0, 5.0)), StepKind::Bar);
    let mut orders = vec![order(0, OrderSide::Buy, OrderKind::Limit { price: lv(99.0) }, 3)];
    let lvl = limit_levels(&orders);
    let (out, _) = match_step(&mut orders, &lvl, &ctx(3, [100.0, 101.0, 98.0, 100.0]), &step, &prior, &tape);
    assert!(out.is_empty());
    let (out, _) = match_step(&mut orders, &lvl, &ctx(4, [100.0, 101.0, 98.0, 100.0]), &step, &prior, &tape);
    assert_eq!(ids(&out), vec![('F', 0)]);
    match &out[0] {
        MatchOutcome::Fill { price, depth, on_arrival, .. } => {
            assert_eq!(*price, 99.0);
            assert_eq!(depth.prints(), 1);
            assert_eq!(depth.tail(), Tail::Through);
            assert!(!on_arrival);
        }
        _ => unreachable!(),
    }
}

#[test]
fn expiries_come_first_then_submission_order() {
    let mut tape = BarTape::<f64, f64>::new();
    let prior = tape.clone();
    let step = tape.replay(prices([100.0, 105.0, 95.0, 100.0]), Some((5.0, 5.0)), StepKind::Bar);
    let a = order(0, OrderSide::Buy, OrderKind::Limit { price: lv(96.0) }, 0);
    let mut b = order(1, OrderSide::Sell, OrderKind::Limit { price: lv(104.0) }, 0);
    b.tif = TimeInForce::Gtd { expire_ns: 1 };
    let c = order(2, OrderSide::Buy, OrderKind::StopLimit { trigger: lv(103.0), price: lv(104.0) }, 0);
    let mut orders = vec![a, b, c];
    let lvl = limit_levels(&orders);
    let (out, _) = match_step(&mut orders, &lvl, &ctx(1, [100.0, 105.0, 95.0, 100.0]), &step, &prior, &tape);
    assert_eq!(ids(&out), vec![('E', 1), ('F', 0), ('T', 2)]);
    assert_eq!(orders[1].status, OrderStatus::Expired);
    assert_eq!(orders[2].status, OrderStatus::Triggered);
    assert!(orders[2].triggered);
}

#[test]
fn a_child_is_held_then_dies_with_its_parent() {
    let mut tape = BarTape::<f64, f64>::new();
    let prior = tape.clone();
    let step = tape.replay(prices([100.0, 105.0, 95.0, 100.0]), Some((5.0, 5.0)), StepKind::Bar);
    let parent = order(0, OrderSide::Buy, OrderKind::Limit { price: lv(90.0) }, 0);
    let mut child = order(1, OrderSide::Sell, OrderKind::Limit { price: lv(96.0) }, 0);
    child.parent_id = Some(0);
    child.status = OrderStatus::Submitted;
    let mut orders = vec![parent, child];
    let lvl = limit_levels(&orders);
    let (out, _) = match_step(&mut orders, &lvl, &ctx(1, [100.0, 105.0, 95.0, 100.0]), &step, &prior, &tape);
    assert!(out.is_empty());
    orders[0].status = OrderStatus::Canceled;
    let (out, _) = match_step(&mut orders, &lvl, &ctx(2, [100.0, 105.0, 95.0, 100.0]), &step, &prior, &tape);
    assert_eq!(ids(&out), vec![('C', 1)]);
}

#[test]
fn post_only_rejects_on_the_first_bar_and_ioc_cancels() {
    let mut tape = BarTape::<f64, f64>::new();
    let prior = tape.clone();
    let step = tape.replay(prices([100.0, 105.0, 95.0, 100.0]), Some((5.0, 5.0)), StepKind::Bar);
    let mut post = order(0, OrderSide::Buy, OrderKind::Limit { price: lv(101.0) }, 0);
    post.post_only = true;
    let mut ioc = order(1, OrderSide::Buy, OrderKind::Limit { price: lv(90.0) }, 0);
    ioc.tif = TimeInForce::Ioc;
    let mut orders = vec![post, ioc];
    let lvl = limit_levels(&orders);
    let (out, _) = match_step(&mut orders, &lvl, &ctx(1, [100.0, 105.0, 95.0, 100.0]), &step, &prior, &tape);
    assert_eq!(ids(&out), vec![('R', 0), ('C', 1)]);
    assert_eq!(orders[0].status, OrderStatus::Rejected);
    assert_eq!(orders[1].status, OrderStatus::Canceled);
}

#[test]
fn a_limit_sent_from_the_close_crosses_the_book_it_meets() {
    let mut tape = BarTape::<f64, f64>::new();
    let prior = tape.clone();
    let step = tape.replay(prices([100.0, 105.0, 95.0, 100.0]), Some((5.0, 6.0)), StepKind::Bar);
    let mut o = order(0, OrderSide::Buy, OrderKind::Limit { price: lv(101.0) }, 1);
    o.tif = TimeInForce::Gtc;
    let mut orders = vec![o];
    let lvl = levels(1);
    let mut c = ctx(1, [100.0, 105.0, 95.0, 100.0]);
    c.same_bar_close = true;
    let (out, _) = match_step(&mut orders, &lvl, &c, &step, &prior, &tape);
    match &out[..] {
        [MatchOutcome::Fill { order_id: 0, price, depth, on_arrival: false }] => {
            // Fills at the book's price, and sweeps beyond it.
            assert_eq!(*price, 100.0);
            assert_eq!(depth.tail(), Tail::Sweep);
        }
        _ => panic!("expected one fill"),
    }
}

#[test]
fn linking_names_the_group_after_the_smallest_id() {
    let mut orders: Vec<WorkingOrder<f64, f64>> =
        (0..4).map(|i| order(i, OrderSide::Buy, OrderKind::Limit { price: lv(100.0) }, 0)).collect();
    raptorbt::matching::link_oco(&mut orders, &[3, 1, 9]);
    assert_eq!(orders[1].oco_group, Some(1));
    assert_eq!(orders[3].oco_group, Some(1));
    assert_eq!(orders[0].oco_group, None);
    assert_eq!(orders[2].oco_group, None);
}

#[test]
fn resting_kinds_start_working_on_submission() {
    assert!(accepted_on_submit(OrderKind::Limit { price: lv(1.0) }, TimeInForce::Gtc, None));
    assert!(!accepted_on_submit(OrderKind::<f64>::Market, TimeInForce::Gtc, None));
    assert!(accepted_on_submit(OrderKind::<f64>::Market, TimeInForce::AtClose, None));
    assert!(!accepted_on_submit(OrderKind::Limit { price: lv(1.0) }, TimeInForce::Gtc, Some(0)));
    assert!(cancels_remainder(TimeInForce::Ioc) && cancels_remainder(TimeInForce::Fok));
    assert!(!cancels_remainder(TimeInForce::Day));
}

#[test]
fn a_fill_goes_on_through_the_depth_then_its_tail() {
    let depth = FillDepth::repeated(Size::Bounded(2.0), 2, Tail::Sweep);
    assert_eq!(next_level(&depth, false), None);
    match next_level(&depth, true) {
        Some(NextLevel::Same(rest)) => {
            assert_eq!(rest.prints(), 1);
            assert_eq!(next_level(&rest, true), Some(NextLevel::OneIncrementWorse));
        }
        _ => panic!("expected another print"),
    }
    let through = FillDepth::single(Size::Bounded(1.0), Tail::Through);
    assert_eq!(next_level(&through, true), Some(NextLevel::AtOwnPrice));
    let rests = FillDepth::single(Size::Bounded(1.0), Tail::Rests);
    assert_eq!(next_level(&rests, true), None);
}
