//! Resting orders: the order book's model, replacing an order's levels, what
//! a fill does to contingent orders, and matching working orders against one
//! step of the tape.
//!
//! Prices enter as ranked levels (see [`crate::tape`]); quantities, trailing
//! offsets and sizes are carried and never read. Trailing-stop levels and a
//! limit's slipped fill price are arithmetic outside this module and are
//! handed in per order.
use vstd::prelude::*;

use crate::engine::{is_terminal, OrderStatus};
use crate::fill::{limit_fills, stop_triggers, Tail};
use crate::orders::{expired, shift_fits, spec_expired, OrderSide, TimeInForce};
use crate::portfolio::StepMode;
use crate::tape::{book_offer, offer_from, BarTape, FillDepth, Level, Print, Size, StepPrices, Tape};
use crate::types::Direction;

verus! {

/// What kind of order, with its price levels.
#[derive(Debug, Clone, Copy, PartialEq)]
pub enum OrderKind<P> {
    /// Fills at the next available price.
    Market,
    /// Fills at the open, then rests as a limit.
    MarketToLimit,
    /// Fills at `price` or better.
    Limit { price: Level<P> },
    /// Becomes a market order once the price moves through `trigger`.
    StopMarket { trigger: Level<P> },
    /// Becomes a market order once the price touches `trigger` favorably.
    MarketIfTouched { trigger: Level<P> },
    /// Becomes a limit at `price` once the price moves through `trigger`.
    StopLimit { trigger: Level<P>, price: Level<P> },
    /// Becomes a limit at `price` once the price touches `trigger` favorably.
    LimitIfTouched { trigger: Level<P>, price: Level<P> },
    /// A stop trailing the favorable extreme by `offset`.
    TrailingStopMarket { offset: P },
    /// A trailing stop that becomes a limit `limit_offset` through its
    /// trigger.
    TrailingStopLimit { offset: P, limit_offset: P },
}

/// One order as the book holds it. `qty` is carried, never read.
#[derive(Debug, Clone, Copy, PartialEq)]
pub struct WorkingOrder<P, Q> {
    /// Engine id: the order's position in submission order.
    pub id: u64,
    pub side: OrderSide,
    pub kind: OrderKind<P>,
    pub qty: Q,
    pub tif: TimeInForce,
    pub status: OrderStatus,
    /// Whether a conditional order's trigger has fired.
    pub triggered: bool,
    /// Index of the step the order was submitted on.
    pub submitted_idx: u64,
    /// Timestamp it was submitted at.
    pub submitted_ts: i64,
    /// A one-triggers-other parent: the order is held until it fills.
    pub parent_id: Option<u64>,
    /// A one-cancels-other group.
    pub oco_group: Option<u64>,
    /// Refuse the order if it would cross the book on its first bar.
    pub post_only: bool,
    /// The order reached the venue before the step it was submitted on.
    pub arrives_before_bar: bool,
}

// ---------------------------------------------------------------------------
// Replacing an order's levels.
// ---------------------------------------------------------------------------

/// `value` if given, else `current`.
pub open spec fn or_keep<T>(value: Option<T>, current: T) -> T {
    match value {
        Some(v) => v,
        None => current,
    }
}

/// An order after a replace request, and whether the request was applied.
///
/// Finished and market orders, and trailing stops (whose offsets are their
/// identity), refuse every request unchanged. Otherwise the given levels the
/// kind has are replaced; a level the kind does not have, or a new trigger
/// for a trigger that already fired, refuses the request -- but the levels
/// replaced before that refusal stay replaced, and the quantity does not
/// change. An applied request also replaces the quantity, if given.
pub open spec fn modified<P, Q>(
    order: WorkingOrder<P, Q>,
    qty: Option<Q>,
    limit_price: Option<Level<P>>,
    trigger_price: Option<Level<P>>,
) -> (WorkingOrder<P, Q>, bool) {
    let with_kind = |kind: OrderKind<P>| WorkingOrder { kind, ..order };
    let applied = |kind: OrderKind<P>| WorkingOrder { kind, qty: or_keep(qty, order.qty), ..order };
    if is_terminal(order.status) {
        (order, false)
    } else {
        match order.kind {
            OrderKind::MarketIfTouched { trigger } => {
                let k = OrderKind::MarketIfTouched { trigger: or_keep(trigger_price, trigger) };
                if limit_price is Some {
                    (with_kind(k), false)
                } else {
                    (applied(k), true)
                }
            },
            OrderKind::LimitIfTouched { trigger, price } => {
                let p = or_keep(limit_price, price);
                if trigger_price is Some && order.triggered {
                    (with_kind(OrderKind::LimitIfTouched { trigger, price: p }), false)
                } else {
                    (applied(OrderKind::LimitIfTouched { trigger: or_keep(trigger_price, trigger), price: p }), true)
                }
            },
            OrderKind::Limit { price } => {
                let k = OrderKind::Limit { price: or_keep(limit_price, price) };
                if trigger_price is Some {
                    (with_kind(k), false)
                } else {
                    (applied(k), true)
                }
            },
            OrderKind::StopMarket { trigger } => {
                let k = OrderKind::StopMarket { trigger: or_keep(trigger_price, trigger) };
                if limit_price is Some {
                    (with_kind(k), false)
                } else {
                    (applied(k), true)
                }
            },
            OrderKind::StopLimit { trigger, price } => {
                let p = or_keep(limit_price, price);
                if trigger_price is Some && order.triggered {
                    (with_kind(OrderKind::StopLimit { trigger, price: p }), false)
                } else {
                    (applied(OrderKind::StopLimit { trigger: or_keep(trigger_price, trigger), price: p }), true)
                }
            },
            _ => (order, false),
        }
    }
}

fn keep<T: Copy>(value: Option<T>, current: T) -> (r: T)
    ensures
        r == or_keep(value, current),
{
    match value {
        Some(v) => v,
        None => current,
    }
}

/// A replace request on a working order takes the new levels that fit its
/// kind and the new quantity (the old one where none is given), leaves every
/// other field as it was, and is applied: a stop or a market-if-touched takes
/// a new trigger, a limit a new price, and an untriggered stop limit or
/// if-touched limit both. A request on a finished order changes nothing and
/// is refused.
pub proof fn law_a_replace_takes_the_new_levels<P, Q>(
    order: WorkingOrder<P, Q>,
    qty: Option<Q>,
    limit_price: Option<Level<P>>,
    trigger_price: Option<Level<P>>,
    t: Level<P>,
    p: Level<P>,
)
    ensures
        is_terminal(order.status) ==> modified(order, qty, limit_price, trigger_price) == (order, false),
        ({
            let new_qty = match qty {
                Some(n) => n,
                None => order.qty,
            };
            &&& !is_terminal(order.status) && order.kind is StopMarket ==> modified(order, qty, None, Some(t)) == (
                WorkingOrder { kind: OrderKind::StopMarket { trigger: t }, qty: new_qty, ..order },
                true,
            )
            &&& !is_terminal(order.status) && order.kind is MarketIfTouched ==> modified(order, qty, None, Some(t))
                == (WorkingOrder { kind: OrderKind::MarketIfTouched { trigger: t }, qty: new_qty, ..order }, true)
            &&& !is_terminal(order.status) && order.kind is Limit ==> modified(order, qty, Some(p), None) == (
                WorkingOrder { kind: OrderKind::Limit { price: p }, qty: new_qty, ..order },
                true,
            )
            &&& !is_terminal(order.status) && order.kind is StopLimit && !order.triggered ==> modified(
                order,
                qty,
                Some(p),
                Some(t),
            ) == (WorkingOrder { kind: OrderKind::StopLimit { trigger: t, price: p }, qty: new_qty, ..order }, true)
            &&& !is_terminal(order.status) && order.kind is LimitIfTouched && !order.triggered ==> modified(
                order,
                qty,
                Some(p),
                Some(t),
            ) == (
                WorkingOrder { kind: OrderKind::LimitIfTouched { trigger: t, price: p }, qty: new_qty, ..order },
                true,
            )
        }),
{
}

/// Replace a working order's price levels and/or quantity; `false` where
/// the request is refused (see [`modified`]).
pub fn modify<P: Copy, Q: Copy>(
    order: &mut WorkingOrder<P, Q>,
    qty: Option<Q>,
    limit_price: Option<Level<P>>,
    trigger_price: Option<Level<P>>,
) -> (applied: bool)
    ensures
        (*final(order), applied) == modified(*old(order), qty, limit_price, trigger_price),
{
    if order.status.is_terminal() {
        return false;
    }
    let triggered = order.triggered;
    match order.kind {
        OrderKind::Market | OrderKind::MarketToLimit => return false,
        // Trailing offsets are the order's identity; replacing one is a new
        // order.
        OrderKind::TrailingStopMarket { .. } | OrderKind::TrailingStopLimit { .. } => return false,
        OrderKind::MarketIfTouched { trigger } => {
            order.kind = OrderKind::MarketIfTouched { trigger: keep(trigger_price, trigger) };
            if limit_price.is_some() {
                return false;
            }
        },
        OrderKind::LimitIfTouched { trigger, price } => {
            let p = keep(limit_price, price);
            order.kind = OrderKind::LimitIfTouched { trigger, price: p };
            match trigger_price {
                Some(_) if triggered => return false,
                Some(t) => order.kind = OrderKind::LimitIfTouched { trigger: t, price: p },
                None => {},
            }
        },
        OrderKind::Limit { price } => {
            order.kind = OrderKind::Limit { price: keep(limit_price, price) };
            if trigger_price.is_some() {
                return false;
            }
        },
        OrderKind::StopMarket { trigger } => {
            order.kind = OrderKind::StopMarket { trigger: keep(trigger_price, trigger) };
            if limit_price.is_some() {
                return false;
            }
        },
        OrderKind::StopLimit { trigger, price } => {
            let p = keep(limit_price, price);
            order.kind = OrderKind::StopLimit { trigger, price: p };
            match trigger_price {
                // The trigger has already fired; re-arming it would be a
                // different order.
                Some(_) if triggered => return false,
                Some(t) => order.kind = OrderKind::StopLimit { trigger: t, price: p },
                None => {},
            }
        },
    }
    if let Some(q) = qty {
        order.qty = q;
    }
    true
}

/// Whether an order starts working as soon as it is submitted: every kind
/// but a plain market order rests (a market order queued to a bar phase
/// rests too), unless it is a held child, which waits for its parent.
pub open spec fn accepted_on_submit_spec<P>(kind: OrderKind<P>, tif: TimeInForce, parent_id: Option<u64>) -> bool {
    let rests = kind != OrderKind::<P>::Market || tif == TimeInForce::AtOpen || tif == TimeInForce::AtClose;
    rests && parent_id is None
}

/// Whether an order starts working as soon as it is submitted.
pub fn accepted_on_submit<P: Copy>(kind: OrderKind<P>, tif: TimeInForce, parent_id: Option<u64>) -> (accepted: bool)
    ensures
        accepted == accepted_on_submit_spec(kind, tif, parent_id),
{
    let rests = match kind {
        OrderKind::Market => match tif {
            TimeInForce::AtOpen | TimeInForce::AtClose => true,
            _ => false,
        },
        _ => true,
    };
    rests && parent_id.is_none()
}

/// Whether the unfilled remainder of a partial fill is canceled: an
/// immediate order lives for one evaluation; anything else keeps working.
pub fn cancels_remainder(tif: TimeInForce) -> (cancels: bool)
    ensures
        cancels == is_immediate(tif),
{
    match tif {
        TimeInForce::Ioc | TimeInForce::Fok => true,
        _ => false,
    }
}

/// The group a set of orders is linked under: the smallest id among them,
/// or `0` for none.
pub open spec fn oco_group_spec(ids: Seq<u64>) -> u64
    decreases ids.len(),
{
    if ids.len() == 0 {
        0
    } else if ids.len() == 1 {
        ids[0]
    } else {
        let rest = oco_group_spec(ids.drop_last());
        if ids.last() < rest {
            ids.last()
        } else {
            rest
        }
    }
}

/// Put the orders `ids` names in one one-cancels-other group, named by the
/// smallest of them: the first fill among them cancels the rest. An id
/// names the order at that position; ids that name no order are passed
/// over.
pub fn link_oco<P: Copy, Q: Copy>(orders: &mut Vec<WorkingOrder<P, Q>>, ids: &[u64])
    ensures
        final(orders)@.len() == old(orders)@.len(),
        forall|k: int|
            0 <= k < old(orders)@.len() ==> #[trigger] final(orders)@[k] == if ids@.contains(k as u64) {
                WorkingOrder { oco_group: Some(oco_group_spec(ids@)), ..old(orders)@[k] }
            } else {
                old(orders)@[k]
            },
{
    let mut group: u64 = 0;
    let mut i: usize = 0;
    while i < ids.len()
        invariant
            i <= ids@.len(),
            group == oco_group_spec(ids@.take(i as int)),
        decreases ids@.len() - i,
    {
        proof {
            assert(ids@.take(i + 1).drop_last() =~= ids@.take(i as int));
        }
        if i == 0 || ids[i] < group {
            group = ids[i];
        }
        i = i + 1;
    }
    assert(ids@.take(ids@.len() as int) =~= ids@);
    let ghost start = orders@;
    let n = orders.len();
    let mut j: usize = 0;
    while j < ids.len()
        invariant
            j <= ids@.len(),
            n == start.len(),
            orders@.len() == n,
            group == oco_group_spec(ids@),
            forall|k: int|
                0 <= k < n ==> #[trigger] orders@[k] == if ids@.take(j as int).contains(k as u64) {
                    WorkingOrder { oco_group: Some(group), ..start[k] }
                } else {
                    start[k]
                },
        decreases ids@.len() - j,
    {
        let id = ids[j];
        if id < n as u64 {
            let o = orders[id as usize];
            orders.set(id as usize, WorkingOrder { oco_group: Some(group), ..o });
        }
        proof {
            assert forall|k: int| 0 <= k < n implies #[trigger] orders@[k] == if ids@.take(j + 1).contains(k as u64) {
                WorkingOrder { oco_group: Some(group), ..start[k] }
            } else {
                start[k]
            } by {
                assert(ids@.take(j + 1) =~= ids@.take(j as int).push(id));
                if k as u64 == id {
                    assert(ids@.take(j + 1)[j as int] == id);
                    assert(ids@.take(j + 1).contains(id));
                } else {
                    assert(ids@.take(j + 1).contains(k as u64) == ids@.take(j as int).contains(k as u64));
                }
            }
        }
        j = j + 1;
    }
    assert(ids@.take(ids@.len() as int) =~= ids@);
}

/// Where an order goes on after the print it just took.
#[derive(Debug, Clone, PartialEq)]
pub enum NextLevel<S> {
    /// Another print at the same price, of the size this depth says.
    Same(FillDepth<S>),
    /// The market traded through the resting order: the whole remainder
    /// fills at the order's own price, unbounded.
    AtOwnPrice,
    /// The order emptied the book at the price it took: the remainder
    /// crosses one increment worse, unbounded.
    OneIncrementWorse,
}

/// Where an order with size still `outstanding` goes on after the print it
/// took from `depth`: nowhere once nothing is outstanding or the depth has
/// nothing more; otherwise the next print of the depth, or its tail.
pub fn next_level<S: Copy>(depth: &FillDepth<S>, outstanding: bool) -> (next: Option<NextLevel<S>>)
    ensures
        !outstanding || depth@.0.len() == 0 ==> next is None,
        outstanding && depth@.0.len() == 1 ==> next == match depth@.1 {
            Tail::Rests => None,
            Tail::Through => Some(NextLevel::<S>::AtOwnPrice),
            Tail::Sweep => Some(NextLevel::<S>::OneIncrementWorse),
        },
        outstanding && depth@.0.len() > 1 ==> (next matches Some(NextLevel::Same(rest)) && rest@ == (
            depth@.0.drop_first(),
            depth@.1,
        )),
{
    if !outstanding {
        return None;
    }
    match depth.next() {
        Some(crate::tape::NextPrint::Same(rest)) => Some(NextLevel::Same(rest)),
        Some(crate::tape::NextPrint::Through) => Some(NextLevel::AtOwnPrice),
        Some(crate::tape::NextPrint::Sweep) => Some(NextLevel::OneIncrementWorse),
        None => None,
    }
}

// ---------------------------------------------------------------------------
// Contingent orders after a fill.
// ---------------------------------------------------------------------------

/// A change to an order's state the engine reports.
#[derive(Debug, Clone, Copy, PartialEq, Eq, Structural)]
pub enum OrderEvent {
    /// A held child was released to the venue.
    Accepted(u64),
    /// A conditional order's trigger fired.
    Triggered(u64),
    /// The order lapsed by time in force.
    Expired(u64),
    /// The order was canceled.
    Canceled(u64),
    /// The book refused the order: it would have crossed on its first bar.
    RejectedPostOnly(u64),
}

/// Whether the fill of `filled` releases `o`: a held child of it.
pub open spec fn released_by<P, Q>(o: WorkingOrder<P, Q>, filled: u64) -> bool {
    o.parent_id == Some(filled) && o.status == OrderStatus::Submitted
}

/// The one-cancels-other group of order `filled`, if it is in one.
pub open spec fn group_of<P, Q>(orders: Seq<WorkingOrder<P, Q>>, filled: u64) -> Option<u64> {
    if filled < orders.len() {
        orders[filled as int].oco_group
    } else {
        None
    }
}

/// Whether the fill of `filled` cancels `o` (already past the release of
/// held children): a live sibling in its one-cancels-other group.
pub open spec fn canceled_by<P, Q>(o: WorkingOrder<P, Q>, filled: u64, group: Option<u64>) -> bool {
    group is Some && o.oco_group == group && o.id != filled && !is_terminal(o.status)
}

/// An order after the contingencies of a fill: released, then canceled.
pub open spec fn after_fill_order<P, Q>(o: WorkingOrder<P, Q>, filled: u64, group: Option<u64>) -> WorkingOrder<P, Q> {
    let released = if released_by(o, filled) {
        WorkingOrder { status: OrderStatus::Accepted, ..o }
    } else {
        o
    };
    if canceled_by(released, filled, group) {
        WorkingOrder { status: OrderStatus::Canceled, ..released }
    } else {
        released
    }
}

/// The releases among the first `n` orders, in order.
pub open spec fn releases<P, Q>(orders: Seq<WorkingOrder<P, Q>>, filled: u64, n: int) -> Seq<OrderEvent>
    decreases n,
{
    if n <= 0 {
        Seq::empty()
    } else {
        releases(orders, filled, n - 1) + if released_by(orders[n - 1], filled) {
            seq![OrderEvent::Accepted(orders[n - 1].id)]
        } else {
            Seq::empty()
        }
    }
}

/// The cancellations among the first `n` orders, once released, in order.
pub open spec fn cancellations<P, Q>(orders: Seq<WorkingOrder<P, Q>>, filled: u64, group: Option<u64>, n: int) -> Seq<
    OrderEvent,
>
    decreases n,
{
    if n <= 0 {
        Seq::empty()
    } else {
        let released = if released_by(orders[n - 1], filled) {
            WorkingOrder { status: OrderStatus::Accepted, ..orders[n - 1] }
        } else {
            orders[n - 1]
        };
        cancellations(orders, filled, group, n - 1) + if canceled_by(released, filled, group) {
            seq![OrderEvent::Canceled(orders[n - 1].id)]
        } else {
            Seq::empty()
        }
    }
}

/// Whether every order's id is its position in submission order.
pub open spec fn ids_are_positions<P, Q>(orders: Seq<WorkingOrder<P, Q>>) -> bool {
    forall|k: int| 0 <= k < orders.len() ==> #[trigger] orders[k].id == k
}

/// The contingencies of a fill of order `filled_id`: every held child of it
/// is released (in submission order), then every live sibling in its
/// one-cancels-other group is canceled (in submission order).
pub fn after_fill<P: Copy, Q: Copy>(orders: &mut Vec<WorkingOrder<P, Q>>, filled_id: u64) -> (events: Vec<OrderEvent>)
    requires
        ids_are_positions(old(orders)@),
    ensures
        final(orders)@.len() == old(orders)@.len(),
        forall|k: int|
            0 <= k < old(orders)@.len() ==> #[trigger] final(orders)@[k] == after_fill_order(
                old(orders)@[k],
                filled_id,
                group_of(old(orders)@, filled_id),
            ),
        events@ == releases(old(orders)@, filled_id, old(orders)@.len() as int) + cancellations(
            old(orders)@,
            filled_id,
            group_of(old(orders)@, filled_id),
            old(orders)@.len() as int,
        ),
{
    let ghost start = orders@;
    let n = orders.len();
    let group = if (filled_id as usize) < n && filled_id <= usize::MAX as u64 {
        orders[filled_id as usize].oco_group
    } else {
        None
    };
    assert(group == group_of(start, filled_id));
    let mut events: Vec<OrderEvent> = Vec::new();
    let mut i: usize = 0;
    while i < n
        invariant
            i <= n,
            n == start.len(),
            orders@.len() == n,
            forall|k: int| 0 <= k < i ==> #[trigger] orders@[k] == (if released_by(start[k], filled_id) {
                WorkingOrder { status: OrderStatus::Accepted, ..start[k] }
            } else {
                start[k]
            }),
            forall|k: int| i <= k < n ==> #[trigger] orders@[k] == start[k],
            events@ == releases(start, filled_id, i as int),
        decreases n - i,
    {
        let o = orders[i];
        if o.parent_id == Some(filled_id) && o.status == OrderStatus::Submitted {
            orders.set(i, WorkingOrder { status: OrderStatus::Accepted, ..o });
            events.push(OrderEvent::Accepted(o.id));
        }
        i = i + 1;
    }
    let ghost released = orders@;
    let ghost first = events@;
    let mut j: usize = 0;
    while j < n
        invariant
            j <= n,
            n == start.len(),
            orders@.len() == n,
            group == group_of(start, filled_id),
            forall|k: int| 0 <= k < n ==> #[trigger] released[k] == (if released_by(start[k], filled_id) {
                WorkingOrder { status: OrderStatus::Accepted, ..start[k] }
            } else {
                start[k]
            }),
            forall|k: int| 0 <= k < j ==> #[trigger] orders@[k] == after_fill_order(start[k], filled_id, group),
            forall|k: int| j <= k < n ==> #[trigger] orders@[k] == released[k],
            first == releases(start, filled_id, n as int),
            events@ == first + cancellations(start, filled_id, group, j as int),
        decreases n - j,
    {
        let o = orders[j];
        let live = !o.status.is_terminal();
        if group.is_some() && o.oco_group == group && o.id != filled_id && live {
            orders.set(j, WorkingOrder { status: OrderStatus::Canceled, ..o });
            events.push(OrderEvent::Canceled(o.id));
            proof {
                assert(start[j as int].id == released[j as int].id);
            }
        }
        proof {
            assert(events@ =~= first + cancellations(start, filled_id, group, j + 1));
        }
        j = j + 1;
    }
    events
}

// ---------------------------------------------------------------------------
// Matching working orders against one step.
// ---------------------------------------------------------------------------

/// One step as the matcher reads it.
#[derive(Debug, Clone, Copy, PartialEq)]
pub struct StepContext<P> {
    /// Index of the step.
    pub idx: u64,
    /// Its timestamp.
    pub ts: i64,
    /// Offset of the trading-date clock from UTC, for DAY expiry.
    pub tz_offset_ns: i64,
    /// Its open, high, low and close.
    pub prices: StepPrices<P>,
    /// A bar, or a single trade print.
    pub mode: StepMode,
    /// Whether an order submitted from a bar's close may match that bar.
    pub same_bar_close: bool,
}

/// Levels worked out for one order outside the matcher.
#[derive(Debug, Clone, Copy, PartialEq)]
pub struct OrderLevels<P> {
    /// A trailing stop's trigger, off its watermark ratcheted by this step.
    pub trail_trigger: Level<P>,
    /// A triggered trailing stop-limit's limit, or the step's close where
    /// it has none.
    pub trail_limit: Level<P>,
    /// The price a fill at the order's limit level (see [`limit_level`])
    /// takes, limit slippage applied.
    pub limit_fill: Level<P>,
}

/// What happened to one order during a step.
#[derive(Debug, Clone, PartialEq)]
pub enum MatchOutcome<P, S> {
    /// The order is marketable at `price` against `depth` of book;
    /// `on_arrival` marks a fill from the book standing when the order
    /// reached the venue, ahead of this step.
    Fill { order_id: u64, price: P, depth: FillDepth<S>, on_arrival: bool },
    /// A conditional order's trigger fired; it works from the next step.
    Trigger { order_id: u64 },
    /// Time in force lapsed before a fill.
    Expire { order_id: u64 },
    /// An immediate order found no fill, or a held child's parent died.
    Cancel { order_id: u64 },
    /// A post-only limit would have crossed the book on its first bar.
    RejectPostOnly { order_id: u64 },
}

/// A match outcome, its depth read as its schedule.
pub enum Outcome<P, S> {
    Fill { order_id: u64, price: P, depth: (Seq<Size<S>>, Tail), on_arrival: bool },
    Trigger { order_id: u64 },
    Expire { order_id: u64 },
    Cancel { order_id: u64 },
    RejectPostOnly { order_id: u64 },
}

impl<P, S> View for MatchOutcome<P, S> {
    type V = Outcome<P, S>;

    open spec fn view(&self) -> Outcome<P, S> {
        match self {
            MatchOutcome::Fill { order_id, price, depth, on_arrival } => Outcome::Fill {
                order_id: *order_id,
                price: *price,
                depth: depth@,
                on_arrival: *on_arrival,
            },
            MatchOutcome::Trigger { order_id } => Outcome::Trigger { order_id: *order_id },
            MatchOutcome::Expire { order_id } => Outcome::Expire { order_id: *order_id },
            MatchOutcome::Cancel { order_id } => Outcome::Cancel { order_id: *order_id },
            MatchOutcome::RejectPostOnly { order_id } => Outcome::RejectPostOnly { order_id: *order_id },
        }
    }
}

/// The event a non-fill outcome reports; a fill reports through the
/// position book instead.
pub open spec fn outcome_event_spec<P, S>(o: Outcome<P, S>) -> Option<OrderEvent> {
    match o {
        Outcome::Fill { .. } => None,
        Outcome::Trigger { order_id } => Some(OrderEvent::Triggered(order_id)),
        Outcome::Expire { order_id } => Some(OrderEvent::Expired(order_id)),
        Outcome::Cancel { order_id } => Some(OrderEvent::Canceled(order_id)),
        Outcome::RejectPostOnly { order_id } => Some(OrderEvent::RejectedPostOnly(order_id)),
    }
}

/// The event a match outcome reports, if it is not a fill.
pub fn outcome_event<P, S>(outcome: &MatchOutcome<P, S>) -> (event: Option<OrderEvent>)
    ensures
        event == outcome_event_spec(outcome@),
{
    match outcome {
        MatchOutcome::Fill { .. } => None,
        MatchOutcome::Trigger { order_id } => Some(OrderEvent::Triggered(*order_id)),
        MatchOutcome::Expire { order_id } => Some(OrderEvent::Expired(*order_id)),
        MatchOutcome::Cancel { order_id } => Some(OrderEvent::Canceled(*order_id)),
        MatchOutcome::RejectPostOnly { order_id } => Some(OrderEvent::RejectedPostOnly(*order_id)),
    }
}

/// The level a fill at the order's limit reads: a limit's price, an
/// if-touched market order's trigger, a conditional limit's price, a
/// triggered trailing stop-limit's limit; the trailing trigger otherwise.
pub open spec fn limit_level_spec<P, Q>(o: WorkingOrder<P, Q>, trail_limit: Level<P>, trail_trigger: Level<P>) -> Level<P> {
    match o.kind {
        OrderKind::Limit { price } => price,
        OrderKind::MarketIfTouched { trigger } => trigger,
        OrderKind::StopLimit { price, .. } => price,
        OrderKind::LimitIfTouched { price, .. } => price,
        OrderKind::TrailingStopLimit { .. } => trail_limit,
        _ => trail_trigger,
    }
}

/// The level a fill at the order's limit reads, before slippage.
pub fn limit_level<P: Copy, Q: Copy>(o: &WorkingOrder<P, Q>, trail_limit: Level<P>, trail_trigger: Level<P>) -> (l: Level<P>)
    ensures
        l == limit_level_spec(*o, trail_limit, trail_trigger),
{
    match o.kind {
        OrderKind::Limit { price } => price,
        OrderKind::MarketIfTouched { trigger } => trigger,
        OrderKind::StopLimit { price, .. } => price,
        OrderKind::LimitIfTouched { price, .. } => price,
        OrderKind::TrailingStopLimit { .. } => trail_limit,
        _ => trail_trigger,
    }
}

/// Whether an order is immediate-or-cancel or fill-or-kill.
pub open spec fn is_immediate(tif: TimeInForce) -> bool {
    tif == TimeInForce::Ioc || tif == TimeInForce::Fok
}

/// What a step's prints offer an order at `limit`.
pub open spec fn tape_offer<P, S>(t: (Seq<Print<P, S>>, bool), limit: i64, buying: bool, immediate: bool) -> (
    Seq<Size<S>>,
    Tail,
) {
    if t.1 {
        (seq![Size::Unbounded], Tail::Rests)
    } else {
        offer_from(t.0, limit, buying, immediate)
    }
}

/// A fill from the step's prints at `at`, if they offer the order anything.
pub open spec fn fill_from<P, Q, S>(o: WorkingOrder<P, Q>, t: (Seq<Print<P, S>>, bool), at: Level<P>) -> Option<
    Outcome<P, S>,
> {
    let d = tape_offer(t, at.rank, o.side == OrderSide::Buy, is_immediate(o.tif));
    if d.0.len() > 0 {
        Some(Outcome::Fill { order_id: o.id, price: at.price, depth: d, on_arrival: false })
    } else {
        None
    }
}

/// A limit-style fill at `fill_at` once the step reaches `limit`.
pub open spec fn limit_fill_from<P, Q, S>(
    o: WorkingOrder<P, Q>,
    q: StepPrices<P>,
    t: (Seq<Print<P, S>>, bool),
    limit: Level<P>,
    fill_at: Level<P>,
) -> Option<Outcome<P, S>> {
    if limit_fills(limit.rank, q.low.rank, q.high.rank, Direction::Long, o.side == OrderSide::Buy) {
        fill_from(o, t, fill_at)
    } else {
        None
    }
}

/// The level a triggered stop fills at: the open where the step opened at
/// or through the stop, the stop otherwise; none unless it triggered.
pub open spec fn stop_level<P, Q>(o: WorkingOrder<P, Q>, q: StepPrices<P>, trigger: Level<P>) -> Option<Level<P>> {
    let buying = o.side == OrderSide::Buy;
    if !stop_triggers(trigger.rank, q.low.rank, q.high.rank, Direction::Long, buying) {
        None
    } else if buying {
        if q.open.rank >= trigger.rank {
            Some(q.open)
        } else {
            Some(trigger)
        }
    } else {
        if q.open.rank <= trigger.rank {
            Some(q.open)
        } else {
            Some(trigger)
        }
    }
}

/// Whether an order may take part in this step, given its parent's status
/// before the step.
pub enum Admission {
    /// Not yet, or no longer: no outcome, no change.
    Skip,
    /// Its parent died unfilled: it is canceled with it.
    CancelWithParent,
    /// It is working on this step.
    Proceed,
}

/// Whether an order takes part in a step.
///
/// Finished orders, and orders submitted after it, do not. An order sent
/// from this step's close does not either, unless same-bar matching is
/// enabled or it reached the venue before the step. A child is held until
/// its parent has filled, and is canceled once its parent has finished any
/// other way.
pub open spec fn admission<P, Q>(o: WorkingOrder<P, Q>, parent: Option<OrderStatus>, c: StepContext<P>) -> Admission {
    if is_terminal(o.status) || o.submitted_idx > c.idx {
        Admission::Skip
    } else if o.submitted_idx == c.idx && !(c.same_bar_close || o.arrives_before_bar) {
        Admission::Skip
    } else if o.parent_id is None {
        Admission::Proceed
    } else {
        match parent {
            Some(OrderStatus::Filled) => Admission::Proceed,
            Some(s) => if is_terminal(s) {
                Admission::CancelWithParent
            } else {
                Admission::Skip
            },
            None => Admission::Skip,
        }
    }
}

/// What a working order does against the step's prints, once past its
/// arrival: the order as it leaves, its outcome, and whether it is a
/// trailing stop that ratcheted its watermark on this step.
pub open spec fn resting_step<P, Q, S>(
    o: WorkingOrder<P, Q>,
    c: StepContext<P>,
    t: (Seq<Print<P, S>>, bool),
    lv: OrderLevels<P>,
    first_bar: bool,
) -> (WorkingOrder<P, Q>, Option<Outcome<P, S>>, bool) {
    let q = c.prices;
    let buying = o.side == OrderSide::Buy;
    let triggered = WorkingOrder { status: OrderStatus::Triggered, triggered: true, ..o };
    match o.kind {
        // Queued to a bar phase, or an activated child at the next price.
        OrderKind::Market => (
            o,
            if o.tif == TimeInForce::AtOpen && c.mode == StepMode::Bar {
                fill_from(o, t, q.open)
            } else if o.tif == TimeInForce::AtClose && c.mode == StepMode::Bar {
                fill_from(o, t, q.close)
            } else if o.tif == TimeInForce::AtOpen || o.tif == TimeInForce::AtClose {
                None
            } else if o.parent_id is Some {
                fill_from(o, t, q.open)
            } else {
                None
            },
            false,
        ),
        OrderKind::MarketToLimit => (o, fill_from(o, t, q.open), false),
        OrderKind::Limit { price } => {
            let crosses_open = if buying {
                q.open.rank <= price.rank
            } else {
                q.open.rank >= price.rank
            };
            if o.post_only && first_bar && crosses_open {
                (
                    WorkingOrder { status: OrderStatus::Rejected, ..o },
                    Some(Outcome::RejectPostOnly { order_id: o.id }),
                    false,
                )
            } else {
                (o, limit_fill_from(o, q, t, price, lv.limit_fill), false)
            }
        },
        OrderKind::StopMarket { trigger } => (
            o,
            match stop_level(o, q, trigger) {
                Some(at) => fill_from(o, t, at),
                None => None,
            },
            false,
        ),
        OrderKind::MarketIfTouched { trigger } => (o, limit_fill_from(o, q, t, trigger, lv.limit_fill), false),
        OrderKind::StopLimit { trigger, price } => if o.triggered {
            (o, limit_fill_from(o, q, t, price, lv.limit_fill), false)
        } else if stop_triggers(trigger.rank, q.low.rank, q.high.rank, Direction::Long, buying) {
            (triggered, Some(Outcome::Trigger { order_id: o.id }), false)
        } else {
            (o, None, false)
        },
        OrderKind::LimitIfTouched { trigger, price } => if o.triggered {
            (o, limit_fill_from(o, q, t, price, lv.limit_fill), false)
        } else if limit_fills(trigger.rank, q.low.rank, q.high.rank, Direction::Long, buying) {
            (triggered, Some(Outcome::Trigger { order_id: o.id }), false)
        } else {
            (o, None, false)
        },
        OrderKind::TrailingStopMarket { .. } => (
            o,
            match stop_level(o, q, lv.trail_trigger) {
                Some(at) => fill_from(o, t, at),
                None => None,
            },
            true,
        ),
        OrderKind::TrailingStopLimit { .. } => if o.triggered {
            (o, limit_fill_from(o, q, t, lv.trail_limit, lv.limit_fill), false)
        } else if stop_triggers(lv.trail_trigger.rank, q.low.rank, q.high.rank, Direction::Long, buying) {
            (triggered, Some(Outcome::Trigger { order_id: o.id }), true)
        } else {
            (o, None, true)
        },
    }
}

/// What one order does on a step: the order as it leaves, its outcome, and
/// whether a trailing stop ratcheted.
///
/// Once admitted, an order lapsed by time in force expires. An order that
/// reached the venue during this step meets the standing book first -- the
/// one before the step if it arrived ahead of it, the one the step leaves
/// otherwise: a plain limit crossing that book fills at the book's price.
/// An immediate order that does not is canceled; one that arrived ahead of
/// the step goes on to rest through it; any other waits. A working order
/// then meets the step's prints by its kind (see [`resting_step`]); an
/// immediate order that gets nothing -- other than a plain market order,
/// which the kernel sweeps -- is canceled.
pub open spec fn order_step<P, Q, S>(
    o: WorkingOrder<P, Q>,
    parent: Option<OrderStatus>,
    c: StepContext<P>,
    t: (Seq<Print<P, S>>, bool),
    prior: Option<Print<P, Size<S>>>,
    book: Option<Print<P, Size<S>>>,
    lv: OrderLevels<P>,
) -> (WorkingOrder<P, Q>, Option<Outcome<P, S>>, bool) {
    let canceled = WorkingOrder { status: OrderStatus::Canceled, ..o };
    let buying = o.side == OrderSide::Buy;
    let immediate = is_immediate(o.tif);
    match admission(o, parent, c) {
        Admission::Skip => (o, None, false),
        Admission::CancelWithParent => (canceled, Some(Outcome::Cancel { order_id: o.id }), false),
        Admission::Proceed => if spec_expired(o.tif, o.submitted_ts, c.ts, c.tz_offset_ns) {
            (WorkingOrder { status: OrderStatus::Expired, ..o }, Some(Outcome::Expire { order_id: o.id }), false)
        } else {
            let this_bar = o.submitted_idx == c.idx;
            let first_bar = if o.arrives_before_bar {
                this_bar
            } else {
                o.submitted_idx + 1 == c.idx
            };
            let standing = if o.arrives_before_bar {
                prior
            } else {
                book
            };
            let arrival = match o.kind {
                OrderKind::Limit { price } => {
                    let d = book_offer(standing, price.rank, buying, immediate);
                    if d.0.len() > 0 && standing is Some {
                        Some(
                            Outcome::Fill {
                                order_id: o.id,
                                price: standing->0.price,
                                depth: d,
                                on_arrival: o.arrives_before_bar,
                            },
                        )
                    } else {
                        None
                    }
                },
                _ => None,
            };
            let rest = resting_step(o, c, t, lv, first_bar);
            let unfilled = rest.1 is None && !(o.kind == OrderKind::<P>::Market && o.parent_id is None)
                && immediate;
            if this_bar && arrival is Some {
                (o, arrival, false)
            } else if this_bar && immediate {
                (canceled, Some(Outcome::Cancel { order_id: o.id }), false)
            } else if this_bar && !o.arrives_before_bar {
                (o, None, false)
            } else if unfilled {
                (canceled, Some(Outcome::Cancel { order_id: o.id }), rest.2)
            } else {
                rest
            }
        },
    }
}

/// A match outcome, if any, read as its schedule.
pub open spec fn outcome_view<P, S>(x: Option<MatchOutcome<P, S>>) -> Option<Outcome<P, S>> {
    match x {
        Some(m) => Some(m@),
        None => None,
    }
}

fn fill_at<P: Copy, Q: Copy, S: Copy>(o: &WorkingOrder<P, Q>, tape: &Tape<P, S>, at: Level<P>) -> (r: Option<MatchOutcome<P, S>>)
    ensures
        outcome_view(r) == fill_from(*o, tape@, at),
{
    let buying = match o.side {
        OrderSide::Buy => true,
        OrderSide::Sell => false,
    };
    let immediate = match o.tif {
        TimeInForce::Ioc | TimeInForce::Fok => true,
        _ => false,
    };
    let depth = tape.offered(at.rank, buying, immediate);
    if depth.is_empty() {
        None
    } else {
        Some(MatchOutcome::Fill { order_id: o.id, price: at.price, depth, on_arrival: false })
    }
}

fn limit_fill_at<P: Copy, Q: Copy, S: Copy>(
    o: &WorkingOrder<P, Q>,
    q: &StepPrices<P>,
    tape: &Tape<P, S>,
    limit: Level<P>,
    fill_price: Level<P>,
) -> (r: Option<MatchOutcome<P, S>>)
    ensures
        outcome_view(r) == limit_fill_from(*o, *q, tape@, limit, fill_price),
{
    let buying = match o.side {
        OrderSide::Buy => true,
        OrderSide::Sell => false,
    };
    if crate::fill::would_fill_limit(limit.rank, q.low.rank, q.high.rank, Direction::Long, buying) {
        fill_at(o, tape, fill_price)
    } else {
        None
    }
}

fn stop_at<P: Copy, Q: Copy>(o: &WorkingOrder<P, Q>, q: &StepPrices<P>, trigger: Level<P>) -> (r: Option<Level<P>>)
    ensures
        r == stop_level(*o, *q, trigger),
{
    let buying = match o.side {
        OrderSide::Buy => true,
        OrderSide::Sell => false,
    };
    if !crate::fill::would_trigger_stop(trigger.rank, q.low.rank, q.high.rank, Direction::Long, buying) {
        None
    } else if buying {
        if q.open.rank >= trigger.rank {
            Some(q.open)
        } else {
            Some(trigger)
        }
    } else {
        if q.open.rank <= trigger.rank {
            Some(q.open)
        } else {
            Some(trigger)
        }
    }
}

fn rest_on_prints<P: Copy, Q: Copy, S: Copy>(
    o: &mut WorkingOrder<P, Q>,
    c: &StepContext<P>,
    tape: &Tape<P, S>,
    lv: OrderLevels<P>,
    first_bar: bool,
) -> (r: (Option<MatchOutcome<P, S>>, bool))
    ensures
        (*final(o), outcome_view(r.0), r.1) == resting_step(*old(o), *c, tape@, lv, first_bar),
{
    let q = c.prices;
    let buying = match o.side {
        OrderSide::Buy => true,
        OrderSide::Sell => false,
    };
    let bar_mode = match c.mode {
        StepMode::Bar => true,
        StepMode::Trade => false,
    };
    match o.kind {
        OrderKind::Market => {
            let r = match o.tif {
                TimeInForce::AtOpen => if bar_mode {
                    fill_at(o, tape, q.open)
                } else {
                    None
                },
                TimeInForce::AtClose => if bar_mode {
                    fill_at(o, tape, q.close)
                } else {
                    None
                },
                _ => if o.parent_id.is_some() {
                    fill_at(o, tape, q.open)
                } else {
                    None
                },
            };
            (r, false)
        },
        OrderKind::MarketToLimit => (fill_at(o, tape, q.open), false),
        OrderKind::Limit { price } => {
            let crosses_open = if buying {
                q.open.rank <= price.rank
            } else {
                q.open.rank >= price.rank
            };
            if o.post_only && first_bar && crosses_open {
                o.status = OrderStatus::Rejected;
                (Some(MatchOutcome::RejectPostOnly { order_id: o.id }), false)
            } else {
                (limit_fill_at(o, &q, tape, price, lv.limit_fill), false)
            }
        },
        OrderKind::StopMarket { trigger } => {
            let r = match stop_at(o, &q, trigger) {
                Some(at) => fill_at(o, tape, at),
                None => None,
            };
            (r, false)
        },
        OrderKind::MarketIfTouched { trigger } => (limit_fill_at(o, &q, tape, trigger, lv.limit_fill), false),
        OrderKind::StopLimit { trigger, price } => {
            if o.triggered {
                (limit_fill_at(o, &q, tape, price, lv.limit_fill), false)
            } else if crate::fill::would_trigger_stop(trigger.rank, q.low.rank, q.high.rank, Direction::Long, buying) {
                o.status = OrderStatus::Triggered;
                o.triggered = true;
                (Some(MatchOutcome::Trigger { order_id: o.id }), false)
            } else {
                (None, false)
            }
        },
        OrderKind::LimitIfTouched { trigger, price } => {
            if o.triggered {
                (limit_fill_at(o, &q, tape, price, lv.limit_fill), false)
            } else if crate::fill::would_fill_limit(trigger.rank, q.low.rank, q.high.rank, Direction::Long, buying) {
                o.status = OrderStatus::Triggered;
                o.triggered = true;
                (Some(MatchOutcome::Trigger { order_id: o.id }), false)
            } else {
                (None, false)
            }
        },
        OrderKind::TrailingStopMarket { .. } => {
            let r = match stop_at(o, &q, lv.trail_trigger) {
                Some(at) => fill_at(o, tape, at),
                None => None,
            };
            (r, true)
        },
        OrderKind::TrailingStopLimit { .. } => {
            if o.triggered {
                (limit_fill_at(o, &q, tape, lv.trail_limit, lv.limit_fill), false)
            } else if crate::fill::would_trigger_stop(
                lv.trail_trigger.rank,
                q.low.rank,
                q.high.rank,
                Direction::Long,
                buying,
            ) {
                o.status = OrderStatus::Triggered;
                o.triggered = true;
                (Some(MatchOutcome::Trigger { order_id: o.id }), true)
            } else {
                (None, true)
            }
        },
    }
}

/// Whether DAY expiry can read an order's trading dates without overflow,
/// where the order reaches the expiry check.
pub open spec fn expiry_readable<P, Q>(o: WorkingOrder<P, Q>, parent: Option<OrderStatus>, c: StepContext<P>) -> bool {
    admission(o, parent, c) is Proceed && o.tif == TimeInForce::Day ==> shift_fits(c.ts, c.tz_offset_ns)
        && shift_fits(o.submitted_ts, c.tz_offset_ns)
}

/// Whether order `k` of `orders` can be matched against the step without
/// its DAY expiry overflowing (see [`expiry_readable`]).
pub fn expiry_readable_by<P: Copy, Q: Copy>(orders: &Vec<WorkingOrder<P, Q>>, k: usize, c: &StepContext<P>) -> (ok: bool)
    requires
        k < orders@.len(),
    ensures
        ok == expiry_readable(orders@[k as int], parent_status(orders@, orders@[k as int]), *c),
{
    let o = orders[k];
    let parent = match o.parent_id {
        Some(p) => if p < orders.len() as u64 {
            Some(orders[p as usize].status)
        } else {
            None
        },
        None => None,
    };
    let admitted = if o.status.is_terminal() || o.submitted_idx > c.idx {
        false
    } else if o.submitted_idx == c.idx && !(c.same_bar_close || o.arrives_before_bar) {
        false
    } else if o.parent_id.is_none() {
        true
    } else {
        match parent {
            Some(OrderStatus::Filled) => true,
            _ => false,
        }
    };
    let day = match o.tif {
        TimeInForce::Day => true,
        _ => false,
    };
    if !(admitted && day) {
        return true;
    }
    c.ts.checked_add(c.tz_offset_ns).is_some() && o.submitted_ts.checked_add(c.tz_offset_ns).is_some()
}

/// Match one order against a step (see [`order_step`]). `parent` is the
/// status of its parent before the step.
pub fn match_order<P: Copy, Q: Copy, S: Copy>(
    o: &mut WorkingOrder<P, Q>,
    parent: Option<OrderStatus>,
    c: &StepContext<P>,
    tape: &Tape<P, S>,
    prior: &BarTape<P, S>,
    book: &BarTape<P, S>,
    lv: OrderLevels<P>,
) -> (r: (Option<MatchOutcome<P, S>>, bool))
    requires
        expiry_readable(*old(o), parent, *c),
    ensures
        (*final(o), outcome_view(r.0), r.1) == order_step(*old(o), parent, *c, tape@, prior@, book@, lv),
{
    if o.status.is_terminal() || o.submitted_idx > c.idx {
        return (None, false);
    }
    let this_bar = o.submitted_idx == c.idx;
    if this_bar && !(c.same_bar_close || o.arrives_before_bar) {
        return (None, false);
    }
    if o.parent_id.is_some() {
        match parent {
            Some(OrderStatus::Filled) => {},
            Some(s) => {
                if s.is_terminal() {
                    o.status = OrderStatus::Canceled;
                    return (Some(MatchOutcome::Cancel { order_id: o.id }), false);
                }
                // Parent still working: the child is held.
                return (None, false);
            },
            None => return (None, false),
        }
    }
    if expired(o.tif, o.submitted_ts, c.ts, c.tz_offset_ns) {
        o.status = OrderStatus::Expired;
        return (Some(MatchOutcome::Expire { order_id: o.id }), false);
    }
    let first_bar = if o.arrives_before_bar {
        this_bar
    } else {
        o.submitted_idx < c.idx && o.submitted_idx + 1 == c.idx
    };
    let buying = match o.side {
        OrderSide::Buy => true,
        OrderSide::Sell => false,
    };
    let immediate = match o.tif {
        TimeInForce::Ioc | TimeInForce::Fok => true,
        _ => false,
    };
    if this_bar {
        // The book standing when the order reached the venue.
        let standing = if o.arrives_before_bar {
            prior
        } else {
            book
        };
        let arrival = match o.kind {
            OrderKind::Limit { price } => {
                let depth = standing.offered(price.rank, buying, immediate);
                match standing.book() {
                    Some(at) => if !depth.is_empty() {
                        Some(
                            MatchOutcome::Fill {
                                order_id: o.id,
                                price: at.price,
                                depth,
                                on_arrival: o.arrives_before_bar,
                            },
                        )
                    } else {
                        None
                    },
                    None => None,
                }
            },
            _ => None,
        };
        match arrival {
            Some(a) => return (Some(a), false),
            None => {
                if immediate {
                    o.status = OrderStatus::Canceled;
                    return (Some(MatchOutcome::Cancel { order_id: o.id }), false);
                }
                if !o.arrives_before_bar {
                    return (None, false);
                }
            },
        }
    }
    let kernel_swept = match o.kind {
        OrderKind::Market => o.parent_id.is_none(),
        _ => false,
    };
    let (outcome, ratcheted) = rest_on_prints(o, c, tape, lv, first_bar);
    match outcome {
        Some(m) => (Some(m), ratcheted),
        None => {
            if !kernel_swept && immediate {
                o.status = OrderStatus::Canceled;
                (Some(MatchOutcome::Cancel { order_id: o.id }), ratcheted)
            } else {
                (None, ratcheted)
            }
        },
    }
}

/// The status of an order's parent among `orders`, if it has one there.
pub open spec fn parent_status<P, Q>(orders: Seq<WorkingOrder<P, Q>>, o: WorkingOrder<P, Q>) -> Option<OrderStatus> {
    match o.parent_id {
        Some(p) => if p < orders.len() {
            Some(orders[p as int].status)
        } else {
            None
        },
        None => None,
    }
}

/// What order `k` does on a step, its parent read before the step.
pub open spec fn step_at<P, Q, S>(
    orders: Seq<WorkingOrder<P, Q>>,
    levels: Seq<OrderLevels<P>>,
    k: int,
    c: StepContext<P>,
    t: (Seq<Print<P, S>>, bool),
    prior: Option<Print<P, Size<S>>>,
    book: Option<Print<P, Size<S>>>,
) -> (WorkingOrder<P, Q>, Option<Outcome<P, S>>, bool) {
    order_step(orders[k], parent_status(orders, orders[k]), c, t, prior, book, levels[k])
}

/// Whether an outcome is an expiry.
pub open spec fn is_expiry<P, S>(o: Option<Outcome<P, S>>) -> bool {
    o matches Some(Outcome::Expire { .. })
}

/// The expiries among the first `n` orders' outcomes, in submission order.
pub open spec fn expiries<P, Q, S>(
    orders: Seq<WorkingOrder<P, Q>>,
    levels: Seq<OrderLevels<P>>,
    n: int,
    c: StepContext<P>,
    t: (Seq<Print<P, S>>, bool),
    prior: Option<Print<P, Size<S>>>,
    book: Option<Print<P, Size<S>>>,
) -> Seq<Outcome<P, S>>
    decreases n,
{
    if n <= 0 {
        Seq::empty()
    } else {
        let r = step_at(orders, levels, n - 1, c, t, prior, book).1;
        expiries(orders, levels, n - 1, c, t, prior, book) + if is_expiry(r) {
            seq![r->0]
        } else {
            Seq::empty()
        }
    }
}

/// The other outcomes among the first `n` orders', in submission order.
pub open spec fn actions<P, Q, S>(
    orders: Seq<WorkingOrder<P, Q>>,
    levels: Seq<OrderLevels<P>>,
    n: int,
    c: StepContext<P>,
    t: (Seq<Print<P, S>>, bool),
    prior: Option<Print<P, Size<S>>>,
    book: Option<Print<P, Size<S>>>,
) -> Seq<Outcome<P, S>>
    decreases n,
{
    if n <= 0 {
        Seq::empty()
    } else {
        let r = step_at(orders, levels, n - 1, c, t, prior, book).1;
        actions(orders, levels, n - 1, c, t, prior, book) + if r is Some && !is_expiry(r) {
            seq![r->0]
        } else {
            Seq::empty()
        }
    }
}

/// Whether `v`, read outcome by outcome, is `s`.
pub open spec fn outcomes_are<P, S>(v: Seq<MatchOutcome<P, S>>, s: Seq<Outcome<P, S>>) -> bool {
    &&& v.len() == s.len()
    &&& forall|x: int| 0 <= x < v.len() ==> #[trigger] v[x]@ == s[x]
}

/// Evaluate every order against one step.
///
/// `tape` is the step replayed onto the venue's tape, `prior` the tape as
/// it stood before the step and `book` as the step leaves it; `levels[k]`
/// holds order `k`'s trailing and slipped fill levels. Each order does what
/// [`order_step`] says, its parent's status read as it stood before the
/// step. The outcomes come expiries first, then everything else, each in
/// submission order. The second result marks the trailing stops that
/// ratcheted their watermark on this step.
pub fn match_step<P: Copy, Q: Copy, S: Copy>(
    orders: &mut Vec<WorkingOrder<P, Q>>,
    levels: &Vec<OrderLevels<P>>,
    c: &StepContext<P>,
    tape: &Tape<P, S>,
    prior: &BarTape<P, S>,
    book: &BarTape<P, S>,
) -> (r: (Vec<MatchOutcome<P, S>>, Vec<bool>))
    requires
        levels@.len() == old(orders)@.len(),
        forall|k: int|
            0 <= k < old(orders)@.len() ==> #[trigger] expiry_readable(
                old(orders)@[k],
                parent_status(old(orders)@, old(orders)@[k]),
                *c,
            ),
    ensures
        final(orders)@.len() == old(orders)@.len(),
        r.1@.len() == old(orders)@.len(),
        forall|k: int|
            0 <= k < old(orders)@.len() ==> #[trigger] final(orders)@[k] == step_at(
                old(orders)@,
                levels@,
                k,
                *c,
                tape@,
                prior@,
                book@,
            ).0,
        forall|k: int|
            0 <= k < old(orders)@.len() ==> #[trigger] r.1@[k] == step_at(
                old(orders)@,
                levels@,
                k,
                *c,
                tape@,
                prior@,
                book@,
            ).2,
        outcomes_are(
            r.0@,
            expiries(old(orders)@, levels@, old(orders)@.len() as int, *c, tape@, prior@, book@) + actions(
                old(orders)@,
                levels@,
                old(orders)@.len() as int,
                *c,
                tape@,
                prior@,
                book@,
            ),
        ),
{
    let ghost start = orders@;
    let n = orders.len();
    // Parents are read as they stood before the step: a child never sees
    // a parent that this very pass finished.
    let mut statuses: Vec<OrderStatus> = Vec::new();
    let mut k: usize = 0;
    while k < n
        invariant
            k <= n,
            n == orders@.len(),
            orders@ == start,
            statuses@.len() == k,
            forall|j: int| 0 <= j < k ==> #[trigger] statuses@[j] == start[j].status,
        decreases n - k,
    {
        statuses.push(orders[k].status);
        k = k + 1;
    }
    let mut expired_out: Vec<MatchOutcome<P, S>> = Vec::new();
    let mut acted: Vec<MatchOutcome<P, S>> = Vec::new();
    let mut ratcheted: Vec<bool> = Vec::new();
    let mut i: usize = 0;
    while i < n
        invariant
            i <= n,
            n == start.len(),
            levels@.len() == n,
            orders@.len() == n,
            statuses@.len() == n,
            forall|j: int| 0 <= j < n ==> #[trigger] statuses@[j] == start[j].status,
            forall|j: int|
                0 <= j < n ==> #[trigger] expiry_readable(start[j], parent_status(start, start[j]), *c),
            forall|j: int| 0 <= j < i ==> #[trigger] orders@[j] == step_at(start, levels@, j, *c, tape@, prior@, book@).0,
            forall|j: int| i <= j < n ==> #[trigger] orders@[j] == start[j],
            ratcheted@.len() == i,
            forall|j: int| 0 <= j < i ==> #[trigger] ratcheted@[j] == step_at(start, levels@, j, *c, tape@, prior@, book@).2,
            outcomes_are(expired_out@, expiries(start, levels@, i as int, *c, tape@, prior@, book@)),
            outcomes_are(acted@, actions(start, levels@, i as int, *c, tape@, prior@, book@)),
        decreases n - i,
    {
        let mut o = orders[i];
        let parent = match o.parent_id {
            Some(p) => if p < n as u64 {
                Some(statuses[p as usize])
            } else {
                None
            },
            None => None,
        };
        assert(parent == parent_status(start, start[i as int]));
        let (outcome, ratchet) = match_order(&mut o, parent, c, tape, prior, book, levels[i]);
        orders.set(i, o);
        ratcheted.push(ratchet);
        let ghost e0 = expired_out@;
        let ghost a0 = acted@;
        match outcome {
            Some(m) => {
                let is_exp = match &m {
                    MatchOutcome::Expire { .. } => true,
                    _ => false,
                };
                if is_exp {
                    expired_out.push(m);
                    assert(outcomes_are(expired_out@, expiries(start, levels@, i + 1, *c, tape@, prior@, book@))) by {
                        assert(expiries(start, levels@, i + 1, *c, tape@, prior@, book@) =~= expiries(
                            start,
                            levels@,
                            i as int,
                            *c,
                            tape@,
                            prior@,
                            book@,
                        ).push(m@));
                    }
                    assert(actions(start, levels@, i + 1, *c, tape@, prior@, book@) =~= actions(
                        start,
                        levels@,
                        i as int,
                        *c,
                        tape@,
                        prior@,
                        book@,
                    ));
                } else {
                    acted.push(m);
                    assert(outcomes_are(acted@, actions(start, levels@, i + 1, *c, tape@, prior@, book@))) by {
                        assert(actions(start, levels@, i + 1, *c, tape@, prior@, book@) =~= actions(
                            start,
                            levels@,
                            i as int,
                            *c,
                            tape@,
                            prior@,
                            book@,
                        ).push(m@));
                    }
                    assert(expiries(start, levels@, i + 1, *c, tape@, prior@, book@) =~= expiries(
                        start,
                        levels@,
                        i as int,
                        *c,
                        tape@,
                        prior@,
                        book@,
                    ));
                }
            },
            None => {
                assert(actions(start, levels@, i + 1, *c, tape@, prior@, book@) =~= actions(
                    start,
                    levels@,
                    i as int,
                    *c,
                    tape@,
                    prior@,
                    book@,
                ));
                assert(expiries(start, levels@, i + 1, *c, tape@, prior@, book@) =~= expiries(
                    start,
                    levels@,
                    i as int,
                    *c,
                    tape@,
                    prior@,
                    book@,
                ));
            },
        }
        i = i + 1;
    }
    let ghost e = expired_out@;
    let ghost a = acted@;
    expired_out.append(&mut acted);
    assert(expired_out@ == e + a);
    (expired_out, ratcheted)
}

/// A child is held while its parent works: it takes no part in the step,
/// not even the expiry clock, and is left as it was.
pub proof fn law_a_child_waits_for_its_parent<P, Q, S>(
    o: WorkingOrder<P, Q>,
    parent: OrderStatus,
    c: StepContext<P>,
    t: (Seq<Print<P, S>>, bool),
    prior: Option<Print<P, Size<S>>>,
    book: Option<Print<P, Size<S>>>,
    lv: OrderLevels<P>,
)
    requires
        (o.parent_id is Some),
        !is_terminal(parent),
    ensures
        order_step(o, Some(parent), c, t, prior, book, lv) == (o, None::<Outcome<P, S>>, false),
{
}

/// A child whose parent finished without filling is canceled with it.
pub proof fn law_a_dead_parent_takes_its_children<P, Q, S>(
    o: WorkingOrder<P, Q>,
    parent: OrderStatus,
    c: StepContext<P>,
    t: (Seq<Print<P, S>>, bool),
    prior: Option<Print<P, Size<S>>>,
    book: Option<Print<P, Size<S>>>,
    lv: OrderLevels<P>,
)
    requires
        (o.parent_id is Some),
        is_terminal(parent),
        parent != OrderStatus::Filled,
        !is_terminal(o.status),
        o.submitted_idx < c.idx,
    ensures
        order_step(o, Some(parent), c, t, prior, book, lv).1 == (Some(Outcome::<P, S>::Cancel { order_id: o.id })),
        order_step(o, Some(parent), c, t, prior, book, lv).0.status == OrderStatus::Canceled,
{
}

/// A resting order begins matching on the step after the one it was sent
/// from: on its own step it takes no part, unless same-step matching is
/// enabled or it reached the venue ahead of the step.
pub proof fn law_resting_orders_wait_for_the_next_step<P, Q, S>(
    o: WorkingOrder<P, Q>,
    parent: Option<OrderStatus>,
    c: StepContext<P>,
    t: (Seq<Print<P, S>>, bool),
    prior: Option<Print<P, Size<S>>>,
    book: Option<Print<P, Size<S>>>,
    lv: OrderLevels<P>,
)
    requires
        o.submitted_idx >= c.idx,
        !c.same_bar_close,
        !o.arrives_before_bar,
    ensures
        order_step(o, parent, c, t, prior, book, lv) == (o, None::<Outcome<P, S>>, false),
{
}

/// An immediate order (IOC, FOK) lives for exactly one evaluation: once it
/// takes part in a step it leaves with an outcome -- a fill, a trigger, a
/// refusal, an expiry or its cancellation -- unless it is a plain market
/// order, which the kernel sweeps itself.
pub proof fn law_an_immediate_order_never_rests<P, Q, S>(
    o: WorkingOrder<P, Q>,
    parent: Option<OrderStatus>,
    c: StepContext<P>,
    t: (Seq<Print<P, S>>, bool),
    prior: Option<Print<P, Size<S>>>,
    book: Option<Print<P, Size<S>>>,
    lv: OrderLevels<P>,
)
    requires
        is_immediate(o.tif),
        (admission(o, parent, c) is Proceed),
        !(o.kind == OrderKind::<P>::Market && (o.parent_id is None)),
    ensures
        (order_step(o, parent, c, t, prior, book, lv).1 is Some),
{
}

/// A post-only limit is never filled on the first bar it rests through when
/// that bar opens across its price: it is refused instead.
pub proof fn law_post_only_never_crosses<P, Q, S>(
    o: WorkingOrder<P, Q>,
    c: StepContext<P>,
    t: (Seq<Print<P, S>>, bool),
    lv: OrderLevels<P>,
    price: Level<P>,
)
    requires
        o.kind == (OrderKind::Limit { price }),
        o.post_only,
        o.side == OrderSide::Buy ==> c.prices.open.rank <= price.rank,
        o.side == OrderSide::Sell ==> c.prices.open.rank >= price.rank,
    ensures
        resting_step(o, c, t, lv, true).1 == (Some(Outcome::<P, S>::RejectPostOnly { order_id: o.id })),
{
}

/// A stop market fills on the adverse side: a buy only once the step's high
/// reaches up to its trigger, a sell only once the low reaches down to it.
/// On prints that offer any size it then fills at the open where the step
/// opened through the trigger, at the trigger otherwise.
pub proof fn law_a_stop_fills_at_the_open_or_its_trigger<P, Q, S>(
    o: WorkingOrder<P, Q>,
    c: StepContext<P>,
    lv: OrderLevels<P>,
    first_bar: bool,
    trigger: Level<P>,
)
    requires
        o.kind == (OrderKind::StopMarket { trigger }),
    ensures
        ({
            let q = c.prices;
            let buying = o.side == OrderSide::Buy;
            let reached = if buying {
                q.high.rank >= trigger.rank
            } else {
                q.low.rank <= trigger.rank
            };
            let through = if buying {
                q.open.rank >= trigger.rank
            } else {
                q.open.rank <= trigger.rank
            };
            let unbounded = (seq![Size::<S>::Unbounded], Tail::Rests);
            &&& !reached ==> resting_step(o, c, (Seq::<Print<P, S>>::empty(), true), lv, first_bar) == (
                o,
                None::<Outcome<P, S>>,
                false,
            )
            &&& reached ==> resting_step(o, c, (Seq::<Print<P, S>>::empty(), true), lv, first_bar) == (
                o,
                Some(
                    Outcome::<P, S>::Fill {
                        order_id: o.id,
                        price: if through {
                            q.open.price
                        } else {
                            trigger.price
                        },
                        depth: unbounded,
                        on_arrival: false,
                    },
                ),
                false,
            )
        }),
{
}

/// A resting limit (one that is not refused as post-only) fills only on the
/// favourable side: a buy once the step's low reaches down to its price, a
/// sell once the high reaches up to it; otherwise it has no outcome.
pub proof fn law_a_limit_fills_only_through_its_price<P, Q, S>(
    o: WorkingOrder<P, Q>,
    c: StepContext<P>,
    t: (Seq<Print<P, S>>, bool),
    lv: OrderLevels<P>,
    first_bar: bool,
    price: Level<P>,
)
    requires
        o.kind == (OrderKind::Limit { price }),
        !o.post_only,
    ensures
        ({
            let reached = if o.side == OrderSide::Buy {
                c.prices.low.rank <= price.rank
            } else {
                c.prices.high.rank >= price.rank
            };
            &&& !reached ==> resting_step(o, c, t, lv, first_bar) == (o, None::<Outcome<P, S>>, false)
            &&& reached && t.1 ==> resting_step(o, c, t, lv, first_bar) == (
                o,
                Some(
                    Outcome::<P, S>::Fill {
                        order_id: o.id,
                        price: lv.limit_fill.price,
                        depth: (seq![Size::<S>::Unbounded], Tail::Rests),
                        on_arrival: false,
                    },
                ),
                false,
            )
        }),
{
}

/// An untriggered if-touched limit triggers on the favourable side: a buy
/// exactly when the step's low reaches down to its trigger, a sell exactly
/// when the high reaches up to it. It then turns Triggered and reports it;
/// otherwise it has no outcome and stays as it was.
pub proof fn law_if_touched_triggers_on_the_favourable_side<P, Q, S>(
    o: WorkingOrder<P, Q>,
    c: StepContext<P>,
    t: (Seq<Print<P, S>>, bool),
    lv: OrderLevels<P>,
    first_bar: bool,
    trigger: Level<P>,
    price: Level<P>,
)
    requires
        o.kind == (OrderKind::LimitIfTouched { trigger, price }),
        !o.triggered,
    ensures
        ({
            let r = resting_step(o, c, t, lv, first_bar);
            let reached = if o.side == OrderSide::Buy {
                c.prices.low.rank <= trigger.rank
            } else {
                c.prices.high.rank >= trigger.rank
            };
            &&& reached ==> r.1 == (Some(Outcome::<P, S>::Trigger { order_id: o.id }))
                && r.0.status == OrderStatus::Triggered && r.0.triggered
            &&& !reached ==> r == (o, None::<Outcome<P, S>>, false)
        }),
{
}

/// An untriggered stop limit triggers on the adverse side: a buy exactly
/// when the step's high reaches up to its trigger, a sell exactly when the
/// low reaches down to it. It then turns Triggered and reports it; otherwise
/// it has no outcome and stays as it was.
pub proof fn law_stop_limit_triggers_on_the_adverse_side<P, Q, S>(
    o: WorkingOrder<P, Q>,
    c: StepContext<P>,
    t: (Seq<Print<P, S>>, bool),
    lv: OrderLevels<P>,
    first_bar: bool,
    trigger: Level<P>,
    price: Level<P>,
)
    requires
        o.kind == (OrderKind::StopLimit { trigger, price }),
        !o.triggered,
    ensures
        ({
            let r = resting_step(o, c, t, lv, first_bar);
            let reached = if o.side == OrderSide::Buy {
                c.prices.high.rank >= trigger.rank
            } else {
                c.prices.low.rank <= trigger.rank
            };
            &&& reached ==> r.1 == (Some(Outcome::<P, S>::Trigger { order_id: o.id }))
                && r.0.status == OrderStatus::Triggered && r.0.triggered
            &&& !reached ==> r == (o, None::<Outcome<P, S>>, false)
        }),
{
}

/// Whether order `o` crosses a standing book at rank `at` when the venue
/// walks it between steps: it is working, its parent (read as it stood
/// before the walk) has filled or it has none, it is a plain limit, and the
/// book is at or better than its limit.
pub open spec fn crosses_standing_book<P, Q>(o: WorkingOrder<P, Q>, parent: Option<OrderStatus>, at: i64) -> bool {
    &&& !is_terminal(o.status)
    &&& (o.parent_id is None || parent == Some(OrderStatus::Filled))
    &&& match o.kind {
        OrderKind::Limit { price } => if o.side == OrderSide::Buy {
            at <= price.rank
        } else {
            at >= price.rank
        },
        _ => false,
    }
}

/// The ids of the first `n` orders that cross a book standing at `at`.
pub open spec fn crossing_ids<P, Q>(orders: Seq<WorkingOrder<P, Q>>, at: i64, n: int) -> Seq<u64>
    decreases n,
{
    if n <= 0 {
        Seq::empty()
    } else {
        crossing_ids(orders, at, n - 1) + if crosses_standing_book(
            orders[n - 1],
            parent_status(orders, orders[n - 1]),
            at,
        ) {
            seq![orders[n - 1].id]
        } else {
            Seq::empty()
        }
    }
}

/// The orders a walk of the standing book reaches, in submission order:
/// every working plain limit (a held child only once its parent has
/// filled) that the book at rank `at` is marketable against. Each fills at
/// the book's price; a stop needs a print to arm it and a market order was
/// swept on arrival, so neither takes part. Nothing happens without a book.
pub fn walk_book_orders<P: Copy, Q: Copy>(orders: &Vec<WorkingOrder<P, Q>>, book: Option<i64>) -> (ids: Vec<u64>)
    ensures
        book is None ==> ids@.len() == 0,
        book matches Some(at) ==> ids@ == crossing_ids(orders@, at, orders@.len() as int),
{
    let mut ids: Vec<u64> = Vec::new();
    let at = match book {
        Some(at) => at,
        None => return ids,
    };
    let n = orders.len();
    let mut i: usize = 0;
    while i < n
        invariant
            i <= n,
            n == orders@.len(),
            ids@ == crossing_ids(orders@, at, i as int),
        decreases n - i,
    {
        let o = orders[i];
        let parent = match o.parent_id {
            Some(p) => if p < n as u64 {
                Some(orders[p as usize].status)
            } else {
                None
            },
            None => None,
        };
        let released = match o.parent_id {
            None => true,
            Some(_) => match parent {
                Some(OrderStatus::Filled) => true,
                _ => false,
            },
        };
        let crosses = match o.kind {
            OrderKind::Limit { price } => match o.side {
                OrderSide::Buy => at <= price.rank,
                OrderSide::Sell => at >= price.rank,
            },
            _ => false,
        };
        if !o.status.is_terminal() && released && crosses {
            ids.push(o.id);
        }
        i = i + 1;
    }
    ids
}

// ---------------------------------------------------------------------------
// The order book.
// ---------------------------------------------------------------------------

/// The ids of the unfinished orders among the first `n`, in order.
pub open spec fn working_ids<P, Q>(orders: Seq<WorkingOrder<P, Q>>, n: int) -> Seq<u64>
    decreases n,
{
    if n <= 0 {
        Seq::empty()
    } else {
        working_ids(orders, n - 1) + if !is_terminal(orders[n - 1].status) {
            seq![orders[n - 1].id]
        } else {
            Seq::empty()
        }
    }
}

/// An order canceled if it was still working.
pub open spec fn canceled_if_working<P, Q>(o: WorkingOrder<P, Q>) -> WorkingOrder<P, Q> {
    if is_terminal(o.status) {
        o
    } else {
        WorkingOrder { status: OrderStatus::Canceled, ..o }
    }
}

/// Every order a session submitted, in submission order: an order's id is
/// its position here, and nothing is ever removed or reordered.
pub struct OrderBook<P, Q> {
    orders: Vec<WorkingOrder<P, Q>>,
}

impl<P, Q> View for OrderBook<P, Q> {
    type V = Seq<WorkingOrder<P, Q>>;

    closed spec fn view(&self) -> Seq<WorkingOrder<P, Q>> {
        self.orders@
    }
}

impl<P, Q> OrderBook<P, Q> {
    #[verifier::type_invariant]
    spec fn ids_are_slots(&self) -> bool {
        ids_are_positions(self.orders@)
    }
}

impl<P: Copy, Q: Copy> OrderBook<P, Q> {
    /// The orders, taken out of the book, which is left empty.
    fn take_orders(&mut self) -> (orders: Vec<WorkingOrder<P, Q>>)
        ensures
            orders@ == old(self)@,
            ids_are_positions(orders@),
            final(self)@ == Seq::<WorkingOrder<P, Q>>::empty(),
    {
        proof {
            use_type_invariant(&*self);
        }
        let mut orders: Vec<WorkingOrder<P, Q>> = Vec::new();
        std::mem::swap(&mut orders, &mut self.orders);
        orders
    }

    /// An empty book.
    pub fn new() -> (b: Self)
        ensures
            b@ == Seq::<WorkingOrder<P, Q>>::empty(),
    {
        OrderBook { orders: Vec::new() }
    }

    /// Every order ever submitted, in submission order; each one's id is its
    /// position.
    pub fn all(&self) -> (all: &[WorkingOrder<P, Q>])
        ensures
            all@ == self@,
            ids_are_positions(self@),
    {
        proof {
            use_type_invariant(self);
        }
        self.orders.as_slice()
    }

    /// Number of orders submitted.
    pub fn len(&self) -> (n: usize)
        ensures
            n == self@.len(),
    {
        self.orders.len()
    }

    /// Register a new order; its id is the next position.
    pub fn submit(&mut self, order: WorkingOrder<P, Q>) -> (id: u64)
        ensures
            id == old(self)@.len(),
            final(self)@ == old(self)@.push(WorkingOrder { id, ..order }),
    {
        let mut orders = self.take_orders();
        let id = orders.len() as u64;
        orders.push(WorkingOrder { id, ..order });
        self.orders = orders;
        id
    }

    /// The order with id `id`, if there is one.
    pub fn get(&self, id: u64) -> (o: Option<WorkingOrder<P, Q>>)
        ensures
            id < self@.len() ==> o == Some(self@[id as int]),
            id >= self@.len() ==> o is None,
    {
        if id < self.orders.len() as u64 {
            Some(self.orders[id as usize])
        } else {
            None
        }
    }

    /// The ids of the unfinished orders, in submission order.
    pub fn working(&self) -> (ids: Vec<u64>)
        ensures
            ids@ == working_ids(self@, self@.len() as int),
    {
        let mut ids: Vec<u64> = Vec::new();
        let mut i: usize = 0;
        while i < self.orders.len()
            invariant
                i <= self.orders@.len(),
                ids@ == working_ids(self.orders@, i as int),
            decreases self.orders@.len() - i,
        {
            if !self.orders[i].status.is_terminal() {
                ids.push(self.orders[i].id);
            }
            i = i + 1;
        }
        ids
    }

    /// Cancel a working order; `false` for unknown or finished ids.
    pub fn cancel(&mut self, id: u64) -> (canceled: bool)
        ensures
            canceled == (id < old(self)@.len() && !is_terminal(old(self)@[id as int].status)),
            canceled ==> final(self)@ == old(self)@.update(id as int, canceled_if_working(old(self)@[id as int])),
            !canceled ==> final(self)@ == old(self)@,
    {
        if id >= self.orders.len() as u64 {
            return false;
        }
        let o = self.orders[id as usize];
        if o.status.is_terminal() {
            return false;
        }
        let mut orders = self.take_orders();
        orders.set(id as usize, WorkingOrder { status: OrderStatus::Canceled, ..o });
        self.orders = orders;
        true
    }

    /// Cancel every working order, returning the ids canceled.
    pub fn cancel_all(&mut self) -> (ids: Vec<u64>)
        ensures
            ids@ == working_ids(old(self)@, old(self)@.len() as int),
            final(self)@.len() == old(self)@.len(),
            forall|k: int| 0 <= k < old(self)@.len() ==> #[trigger] final(self)@[k] == canceled_if_working(old(self)@[k]),
    {
        let ids = self.working();
        let mut orders = self.take_orders();
        let ghost start = orders@;
        let n = orders.len();
        let mut i: usize = 0;
        while i < n
            invariant
                i <= n,
                n == start.len(),
                ids_are_positions(start),
                orders@.len() == n,
                forall|k: int| 0 <= k < i ==> #[trigger] orders@[k] == canceled_if_working(start[k]),
                forall|k: int| i <= k < n ==> #[trigger] orders@[k] == start[k],
            decreases n - i,
        {
            let o = orders[i];
            if !o.status.is_terminal() {
                orders.set(i, WorkingOrder { status: OrderStatus::Canceled, ..o });
            }
            i = i + 1;
        }
        proof {
            assert forall|k: int| 0 <= k < n implies #[trigger] orders@[k].id == k by {
                assert(orders@[k] == canceled_if_working(start[k]));
            }
        }
        self.orders = orders;
        ids
    }

    /// Replace a working order's levels and/or quantity (see [`modified`]);
    /// `false` for an unknown id.
    pub fn modify(
        &mut self,
        id: u64,
        qty: Option<Q>,
        limit_price: Option<Level<P>>,
        trigger_price: Option<Level<P>>,
    ) -> (applied: bool)
        ensures
            id < old(self)@.len() ==> final(self)@ == old(self)@.update(
                id as int,
                modified(old(self)@[id as int], qty, limit_price, trigger_price).0,
            ) && applied == modified(old(self)@[id as int], qty, limit_price, trigger_price).1,
            id >= old(self)@.len() ==> final(self)@ == old(self)@ && !applied,
    {
        if id >= self.orders.len() as u64 {
            return false;
        }
        let mut o = self.orders[id as usize];
        let applied = modify(&mut o, qty, limit_price, trigger_price);
        let mut orders = self.take_orders();
        orders.set(id as usize, o);
        proof {
            assert forall|k: int| 0 <= k < orders@.len() implies #[trigger] orders@[k].id == k by {}
        }
        self.orders = orders;
        applied
    }

    /// The contingencies of a fill of `filled_id` (see [`after_fill`]).
    pub fn after_fill(&mut self, filled_id: u64) -> (events: Vec<OrderEvent>)
        ensures
            final(self)@.len() == old(self)@.len(),
            forall|k: int|
                0 <= k < old(self)@.len() ==> #[trigger] final(self)@[k] == after_fill_order(
                    old(self)@[k],
                    filled_id,
                    group_of(old(self)@, filled_id),
                ),
            events@ == releases(old(self)@, filled_id, old(self)@.len() as int) + cancellations(
                old(self)@,
                filled_id,
                group_of(old(self)@, filled_id),
                old(self)@.len() as int,
            ),
    {
        let mut orders = self.take_orders();
        let events = after_fill(&mut orders, filled_id);
        let ghost start = old(self)@;
        proof {
            assert forall|k: int| 0 <= k < orders@.len() implies #[trigger] orders@[k].id == k by {
                assert(orders@[k] == after_fill_order(start[k], filled_id, group_of(start, filled_id)));
            }
        }
        self.orders = orders;
        events
    }

    /// Put the orders `ids` names in one one-cancels-other group (see
    /// [`link_oco`]).
    pub fn link_oco(&mut self, ids: &[u64])
        ensures
            final(self)@.len() == old(self)@.len(),
            forall|k: int|
                0 <= k < old(self)@.len() ==> #[trigger] final(self)@[k] == if ids@.contains(k as u64) {
                    WorkingOrder { oco_group: Some(oco_group_spec(ids@)), ..old(self)@[k] }
                } else {
                    old(self)@[k]
                },
    {
        let mut orders = self.take_orders();
        let ghost start = orders@;
        link_oco(&mut orders, ids);
        proof {
            assert forall|k: int| 0 <= k < orders@.len() implies #[trigger] orders@[k].id == k by {
                assert(start[k].id == k);
            }
        }
        self.orders = orders;
    }

    /// Evaluate every order against one step (see [`match_step`]).
    pub fn match_step<S: Copy>(
        &mut self,
        levels: &Vec<OrderLevels<P>>,
        c: &StepContext<P>,
        tape: &Tape<P, S>,
        prior: &BarTape<P, S>,
        book: &BarTape<P, S>,
    ) -> (r: (Vec<MatchOutcome<P, S>>, Vec<bool>))
        requires
            levels@.len() == old(self)@.len(),
            forall|k: int|
                0 <= k < old(self)@.len() ==> #[trigger] expiry_readable(
                    old(self)@[k],
                    parent_status(old(self)@, old(self)@[k]),
                    *c,
                ),
        ensures
            final(self)@.len() == old(self)@.len(),
            r.1@.len() == old(self)@.len(),
            forall|k: int|
                0 <= k < old(self)@.len() ==> #[trigger] final(self)@[k] == step_at(
                    old(self)@,
                    levels@,
                    k,
                    *c,
                    tape@,
                    prior@,
                    book@,
                ).0,
            forall|k: int|
                0 <= k < old(self)@.len() ==> #[trigger] r.1@[k] == step_at(
                    old(self)@,
                    levels@,
                    k,
                    *c,
                    tape@,
                    prior@,
                    book@,
                ).2,
            outcomes_are(
                r.0@,
                expiries(old(self)@, levels@, old(self)@.len() as int, *c, tape@, prior@, book@) + actions(
                    old(self)@,
                    levels@,
                    old(self)@.len() as int,
                    *c,
                    tape@,
                    prior@,
                    book@,
                ),
            ),
    {
        let mut orders = self.take_orders();
        let ghost start = orders@;
        let r = match_step(&mut orders, levels, c, tape, prior, book);
        proof {
            assert forall|k: int| 0 <= k < orders@.len() implies #[trigger] orders@[k].id == k by {
                lemma_step_keeps_id(start[k], parent_status(start, start[k]), *c, tape@, prior@, book@, levels@[k]);
                assert(start[k].id == k);
            }
        }
        self.orders = orders;
        r
    }

    /// The orders a walk of the book standing at rank `book` reaches (see
    /// [`walk_book_orders`]).
    pub fn walk_book(&self, book: Option<i64>) -> (ids: Vec<u64>)
        ensures
            book is None ==> ids@.len() == 0,
            book matches Some(at) ==> ids@ == crossing_ids(self@, at, self@.len() as int),
    {
        walk_book_orders(&self.orders, book)
    }

    /// Whether order `k` can be matched against the step without its DAY
    /// expiry overflowing.
    pub fn expiry_readable_at(&self, k: usize, c: &StepContext<P>) -> (ok: bool)
        requires
            k < self@.len(),
        ensures
            ok == expiry_readable(self@[k as int], parent_status(self@, self@[k as int]), *c),
    {
        expiry_readable_by(&self.orders, k, c)
    }
}

/// A step never changes an order's id.
pub proof fn lemma_step_keeps_id<P, Q, S>(
    o: WorkingOrder<P, Q>,
    parent: Option<OrderStatus>,
    c: StepContext<P>,
    t: (Seq<Print<P, S>>, bool),
    prior: Option<Print<P, Size<S>>>,
    book: Option<Print<P, Size<S>>>,
    lv: OrderLevels<P>,
)
    ensures
        order_step(o, parent, c, t, prior, book, lv).0.id == o.id,
{
    let first_bar = if o.arrives_before_bar {
        o.submitted_idx == c.idx
    } else {
        o.submitted_idx + 1 == c.idx
    };
    assert(resting_step(o, c, t, lv, first_bar).0.id == o.id);
}

} // verus!
