//! The order and position decisions of the engine: what a fill does to the
//! position, what a resting order's replacement changes, what a fill does to
//! its contingent orders, and which protective level closes a position.
//!
//! Money, sizes and prices are arithmetic outside this module; a price
//! enters as its rank in price order.
use vstd::prelude::*;

use crate::orders::OrderSide;
use crate::portfolio::PositionPolicy;
use crate::types::Direction;

verus! {

/// Lifecycle state of an order.
#[derive(Debug, Clone, Copy, PartialEq, Eq, Structural)]
pub enum OrderStatus {
    /// Registered, not yet working (a held child waits here).
    Submitted,
    /// Working at the venue.
    Accepted,
    /// A conditional order whose trigger has fired.
    Triggered,
    /// Part of the size has filled.
    PartiallyFilled,
    /// The whole size has filled.
    Filled,
    /// Canceled before it filled.
    Canceled,
    /// Lapsed by time in force.
    Expired,
    /// Refused.
    Rejected,
}

/// Whether an order in `status` is finished for good.
pub open spec fn is_terminal(status: OrderStatus) -> bool {
    status == OrderStatus::Filled || status == OrderStatus::Canceled || status == OrderStatus::Expired
        || status == OrderStatus::Rejected
}

impl OrderStatus {
    /// Whether an order in this status is finished for good.
    pub fn is_terminal(&self) -> (done: bool)
        ensures
            done == is_terminal(*self),
    {
        match self {
            OrderStatus::Filled | OrderStatus::Canceled | OrderStatus::Expired | OrderStatus::Rejected => true,
            _ => false,
        }
    }
}

/// The direction an order's side opens in: a buy opens long, a sell short.
pub open spec fn side_direction(side: OrderSide) -> Direction {
    match side {
        OrderSide::Buy => Direction::Long,
        OrderSide::Sell => Direction::Short,
    }
}

/// Why a fill was refused.
#[derive(Debug, Clone, Copy, PartialEq, Eq, Structural)]
pub enum FillRefusal {
    /// A reduce-only order would have opened exposure.
    ReduceOnly,
    /// Plain netting already holds a position and refuses to add to it.
    PositionOpen,
    /// A margin call halts entries.
    MarginCall,
    /// The risk limits refused the opening.
    Risk,
    /// An opening sized as "the whole position" has nothing to size from.
    InvalidQty,
}

/// What a fill does to the position book.
#[derive(Debug, Clone, Copy, PartialEq, Eq, Structural)]
pub enum FillDecision {
    /// Open (or, netting with averaging, grow) a position in this direction.
    Open(Direction),
    /// Close the position the order meets.
    Close,
    /// Refuse the fill.
    Reject(FillRefusal),
}

/// What a fill does, given the account's policy, the direction of the first
/// position held (if any), the order's side, whether it is reduce-only,
/// whether it is resuming a partly filled opening, whether a margin call
/// has halted entries, whether the risk limits allows another opening, and
/// whether the order is sized as "the whole position".
///
/// An order's side is authoritative for opening. Under hedging every order
/// opens in its own side's direction, and a reduce-only order is refused.
/// Under netting a reduce-only order closes, an order opposing the held
/// position closes it, and otherwise the order opens in its own side's
/// direction -- except that plain netting refuses to add to a position it
/// already holds, unless the order is finishing an opening it started. An
/// opening is then refused, in this order, while a margin call halts
/// entries, when the risk limits refuses it, and when it is a fresh opening
/// sized as the whole position, which has nothing to size from.
pub open spec fn fill_decision_spec(
    policy: PositionPolicy,
    held: Option<Direction>,
    side: OrderSide,
    reduce_only: bool,
    resuming: bool,
    margin_halted: bool,
    risk_allows: bool,
    sized_as_whole_position: bool,
) -> FillDecision {
    let own = side_direction(side);
    let hedging = policy == PositionPolicy::Independent;
    let opens = hedging || (!reduce_only && (held is None || held->0 == own));
    if !opens {
        if held is None {
            // Only a reduce-only order reaches a close with nothing held.
            FillDecision::Reject(FillRefusal::ReduceOnly)
        } else {
            FillDecision::Close
        }
    } else if reduce_only {
        FillDecision::Reject(FillRefusal::ReduceOnly)
    } else if !resuming && policy == PositionPolicy::Net && held is Some {
        FillDecision::Reject(FillRefusal::PositionOpen)
    } else if margin_halted {
        FillDecision::Reject(FillRefusal::MarginCall)
    } else if !risk_allows {
        FillDecision::Reject(FillRefusal::Risk)
    } else if !resuming && sized_as_whole_position {
        FillDecision::Reject(FillRefusal::InvalidQty)
    } else {
        FillDecision::Open(own)
    }
}

/// Decide what a matched fill does to the position book.
///
/// `risk_allows` is the risk limits's answer for this opening, and is read
/// only where nothing before it refuses.
pub fn fill_decision(
    policy: PositionPolicy,
    held: Option<Direction>,
    side: OrderSide,
    reduce_only: bool,
    resuming: bool,
    margin_halted: bool,
    risk_allows: bool,
    sized_as_whole_position: bool,
) -> (d: FillDecision)
    ensures
        d == fill_decision_spec(
            policy,
            held,
            side,
            reduce_only,
            resuming,
            margin_halted,
            risk_allows,
            sized_as_whole_position,
        ),
{
    let own = match side {
        OrderSide::Buy => Direction::Long,
        OrderSide::Sell => Direction::Short,
    };
    let hedging = match policy {
        PositionPolicy::Independent => true,
        _ => false,
    };
    let opens = if hedging {
        true
    } else if reduce_only {
        false
    } else {
        match held {
            // Opposing an open position is a close.
            Some(dir) => dir == own,
            // Flat: the order's own side decides the direction.
            None => true,
        }
    };
    if !opens {
        return match held {
            None => FillDecision::Reject(FillRefusal::ReduceOnly),
            Some(_) => FillDecision::Close,
        };
    }
    if reduce_only {
        return FillDecision::Reject(FillRefusal::ReduceOnly);
    }
    let net = match policy {
        PositionPolicy::Net => true,
        _ => false,
    };
    if !resuming && net && held.is_some() {
        return FillDecision::Reject(FillRefusal::PositionOpen);
    }
    if margin_halted {
        return FillDecision::Reject(FillRefusal::MarginCall);
    }
    if !risk_allows {
        return FillDecision::Reject(FillRefusal::Risk);
    }
    if !resuming && sized_as_whole_position {
        return FillDecision::Reject(FillRefusal::InvalidQty);
    }
    FillDecision::Open(own)
}

/// A reduce-only order never opens exposure: whatever the policy and the
/// position, its fill closes or is refused.
pub proof fn law_reduce_only_never_opens(
    policy: PositionPolicy,
    held: Option<Direction>,
    side: OrderSide,
    resuming: bool,
    margin_halted: bool,
    risk_allows: bool,
    whole: bool,
)
    ensures
        !(fill_decision_spec(policy, held, side, true, resuming, margin_halted, risk_allows, whole) is Open),
{
}

/// Under netting an order never opens against the position held: an order
/// opposing it closes it.
pub proof fn law_an_opposing_order_closes(
    policy: PositionPolicy,
    held: Direction,
    side: OrderSide,
    reduce_only: bool,
    resuming: bool,
    margin_halted: bool,
    risk_allows: bool,
    whole: bool,
)
    requires
        policy != PositionPolicy::Independent,
        side_direction(side) != held,
    ensures
        fill_decision_spec(policy, Some(held), side, reduce_only, resuming, margin_halted, risk_allows, whole)
            == FillDecision::Close,
{
}

/// Why a position was closed.
#[derive(Debug, Clone, Copy, PartialEq, Eq, Structural)]
pub enum ExitReason {
    /// The stop-loss level was hit.
    StopLoss,
    /// The take-profit level was hit.
    TakeProfit,
    /// An exit signal.
    Signal,
    /// An order closed it.
    Order,
    /// Forced liquidation.
    Liquidation,
    /// Settlement at expiry.
    Settlement,
    /// The data ran out.
    EndOfData,
}

/// Whether a position's stop at rank `stop` is hit by a bar that traded
/// between `low` and `high`: a long stop below, a short stop above.
pub open spec fn stop_hit_spec(stop: Option<i64>, direction: Direction, low: i64, high: i64) -> bool {
    match stop {
        Some(s) => match direction {
            Direction::Long => low <= s,
            Direction::Short => high >= s,
        },
        None => false,
    }
}

/// Whether a position's target at rank `target` is hit by a bar that traded
/// between `low` and `high`: a long target above, a short target below.
pub open spec fn target_hit_spec(target: Option<i64>, direction: Direction, low: i64, high: i64) -> bool {
    match target {
        Some(t) => match direction {
            Direction::Long => high >= t,
            Direction::Short => low <= t,
        },
        None => false,
    }
}

/// Whether a position's stop is hit on a bar.
pub fn is_stop_hit(stop: Option<i64>, direction: Direction, low: i64, high: i64) -> (hit: bool)
    ensures
        hit == stop_hit_spec(stop, direction, low, high),
{
    match stop {
        Some(s) => match direction {
            Direction::Long => low <= s,
            Direction::Short => high >= s,
        },
        None => false,
    }
}

/// Whether a position's target is hit on a bar.
pub fn is_target_hit(target: Option<i64>, direction: Direction, low: i64, high: i64) -> (hit: bool)
    ensures
        hit == target_hit_spec(target, direction, low, high),
{
    match target {
        Some(t) => match direction {
            Direction::Long => high >= t,
            Direction::Short => low <= t,
        },
        None => false,
    }
}

/// Which exit a position takes on a bar, if any.
///
/// When both protective levels are touched, the stop goes first -- unless
/// the adaptive path model reads the candle as visiting the target first: a
/// down-candle (close below open) visits a long's target, the high, first;
/// an up-candle (close at or above open) visits a short's target, the low,
/// first. Then the stop, then the target, then an exit signal.
pub open spec fn exit_choice_spec(
    stop_hit: bool,
    target_hit: bool,
    exit_signal: bool,
    path_adaptive: bool,
    direction: Direction,
    open: i64,
    close: i64,
) -> Option<ExitReason> {
    let target_first = stop_hit && target_hit && path_adaptive && match direction {
        Direction::Long => close < open,
        Direction::Short => close >= open,
    };
    if target_first {
        Some(ExitReason::TakeProfit)
    } else if stop_hit {
        Some(ExitReason::StopLoss)
    } else if target_hit {
        Some(ExitReason::TakeProfit)
    } else if exit_signal {
        Some(ExitReason::Signal)
    } else {
        None
    }
}

/// Decide which exit, if any, a position takes on a bar opening at rank
/// `open` and closing at rank `close`.
pub fn exit_choice(
    stop_hit: bool,
    target_hit: bool,
    exit_signal: bool,
    path_adaptive: bool,
    direction: Direction,
    open: i64,
    close: i64,
) -> (r: Option<ExitReason>)
    ensures
        r == exit_choice_spec(stop_hit, target_hit, exit_signal, path_adaptive, direction, open, close),
{
    let target_first = stop_hit && target_hit && path_adaptive && match direction {
        // Long: target above. A down-candle visits the high first.
        Direction::Long => close < open,
        // Short: target below. An up-candle visits the low first.
        Direction::Short => close >= open,
    };
    if target_first {
        Some(ExitReason::TakeProfit)
    } else if stop_hit {
        Some(ExitReason::StopLoss)
    } else if target_hit {
        Some(ExitReason::TakeProfit)
    } else if exit_signal {
        Some(ExitReason::Signal)
    } else {
        None
    }
}

/// A protective level always outranks an exit signal, and without the
/// adaptive path model a stop outranks a target on the same bar.
pub proof fn law_protective_levels_come_first(
    stop_hit: bool,
    target_hit: bool,
    exit_signal: bool,
    path_adaptive: bool,
    direction: Direction,
    open: i64,
    close: i64,
)
    ensures
        (stop_hit || target_hit) ==> exit_choice_spec(
            stop_hit,
            target_hit,
            exit_signal,
            path_adaptive,
            direction,
            open,
            close,
        ) != Some(ExitReason::Signal),
        stop_hit && !path_adaptive ==> exit_choice_spec(
            stop_hit,
            target_hit,
            exit_signal,
            path_adaptive,
            direction,
            open,
            close,
        ) == Some(ExitReason::StopLoss),
{
}

/// Under the adaptive path model, when both the stop and the target are hit
/// the candle's colour decides which came first: a long reaches its target
/// (above) first only on a down-candle, a short reaches its target (below)
/// first only on an up-candle or a flat one; otherwise the stop is visited
/// first.
pub proof fn law_the_candle_orders_stop_and_target(
    exit_signal: bool,
    direction: Direction,
    open: i64,
    close: i64,
)
    ensures
        direction == Direction::Long ==> exit_choice_spec(true, true, exit_signal, true, direction, open, close)
            == if close < open {
            Some(ExitReason::TakeProfit)
        } else {
            Some(ExitReason::StopLoss)
        },
        direction == Direction::Short ==> exit_choice_spec(true, true, exit_signal, true, direction, open, close)
            == if close >= open {
            Some(ExitReason::TakeProfit)
        } else {
            Some(ExitReason::StopLoss)
        },
{
}

} // verus!
