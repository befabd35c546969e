//! Order sides, time in force, and when a resting order lapses.
use vstd::prelude::*;

use crate::types::{Direction, NS_PER_DAY};

verus! {

/// Side of an order.
#[derive(Debug, Clone, Copy, PartialEq, Eq, Structural)]
pub enum OrderSide {
    Buy,
    Sell,
}

/// How long an order may work before it lapses.
#[derive(Debug, Clone, Copy, PartialEq, Eq, Structural)]
pub enum TimeInForce {
    /// Good till canceled.
    Gtc,
    /// Good for the trading date it was submitted on.
    Day,
    /// Good till the given instant, in nanoseconds since the epoch.
    Gtd { expire_ns: i64 },
    /// Immediate or cancel.
    Ioc,
    /// Fill or kill.
    Fok,
    /// Executes at the open.
    AtOpen,
    /// Executes at the close.
    AtClose,
}

/// Map an order side onto the (direction, is_entry) pair the fill helpers
/// key on. Buy behaves like a long entry, sell like a long exit.
pub fn side_as_fill_args(side: OrderSide) -> (args: (Direction, bool))
    ensures
        args.0 == Direction::Long,
        args.1 == (side == OrderSide::Buy),
{
    match side {
        OrderSide::Buy => (Direction::Long, true),
        OrderSide::Sell => (Direction::Long, false),
    }
}

/// Whether `t` shifted by `tz_offset_ns` is still a timestamp.
pub open spec fn shift_fits(t: i64, tz_offset_ns: i64) -> bool {
    i64::MIN <= t + tz_offset_ns <= i64::MAX
}

/// The trading date of instant `t` in a clock `tz_offset_ns` from UTC:
/// whole days since the epoch, rounded toward negative infinity.
pub open spec fn spec_trading_date(t: int, tz_offset_ns: int) -> int {
    (t + tz_offset_ns) / (NS_PER_DAY as int)
}

/// The trading date of instant `t` in a clock `tz_offset_ns` from UTC.
pub fn trading_date(t: i64, tz_offset_ns: i64) -> (date: i64)
    requires
        shift_fits(t, tz_offset_ns),
    ensures
        date == spec_trading_date(t as int, tz_offset_ns as int),
        date * NS_PER_DAY <= t + tz_offset_ns < (date + 1) * NS_PER_DAY,
{
    let shifted = t + tz_offset_ns;
    let date = match shifted.checked_div_euclid(NS_PER_DAY) {
        Some(q) => q,
        None => 0,
    };
    proof {
        vstd::arithmetic::div_mod::lemma_fundamental_div_mod(shifted as int, NS_PER_DAY as int);
        vstd::arithmetic::div_mod::lemma_mod_bound(shifted as int, NS_PER_DAY as int);
    }
    date
}

/// Whether an order has lapsed at `ts`.
pub open spec fn spec_expired(tif: TimeInForce, submitted_ts: i64, ts: i64, tz_offset_ns: i64) -> bool {
    match tif {
        TimeInForce::Gtd { expire_ns } => ts >= expire_ns,
        TimeInForce::Day => spec_trading_date(ts as int, tz_offset_ns as int) > spec_trading_date(
            submitted_ts as int,
            tz_offset_ns as int,
        ),
        _ => false,
    }
}

/// Whether an order submitted at `submitted_ts` with time in force `tif`
/// has lapsed at `ts`.
///
/// GTD names an absolute instant. DAY compares trading dates, not UTC
/// dates: the two diverge for any session whose local hours cross UTC
/// midnight. Every other time in force never lapses by time.
pub fn expired(tif: TimeInForce, submitted_ts: i64, ts: i64, tz_offset_ns: i64) -> (lapsed: bool)
    requires
        tif == TimeInForce::Day ==> shift_fits(ts, tz_offset_ns) && shift_fits(submitted_ts, tz_offset_ns),
    ensures
        lapsed == spec_expired(tif, submitted_ts, ts, tz_offset_ns),
{
    match tif {
        TimeInForce::Gtd { expire_ns } => ts >= expire_ns,
        TimeInForce::Day => trading_date(ts, tz_offset_ns) > trading_date(submitted_ts, tz_offset_ns),
        TimeInForce::Gtc | TimeInForce::Ioc | TimeInForce::Fok | TimeInForce::AtOpen | TimeInForce::AtClose => false,
    }
}

/// A DAY order never lapses on the trading date it was submitted, and once
/// lapsed stays lapsed: expiry is monotone in time.
pub proof fn law_day_expiry_is_monotone(submitted_ts: i64, ts: i64, later: i64, tz_offset_ns: i64)
    requires
        ts <= later,
    ensures
        spec_trading_date(ts as int, tz_offset_ns as int) == spec_trading_date(submitted_ts as int, tz_offset_ns as int)
            ==> !spec_expired(TimeInForce::Day, submitted_ts, ts, tz_offset_ns),
        spec_expired(TimeInForce::Day, submitted_ts, ts, tz_offset_ns) ==> spec_expired(
            TimeInForce::Day,
            submitted_ts,
            later,
            tz_offset_ns,
        ),
{
    vstd::arithmetic::div_mod::lemma_div_is_ordered(
        ts + tz_offset_ns,
        later + tz_offset_ns,
        NS_PER_DAY as int,
    );
}

/// A GTD order's expiry does not depend on the trading-date offset.
pub proof fn law_gtd_ignores_offset(expire_ns: i64, submitted_ts: i64, ts: i64, a: i64, b: i64)
    ensures
        spec_expired(TimeInForce::Gtd { expire_ns }, submitted_ts, ts, a) == spec_expired(
            TimeInForce::Gtd { expire_ns },
            submitted_ts,
            ts,
            b,
        ),
{
}

} // verus!
