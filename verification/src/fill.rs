//! Order fill simulation: which price a fill takes, and the deterministic
//! random stream stochastic fills draw from.
use vstd::prelude::*;

use crate::tape::Level;
use crate::types::{Direction, FillTiming};

verus! {

/// Fill price model determining at what price orders are executed.
#[derive(Debug, Clone, Copy, PartialEq, Eq, Structural)]
pub enum FillPrice {
    /// Execute at close price (end of bar).
    Close,
    /// Execute at open price (start of next bar).
    Open,
    /// Execute at OHLC average.
    Average,
    /// Execute at typical price (H+L+C)/3.
    Typical,
    /// Execute at VWAP (if available, otherwise typical).
    Vwap,
    /// Execute at worst price (high for buys, low for sells).
    Worst,
    /// Execute at best price (low for buys, high for sells).
    Best,
}

impl Default for FillPrice {
    fn default() -> (fp: Self)
        ensures
            fp == FillPrice::Close,
    {
        FillPrice::Close
    }
}

/// Which of a bar's prices, or which mean of them, a fill is priced at.
#[derive(Debug, Clone, Copy, PartialEq, Eq, Structural)]
pub enum PriceSource {
    /// The bar's open.
    Open,
    /// The bar's high.
    High,
    /// The bar's low.
    Low,
    /// The bar's close.
    Close,
    /// The mean of open, high, low and close: `(O + H + L + C) / 4`.
    OhlcMean,
    /// The mean of high, low and close: `(H + L + C) / 3`.
    HlcMean,
}

/// Whether a fill buys: a long entry or a short exit.
pub open spec fn fill_buys(direction: Direction, is_entry: bool) -> bool {
    (direction == Direction::Long) == is_entry
}

/// The price source a fill price model reads for one side of a trade.
pub open spec fn spec_price_source(fp: FillPrice, direction: Direction, is_entry: bool) -> PriceSource {
    match fp {
        FillPrice::Close => PriceSource::Close,
        FillPrice::Open => PriceSource::Open,
        FillPrice::Average => PriceSource::OhlcMean,
        FillPrice::Typical | FillPrice::Vwap => PriceSource::HlcMean,
        // Worst: a buy pays the high, a sell receives the low.
        FillPrice::Worst => if fill_buys(direction, is_entry) {
            PriceSource::High
        } else {
            PriceSource::Low
        },
        // Best: a buy pays the low, a sell receives the high.
        FillPrice::Best => if fill_buys(direction, is_entry) {
            PriceSource::Low
        } else {
            PriceSource::High
        },
    }
}

impl FillPrice {
    /// Price source implied by an execution-timing policy.
    ///
    /// `NextBarOpen` and `SameBarOpenLookahead` both read the open; the
    /// policy decides which bar that open belongs to.
    pub fn for_timing(timing: FillTiming) -> (fp: Self)
        ensures
            timing == FillTiming::SameBarClose ==> fp == FillPrice::Close,
            timing != FillTiming::SameBarClose ==> fp == FillPrice::Open,
    {
        match timing {
            FillTiming::SameBarClose => FillPrice::Close,
            FillTiming::NextBarOpen | FillTiming::SameBarOpenLookahead => FillPrice::Open,
        }
    }

    /// Which of the bar's prices a fill on this side of a trade takes.
    ///
    /// `Worst` and `Best` depend on whether the fill buys (a long entry or a
    /// short exit) or sells (a long exit or a short entry); every other model
    /// reads the same price for both sides. VWAP is approximated by the
    /// typical price.
    pub fn price_source(&self, direction: Direction, is_entry: bool) -> (source: PriceSource)
        ensures
            source == spec_price_source(*self, direction, is_entry),
    {
        let buys = match (direction, is_entry) {
            (Direction::Long, true) | (Direction::Short, false) => true,
            (Direction::Long, false) | (Direction::Short, true) => false,
        };
        match self {
            FillPrice::Close => PriceSource::Close,
            FillPrice::Open => PriceSource::Open,
            FillPrice::Average => PriceSource::OhlcMean,
            FillPrice::Typical => PriceSource::HlcMean,
            FillPrice::Vwap => PriceSource::HlcMean,
            FillPrice::Worst => if buys {
                PriceSource::High
            } else {
                PriceSource::Low
            },
            FillPrice::Best => if buys {
                PriceSource::Low
            } else {
                PriceSource::High
            },
        }
    }
}

/// Whether a limit order at rank `limit` fills on a bar that traded down to
/// `low` and up to `high`: a buy (long entry, short exit) once the bar
/// reaches down to the limit, a sell once it reaches up to it.
pub open spec fn limit_fills(limit: i64, low: i64, high: i64, direction: Direction, is_entry: bool) -> bool {
    if fill_buys(direction, is_entry) {
        low <= limit
    } else {
        high >= limit
    }
}

/// Whether a stop order at rank `stop` triggers on a bar that traded down
/// to `low` and up to `high`: a buy stop once the price rises to it, a sell
/// stop once the price falls to it.
pub open spec fn stop_triggers(stop: i64, low: i64, high: i64, direction: Direction, is_entry: bool) -> bool {
    if fill_buys(direction, is_entry) {
        high >= stop
    } else {
        low <= stop
    }
}

/// The price a stop fills at on a bar: none unless it triggered; the open
/// where the bar opened at or through the stop; the stop otherwise.
pub open spec fn stop_fill<P>(
    stop: Level<P>,
    open: Level<P>,
    low: i64,
    high: i64,
    direction: Direction,
    is_entry: bool,
) -> Option<P> {
    if !stop_triggers(stop.rank, low, high, direction, is_entry) {
        None
    } else if fill_buys(direction, is_entry) {
        if open.rank >= stop.rank {
            Some(open.price)
        } else {
            Some(stop.price)
        }
    } else {
        if open.rank <= stop.rank {
            Some(open.price)
        } else {
            Some(stop.price)
        }
    }
}

/// Whether a limit order at rank `limit` would be filled on a bar with this
/// low and high.
pub fn would_fill_limit(limit: i64, low: i64, high: i64, direction: Direction, is_entry: bool) -> (fills:
    bool)
    ensures
        fills == limit_fills(limit, low, high, direction, is_entry),
{
    match (direction, is_entry) {
        // Long entry and short exit buy at or below the limit.
        (Direction::Long, true) | (Direction::Short, false) => low <= limit,
        // Long exit and short entry sell at or above it.
        (Direction::Long, false) | (Direction::Short, true) => high >= limit,
    }
}

/// Whether a stop order at rank `stop` would be triggered on a bar with this
/// low and high.
pub fn would_trigger_stop(stop: i64, low: i64, high: i64, direction: Direction, is_entry: bool) -> (triggers:
    bool)
    ensures
        triggers == stop_triggers(stop, low, high, direction, is_entry),
{
    match (direction, is_entry) {
        // A buy stop fires when the price rises to it.
        (Direction::Long, true) | (Direction::Short, false) => high >= stop,
        // A sell stop fires when the price falls to it.
        (Direction::Long, false) | (Direction::Short, true) => low <= stop,
    }
}

/// The price a stop order fills at on a bar, if it triggers.
///
/// Worst case for the trader: the stop price, or the open where the bar
/// gapped through the stop -- above it for a buy, below it for a sell.
pub fn stop_fill_price<P: Copy>(
    stop: Level<P>,
    open: Level<P>,
    low: i64,
    high: i64,
    direction: Direction,
    is_entry: bool,
) -> (fill: Option<P>)
    ensures
        fill == stop_fill(stop, open, low, high, direction, is_entry),
        fill.is_some() <==> stop_triggers(stop.rank, low, high, direction, is_entry),
        fill.is_some() ==> fill == Some(stop.price) || (fill == Some(open.price) && if fill_buys(
            direction,
            is_entry,
        ) {
            open.rank >= stop.rank
        } else {
            open.rank <= stop.rank
        }),
{
    if !would_trigger_stop(stop.rank, low, high, direction, is_entry) {
        return None;
    }
    match (direction, is_entry) {
        (Direction::Long, true) | (Direction::Short, false) => {
            // A buy stop gapped up through: fill at the open.
            if open.rank >= stop.rank {
                Some(open.price)
            } else {
                Some(stop.price)
            }
        },
        (Direction::Long, false) | (Direction::Short, true) => {
            // A sell stop gapped down through: fill at the open.
            if open.rank <= stop.rank {
                Some(open.price)
            } else {
                Some(stop.price)
            }
        },
    }
}

/// The SplitMix64 increment.
pub const SPLITMIX_GAMMA: u64 = 0x9E37_79B9_7F4A_7C15;

/// `2^64`, the modulus of the generator's state.
pub open spec fn state_modulus() -> nat {
    0x1_0000_0000_0000_0000
}

/// SplitMix64's output function on a state.
pub open spec fn splitmix_mix(state: u64) -> u64 {
    let z1 = vstd::wrapping::u64_specs::wrapping_mul(state ^ (state >> 30u64), 0xBF58_476D_1CE4_E5B9u64);
    let z2 = vstd::wrapping::u64_specs::wrapping_mul(z1 ^ (z1 >> 27u64), 0x94D0_49BB_1331_11EBu64);
    z2 ^ (z2 >> 31u64)
}

/// State of a generator seeded with `seed` after `draws` draws.
pub open spec fn state_after(seed: u64, draws: nat) -> u64 {
    ((seed + draws * SPLITMIX_GAMMA) % (state_modulus() as int)) as u64
}

/// Draw number `k` (counted from zero) of a generator seeded with `seed`,
/// as the 53 high bits of the mixed state.
pub open spec fn draw_bits(seed: u64, k: nat) -> u64 {
    splitmix_mix(state_after(seed, k + 1)) >> 11u64
}

/// Deterministic SplitMix64 stream for stochastic fills.
///
/// Hand-rolled to avoid an RNG dependency; the same seed always produces
/// the same fill sequence.
#[derive(Debug, Clone)]
pub struct FillRng(pub u64);

impl FillRng {
    /// A generator seeded with `seed`.
    pub fn new(seed: u64) -> (rng: Self)
        ensures
            rng.0 == seed,
    {
        FillRng(seed)
    }

    /// Advance the stream and return the next draw's 53 random bits.
    ///
    /// A uniform draw in `[0, 1)` is these bits divided by `2^53`.
    pub fn next_bits(&mut self) -> (bits: u64)
        ensures
            final(self).0 == vstd::wrapping::u64_specs::wrapping_add(old(self).0, SPLITMIX_GAMMA),
            bits == splitmix_mix(final(self).0) >> 11u64,
            bits < 0x20_0000_0000_0000,
    {
        self.0 = self.0.wrapping_add(SPLITMIX_GAMMA);
        let mut z = self.0;
        z = (z ^ (z >> 30)).wrapping_mul(0xBF58_476D_1CE4_E5B9);
        z = (z ^ (z >> 27)).wrapping_mul(0x94D0_49BB_1331_11EB);
        z = z ^ (z >> 31);
        let bits = z >> 11;
        assert(bits < 0x20_0000_0000_0000) by (bit_vector)
            requires
                bits == z >> 11u64,
        ;
        bits
    }
}

/// One draw advances the state by the increment, modulo `2^64`: after `k`
/// draws from a seed the state is `seed + k * increment (mod 2^64)`, so the
/// same seed always yields the same stream.
pub proof fn law_stream_is_determined_by_seed(seed: u64, draws: nat)
    ensures
        state_after(seed, 0) == seed,
        vstd::wrapping::u64_specs::wrapping_add(state_after(seed, draws), SPLITMIX_GAMMA) == state_after(
            seed,
            draws + 1,
        ),
{
    let m = state_modulus() as int;
    let a = seed + draws * SPLITMIX_GAMMA;
    let s = state_after(seed, draws);
    assert(s as int == a % m);
    vstd::arithmetic::div_mod::lemma_add_mod_noop(a, SPLITMIX_GAMMA as int, m);
    vstd::arithmetic::div_mod::lemma_mod_twice(a, m);
    vstd::arithmetic::div_mod::lemma_small_mod(SPLITMIX_GAMMA as nat, m as nat);
    assert(a + SPLITMIX_GAMMA == seed + (draws + 1) * SPLITMIX_GAMMA) by (nonlinear_arith)
        requires
            a == seed + draws * SPLITMIX_GAMMA,
    ;
    if s + SPLITMIX_GAMMA > u64::MAX {
        vstd::arithmetic::div_mod::lemma_small_mod((s + SPLITMIX_GAMMA - m) as nat, m as nat);
        vstd::arithmetic::div_mod::lemma_mod_sub_multiples_vanish(s + SPLITMIX_GAMMA, m);
    } else {
        vstd::arithmetic::div_mod::lemma_small_mod((s + SPLITMIX_GAMMA) as nat, m as nat);
    }
}

/// What an order does once the last print offered to it runs out.
#[derive(Debug, Clone, Copy, PartialEq, Eq, Structural)]
pub enum Tail {
    /// Nothing. The order is queued at a price the market only touched, so
    /// it takes what printed and keeps waiting for the rest.
    Rests,
    /// The market traded through a resting order: the whole remainder fills
    /// at the order's own price.
    Through,
    /// An aggressive order emptied the book at the price it took; whatever
    /// is left crosses one increment worse, in one fill, unbounded.
    Sweep,
}

impl Default for Tail {
    fn default() -> (tail: Self)
        ensures
            tail == Tail::Rests,
    {
        Tail::Rests
    }
}

/// Which kind of step is being replayed onto the tape.
#[derive(Debug, Clone, Copy, PartialEq, Eq, Structural)]
pub enum StepKind {
    /// A bar, replayed as up to four prints.
    Bar,
    /// A single trade print, which always trades whatever its price.
    Print,
}

} // verus!
