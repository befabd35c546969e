use raptorbt::fill::{
    stop_fill_price, would_fill_limit, would_trigger_stop, FillPrice, FillRng, PriceSource, StepKind, Tail,
};
use raptorbt::tape::Level;
use raptorbt::orders::{side_as_fill_args, OrderSide};
use raptorbt::types::{Direction, FillTiming};

/// A bar's prices, as the tests price fills against them.
struct Bar {
    open: f64,
    high: f64,
    low: f64,
    close: f64,
}

fn test_bar() -> Bar {
    Bar { open: 100.0, high: 105.0, low: 95.0, close: 102.0 }
}

fn price_of(bar: &Bar, source: PriceSource) -> f64 {
    match source {
        PriceSource::Open => bar.open,
        PriceSource::High => bar.high,
        PriceSource::Low => bar.low,
        PriceSource::Close => bar.close,
        PriceSource::OhlcMean => (bar.open + bar.high + bar.low + bar.close) / 4.0,
        PriceSource::HlcMean => (bar.high + bar.low + bar.close) / 3.0,
    }
}

fn get_price(fp: FillPrice, bar: &Bar, direction: Direction, is_entry: bool) -> f64 {
    price_of(bar, fp.price_source(direction, is_entry))
}

#[test]
fn test_fill_price_close() {
    let bar = test_bar();
    let fp = FillPrice::Close;
    assert!((get_price(fp, &bar, Direction::Long, true) - 102.0).abs() < 1e-10);
}

#[test]
fn test_fill_price_worst() {
    let bar = test_bar();
    let fp = FillPrice::Worst;

    // Long entry: high (105)
    assert!((get_price(fp, &bar, Direction::Long, true) - 105.0).abs() < 1e-10);

    // Long exit: low (95)
    assert!((get_price(fp, &bar, Direction::Long, false) - 95.0).abs() < 1e-10);
}

#[test]
fn worst_and_best_mirror_each_other_by_side() {
    for (direction, is_entry, worst, best) in [
        (Direction::Long, true, PriceSource::High, PriceSource::Low),
        (Direction::Long, false, PriceSource::Low, PriceSource::High),
        (Direction::Short, true, PriceSource::Low, PriceSource::High),
        (Direction::Short, false, PriceSource::High, PriceSource::Low),
    ] {
        assert_eq!(FillPrice::Worst.price_source(direction, is_entry), worst);
        assert_eq!(FillPrice::Best.price_source(direction, is_entry), best);
    }
}

#[test]
fn the_means_read_the_same_price_for_every_side() {
    let bar = test_bar();
    for direction in [Direction::Long, Direction::Short] {
        for is_entry in [true, false] {
            assert_eq!(FillPrice::Average.price_source(direction, is_entry), PriceSource::OhlcMean);
            assert_eq!(FillPrice::Typical.price_source(direction, is_entry), PriceSource::HlcMean);
            assert_eq!(FillPrice::Vwap.price_source(direction, is_entry), PriceSource::HlcMean);
            assert_eq!(FillPrice::Open.price_source(direction, is_entry), PriceSource::Open);
        }
    }
    assert!((get_price(FillPrice::Average, &bar, Direction::Long, true) - 100.5).abs() < 1e-10);
    assert!((get_price(FillPrice::Typical, &bar, Direction::Short, false) - 100.666_666_666_666_67).abs() < 1e-9);
}

#[test]
fn timing_picks_the_close_or_the_open() {
    assert_eq!(FillPrice::for_timing(FillTiming::SameBarClose), FillPrice::Close);
    assert_eq!(FillPrice::for_timing(FillTiming::NextBarOpen), FillPrice::Open);
    assert_eq!(FillPrice::for_timing(FillTiming::SameBarOpenLookahead), FillPrice::Open);
    assert_eq!(FillPrice::default(), FillPrice::Close);
}

#[test]
fn the_same_seed_gives_the_same_stream() {
    let mut a = FillRng::new(42);
    let mut b = FillRng::new(42);
    let mut c = FillRng::new(43);
    let mut differs = false;
    for _ in 0..16 {
        let (x, y, z) = (a.next_bits(), b.next_bits(), c.next_bits());
        assert_eq!(x, y);
        assert!(x < 1u64 << 53);
        differs |= x != z;
    }
    assert!(differs);
}

#[test]
fn splitmix_matches_its_published_first_output() {
    // SplitMix64 seeded with 0 first outputs 0xE220A8397B1DCDAF; the draw
    // keeps its 53 high bits.
    let mut rng = FillRng::new(0);
    assert_eq!(rng.next_bits(), 0xE220_A839_7B1D_CDAF >> 11);
    assert_eq!(rng.0, 0x9E37_79B9_7F4A_7C15);
}

#[test]
fn the_state_wraps_instead_of_overflowing() {
    let mut rng = FillRng::new(u64::MAX);
    let _ = rng.next_bits();
    assert_eq!(rng.0, 0x9E37_79B9_7F4A_7C14);
}

#[test]
fn small_enums_default_as_documented() {
    assert_eq!(Tail::default(), Tail::Rests);
    assert_ne!(StepKind::Bar, StepKind::Print);
}

#[test]
fn a_buy_is_a_long_entry_and_a_sell_a_long_exit() {
    assert_eq!(side_as_fill_args(OrderSide::Buy), (Direction::Long, true));
    assert_eq!(side_as_fill_args(OrderSide::Sell), (Direction::Long, false));
}

/// A price on a cent grid, ranked by its count of cents.
fn cents(price: f64) -> i64 {
    (price * 100.0).round() as i64
}

fn lv(price: f64) -> Level<f64> {
    Level { rank: cents(price), price }
}

#[test]
fn test_limit_fill() {
    let bar = test_bar();
    // Limit buy at 96 should fill (low is 95)
    assert!(would_fill_limit(cents(96.0), cents(bar.low), cents(bar.high), Direction::Long, true));
    // Limit buy at 94 should not fill (low is 95)
    assert!(!would_fill_limit(cents(94.0), cents(bar.low), cents(bar.high), Direction::Long, true));
}

#[test]
fn test_stop_fill() {
    let bar = test_bar();
    // Stop sell at 96 should trigger (low is 95)
    assert!(would_trigger_stop(cents(96.0), cents(bar.low), cents(bar.high), Direction::Long, false));
    // Stop sell at 94 should not trigger (low is 95)
    assert!(!would_trigger_stop(cents(94.0), cents(bar.low), cents(bar.high), Direction::Long, false));
}

#[test]
fn test_gap_through_stop() {
    // Gap down through a sell stop at 95: the bar opens at 90.
    let gap_bar = Bar { open: 90.0, high: 92.0, low: 88.0, close: 91.0 };
    let fill_price = stop_fill_price(
        lv(95.0),
        lv(gap_bar.open),
        cents(gap_bar.low),
        cents(gap_bar.high),
        Direction::Long,
        false,
    );
    // Should fill at open (90) not stop (95)
    assert_eq!(fill_price, Some(90.0));
}

#[test]
fn a_limit_sell_needs_the_high_to_reach_it() {
    let bar = test_bar();
    for (direction, is_entry) in [(Direction::Long, false), (Direction::Short, true)] {
        assert!(would_fill_limit(cents(105.0), cents(bar.low), cents(bar.high), direction, is_entry));
        assert!(!would_fill_limit(cents(105.01), cents(bar.low), cents(bar.high), direction, is_entry));
    }
    // A short exit buys, like a long entry.
    assert!(would_fill_limit(cents(95.0), cents(bar.low), cents(bar.high), Direction::Short, false));
    assert!(!would_fill_limit(cents(94.99), cents(bar.low), cents(bar.high), Direction::Short, false));
}

#[test]
fn a_stop_inside_the_bar_fills_at_the_stop() {
    let bar = test_bar();
    // A buy stop at 103 is crossed on the way to the high; the bar opened
    // below it, so it fills at its own price.
    assert_eq!(
        stop_fill_price(lv(103.0), lv(bar.open), cents(bar.low), cents(bar.high), Direction::Long, true),
        Some(103.0)
    );
    // A buy stop the bar opened above fills at the open.
    assert_eq!(
        stop_fill_price(lv(99.0), lv(bar.open), cents(bar.low), cents(bar.high), Direction::Short, false),
        Some(100.0)
    );
    // A buy stop above the high never triggers.
    assert_eq!(
        stop_fill_price(lv(106.0), lv(bar.open), cents(bar.low), cents(bar.high), Direction::Long, true),
        None
    );
    // A short entry stop sells on the way down, at its own price when the
    // bar opened above it.
    assert_eq!(
        stop_fill_price(lv(97.0), lv(bar.open), cents(bar.low), cents(bar.high), Direction::Short, true),
        Some(97.0)
    );
}
