use raptorbt::orders::{expired, trading_date, TimeInForce};
use raptorbt::types::NS_PER_DAY;

#[test]
fn day_expiry_follows_the_trading_date_not_the_utc_date() {
    // A session running past 05:30 IST crosses UTC midnight while the
    // IST trading date is unchanged.
    const IST: i64 = (5 * 3600 + 30 * 60) * 1_000_000_000;
    let day = 20_468i64 * NS_PER_DAY;
    // 22:30 UTC = 04:00 IST the next IST date.
    let submitted = day + 22 * 3_600_000_000_000 + 1_800_000_000_000;
    // 00:30 UTC the next UTC date = 06:00 IST, same IST trading date.
    let later = day + NS_PER_DAY + 1_800_000_000_000;

    // UTC dates rolled, so the naive rule expires it.
    assert!(expired(TimeInForce::Day, submitted, later, 0), "the UTC date rolled");
    // The IST trading date did not, so it must survive.
    assert!(!expired(TimeInForce::Day, submitted, later, IST), "the trading date is unchanged");
}

#[test]
fn day_expiry_honors_a_negative_offset() {
    // US Eastern is behind UTC: a 20:00 ET order and a 22:00 ET bar are
    // the same trading date but land on different UTC dates.
    const ET: i64 = -5 * 3600 * 1_000_000_000;
    let day = 20_468i64 * NS_PER_DAY;
    let submitted = day + 1_800_000_000_000; // 00:30 UTC = 19:30 ET prior day
    let later = day + 3 * 3_600_000_000_000; // 03:00 UTC = 22:00 ET same ET day

    assert!(!expired(TimeInForce::Day, submitted, later, 0), "same UTC date");
    assert!(!expired(TimeInForce::Day, submitted, later, ET), "and the same ET trading date");
}

#[test]
fn gtd_ignores_the_trading_date_offset() {
    // GTD names an absolute instant; the session calendar is irrelevant.
    let expire_ns = 20_468i64 * NS_PER_DAY + 3_600_000_000_000;
    let tif = TimeInForce::Gtd { expire_ns };
    const IST: i64 = (5 * 3600 + 30 * 60) * 1_000_000_000;
    assert_eq!(expired(tif, 0, expire_ns, 0), expired(tif, 0, expire_ns, IST));
    assert!(expired(tif, 0, expire_ns, IST));
}

#[test]
fn gtd_lapses_exactly_at_its_instant() {
    let tif = TimeInForce::Gtd { expire_ns: 100 };
    assert!(!expired(tif, 0, 99, 0));
    assert!(expired(tif, 0, 100, 0));
}

#[test]
fn day_expires_on_the_next_utc_date_without_an_offset() {
    let submitted = 5 * NS_PER_DAY + 10;
    assert!(!expired(TimeInForce::Day, submitted, 6 * NS_PER_DAY - 1, 0));
    assert!(expired(TimeInForce::Day, submitted, 6 * NS_PER_DAY, 0));
}

#[test]
fn other_time_in_force_never_lapse_by_time() {
    for tif in [TimeInForce::Gtc, TimeInForce::Ioc, TimeInForce::Fok, TimeInForce::AtOpen, TimeInForce::AtClose] {
        assert!(!expired(tif, 0, i64::MAX, 0));
    }
}

#[test]
fn trading_dates_round_toward_the_past() {
    assert_eq!(trading_date(0, 0), 0);
    assert_eq!(trading_date(-1, 0), -1);
    assert_eq!(trading_date(NS_PER_DAY - 1, 0), 0);
    assert_eq!(trading_date(-NS_PER_DAY, 0), -1);
    assert_eq!(trading_date(-NS_PER_DAY - 1, 0), -2);
    assert_eq!(trading_date(NS_PER_DAY - 10, 10), 1);
}
