use raptorbt::aggregate::{civil_from_days, days_from_civil};

#[test]
fn the_epoch_is_the_first_of_january_1970() {
    assert_eq!(civil_from_days(0), (1970, 1));
    assert_eq!(days_from_civil(1970, 1), 0);
}

#[test]
fn known_first_days_of_months() {
    // 2024-01-01 is epoch day 19723, and 2024 is a leap year.
    assert_eq!(days_from_civil(2024, 1), 19_723);
    assert_eq!(days_from_civil(2024, 2), 19_723 + 31);
    assert_eq!(days_from_civil(2024, 3), 19_723 + 60);
    assert_eq!(days_from_civil(2023, 3), 19_723 - 306);
    assert_eq!(days_from_civil(2000, 3), 11_017);
    assert_eq!(days_from_civil(1969, 12), -31);
}

#[test]
fn a_day_falls_in_its_month() {
    assert_eq!(civil_from_days(19_722), (2023, 12));
    assert_eq!(civil_from_days(19_723 + 30), (2024, 1));
    assert_eq!(civil_from_days(19_723 + 31), (2024, 2));
    assert_eq!(civil_from_days(19_723 + 59), (2024, 2));
    assert_eq!(civil_from_days(19_723 + 60), (2024, 3));
    assert_eq!(civil_from_days(-1), (1969, 12));
    assert_eq!(civil_from_days(-719_468), (0, 3));
}

#[test]
fn months_round_trip_through_days() {
    for year in [-400_i64, -1, 0, 1, 1900, 1970, 2000, 2023, 2024, 2100, 9999] {
        for month in 1..=12u32 {
            let first = days_from_civil(year, month);
            assert_eq!(civil_from_days(first), (year, month));
            assert_eq!(civil_from_days(first - 1).1, if month == 1 { 12 } else { month - 1 });
        }
    }
}

#[test]
fn months_just_outside_the_year_count_on_from_march() {
    // Month 13 of 2023 is January 2024, month 14 is February, and month 0
    // is the December before.
    assert_eq!(days_from_civil(2023, 13), days_from_civil(2024, 1));
    assert_eq!(days_from_civil(2023, 14), days_from_civil(2024, 2));
    assert_eq!(days_from_civil(2024, 0), days_from_civil(2023, 12));
}

#[test]
fn a_far_year_is_counted_while_the_count_fits() {
    // 25.2e15 is a whole number of 400-year eras: its 1st of March is that
    // many eras of 146,097 days, less the days from year 0 to the epoch.
    assert_eq!(days_from_civil(25_200_000_000_000_000, 3), 9_204_110_999_999_280_532);
}
