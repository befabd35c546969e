//! Calendar arithmetic for bar aggregation: civil dates from days since the
//! epoch and back, in the proleptic Gregorian calendar.
use vstd::prelude::*;

verus! {

/// Whether `y` is a leap year of the Gregorian calendar.
pub open spec fn is_leap_year(y: int) -> bool {
    (y % 4 == 0 && y % 100 != 0) || y % 400 == 0
}

/// Days from 1 January of year 0 to 1 January of year `y`: 365 a year, plus
/// one for every leap year in between (year 0 is one).
pub open spec fn days_to_year(y: int) -> int {
    365 * y + (y + 3) / 4 - (y + 99) / 100 + (y + 399) / 400
}

/// Days in month `m` (1 to 12) of year `y`.
pub open spec fn days_in_month(y: int, m: int) -> int {
    if m == 2 {
        if is_leap_year(y) { 29 } else { 28 }
    } else if m == 4 || m == 6 || m == 9 || m == 11 {
        30
    } else {
        31
    }
}

/// Days from 1 January to the 1st of month `m` (1 to 12) of year `y`.
pub open spec fn days_before_month(y: int, m: int) -> int {
    let common: int = if m == 1 {
        0
    } else if m == 2 {
        31
    } else if m == 3 {
        59
    } else if m == 4 {
        90
    } else if m == 5 {
        120
    } else if m == 6 {
        151
    } else if m == 7 {
        181
    } else if m == 8 {
        212
    } else if m == 9 {
        243
    } else if m == 10 {
        273
    } else if m == 11 {
        304
    } else {
        334
    };
    common + if m > 2 && is_leap_year(y) { 1int } else { 0int }
}

/// Days since 1970-01-01 of the 1st of month `m` of year `y`.
pub open spec fn civil_first_day(y: int, m: int) -> int {
    days_to_year(y) - days_to_year(1970) + days_before_month(y, m)
}

/// The month after month `m` of year `y`.
pub open spec fn next_month(y: int, m: int) -> (int, int) {
    if m == 12 {
        (y + 1, 1)
    } else {
        (y, m + 1)
    }
}

/// Years whose dates the calendar functions handle without overflow.
pub open spec fn year_in_range(y: int) -> bool {
    -25_000_000_000_000_000 <= y <= 25_000_000_000_000_000
}

/// Day of a March-based year on which the month `mp` months after March
/// starts.
pub open spec fn march_month_start(mp: int) -> int {
    (153 * mp + 2) / 5
}

/// Days from 1 March of year 0 to 1 March of year `y`, counted the way the
/// conversions count them: by 400-year eras and the years into one.
pub open spec fn march_year_days(y: int) -> int {
    (y / 400) * 146_097 + 365 * (y % 400) + (y % 400) / 4 - (y % 400) / 100
}

proof fn lemma_march_year_days(y: int)
    ensures
        march_year_days(y) == 365 * y + y / 4 - y / 100 + y / 400,
{
    let era = y / 400;
    let yoe = y % 400;
    vstd::arithmetic::div_mod::lemma_fundamental_div_mod(y, 400);
    vstd::arithmetic::div_mod::lemma_mod_bound(y, 400);
    assert(y == 400 * era + yoe);
    assert(y / 4 == 100 * era + yoe / 4);
    assert(y / 100 == 4 * era + yoe / 100);
}

/// The 1st of a month, counted from the 1st of March of its March-based
/// year: the identity both conversions rest on.
proof fn lemma_first_day_from_march(y: int, m: int)
    requires
        1 <= m <= 12,
    ensures
        civil_first_day(y, m) == march_year_days(if m <= 2 { y - 1 } else { y }) + march_month_start(
            if m > 2 { m - 3 } else { m + 9 },
        ) - 719_468,
{
    let yp = if m <= 2 { y - 1 } else { y };
    lemma_march_year_days(yp);
    if m > 2 {
        assert((y + 3) / 4 == y / 4 + if y % 4 != 0 { 1int } else { 0int });
        assert((y + 99) / 100 == y / 100 + if y % 100 != 0 { 1int } else { 0int });
        assert((y + 399) / 400 == y / 400 + if y % 400 != 0 { 1int } else { 0int });
    } else {
        assert((y + 3) / 4 == (y - 1) / 4 + 1);
        assert((y + 99) / 100 == (y - 1) / 100 + 1);
        assert((y + 399) / 400 == (y - 1) / 400 + 1);
    }
}

/// Whether counting the 1st of month `m` of year `y` from the epoch, era by
/// era as [`days_from_civil`] does, stays an `i64` at every step.
pub open spec fn civil_day_fits(y: int, m: int) -> bool {
    let yp = if m <= 2 {
        y - 1
    } else {
        y
    };
    let era = yp / 400;
    let doe = 365 * (yp % 400) + (yp % 400) / 4 - (yp % 400) / 100 + march_month_start(
        if m > 2 {
            m - 3
        } else {
            m + 9
        },
    );
    &&& fits_i64(yp)
    &&& fits_i64(era * 146_097)
    &&& fits_i64(era * 146_097 + doe)
    &&& fits_i64(era * 146_097 + doe - 719_468)
}

/// Every month of a year in range is counted without overflow.
proof fn lemma_civil_day_fits(y: int, m: int)
    requires
        year_in_range(y),
        1 <= m <= 12,
    ensures
        civil_day_fits(y, m),
{
    let yp = if m <= 2 {
        y - 1
    } else {
        y
    };
    vstd::arithmetic::div_mod::lemma_fundamental_div_mod(yp, 400);
    vstd::arithmetic::div_mod::lemma_mod_bound(yp, 400);
    let era = yp / 400;
    let yoe = yp % 400;
    assert(-62_500_000_000_001 <= era <= 62_500_000_000_000) by (nonlinear_arith)
        requires
            yp == 400 * era + yoe,
            0 <= yoe < 400,
            -25_000_000_000_000_001 <= yp <= 25_000_000_000_000_000,
    ;
    assert(-9_131_062_500_000_146_097 <= era * 146_097 <= 9_131_062_500_000_000_000) by (nonlinear_arith)
        requires
            -62_500_000_000_001 <= era <= 62_500_000_000_000,
    ;
}

/// Days since 1970-01-01 of the 1st of month `m` of year `y`, after Howard
/// Hinnant's algorithm.
///
/// The count runs from 1 March of the March-based year the month falls in:
/// January and February belong to the March-based year before. For a month
/// of the calendar (`1..=12`) that is the civil date; any other `m` is read
/// as `m - 3` months after March of year `y` by the same 153-days-in-five
/// months rule.
pub fn days_from_civil(y: i64, m: u32) -> (days: i64)
    requires
        civil_day_fits(y as int, m as int),
    ensures
        days == march_year_days(if m <= 2 { y - 1 } else { y as int }) + march_month_start(
            if m > 2 { m - 3 } else { m + 9 },
        ) - 719_468,
        1 <= m <= 12 ==> days == civil_first_day(y as int, m as int),
{
    let y = if m <= 2 { y - 1 } else { y };
    let era = match y.checked_div_euclid(400) {
        Some(q) => q,
        None => 0,
    };
    let yoe = y - era * 400;
    let mp = if m > 2 { (m - 3) as i64 } else { (m + 9) as i64 };
    let doy = (153 * mp + 2) / 5;
    let doe = yoe * 365 + yoe / 4 - yoe / 100 + doy;
    proof {
        vstd::arithmetic::div_mod::lemma_fundamental_div_mod(y as int, 400);
        vstd::arithmetic::div_mod::lemma_mod_bound(y as int, 400);
        if 1 <= m <= 12 {
            lemma_first_day_from_march(y as int + if m <= 2 { 1int } else { 0int }, m as int);
        }
    }
    era * 146_097 + doe - 719_468
}

/// A year has 365 days, and 366 when it is a leap year.
pub proof fn law_year_length(y: int)
    ensures
        days_to_year(y + 1) - days_to_year(y) == if is_leap_year(y) { 366int } else { 365int },
{
    assert((y + 4) / 4 == (y + 3) / 4 + if y % 4 == 0 { 1int } else { 0int });
    assert((y + 100) / 100 == (y + 99) / 100 + if y % 100 == 0 { 1int } else { 0int });
    assert((y + 400) / 400 == (y + 399) / 400 + if y % 400 == 0 { 1int } else { 0int });
}

/// Consecutive months are as far apart as the earlier one is long.
pub proof fn law_month_length(y: int, m: int)
    requires
        1 <= m <= 12,
    ensures
        civil_first_day(next_month(y, m).0, next_month(y, m).1) == civil_first_day(y, m) + days_in_month(y, m),
{
    law_year_length(y);
}

/// Splitting a day of a 400-year era into the year of the era and the day
/// of that (March-based) year.
proof fn lemma_year_of_era(doe: int)
    requires
        0 <= doe < 146_097,
    ensures
        ({
            let yoe = (doe - doe / 1_460 + doe / 36_524 - doe / 146_096) / 365;
            let doy = doe - (365 * yoe + yoe / 4 - yoe / 100);
            &&& 0 <= yoe <= 399
            &&& 0 <= doy
            &&& doy <= 364 + if is_leap_year(yoe + 1) { 1int } else { 0int }
        }),
{
}

/// The month a day of a March-based year falls in, and how it lines up
/// with the civil calendar.
proof fn lemma_month_of_day(era: int, yoe: int, doy: int)
    requires
        0 <= yoe <= 399,
        0 <= doy <= 364 + if is_leap_year(yoe + 1) { 1int } else { 0int },
    ensures
        ({
            let mp = (5 * doy + 2) / 153;
            let m = if mp < 10 { mp + 3 } else { mp - 9 };
            let year = if m <= 2 { yoe + era * 400 + 1 } else { yoe + era * 400 };
            let days = era * 146_097 + 365 * yoe + yoe / 4 - yoe / 100 + doy - 719_468;
            &&& 0 <= mp <= 11
            &&& 1 <= m <= 12
            &&& civil_first_day(year, m) <= days
            &&& days < civil_first_day(next_month(year, m).0, next_month(year, m).1)
        }),
{
    let mp = (5 * doy + 2) / 153;
    let m = if mp < 10 { mp + 3 } else { mp - 9 };
    let yp = yoe + era * 400;
    let year = if m <= 2 { yp + 1 } else { yp };
    assert(march_month_start(mp) <= doy < march_month_start(mp + 1));
    assert(yp / 400 == era) by {
        vstd::arithmetic::div_mod::lemma_div_multiples_vanish_fancy(era, yoe, 400);
    }
    assert(yp % 400 == yoe) by {
        vstd::arithmetic::div_mod::lemma_fundamental_div_mod(yp, 400);
    }
    lemma_first_day_from_march(year, m);
    law_month_length(year, m);
    assert(is_leap_year(yp + 1) == is_leap_year(yoe + 1)) by {
        vstd::arithmetic::div_mod::lemma_mod_multiples_vanish(era * 100, yoe + 1, 4);
        vstd::arithmetic::div_mod::lemma_mod_multiples_vanish(era * 4, yoe + 1, 100);
        vstd::arithmetic::div_mod::lemma_mod_multiples_vanish(era, yoe + 1, 400);
    }
}

/// Days since 1970-01-01 → the civil (year, month) containing that day,
/// after Howard Hinnant's algorithm.
pub fn civil_from_days(days: i64) -> (ym: (i64, u32))
    requires
        days <= i64::MAX - 719_468,
    ensures
        1 <= ym.1 <= 12,
        -26_000_000_000_000_000 <= ym.0 <= 26_000_000_000_000_000,
        civil_first_day(ym.0 as int, ym.1 as int) <= days,
        days < civil_first_day(next_month(ym.0 as int, ym.1 as int).0, next_month(ym.0 as int, ym.1 as int).1),
{
    let z = days + 719_468;
    let era = match z.checked_div_euclid(146_097) {
        Some(q) => q,
        None => 0,
    };
    let doe = match z.checked_rem_euclid(146_097) {
        Some(r) => r,
        None => 0,
    };
    proof {
        vstd::arithmetic::div_mod::lemma_fundamental_div_mod(z as int, 146_097);
        vstd::arithmetic::div_mod::lemma_mod_bound(z as int, 146_097);
        lemma_year_of_era(doe as int);
    }
    let yoe = (doe - doe / 1_460 + doe / 36_524 - doe / 146_096) / 365;
    let y = yoe + era * 400;
    let doy = doe - (365 * yoe + yoe / 4 - yoe / 100);
    proof {
        lemma_month_of_day(era as int, yoe as int, doy as int);
    }
    let mp = (5 * doy + 2) / 153;
    let m = if mp < 10 { mp + 3 } else { mp - 9 };
    let year = if m <= 2 { y + 1 } else { y };
    (year, m as u32)
}


/// Floor division by a positive divisor never moves a value away from zero.
proof fn lemma_div_toward_zero(x: int, d: int)
    requires
        d > 0,
    ensures
        x >= 0 ==> 0 <= x / d <= x,
        x < 0 ==> x <= x / d < 0,
{
    let q = x / d;
    let r = x % d;
    vstd::arithmetic::div_mod::lemma_fundamental_div_mod(x, d);
    vstd::arithmetic::div_mod::lemma_mod_bound(x, d);
    assert(x >= 0 ==> 0 <= q <= x) by (nonlinear_arith)
        requires
            x == d * q + r,
            0 <= r < d,
    ;
    assert(x < 0 ==> x <= q < 0) by (nonlinear_arith)
        requires
            x == d * q + r,
            0 <= r < d,
    ;
}

/// What a record's timestamp means.
#[derive(Debug, Clone, Copy, PartialEq, Eq, Structural)]
pub enum SourceLabel {
    /// The timestamp opens the record's period: a record on a boundary opens
    /// the window starting there.
    Open,
    /// The timestamp closes the record's period: a record on a boundary
    /// closes the window ending there.
    Close,
}

impl Default for SourceLabel {
    fn default() -> (label: Self)
        ensures
            label == SourceLabel::Open,
    {
        SourceLabel::Open
    }
}

/// Nanoseconds a label pulls a timestamp back before bucketing it.
pub open spec fn label_bias(label: SourceLabel) -> int {
    match label {
        SourceLabel::Open => 0,
        SourceLabel::Close => 1,
    }
}

impl SourceLabel {
    /// Nanoseconds this label pulls a timestamp back before bucketing it: a
    /// close-labelled record on a boundary belongs to the window ending there.
    pub fn boundary_bias_ns(&self) -> (bias: i64)
        ensures
            bias == label_bias(*self),
    {
        match self {
            SourceLabel::Open => 0,
            SourceLabel::Close => 1,
        }
    }
}

/// Whether `x` is an `i64`.
pub open spec fn fits_i64(x: int) -> bool {
    i64::MIN <= x <= i64::MAX
}

/// The fixed-width window a timestamp falls in.
pub open spec fn time_window_of(ts: int, width: int, align: int, label: SourceLabel) -> int {
    (ts + align - label_bias(label)) / width
}

/// End timestamp (exclusive boundary) of a fixed-width window.
pub open spec fn time_window_end(window: int, width: int, align: int) -> int {
    (window + 1) * width - align
}

/// What one record does to the window being built.
#[derive(Debug, Clone, Copy, PartialEq, Eq, Structural)]
pub struct WindowStep {
    /// End stamp of the in-progress window the record left, if it left one:
    /// that window's bar is complete.
    pub closed: Option<i64>,
    /// Whether the record starts a new window rather than joining the one
    /// in progress.
    pub starts_new: bool,
    /// End stamp of the record's own window, when the record is the last
    /// instant that window can hold: its bar, record included, is complete.
    pub finished: Option<i64>,
}

/// The step a record takes, given the window in progress before it, the
/// record's own window, whether the record ends that window, and the two
/// windows' end stamps.
pub open spec fn window_step(
    current: Option<i64>,
    window: i64,
    ends_window: bool,
    current_end: i64,
    window_end: i64,
) -> (WindowStep, Option<i64>) {
    let left = current is Some && current->0 != window;
    (
        WindowStep {
            closed: if left { Some(current_end) } else { None },
            starts_new: current != Some(window),
            finished: if ends_window { Some(window_end) } else { None },
        },
        if ends_window { None } else { Some(window) },
    )
}

/// Fixed-width time windows, aligned to the epoch shifted by an offset: the
/// window bookkeeping of a time bar builder.
///
/// A window's bar is complete when the first record of a later window
/// arrives, or, for close-labelled records, when a record lands exactly on
/// the window's end. Bars are stamped with their window's end.
#[derive(Debug)]
pub struct TimeWindows {
    pub width_ns: i64,
    pub align_offset_ns: i64,
    pub label: SourceLabel,
    /// The window in progress, if any.
    pub window: Option<i64>,
}

impl TimeWindows {

    /// The window of `ts`.
    pub open spec fn spec_window_of(&self, ts: int) -> int {
        time_window_of(ts, self.width_ns as int, self.align_offset_ns as int, self.label)
    }

    /// The end stamp of window `w`.
    pub open spec fn spec_window_end(&self, w: int) -> int {
        time_window_end(w, self.width_ns as int, self.align_offset_ns as int)
    }

    /// Whether window `w` and its end stamp are representable.
    pub open spec fn window_fits(&self, w: int) -> bool {
        &&& fits_i64(w + 1)
        &&& fits_i64((w + 1) * self.width_ns)
        &&& fits_i64(self.spec_window_end(w))
    }

    /// Whether a record stamped `ts` can be bucketed: the width is not zero,
    /// and nothing on the way to its window and the window's end overflows.
    pub open spec fn admits(&self, ts: i64) -> bool {
        &&& self.width_ns != 0
        &&& fits_i64(ts + self.align_offset_ns)
        &&& fits_i64(ts + self.align_offset_ns - label_bias(self.label))
        &&& fits_i64(self.spec_window_of(ts as int))
        &&& self.window_fits(self.spec_window_of(ts as int))
    }

    /// The builder's invariant: the window in progress has a representable
    /// end.
    pub open spec fn wf(&self) -> bool {
        self.window is Some ==> self.window_fits(self.window->0 as int)
    }

    /// Windows `width_ns` wide, aligned `align_offset_ns` from the epoch.
    ///
    /// Bucketing divides by the width, so a zero-width builder admits no
    /// record (see [`TimeWindows::accepts`]).
    pub fn new(width_ns: i64, align_offset_ns: i64, label: SourceLabel) -> (w: Self)
        ensures
            w.wf(),
            w.window is None,
            w.width_ns == width_ns,
            w.align_offset_ns == align_offset_ns,
            w.label == label,
    {
        TimeWindows { width_ns, align_offset_ns, label, window: None }
    }

    /// The window `ts` falls in.
    pub fn window_of(&self, ts: i64) -> (w: i64)
        requires
            self.width_ns != 0,
            fits_i64(ts + self.align_offset_ns),
            fits_i64(ts + self.align_offset_ns - label_bias(self.label)),
            fits_i64(self.spec_window_of(ts as int)),
        ensures
            w == self.spec_window_of(ts as int),
    {
        // The bias is the whole of the labelling difference: it pulls a
        // close-labelled record sitting exactly on a boundary back into the
        // window that ends there, and moves nothing else.
        let shifted = ts + self.align_offset_ns - self.label.boundary_bias_ns();
        match shifted.checked_div_euclid(self.width_ns) {
            Some(w) => w,
            None => 0,
        }
    }

    /// End timestamp (exclusive boundary) of window `w`, in the source clock.
    pub fn window_end(&self, w: i64) -> (end: i64)
        requires
            self.window_fits(w as int),
        ensures
            end == self.spec_window_end(w as int),
    {
        (w + 1) * self.width_ns - self.align_offset_ns
    }

    /// Whether `ts` is the last instant window `w` can contain: only ever
    /// under the close label.
    pub fn completes_window(&self, ts: i64, w: i64) -> (ends: bool)
        requires
            self.window_fits(w as int),
        ensures
            ends == (self.label == SourceLabel::Close && ts == self.spec_window_end(w as int)),
    {
        self.label == SourceLabel::Close && ts == self.window_end(w)
    }

    /// Whether a record stamped `ts` can be bucketed without overflow.
    pub fn accepts(&self, ts: i64) -> (ok: bool)
        ensures
            ok == self.admits(ts),
    {
        if self.width_ns == 0 {
            return false;
        }
        let shifted = match ts.checked_add(self.align_offset_ns) {
            Some(v) => v,
            None => return false,
        };
        let biased = match shifted.checked_sub(self.label.boundary_bias_ns()) {
            Some(v) => v,
            None => return false,
        };
        let w = match biased.checked_div_euclid(self.width_ns) {
            Some(v) => v,
            None => return false,
        };
        let next = match w.checked_add(1) {
            Some(v) => v,
            None => return false,
        };
        let scaled = match next.checked_mul(self.width_ns) {
            Some(v) => v,
            None => return false,
        };
        scaled.checked_sub(self.align_offset_ns).is_some()
    }

    /// Bucket one record.
    pub fn step(&mut self, ts: i64) -> (step: WindowStep)
        requires
            old(self).wf(),
            old(self).admits(ts),
        ensures
            final(self).wf(),
            final(self).width_ns == old(self).width_ns,
            final(self).align_offset_ns == old(self).align_offset_ns,
            final(self).label == old(self).label,
            ({
                let w = old(self).spec_window_of(ts as int);
                let current = old(self).window;
                let expected = window_step(
                    current,
                    w as i64,
                    old(self).label == SourceLabel::Close && ts == old(self).spec_window_end(w),
                    if current is Some { old(self).spec_window_end(current->0 as int) as i64 } else { 0 },
                    old(self).spec_window_end(w) as i64,
                );
                &&& step == expected.0
                &&& final(self).window == expected.1
            }),
    {
        let w = self.window_of(ts);
        let closed = match self.window {
            Some(current) => if current != w {
                Some(self.window_end(current))
            } else {
                None
            },
            None => None,
        };
        let starts_new = match self.window {
            Some(current) => current != w,
            None => true,
        };
        let ends = self.completes_window(ts, w);
        let finished = if ends {
            Some(self.window_end(w))
        } else {
            None
        };
        self.window = if ends {
            None
        } else {
            Some(w)
        };
        WindowStep { closed, starts_new, finished }
    }

    /// End of data: the end stamp of the window in progress, if any, which
    /// is then complete.
    pub fn flush(&mut self) -> (stamp: Option<i64>)
        requires
            old(self).wf(),
        ensures
            final(self).wf(),
            final(self).window is None,
            final(self).width_ns == old(self).width_ns,
            final(self).align_offset_ns == old(self).align_offset_ns,
            final(self).label == old(self).label,
            old(self).window is None ==> stamp is None,
            old(self).window is Some ==> stamp == Some(
                old(self).spec_window_end(old(self).window->0 as int) as i64,
            ),
    {
        let stamp = match self.window {
            Some(w) => Some(self.window_end(w)),
            None => None,
        };
        self.window = None;
        stamp
    }
}

/// A record lies in the window it is bucketed into: under the open label
/// from the window's start up to but excluding its end stamp, under the
/// close label after its start up to and including its end stamp. So a bar
/// stamped `t` holds, respectively, only data stamped before `t`, or data
/// stamped up to and including `t`.
pub proof fn law_record_lies_in_its_window(ts: int, width: int, align: int, label: SourceLabel)
    requires
        width > 0,
    ensures
        ({
            let w = time_window_of(ts, width, align, label);
            let end = time_window_end(w, width, align);
            &&& label == SourceLabel::Open ==> end - width <= ts < end
            &&& label == SourceLabel::Close ==> end - width < ts <= end
        }),
{
    let x = ts + align - label_bias(label);
    let w = x / width;
    vstd::arithmetic::div_mod::lemma_fundamental_div_mod(x, width);
    vstd::arithmetic::div_mod::lemma_mod_bound(x, width);
    vstd::arithmetic::mul::lemma_mul_is_distributive_add(width, w, 1);
    assert(width * w == w * width) by {
        vstd::arithmetic::mul::lemma_mul_is_commutative(width, w);
    }
    assert((w + 1) * width == w * width + width) by {
        vstd::arithmetic::mul::lemma_mul_is_commutative(width, w + 1);
    }
}

/// The label moves only a record sitting exactly on a boundary, and it moves
/// that one back a whole window; every other record is bucketed the same
/// under either label.
pub proof fn law_label_moves_only_boundary_records(ts: int, width: int, align: int)
    requires
        width > 0,
    ensures
        (ts + align) % width != 0 ==> time_window_of(ts, width, align, SourceLabel::Open) == time_window_of(
            ts,
            width,
            align,
            SourceLabel::Close,
        ),
        (ts + align) % width == 0 ==> time_window_of(ts, width, align, SourceLabel::Close) == time_window_of(
            ts,
            width,
            align,
            SourceLabel::Open,
        ) - 1,
{
    let x = ts + align;
    let q = x / width;
    let r = x % width;
    vstd::arithmetic::div_mod::lemma_fundamental_div_mod(x, width);
    vstd::arithmetic::div_mod::lemma_mod_bound(x, width);
    assert(x == q * width + r) by {
        vstd::arithmetic::mul::lemma_mul_is_commutative(width, q);
    }
    if r != 0 {
        vstd::arithmetic::div_mod::lemma_fundamental_div_mod_converse(x - 1, width, q, r - 1);
    } else {
        vstd::arithmetic::mul::lemma_mul_is_distributive_add(width, q - 1, 1);
        assert(x - 1 == (q - 1) * width + (width - 1)) by {
            vstd::arithmetic::mul::lemma_mul_is_commutative(width, q - 1);
        }
        vstd::arithmetic::div_mod::lemma_fundamental_div_mod_converse(x - 1, width, q - 1, width - 1);
    }
}

/// Windows follow time: a later record never falls in an earlier window,
/// and a later window ends later.
pub proof fn law_windows_follow_time(ts1: int, ts2: int, width: int, align: int, label: SourceLabel)
    requires
        width > 0,
        ts1 <= ts2,
    ensures
        time_window_of(ts1, width, align, label) <= time_window_of(ts2, width, align, label),
        time_window_of(ts1, width, align, label) < time_window_of(ts2, width, align, label) ==> time_window_end(
            time_window_of(ts1, width, align, label),
            width,
            align,
        ) < time_window_end(time_window_of(ts2, width, align, label), width, align),
{
    let w1 = time_window_of(ts1, width, align, label);
    let w2 = time_window_of(ts2, width, align, label);
    vstd::arithmetic::div_mod::lemma_div_is_ordered(ts1 + align - label_bias(label), ts2 + align - label_bias(label), width);
    if w1 < w2 {
        vstd::arithmetic::mul::lemma_mul_strict_inequality(w1 + 1, w2 + 1, width);
    }
}

/// A close-labelled record finishes its own window exactly when it sits on
/// a window boundary; an open-labelled record never does.
pub proof fn law_close_label_finishes_on_boundaries(ts: int, width: int, align: int)
    requires
        width > 0,
    ensures
        (ts == time_window_end(time_window_of(ts, width, align, SourceLabel::Close), width, align)) <==> (ts
            + align) % width == 0,
        ts != time_window_end(time_window_of(ts, width, align, SourceLabel::Open), width, align),
{
    law_record_lies_in_its_window(ts, width, align, SourceLabel::Close);
    law_record_lies_in_its_window(ts, width, align, SourceLabel::Open);
    let x = ts + align;
    let w = time_window_of(ts, width, align, SourceLabel::Close);
    if ts == time_window_end(w, width, align) {
        assert(x == (w + 1) * width);
        vstd::arithmetic::div_mod::lemma_mod_multiples_basic(w + 1, width);
    }
    if x % width == 0 {
        law_label_moves_only_boundary_records(ts, width, align);
        let q = x / width;
        vstd::arithmetic::div_mod::lemma_fundamental_div_mod(x, width);
        assert(x == q * width) by {
            vstd::arithmetic::mul::lemma_mul_is_commutative(width, q);
        }
    }
}


// ---------------------------------------------------------------------------
// Calendar windows: months, or runs of months, in the civil calendar.
// ---------------------------------------------------------------------------

/// Days since 1970-01-01 of the first day of month number `k`, counting
/// months from January of year 0 (so `k = 12 * year + month - 1`).
pub open spec fn month_start(k: int) -> int {
    civil_first_day(k / 12, k % 12 + 1)
}

/// Month `m` of year `y` is month number `12 * y + m - 1`.
proof fn lemma_month_number(y: int, m: int)
    requires
        1 <= m <= 12,
    ensures
        month_start(12 * y + m - 1) == civil_first_day(y, m),
        month_start(12 * y + m) == civil_first_day(next_month(y, m).0, next_month(y, m).1),
{
    vstd::arithmetic::div_mod::lemma_fundamental_div_mod_converse(12 * y + m - 1, 12, y, m - 1);
    if m == 12 {
        vstd::arithmetic::div_mod::lemma_fundamental_div_mod_converse(12 * y + m, 12, y + 1, 0);
    } else {
        vstd::arithmetic::div_mod::lemma_fundamental_div_mod_converse(12 * y + m, 12, y, m);
    }
}

/// Each month starts at least 28 days after the one before it.
proof fn lemma_month_start_next(k: int)
    ensures
        month_start(k + 1) >= month_start(k) + 28,
{
    let y = k / 12;
    let m = k % 12 + 1;
    vstd::arithmetic::div_mod::lemma_fundamental_div_mod(k, 12);
    vstd::arithmetic::div_mod::lemma_mod_bound(k, 12);
    assert(k == 12 * y + m - 1);
    lemma_month_number(y, m);
    law_month_length(y, m);
}

/// Months start in order: a later month starts later.
pub proof fn law_months_start_in_order(a: int, b: int)
    requires
        a < b,
    ensures
        month_start(a) + 28 * (b - a) <= month_start(b),
    decreases b - a,
{
    lemma_month_start_next(a);
    if a + 1 < b {
        law_months_start_in_order(a + 1, b);
    }
}

/// Whether a later month starts no earlier, including the same month.
proof fn lemma_month_start_monotone(a: int, b: int)
    requires
        a <= b,
    ensures
        month_start(a) <= month_start(b),
{
    if a < b {
        law_months_start_in_order(a, b);
    }
}

/// Every day lies in some month: the one Hinnant's algorithm finds.
pub proof fn lemma_month_containing(d: int) -> (k: int)
    ensures
        month_start(k) <= d < month_start(k + 1),
{
    let z = d + 719_468;
    let era = z / 146_097;
    let doe = z % 146_097;
    vstd::arithmetic::div_mod::lemma_fundamental_div_mod(z, 146_097);
    vstd::arithmetic::div_mod::lemma_mod_bound(z, 146_097);
    lemma_year_of_era(doe);
    let yoe = (doe - doe / 1_460 + doe / 36_524 - doe / 146_096) / 365;
    let doy = doe - (365 * yoe + yoe / 4 - yoe / 100);
    lemma_month_of_day(era, yoe, doy);
    let mp = (5 * doy + 2) / 153;
    let m = if mp < 10 { mp + 3 } else { mp - 9 };
    let year = if m <= 2 { yoe + era * 400 + 1 } else { yoe + era * 400 };
    lemma_month_number(year, m);
    12 * year + m - 1
}

/// A day lies in only one month.
pub proof fn law_a_day_lies_in_one_month(d: int, a: int, b: int)
    requires
        month_start(a) <= d < month_start(a + 1),
        month_start(b) <= d < month_start(b + 1),
    ensures
        a == b,
{
    if a < b {
        lemma_month_start_monotone(a + 1, b);
    } else if b < a {
        lemma_month_start_monotone(b + 1, a);
    }
}

/// Converting the 1st of a month to days and back gives the month back:
/// the month a day falls in is unique, so `civil_from_days` inverts
/// `days_from_civil`.
pub proof fn law_civil_round_trip(y: int, m: int, y2: int, m2: int)
    requires
        1 <= m <= 12,
        1 <= m2 <= 12,
        civil_first_day(y2, m2) <= civil_first_day(y, m),
        civil_first_day(y, m) < civil_first_day(next_month(y2, m2).0, next_month(y2, m2).1),
    ensures
        y2 == y,
        m2 == m,
{
    lemma_month_number(y, m);
    lemma_month_number(y2, m2);
    law_months_start_in_order(12 * y + m - 1, 12 * y + m);
    law_a_day_lies_in_one_month(civil_first_day(y, m), 12 * y + m - 1, 12 * y2 + m2 - 1);
}

/// Length of a calendar window's step, in months.
#[derive(Debug, Clone, Copy, PartialEq, Eq, Structural)]
pub enum CalendarUnit {
    Month,
    Year,
}

/// Months in one calendar unit.
pub open spec fn months_per_unit(unit: CalendarUnit) -> int {
    match unit {
        CalendarUnit::Month => 1,
        CalendarUnit::Year => 12,
    }
}

/// The day a timestamp falls on, in the clock shifted by `align`, after the
/// label's bias.
pub open spec fn calendar_day(ts: int, align: int, label: SourceLabel) -> int {
    (ts + align - label_bias(label)) / (crate::types::NS_PER_DAY as int)
}

/// Whether window `w` of `span` months each holds day `d`.
pub open spec fn window_holds_day(w: int, span: int, d: int) -> bool {
    month_start(w * span) <= d < month_start((w + 1) * span)
}

/// The calendar window, of `span` months each, holding day `d`.
pub open spec fn calendar_window_of(d: int, span: int) -> int {
    choose|w: int| window_holds_day(w, span, d)
}

/// End stamp of calendar window `w`: midnight starting the next window, in
/// the source clock.
pub open spec fn calendar_window_end(w: int, span: int, align: int) -> int {
    month_start((w + 1) * span) * (crate::types::NS_PER_DAY as int) - align
}

/// Windows of `span` months cover every day, each day exactly once.
pub proof fn law_calendar_windows_partition_days(d: int, span: int, w: int)
    requires
        span > 0,
    ensures
        window_holds_day(calendar_window_of(d, span), span, d),
        window_holds_day(w, span, d) ==> w == calendar_window_of(d, span),
{
    let k = lemma_month_containing(d);
    let q = k / span;
    vstd::arithmetic::div_mod::lemma_fundamental_div_mod(k, span);
    vstd::arithmetic::div_mod::lemma_mod_bound(k, span);
    assert(q * span <= k < (q + 1) * span) by (nonlinear_arith)
        requires
            k == span * q + k % span,
            0 <= k % span < span,
    ;
    lemma_month_start_monotone(q * span, k);
    lemma_month_start_monotone(k + 1, (q + 1) * span);
    assert(window_holds_day(q, span, d));
    let c = calendar_window_of(d, span);
    assert(window_holds_day(c, span, d));
    assert forall|a: int, b: int| window_holds_day(a, span, d) && window_holds_day(b, span, d) implies a == b by {
        if a < b {
            assert((a + 1) * span <= b * span) by (nonlinear_arith)
                requires
                    a + 1 <= b,
                    span > 0,
            ;
            lemma_month_start_monotone((a + 1) * span, b * span);
        } else if b < a {
            assert((b + 1) * span <= a * span) by (nonlinear_arith)
                requires
                    b + 1 <= a,
                    span > 0,
            ;
            lemma_month_start_monotone((b + 1) * span, a * span);
        }
    }
}


/// A calendar window's end stamp is the first instant of the next window:
/// an open-labelled record stamped there opens the next window, the instant
/// before it still belongs to this one, and a close-labelled record stamped
/// there closes this one.
pub proof fn law_calendar_window_end_starts_the_next(w: int, span: int, align: int)
    requires
        span > 0,
    ensures
        ({
            let end = calendar_window_end(w, span, align);
            &&& calendar_window_of(calendar_day(end, align, SourceLabel::Open), span) == w + 1
            &&& calendar_window_of(calendar_day(end - 1, align, SourceLabel::Open), span) == w
            &&& calendar_window_of(calendar_day(end, align, SourceLabel::Close), span) == w
        }),
{
    let ns = crate::types::NS_PER_DAY as int;
    let m = month_start((w + 1) * span);
    let end = calendar_window_end(w, span, align);
    assert(end + align == m * ns);
    vstd::arithmetic::div_mod::lemma_fundamental_div_mod_converse(end + align, ns, m, 0);
    vstd::arithmetic::div_mod::lemma_fundamental_div_mod_converse(end + align - 1, ns, m - 1, ns - 1);
    assert(w * span < (w + 1) * span < (w + 2) * span) by (nonlinear_arith)
        requires
            span > 0,
    ;
    law_months_start_in_order(w * span, (w + 1) * span);
    law_months_start_in_order((w + 1) * span, (w + 2) * span);
    assert(window_holds_day(w + 1, span, m));
    assert(window_holds_day(w, span, m - 1));
    law_calendar_windows_partition_days(m, span, w + 1);
    law_calendar_windows_partition_days(m - 1, span, w);
}

/// Calendar windows, a whole number of months or years each, aligned to
/// civil dates in the clock shifted by `align_offset_ns`: the window
/// bookkeeping of a calendar bar builder.
#[derive(Debug)]
pub struct CalendarWindows {
    pub unit: CalendarUnit,
    /// Units per window.
    pub step: u32,
    pub align_offset_ns: i64,
    pub label: SourceLabel,
    /// The window in progress, if any.
    pub window: Option<i64>,
}

impl CalendarWindows {
    /// Months per window.
    pub open spec fn span(&self) -> int {
        self.step as int * months_per_unit(self.unit)
    }

    /// The window of `ts`.
    pub open spec fn spec_window_of(&self, ts: int) -> int {
        calendar_window_of(calendar_day(ts, self.align_offset_ns as int, self.label), self.span())
    }

    /// The end stamp of window `w`.
    pub open spec fn spec_window_end(&self, w: int) -> int {
        calendar_window_end(w, self.span(), self.align_offset_ns as int)
    }

    /// Whether window `w` and its end stamp are representable.
    pub open spec fn window_fits(&self, w: int) -> bool {
        let next = (w + 1) * self.step;
        &&& fits_i64(w + 1)
        &&& fits_i64(next)
        &&& year_in_range(if self.unit == CalendarUnit::Month { next / 12 } else { next })
        &&& fits_i64(month_start((w + 1) * self.span()) * (crate::types::NS_PER_DAY as int))
        &&& fits_i64(self.spec_window_end(w))
    }

    /// Whether a record stamped `ts` can be bucketed: the step is not zero,
    /// and nothing on the way to its window and the window's end overflows.
    pub open spec fn admits(&self, ts: i64) -> bool {
        &&& self.step > 0
        &&& fits_i64(ts + self.align_offset_ns)
        &&& fits_i64(ts + self.align_offset_ns - label_bias(self.label))
        &&& self.window_fits(self.spec_window_of(ts as int))
    }

    /// The builder's invariant: the window in progress has a representable
    /// end.
    pub open spec fn wf(&self) -> bool {
        self.window is Some ==> self.window_fits(self.window->0 as int)
    }

    /// Windows of `step` months or years, aligned `align_offset_ns` from UTC.
    ///
    /// Bucketing divides by the step, so a zero step admits no record (see
    /// [`CalendarWindows::accepts`]).
    pub fn new(unit: CalendarUnit, step: u32, align_offset_ns: i64, label: SourceLabel) -> (w: Self)
        ensures
            w.wf(),
            w.window is None,
            w.unit == unit,
            w.step == step,
            w.align_offset_ns == align_offset_ns,
            w.label == label,
    {
        CalendarWindows { unit, step, align_offset_ns, label, window: None }
    }

    /// The window `ts` falls in: its month count since year 0 (or its year),
    /// divided by the step.
    #[verifier::spinoff_prover]
    pub fn window_of(&self, ts: i64) -> (w: i64)
        requires
            self.step > 0,
            fits_i64(ts + self.align_offset_ns),
            fits_i64(ts + self.align_offset_ns - label_bias(self.label)),
        ensures
            w == self.spec_window_of(ts as int),
    {
        // Same bias, same reason as `TimeWindows::window_of`: a record
        // stamped at midnight closes the month that ends there.
        let shifted = ts + self.align_offset_ns - self.label.boundary_bias_ns();
        proof {
            lemma_div_toward_zero(shifted as int, crate::types::NS_PER_DAY as int);
        }
        let days = match shifted.checked_div_euclid(crate::types::NS_PER_DAY) {
            Some(d) => d,
            None => 0,
        };
        let (year, month) = civil_from_days(days);
        let key = match self.unit {
            CalendarUnit::Month => year * 12 + (month as i64 - 1),
            CalendarUnit::Year => year,
        };
        let step = self.step as i64;
        proof {
            lemma_div_toward_zero(key as int, step as int);
        }
        let w = match key.checked_div_euclid(step) {
            Some(q) => q,
            None => 0,
        };
        proof {
            let d = days as int;
            let k = 12 * year + month - 1;
            lemma_month_number(year as int, month as int);
            let span = self.span();
            vstd::arithmetic::div_mod::lemma_fundamental_div_mod(key as int, step as int);
            vstd::arithmetic::div_mod::lemma_mod_bound(key as int, step as int);
            let r = key % step;
            if self.unit == CalendarUnit::Month {
                assert(w * span <= k < (w + 1) * span) by (nonlinear_arith)
                    requires
                        span == step,
                        k == key,
                        key == step * w + r,
                        0 <= r < step,
                ;
            } else {
                assert(w * span <= k < (w + 1) * span) by (nonlinear_arith)
                    requires
                        span == 12 * step,
                        k == 12 * key + month - 1,
                        1 <= month <= 12,
                        key == step * w + r,
                        0 <= r < step,
                ;
            }
            lemma_month_start_monotone(w * span, k);
            lemma_month_start_monotone(k + 1, (w + 1) * span);
            law_calendar_windows_partition_days(d, span, w as int);
        }
        w
    }

    /// Start of the window after `w`, in the source clock.
    pub fn window_end(&self, w: i64) -> (end: i64)
        requires
            self.window_fits(w as int),
        ensures
            end == self.spec_window_end(w as int),
    {
        let next = (w + 1) * self.step as i64;
        let days = match self.unit {
            CalendarUnit::Month => {
                let year = match next.checked_div_euclid(12) {
                    Some(q) => q,
                    None => 0,
                };
                let month = match next.checked_rem_euclid(12) {
                    Some(r) => r,
                    None => 0,
                };
                proof {
                    vstd::arithmetic::div_mod::lemma_mod_bound(next as int, 12);
                    lemma_civil_day_fits(year as int, month + 1);
                }
                days_from_civil(year, month as u32 + 1)
            },
            CalendarUnit::Year => {
                proof {
                    lemma_month_number(next as int, 1);
                    assert((w + 1) * self.span() == 12 * next) by (nonlinear_arith)
                        requires
                            self.span() == self.step * 12,
                            next == (w + 1) * self.step,
                    ;
                    lemma_civil_day_fits(next as int, 1);
                }
                days_from_civil(next, 1)
            },
        };
        days * crate::types::NS_PER_DAY - self.align_offset_ns
    }

    /// Whether `ts` is the last instant window `w` can contain: only ever
    /// under the close label.
    pub fn completes_window(&self, ts: i64, w: i64) -> (ends: bool)
        requires
            self.window_fits(w as int),
        ensures
            ends == (self.label == SourceLabel::Close && ts == self.spec_window_end(w as int)),
    {
        self.label == SourceLabel::Close && ts == self.window_end(w)
    }

    /// Whether window `w` and its end stamp are representable.
    pub fn window_representable(&self, w: i64) -> (ok: bool)
        ensures
            ok == self.window_fits(w as int),
    {
        let next_w = match w.checked_add(1) {
            Some(v) => v,
            None => return false,
        };
        let next = match next_w.checked_mul(self.step as i64) {
            Some(v) => v,
            None => return false,
        };
        let (year, month) = match self.unit {
            CalendarUnit::Month => {
                let y = match next.checked_div_euclid(12) {
                    Some(q) => q,
                    None => 0,
                };
                let m = match next.checked_rem_euclid(12) {
                    Some(r) => r,
                    None => 0,
                };
                proof {
                    vstd::arithmetic::div_mod::lemma_mod_bound(next as int, 12);
                }
                (y, m as u32 + 1)
            },
            CalendarUnit::Year => (next, 1u32),
        };
        if year < -25_000_000_000_000_000 || year > 25_000_000_000_000_000 {
            return false;
        }
        proof {
            lemma_civil_day_fits(year as int, month as int);
        }
        let days = days_from_civil(year, month);
        proof {
            if self.unit == CalendarUnit::Year {
                lemma_month_number(next as int, 1);
                assert((w + 1) * self.span() == 12 * next) by (nonlinear_arith)
                    requires
                        self.span() == self.step * 12,
                        next == (w + 1) * self.step,
                ;
            }
        }
        let ns = match days.checked_mul(crate::types::NS_PER_DAY) {
            Some(v) => v,
            None => return false,
        };
        ns.checked_sub(self.align_offset_ns).is_some()
    }

    /// Whether a record stamped `ts` can be bucketed without overflow.
    pub fn accepts(&self, ts: i64) -> (ok: bool)
        ensures
            ok == self.admits(ts),
    {
        if self.step == 0 {
            return false;
        }
        let shifted = match ts.checked_add(self.align_offset_ns) {
            Some(v) => v,
            None => return false,
        };
        if shifted.checked_sub(self.label.boundary_bias_ns()).is_none() {
            return false;
        }
        let w = self.window_of(ts);
        self.window_representable(w)
    }

    /// Bucket one record.
    pub fn step(&mut self, ts: i64) -> (step: WindowStep)
        requires
            old(self).wf(),
            old(self).admits(ts),
        ensures
            final(self).wf(),
            final(self).unit == old(self).unit,
            final(self).step == old(self).step,
            final(self).align_offset_ns == old(self).align_offset_ns,
            final(self).label == old(self).label,
            ({
                let w = old(self).spec_window_of(ts as int);
                let current = old(self).window;
                let expected = window_step(
                    current,
                    w as i64,
                    old(self).label == SourceLabel::Close && ts == old(self).spec_window_end(w),
                    if current is Some { old(self).spec_window_end(current->0 as int) as i64 } else { 0 },
                    old(self).spec_window_end(w) as i64,
                );
                &&& step == expected.0
                &&& final(self).window == expected.1
            }),
    {
        let w = self.window_of(ts);
        let closed = match self.window {
            Some(current) => if current != w {
                Some(self.window_end(current))
            } else {
                None
            },
            None => None,
        };
        let starts_new = match self.window {
            Some(current) => current != w,
            None => true,
        };
        let ends = self.completes_window(ts, w);
        let finished = if ends {
            Some(self.window_end(w))
        } else {
            None
        };
        self.window = if ends {
            None
        } else {
            Some(w)
        };
        WindowStep { closed, starts_new, finished }
    }

    /// End of data: the end stamp of the window in progress, if any, which
    /// is then complete.
    pub fn flush(&mut self) -> (stamp: Option<i64>)
        requires
            old(self).wf(),
        ensures
            final(self).wf(),
            final(self).window is None,
            final(self).unit == old(self).unit,
            final(self).step == old(self).step,
            final(self).align_offset_ns == old(self).align_offset_ns,
            final(self).label == old(self).label,
            old(self).window is None ==> stamp is None,
            old(self).window is Some ==> stamp == Some(
                old(self).spec_window_end(old(self).window->0 as int) as i64,
            ),
    {
        let stamp = match self.window {
            Some(w) => Some(self.window_end(w)),
            None => None,
        };
        self.window = None;
        stamp
    }
}


/// When records arrive in time order and one record both leaves a window and
/// finishes its own, the window it left is the older: the bar handed back
/// first is stamped before the one queued behind it.
pub proof fn law_two_bars_from_one_record_come_oldest_first(
    earlier: int,
    ts: int,
    width: int,
    align: int,
    label: SourceLabel,
)
    requires
        width > 0,
        earlier <= ts,
        time_window_of(earlier, width, align, label) != time_window_of(ts, width, align, label),
    ensures
        time_window_end(time_window_of(earlier, width, align, label), width, align) < time_window_end(
            time_window_of(ts, width, align, label),
            width,
            align,
        ),
{
    law_windows_follow_time(earlier, ts, width, align, label);
}

/// Calendar windows follow time too: a later day never falls in an earlier
/// window, and a later window ends later.
pub proof fn law_calendar_windows_follow_time(d1: int, d2: int, span: int, align: int)
    requires
        span > 0,
        d1 <= d2,
    ensures
        calendar_window_of(d1, span) <= calendar_window_of(d2, span),
        calendar_window_of(d1, span) < calendar_window_of(d2, span) ==> calendar_window_end(
            calendar_window_of(d1, span),
            span,
            align,
        ) < calendar_window_end(calendar_window_of(d2, span), span, align),
{
    let w1 = calendar_window_of(d1, span);
    let w2 = calendar_window_of(d2, span);
    law_calendar_windows_partition_days(d1, span, w1);
    law_calendar_windows_partition_days(d2, span, w2);
    if w2 < w1 {
        assert((w2 + 1) * span <= w1 * span) by (nonlinear_arith)
            requires
                w2 + 1 <= w1,
                span > 0,
        ;
        lemma_month_start_monotone((w2 + 1) * span, w1 * span);
    }
    if w1 < w2 {
        assert((w1 + 1) * span < (w2 + 1) * span) by (nonlinear_arith)
            requires
                w1 < w2,
                span > 0,
        ;
        law_months_start_in_order((w1 + 1) * span, (w2 + 1) * span);
        assert(month_start((w1 + 1) * span) * (crate::types::NS_PER_DAY as int) < month_start((w2 + 1) * span)
            * (crate::types::NS_PER_DAY as int)) by (nonlinear_arith)
            requires
                month_start((w1 + 1) * span) < month_start((w2 + 1) * span),
        ;
    }
}

/// Counts records toward a bar every `every` records.
///
/// The record that reaches the count closes the bar it belongs to, and the
/// count starts again from zero.
#[derive(Debug, Clone, Copy, PartialEq, Eq)]
pub struct TickCount {
    every: u64,
    seen: u64,
}

impl TickCount {
    /// Records a bar holds.
    pub closed spec fn every(&self) -> nat {
        self.every as nat
    }

    /// Records counted toward the bar in progress.
    pub closed spec fn seen(&self) -> nat {
        self.seen as nat
    }

    #[verifier::type_invariant]
    spec fn counts_below_a_bar(&self) -> bool {
        self.seen < self.every
    }

    /// A counter for bars of `n` records; a count of zero counts as one.
    pub fn new(n: u64) -> (c: Self)
        ensures
            c.every() == if n == 0 {
                1
            } else {
                n
            },
            c.seen() == 0,
            c.seen() < c.every(),
    {
        TickCount { every: if n == 0 {
            1
        } else {
            n
        }, seen: 0 }
    }

    /// Count one record; `true` when it completes a bar, which restarts the
    /// count.
    pub fn count(&mut self) -> (crossed: bool)
        ensures
            final(self).every() == old(self).every(),
            crossed == (old(self).seen() + 1 == old(self).every()),
            final(self).seen() == if crossed {
                0
            } else {
                old(self).seen() + 1
            },
            old(self).seen() < old(self).every(),
            final(self).seen() < final(self).every(),
    {
        proof {
            use_type_invariant(&*self);
        }
        if self.seen + 1 >= self.every {
            self.seen = 0;
            true
        } else {
            self.seen = self.seen + 1;
            false
        }
    }

    /// Drop the bar in progress: the count starts again from zero.
    pub fn reset(&mut self)
        ensures
            final(self).every() == old(self).every(),
            final(self).seen() == 0,
            final(self).seen() < final(self).every(),
    {
        proof {
            use_type_invariant(&*self);
        }
        self.seen = 0;
    }
}

/// A tick counter emits a bar every `every` records: counting one record
/// when `k` have been counted since the counter started (seen is then
/// `k mod every`) leaves `(k + 1) mod every` seen, and completes a bar
/// exactly when `k + 1` is a multiple of `every`.
pub proof fn law_a_bar_every_n_records(every: int, k: int)
    requires
        every >= 1,
        k >= 0,
    ensures
        ({
            let seen = k % every;
            let crossed = seen + 1 == every;
            &&& crossed <==> (k + 1) % every == 0
            &&& (if crossed {
                0
            } else {
                seen + 1
            }) == (k + 1) % every
        }),
{
    vstd::arithmetic::div_mod::lemma_add_mod_noop(k, 1, every);
    vstd::arithmetic::div_mod::lemma_mod_bound(k, every);
    if every == 1 {
        vstd::arithmetic::div_mod::lemma_mod_self_0(1);
    } else {
        vstd::arithmetic::div_mod::lemma_small_mod(1, every as nat);
    }
    vstd::arithmetic::div_mod::lemma_mod_self_0(every);
    if k % every + 1 < every {
        vstd::arithmetic::div_mod::lemma_small_mod((k % every + 1) as nat, every as nat);
    }
}

} // verus!
