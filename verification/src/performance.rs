//! Compact exchange-local end-of-day performance sampling.
//!
//! The collector keeps only the last mark observed in each local trading
//! day, so reporting memory grows with days rather than bars. A mark's value
//! is carried, never computed on, so the collector is generic over it.
use vstd::prelude::*;

verus! {

/// Nanoseconds in one day.
pub const DAY_NS: i64 = 86_400_000_000_000;

/// `x` clamped to the `i64` range, as saturating arithmetic yields it.
pub open spec fn saturate(x: int) -> int {
    if x > i64::MAX {
        i64::MAX as int
    } else if x < i64::MIN {
        i64::MIN as int
    } else {
        x
    }
}

/// `a + b`, saturating at the `i64` bounds.
pub fn saturating_add(a: i64, b: i64) -> (sum: i64)
    ensures
        sum == saturate(a + b),
{
    match a.checked_add(b) {
        Some(v) => v,
        None => if b > 0 {
            i64::MAX
        } else {
            i64::MIN
        },
    }
}

/// `a - b`, saturating at the `i64` bounds.
pub fn saturating_sub(a: i64, b: i64) -> (difference: i64)
    ensures
        difference == saturate(a - b),
{
    match a.checked_sub(b) {
        Some(v) => v,
        None => if b < 0 {
            i64::MAX
        } else {
            i64::MIN
        },
    }
}

/// `a * DAY_NS`, saturating at the `i64` bounds.
fn saturating_days(a: i64) -> (ns: i64)
    ensures
        ns == saturate(a * DAY_NS),
{
    match a.checked_mul(DAY_NS) {
        Some(v) => v,
        None => {
            assert(a > 0 ==> a * DAY_NS > 0) by (nonlinear_arith);
            assert(a <= 0 ==> a * DAY_NS <= 0) by (nonlinear_arith);
            if a > 0 {
                i64::MAX
            } else {
                i64::MIN
            }
        },
    }
}

/// Whether a schedule's effective times strictly increase.
pub open spec fn schedule_sorted(s: Seq<(i64, i64)>) -> bool {
    forall|i: int, j: int| 0 <= i < j < s.len() ==> s[i].0 < s[j].0
}

/// The UTC offset of the latest of the first `n` transitions in effect at
/// `t`, or UTC before the first.
pub open spec fn offset_in_effect(s: Seq<(i64, i64)>, n: int, t: int) -> int
    decreases n,
{
    if n <= 0 {
        0
    } else if s[n - 1].0 <= t {
        s[n - 1].1 as int
    } else {
        offset_in_effect(s, n - 1, t)
    }
}

/// The UTC offset in effect at `t` under schedule `s`.
pub open spec fn offset_at(s: Seq<(i64, i64)>, t: int) -> int {
    offset_in_effect(s, s.len() as int, t)
}

/// The local trading day of UTC instant `t` under schedule `s`.
pub open spec fn local_day(s: Seq<(i64, i64)>, t: int) -> int {
    saturate(t + offset_at(s, t)) / (DAY_NS as int)
}

/// The marks a collector retains: the last mark of each run of marks that
/// fall on one local day.
pub open spec fn compacted<E>(s: Seq<(i64, i64)>, marks: Seq<(i64, E)>) -> Seq<(i64, E)>
    decreases marks.len(),
{
    if marks.len() == 0 {
        Seq::empty()
    } else if marks.len() == 1 {
        marks
    } else {
        let earlier = compacted(s, marks.drop_last());
        if local_day(s, marks.last().0 as int) == local_day(s, marks[marks.len() - 2].0 as int) {
            earlier.drop_last().push(marks.last())
        } else {
            earlier.push(marks.last())
        }
    }
}

/// Whether mark timestamps never decrease.
pub open spec fn marks_in_order<E>(marks: Seq<(i64, E)>) -> bool {
    forall|i: int, j: int| 0 <= i < j < marks.len() ==> marks[i].0 <= marks[j].0
}

/// Retained local-day closing marks: the last timestamp and value of each
/// local trading day observed.
pub struct DailyPerformance<E> {
    pub timestamps: Vec<i64>,
    pub equity: Vec<E>,
}

/// Streaming local-day compactor for monotonically increasing UTC timestamps.
pub struct DailyPerformanceCollector<E> {
    transitions: Vec<(i64, i64)>,
    transition_idx: usize,
    next_transition_utc: i64,
    offset_ns: i64,
    last_local_day: Option<i64>,
    next_local_boundary_utc: i64,
    /// The current local day's latest mark, once anything was observed.
    pending: Option<(i64, E)>,
    timestamps: Vec<i64>,
    equity: Vec<E>,
    /// Every mark observed, in order.
    marks: Ghost<Seq<(i64, E)>>,
}

/// Entries of `s` before `idx` are in effect at `t` and the rest are not:
/// then the offset in effect is the one `idx` points past.
proof fn lemma_offset_at_index(s: Seq<(i64, i64)>, idx: int, t: int)
    requires
        schedule_sorted(s),
        0 <= idx <= s.len(),
        forall|j: int| 0 <= j < idx ==> s[j].0 <= t,
        idx < s.len() ==> s[idx].0 > t,
    ensures
        offset_at(s, t) == if idx == 0 { 0 } else { s[idx - 1].1 as int },
{
    lemma_offset_in_effect_at_index(s, s.len() as int, idx, t);
}

proof fn lemma_offset_in_effect_at_index(s: Seq<(i64, i64)>, n: int, idx: int, t: int)
    requires
        schedule_sorted(s),
        0 <= idx <= n <= s.len(),
        forall|j: int| 0 <= j < idx ==> s[j].0 <= t,
        idx < s.len() ==> s[idx].0 > t,
    ensures
        offset_in_effect(s, n, t) == if idx == 0 { 0 } else { s[idx - 1].1 as int },
    decreases n,
{
    if n > idx {
        assert(s[n - 1].0 > t) by {
            if n - 1 > idx {
                assert(s[idx].0 < s[n - 1].0);
            }
        }
        lemma_offset_in_effect_at_index(s, n - 1, idx, t);
    } else if n > 0 {
        assert(s[n - 1].0 <= t);
    }
}

/// Within one local day, before its end and before the next transition, a
/// later instant still falls on that day.
proof fn lemma_same_local_day(t0: int, t: int, off: int, day: int, boundary: int)
    requires
        fits(t0),
        fits(t),
        fits(off),
        t0 <= t,
        day == saturate(t0 + off) / (DAY_NS as int),
        boundary == saturate(saturate((day + 1) * DAY_NS) - off),
        t < boundary,
    ensures
        saturate(t + off) / (DAY_NS as int) == day,
{
}

/// Whether `x` is an `i64`.
pub open spec fn fits(x: int) -> bool {
    i64::MIN <= x <= i64::MAX
}

impl<E: Copy> DailyPerformanceCollector<E> {
    /// The offset schedule, sorted by effective time without repeats.
    pub closed spec fn schedule(&self) -> Seq<(i64, i64)> {
        self.transitions@
    }

    /// Every mark observed so far.
    pub closed spec fn marks(&self) -> Seq<(i64, E)> {
        self.marks@
    }

    /// The marks already settled into whole local days.
    closed spec fn retained(&self) -> Seq<(i64, E)> {
        Seq::new(self.timestamps@.len(), |i: int| (self.timestamps@[i], self.equity@[i]))
    }

    /// The collector's invariant.
    pub closed spec fn wf(&self) -> bool {
        let s = self.transitions@;
        let marks = self.marks@;
        &&& schedule_sorted(s)
        &&& marks_in_order(marks)
        &&& self.transition_idx <= s.len()
        &&& self.next_transition_utc == if self.transition_idx < s.len() {
            s[self.transition_idx as int].0
        } else {
            i64::MAX
        }
        &&& self.offset_ns == if self.transition_idx == 0 {
            0
        } else {
            s[self.transition_idx - 1].1
        }
        &&& self.timestamps@.len() == self.equity@.len()
        &&& (marks.len() == 0 ==> {
            &&& self.transition_idx == 0
            &&& self.last_local_day is None
            &&& self.pending is None
            &&& self.timestamps@.len() == 0
        })
        &&& (marks.len() > 0 ==> {
            let last = marks.last();
            &&& forall|j: int| 0 <= j < self.transition_idx ==> s[j].0 <= last.0
            &&& self.transition_idx < s.len() ==> s[self.transition_idx as int].0 > last.0
            &&& self.last_local_day == Some(local_day(s, last.0 as int) as i64)
            &&& self.next_local_boundary_utc == saturate(
                saturate((local_day(s, last.0 as int) + 1) * DAY_NS) - self.offset_ns,
            )
            &&& self.pending == Some(last)
            &&& compacted(s, marks) == self.retained().push(last)
        })
    }

    /// Create a collector from `(effective_utc_ns, offset_ns)` transitions.
    ///
    /// The schedule is sorted by effective UTC timestamp, keeping one entry
    /// per timestamp. An empty schedule means UTC; timestamps preceding the
    /// first entry use UTC.
    pub fn new(transitions: Vec<(i64, i64)>) -> (c: Self)
        ensures
            c.wf(),
            c.marks().len() == 0,
            schedule_sorted(c.schedule()),
            forall|i: int| 0 <= i < c.schedule().len() ==> transitions@.contains(#[trigger] c.schedule()[i]),
            forall|i: int| 0 <= i < transitions@.len() ==> has_time(c.schedule(), (#[trigger] transitions@[i]).0),
    {
        let sorted = sorted_by_time(&transitions);
        let next_transition_utc = if sorted.len() > 0 {
            sorted[0].0
        } else {
            i64::MAX
        };
        DailyPerformanceCollector {
            transitions: sorted,
            transition_idx: 0,
            next_transition_utc,
            offset_ns: 0,
            last_local_day: None,
            next_local_boundary_utc: i64::MIN,
            pending: None,
            timestamps: Vec::new(),
            equity: Vec::new(),
            marks: Ghost(Seq::empty()),
        }
    }

    /// Record a mark, overwriting the current local day's prior mark.
    pub fn observe(&mut self, timestamp: i64, equity: E)
        requires
            old(self).wf(),
            old(self).marks().len() > 0 ==> old(self).marks().last().0 <= timestamp,
        ensures
            final(self).wf(),
            final(self).schedule() == old(self).schedule(),
            final(self).marks() == old(self).marks().push((timestamp, equity)),
    {
        let ghost s = self.transitions@;
        let ghost old_marks = self.marks@;
        let ghost new_marks = old_marks.push((timestamp, equity));
        proof {
            assert(new_marks.drop_last() =~= old_marks);
        }
        if self.last_local_day.is_some() && timestamp < self.next_local_boundary_utc && timestamp
            < self.next_transition_utc {
            // The usual path: another intraday bar.
            proof {
                let last = old_marks.last();
                lemma_offset_at_index(s, self.transition_idx as int, last.0 as int);
                lemma_offset_at_index(s, self.transition_idx as int, timestamp as int);
                lemma_same_local_day(
                    last.0 as int,
                    timestamp as int,
                    self.offset_ns as int,
                    local_day(s, last.0 as int),
                    self.next_local_boundary_utc as int,
                );
                assert(new_marks[new_marks.len() - 2] == last);
                assert(self.retained().push(last).drop_last() =~= self.retained());
            }
            self.pending = Some((timestamp, equity));
            self.marks = Ghost(new_marks);
            return;
        }
        let mut idx = self.transition_idx;
        let mut offset = self.offset_ns;
        while idx < self.transitions.len() && self.transitions[idx].0 <= timestamp
            invariant
                s == self.transitions@,
                schedule_sorted(s),
                idx <= s.len(),
                offset == if idx == 0 {
                    0
                } else {
                    s[idx - 1].1
                },
                forall|j: int| 0 <= j < idx ==> s[j].0 <= timestamp,
            decreases s.len() - idx,
        {
            offset = self.transitions[idx].1;
            idx = idx + 1;
        }
        self.transition_idx = idx;
        self.offset_ns = offset;
        self.next_transition_utc = if self.transition_idx < self.transitions.len() {
            self.transitions[self.transition_idx].0
        } else {
            i64::MAX
        };
        proof {
            lemma_offset_at_index(s, self.transition_idx as int, timestamp as int);
        }
        let local = match saturating_add(timestamp, self.offset_ns).checked_div_euclid(DAY_NS) {
            Some(d) => d,
            None => 0,
        };
        assert(local == local_day(s, timestamp as int));
        assert(local < i64::MAX);
        self.next_local_boundary_utc = saturating_sub(saturating_days(local + 1), self.offset_ns);
        match self.pending {
            Some(last) => {
                if self.last_local_day == Some(local) {
                    proof {
                        assert(new_marks[new_marks.len() - 2] == last);
                        assert(self.retained().push(last).drop_last() =~= self.retained());
                    }
                    self.pending = Some((timestamp, equity));
                } else {
                    let ghost before = self.retained();
                    self.timestamps.push(last.0);
                    self.equity.push(last.1);
                    proof {
                        assert(new_marks[new_marks.len() - 2] == last);
                        assert(self.retained() =~= before.push(last));
                    }
                    self.last_local_day = Some(local);
                    self.pending = Some((timestamp, equity));
                }
            },
            None => {
                proof {
                    assert(new_marks =~= seq![(timestamp, equity)]);
                    assert(self.retained() =~= Seq::<(i64, E)>::empty());
                }
                self.last_local_day = Some(local);
                self.pending = Some((timestamp, equity));
            },
        }
        self.marks = Ghost(new_marks);
    }

    /// Reconcile the last retained point after end-of-data settlement: the
    /// latest mark takes `equity` as its value.
    pub fn reconcile_final(&mut self, equity: E)
        requires
            old(self).wf(),
        ensures
            final(self).wf(),
            final(self).schedule() == old(self).schedule(),
            old(self).marks().len() == 0 ==> final(self).marks() == old(self).marks(),
            old(self).marks().len() > 0 ==> final(self).marks() == old(self).marks().update(
                old(self).marks().len() - 1,
                (old(self).marks().last().0, equity),
            ),
    {
        match self.pending {
            Some(last) => {
                let ghost s = self.transitions@;
                let ghost old_marks = self.marks@;
                let ghost new_marks = old_marks.update(old_marks.len() - 1, (last.0, equity));
                proof {
                    lemma_compacted_last_value(s, old_marks, equity);
                    assert(new_marks.last() == (last.0, equity));
                    assert(self.retained().push(last).drop_last() =~= self.retained());
                    assert(marks_in_order(new_marks)) by {
                        assert forall|i: int, j: int| 0 <= i < j < new_marks.len() implies new_marks[i].0
                            <= new_marks[j].0 by {
                            assert(old_marks[i].0 <= old_marks[j].0);
                        }
                    }
                }
                self.pending = Some((last.0, equity));
                self.marks = Ghost(new_marks);
            },
            None => {},
        }
    }

    /// The retained marks: the last mark of every local day observed.
    pub fn finish(self) -> (daily: DailyPerformance<E>)
        requires
            self.wf(),
        ensures
            daily.timestamps@.len() == compacted(self.schedule(), self.marks()).len(),
            daily.equity@.len() == compacted(self.schedule(), self.marks()).len(),
            forall|i: int|
                0 <= i < daily.timestamps@.len() ==> (#[trigger] daily.timestamps@[i], daily.equity@[i])
                    == compacted(self.schedule(), self.marks())[i],
    {
        let ghost retained = self.retained();
        let mut timestamps = self.timestamps;
        let mut equity = self.equity;
        match self.pending {
            Some(last) => {
                timestamps.push(last.0);
                equity.push(last.1);
                proof {
                    assert forall|i: int| 0 <= i < timestamps@.len() implies (#[trigger] timestamps@[i], equity@[i])
                        == retained.push(last)[i] by {}
                }
            },
            None => {},
        }
        DailyPerformance { timestamps, equity }
    }
}

/// Replacing the value of the latest mark replaces the value of the last
/// retained mark and nothing else.
proof fn lemma_compacted_last_value<E>(s: Seq<(i64, i64)>, marks: Seq<(i64, E)>, value: E)
    requires
        marks.len() > 0,
    ensures
        compacted(s, marks.update(marks.len() - 1, (marks.last().0, value))) == compacted(s, marks).drop_last().push(
            (marks.last().0, value),
        ),
        compacted(s, marks).len() > 0,
        compacted(s, marks).last() == marks.last(),
    decreases marks.len(),
{
    let updated = marks.update(marks.len() - 1, (marks.last().0, value));
    if marks.len() == 1 {
        assert(compacted(s, marks).drop_last().push((marks.last().0, value)) =~= updated);
    } else {
        assert(updated.drop_last() =~= marks.drop_last());
        lemma_compacted_nonempty(s, marks.drop_last());
    }
}

proof fn lemma_compacted_nonempty<E>(s: Seq<(i64, i64)>, marks: Seq<(i64, E)>)
    requires
        marks.len() > 0,
    ensures
        compacted(s, marks).len() > 0,
        compacted(s, marks).last() == marks.last(),
    decreases marks.len(),
{
    if marks.len() > 1 {
        lemma_compacted_nonempty(s, marks.drop_last());
    }
}

/// Whether time `t` comes after `after` (every time does when it is `None`).
pub open spec fn comes_after(t: i64, after: Option<i64>) -> bool {
    match after {
        Some(a) => t > a,
        None => true,
    }
}

/// Index of the earliest-listed entry with the smallest time after `after`
/// (any time when `after` is `None`), if there is one.
fn earliest_after(list: &Vec<(i64, i64)>, after: Option<i64>) -> (best: Option<usize>)
    ensures
        match best {
            None => forall|k: int| 0 <= k < list@.len() ==> !comes_after((#[trigger] list@[k]).0, after),
            Some(b) => {
                &&& b < list@.len()
                &&& comes_after(list@[b as int].0, after)
                &&& forall|k: int|
                    0 <= k < list@.len() && comes_after((#[trigger] list@[k]).0, after) ==> list@[b as int].0
                        <= list@[k].0
            },
        },
{
    let n = list.len();
    let mut best: Option<usize> = None;
    let mut i: usize = 0;
    while i < n
        invariant
            n == list@.len(),
            i <= n,
            match best {
                None => forall|k: int| 0 <= k < i ==> !comes_after((#[trigger] list@[k]).0, after),
                Some(b) => {
                    &&& b < i
                    &&& comes_after(list@[b as int].0, after)
                    &&& forall|k: int|
                        0 <= k < i && comes_after((#[trigger] list@[k]).0, after) ==> list@[b as int].0
                            <= list@[k].0
                },
            },
        decreases n - i,
    {
        let t = list[i].0;
        let eligible = match after {
            Some(a) => t > a,
            None => true,
        };
        if eligible {
            match best {
                Some(b) => {
                    if t < list[b].0 {
                        best = Some(i);
                    }
                },
                None => {
                    best = Some(i);
                },
            }
        }
        i = i + 1;
    }
    best
}

/// Whether some entry of `s` takes effect at `t`.
pub open spec fn has_time(s: Seq<(i64, i64)>, t: i64) -> bool {
    exists|j: int| 0 <= j < s.len() && #[trigger] s[j].0 == t
}

/// One entry per effective time, in order of effective time; of entries
/// sharing a time, the first one listed is kept.
fn sorted_by_time(transitions: &Vec<(i64, i64)>) -> (sorted: Vec<(i64, i64)>)
    ensures
        schedule_sorted(sorted@),
        forall|i: int| 0 <= i < sorted@.len() ==> transitions@.contains(#[trigger] sorted@[i]),
        forall|i: int| 0 <= i < transitions@.len() ==> has_time(sorted@, (#[trigger] transitions@[i]).0),
{
    let n = transitions.len();
    let mut sorted: Vec<(i64, i64)> = Vec::new();
    let mut last: Option<i64> = None;
    loop
        invariant
            n == transitions@.len(),
            schedule_sorted(sorted@),
            last is None <==> sorted@.len() == 0,
            last is Some ==> last->0 == sorted@.last().0,
            forall|i: int| 0 <= i < sorted@.len() ==> transitions@.contains(#[trigger] sorted@[i]),
            // Every listed time up to the last one taken has been taken.
            last is Some ==> forall|i: int|
                0 <= i < n && (#[trigger] transitions@[i]).0 <= last->0 ==> has_time(sorted@, transitions@[i].0),
            sorted@.len() <= n,
        decreases n - sorted@.len(),
    {
        let found = earliest_after(transitions, last);
        match found {
            Some(b) => {
                let ghost before = sorted@;
                proof {
                    assert(transitions@.contains(transitions@[b as int]));
                    assert(before.len() < n) by {
                        lemma_distinct_times_fit(transitions@, before);
                    }
                }
                sorted.push(transitions[b]);
                last = Some(transitions[b].0);
                proof {
                    assert(sorted@ == before.push(transitions@[b as int]));
                    assert forall|i: int| 0 <= i < sorted@.len() implies transitions@.contains(
                        #[trigger] sorted@[i],
                    ) by {
                        if i < before.len() {
                            assert(sorted@[i] == before[i]);
                        }
                    }
                    assert forall|i: int| 0 <= i < n && (#[trigger] transitions@[i]).0 <= last->0 implies has_time(
                        sorted@,
                        transitions@[i].0,
                    ) by {
                        if before.len() > 0 && transitions@[i].0 <= before.last().0 {
                            let j = choose|j: int| 0 <= j < before.len() && #[trigger] before[j].0 == transitions@[i].0;
                            assert(sorted@[j] == before[j]);
                        } else {
                            assert(sorted@[before.len() as int] == transitions@[b as int]);
                        }
                    }
                }
            },
            None => {
                return sorted;
            },
        }
    }
}

/// A strictly increasing run of times drawn from a list is no longer than
/// the list.
proof fn lemma_distinct_times_fit(list: Seq<(i64, i64)>, taken: Seq<(i64, i64)>)
    requires
        schedule_sorted(taken),
        forall|i: int| 0 <= i < taken.len() ==> list.contains(#[trigger] taken[i]),
        exists|k: int| 0 <= k < list.len() && (taken.len() == 0 || list[k].0 > taken.last().0),
    ensures
        taken.len() < list.len(),
{
    let times = taken.map_values(|p: (i64, i64)| p.0);
    let pool = list.map_values(|p: (i64, i64)| p.0);
    assert forall|i: int, j: int| 0 <= i < j < times.len() implies times[i] != times[j] by {}
    assert(times.no_duplicates());
    if taken.len() > 0 {
        let k = choose|k: int| 0 <= k < list.len() && list[k].0 > taken.last().0;
        let extra = times.push(list[k].0);
        assert forall|i: int, j: int| 0 <= i < j < extra.len() implies extra[i] != extra[j] by {
            if j == times.len() {
                assert(taken[i].0 <= taken.last().0);
            }
        }
        assert forall|i: int| 0 <= i < extra.len() implies pool.contains(#[trigger] extra[i]) by {
            if i < times.len() {
                let w = choose|w: int| 0 <= w < list.len() && list[w] == taken[i];
                assert(pool[w] == extra[i]);
            } else {
                assert(pool[k] == extra[i]);
            }
        }
        extra.unique_seq_to_set();
        pool.lemma_cardinality_of_set();
        vstd::seq_lib::seq_to_set_is_finite(pool);
        assert(extra.to_set().subset_of(pool.to_set())) by {
            assert forall|x: i64| extra.to_set().contains(x) implies pool.to_set().contains(x) by {
                let i = choose|i: int| 0 <= i < extra.len() && extra[i] == x;
                assert(pool.contains(extra[i]));
            }
        }
        vstd::set_lib::lemma_len_subset(extra.to_set(), pool.to_set());
    }
}


/// Whether the `i`th mark closes its local day: it is the latest mark, or
/// the next mark falls on another local day.
pub open spec fn closes_its_day<E>(s: Seq<(i64, i64)>, marks: Seq<(i64, E)>, i: int) -> bool {
    i == marks.len() - 1 || local_day(s, marks[i + 1].0 as int) != local_day(s, marks[i].0 as int)
}

/// Positions of the marks a collector retains.
pub open spec fn retained_positions<E>(s: Seq<(i64, i64)>, marks: Seq<(i64, E)>) -> Seq<int>
    decreases marks.len(),
{
    if marks.len() == 0 {
        Seq::empty()
    } else if marks.len() == 1 {
        seq![0int]
    } else {
        let earlier = retained_positions(s, marks.drop_last());
        if local_day(s, marks.last().0 as int) == local_day(s, marks[marks.len() - 2].0 as int) {
            earlier.drop_last().push(marks.len() - 1)
        } else {
            earlier.push(marks.len() - 1)
        }
    }
}

/// The collector keeps exactly the last mark of every local day: its
/// retained marks are the observed marks at strictly increasing positions,
/// and a mark is among them exactly when it is the latest mark or the next
/// mark falls on another local day.
pub proof fn law_keeps_the_last_mark_of_each_day<E>(s: Seq<(i64, i64)>, marks: Seq<(i64, E)>)
    ensures
        ({
            let kept = retained_positions(s, marks);
            let out = compacted(s, marks);
            &&& out.len() == kept.len()
            &&& forall|k: int| 0 <= k < kept.len() ==> 0 <= #[trigger] kept[k] < marks.len() && out[k]
                == marks[kept[k]]
            &&& forall|a: int, b: int| 0 <= a < b < kept.len() ==> kept[a] < kept[b]
            &&& forall|i: int| 0 <= i < marks.len() ==> (kept.contains(i) <==> closes_its_day(s, marks, i))
            &&& marks.len() > 0 ==> kept.len() > 0 && kept.last() == marks.len() - 1
        }),
    decreases marks.len(),
{
    let n = marks.len() as int;
    let kept = retained_positions(s, marks);
    if n == 1 {
        assert(kept =~= seq![0int]);
        assert(kept[0] == 0);
        assert(kept.contains(0));
    } else if n > 1 {
        let prefix = marks.drop_last();
        law_keeps_the_last_mark_of_each_day(s, prefix);
        let earlier = retained_positions(s, prefix);
        let same = local_day(s, marks.last().0 as int) == local_day(s, marks[n - 2].0 as int);
        assert forall|i: int| 0 <= i < n - 1 implies #[trigger] prefix[i] == marks[i] by {}
        assert forall|i: int| 0 <= i < n - 2 implies (closes_its_day(s, prefix, i) == closes_its_day(s, marks, i)) by {
            assert(prefix[i + 1] == marks[i + 1]);
        }
        if same {
            assert(kept == earlier.drop_last().push(n - 1));
            assert forall|i: int| 0 <= i < n implies (kept.contains(i) <==> closes_its_day(s, marks, i)) by {
                if i == n - 1 {
                    assert(kept[kept.len() - 1] == n - 1);
                } else if i == n - 2 {
                    if kept.contains(i) {
                        let k = choose|k: int| 0 <= k < kept.len() && kept[k] == i;
                        if k < kept.len() - 1 {
                            assert(earlier[k] < earlier[earlier.len() - 1]);
                        }
                    }
                } else {
                    if earlier.contains(i) {
                        let k = choose|k: int| 0 <= k < earlier.len() && earlier[k] == i;
                        assert(k < earlier.len() - 1);
                        assert(kept[k] == i);
                    }
                    if kept.contains(i) {
                        let k = choose|k: int| 0 <= k < kept.len() && kept[k] == i;
                        assert(earlier[k] == i);
                    }
                }
            }
        } else {
            assert(kept == earlier.push(n - 1));
            assert forall|i: int| 0 <= i < n implies (kept.contains(i) <==> closes_its_day(s, marks, i)) by {
                if i == n - 1 {
                    assert(kept[kept.len() - 1] == n - 1);
                } else {
                    if earlier.contains(i) {
                        let k = choose|k: int| 0 <= k < earlier.len() && earlier[k] == i;
                        assert(kept[k] == i);
                    }
                    if kept.contains(i) {
                        let k = choose|k: int| 0 <= k < kept.len() && kept[k] == i;
                        assert(earlier[k] == i);
                    }
                }
            }
        }
    }
}

/// Two consecutive retained marks never fall on the same local day.
pub proof fn law_retained_marks_close_different_days<E>(s: Seq<(i64, i64)>, marks: Seq<(i64, E)>, k: int)
    requires
        0 <= k < compacted(s, marks).len() - 1,
    ensures
        local_day(s, compacted(s, marks)[k].0 as int) != local_day(s, compacted(s, marks)[k + 1].0 as int),
    decreases marks.len(),
{
    let n = marks.len() as int;
    let prefix = marks.drop_last();
    if n > 1 {
        lemma_compacted_nonempty(s, prefix);
        let earlier = compacted(s, prefix);
        let same = local_day(s, marks.last().0 as int) == local_day(s, marks[n - 2].0 as int);
        assert(prefix.last() == marks[n - 2]);
        if same {
            // The new mark replaces the last retained one, on the same day.
            law_retained_marks_close_different_days(s, prefix, k);
        } else {
            if k < earlier.len() - 1 {
                law_retained_marks_close_different_days(s, prefix, k);
            }
        }
    }
}

} // verus!
