//! Signal processor for cleaning entry/exit signals.
//!
//! Ensures proper alternation between entries and exits to prevent
//! overlapping positions or orphaned signals.
use vstd::prelude::*;

use crate::types::{direction_code, Direction};

verus! {

/// Signal processor for cleaning raw entry/exit signals.
#[derive(Debug, Clone, Copy)]
pub struct SignalProcessor {
    /// Whether to allow multiple entries before an exit (pyramiding).
    pub allow_pyramiding: bool,
    /// Maximum number of pyramid entries.
    pub max_pyramid_entries: usize,
}

// ---------------------------------------------------------------------------
// The cleaning rules, one bar at a time.
// ---------------------------------------------------------------------------

/// One bar of single-sided cleaning.
///
/// `open` is the number of entries still open before the bar. The result is
/// the number open after it, and whether the bar's entry and exit survive.
pub open spec fn clean_step(p: SignalProcessor, open: nat, entry: bool, exit: bool) -> (nat, bool, bool) {
    if open == 0 {
        // Flat: an entry opens, an exit has nothing to close.
        if entry { (1, true, false) } else { (0, false, false) }
    } else if exit && !entry {
        // An exit closes one pyramid layer, or the whole position.
        (if p.allow_pyramiding { (open - 1) as nat } else { 0 }, false, true)
    } else if entry && p.allow_pyramiding && open < p.max_pyramid_entries {
        (open + 1, true, false)
    } else {
        // A same-bar entry outranks the exit; a duplicate entry is dropped.
        (open, false, false)
    }
}

/// Entries still open before bar `i` of a single-sided run.
pub open spec fn open_before(p: SignalProcessor, entries: Seq<bool>, exits: Seq<bool>, i: int) -> nat
    decreases i,
{
    if i <= 0 {
        0
    } else {
        clean_step(p, open_before(p, entries, exits, i - 1), entries[i - 1], exits[i - 1]).0
    }
}

/// Whether the entry on bar `i` survives single-sided cleaning.
pub open spec fn kept_entry(p: SignalProcessor, entries: Seq<bool>, exits: Seq<bool>, i: int) -> bool {
    clean_step(p, open_before(p, entries, exits, i), entries[i], exits[i]).1
}

/// Whether the exit on bar `i` survives single-sided cleaning.
pub open spec fn kept_exit(p: SignalProcessor, entries: Seq<bool>, exits: Seq<bool>, i: int) -> bool {
    clean_step(p, open_before(p, entries, exits, i), entries[i], exits[i]).2
}

/// The direction a signed entry asks for: `1` is long, `-1` short, and any
/// other code takes the run's fallback.
pub open spec fn wanted_direction(code: i8, fallback: Direction) -> Direction {
    if code == 1 {
        Direction::Long
    } else if code == -1 {
        Direction::Short
    } else {
        fallback
    }
}

/// One bar of signed cleaning.
///
/// The state is the side held and the number of entries open on it. An
/// entry against the side held is a reversal: the whole position closes and
/// one entry opens on the other side, on one bar. Everything else follows
/// [`clean_step`] on the side held, pyramiding included. The result is the
/// side and count after the bar, whether the entry and the exit survive, and
/// the direction code the surviving entry opens in.
pub open spec fn signed_step(
    p: SignalProcessor,
    held: Option<Direction>,
    open: nat,
    entry: bool,
    exit: bool,
    wanted: Direction,
) -> (Option<Direction>, nat, bool, bool, int) {
    match held {
        None => if entry {
            (Some(wanted), 1, true, false, direction_code(wanted))
        } else {
            (None, 0, false, false, 0)
        },
        Some(side) => if entry && wanted != side {
            // Reversal: close this side and open the other, on one bar.
            (Some(wanted), 1, true, true, direction_code(wanted))
        } else {
            let s = clean_step(p, open, entry, exit);
            (
                if s.0 == 0 {
                    None
                } else {
                    Some(side)
                },
                s.0,
                s.1,
                s.2,
                if s.1 {
                    direction_code(side)
                } else {
                    0
                },
            )
        },
    }
}

/// Side held, and entries open on it, before bar `i` of a signed run.
pub open spec fn held_before(
    p: SignalProcessor,
    entries: Seq<bool>,
    exits: Seq<bool>,
    directions: Seq<i8>,
    fallback: Direction,
    i: int,
) -> (Option<Direction>, nat)
    decreases i,
{
    if i <= 0 {
        (None, 0)
    } else {
        let before = held_before(p, entries, exits, directions, fallback, i - 1);
        let s = signed_step(
            p,
            before.0,
            before.1,
            entries[i - 1],
            exits[i - 1],
            wanted_direction(directions[i - 1], fallback),
        );
        (s.0, s.1)
    }
}

/// The signed step taken on bar `i`.
pub open spec fn signed_at(
    p: SignalProcessor,
    entries: Seq<bool>,
    exits: Seq<bool>,
    directions: Seq<i8>,
    fallback: Direction,
    i: int,
) -> (Option<Direction>, nat, bool, bool, int) {
    let before = held_before(p, entries, exits, directions, fallback, i);
    signed_step(p, before.0, before.1, entries[i], exits[i], wanted_direction(directions[i], fallback))
}

/// What one bar of two-sided cleaning keeps.
pub struct BiKept {
    pub long_entry: bool,
    pub long_exit: bool,
    pub short_entry: bool,
    pub short_exit: bool,
}

/// One bar of two-sided cleaning: the side held after it, and what survives.
pub open spec fn bi_step(
    held: Option<Direction>,
    long_entry: bool,
    long_exit: bool,
    short_entry: bool,
    short_exit: bool,
) -> (Option<Direction>, BiKept) {
    match held {
        None => if long_entry {
            (Some(Direction::Long), BiKept { long_entry: true, long_exit: false, short_entry: false, short_exit: false })
        } else if short_entry {
            (Some(Direction::Short), BiKept { long_entry: false, long_exit: false, short_entry: true, short_exit: false })
        } else {
            (None, BiKept { long_entry: false, long_exit: false, short_entry: false, short_exit: false })
        },
        Some(Direction::Long) => if long_exit {
            (None, BiKept { long_entry: false, long_exit: true, short_entry: false, short_exit: false })
        } else if short_entry {
            (Some(Direction::Short), BiKept { long_entry: false, long_exit: true, short_entry: true, short_exit: false })
        } else {
            (held, BiKept { long_entry: false, long_exit: false, short_entry: false, short_exit: false })
        },
        Some(Direction::Short) => if short_exit {
            (None, BiKept { long_entry: false, long_exit: false, short_entry: false, short_exit: true })
        } else if long_entry {
            (Some(Direction::Long), BiKept { long_entry: true, long_exit: false, short_entry: false, short_exit: true })
        } else {
            (held, BiKept { long_entry: false, long_exit: false, short_entry: false, short_exit: false })
        },
    }
}

/// Side held before bar `i` of a two-sided run.
pub open spec fn bi_held_before(
    long_entries: Seq<bool>,
    long_exits: Seq<bool>,
    short_entries: Seq<bool>,
    short_exits: Seq<bool>,
    i: int,
) -> Option<Direction>
    decreases i,
{
    if i <= 0 {
        None
    } else {
        bi_step(
            bi_held_before(long_entries, long_exits, short_entries, short_exits, i - 1),
            long_entries[i - 1],
            long_exits[i - 1],
            short_entries[i - 1],
            short_exits[i - 1],
        ).0
    }
}

/// What two-sided cleaning keeps on bar `i`.
pub open spec fn bi_kept(
    long_entries: Seq<bool>,
    long_exits: Seq<bool>,
    short_entries: Seq<bool>,
    short_exits: Seq<bool>,
    i: int,
) -> BiKept {
    bi_step(
        bi_held_before(long_entries, long_exits, short_entries, short_exits, i),
        long_entries[i],
        long_exits[i],
        short_entries[i],
        short_exits[i],
    ).1
}

/// Number of set flags in `s`.
pub open spec fn count_true(s: Seq<bool>) -> nat
    decreases s.len(),
{
    if s.len() == 0 {
        0
    } else {
        count_true(s.drop_last()) + if s.last() { 1nat } else { 0nat }
    }
}

/// `len` flags, all clear.
fn all_clear(len: usize) -> (flags: Vec<bool>)
    ensures
        flags@.len() == len,
        forall|i: int| 0 <= i < len ==> !flags@[i],
{
    let mut flags: Vec<bool> = Vec::with_capacity(len);
    let mut i: usize = 0;
    while i < len
        invariant
            i <= len,
            flags@.len() == i,
            forall|j: int| 0 <= j < i ==> !flags@[j],
        decreases len - i,
    {
        flags.push(false);
        i = i + 1;
    }
    flags
}

/// `len` flags, all set.
fn all_set(len: usize) -> (flags: Vec<bool>)
    ensures
        flags@.len() == len,
        forall|i: int| 0 <= i < len ==> flags@[i],
{
    let mut flags: Vec<bool> = Vec::with_capacity(len);
    let mut i: usize = 0;
    while i < len
        invariant
            i <= len,
            flags@.len() == i,
            forall|j: int| 0 <= j < i ==> flags@[j],
        decreases len - i,
    {
        flags.push(true);
        i = i + 1;
    }
    flags
}

/// The flags of `s`, copied into a vector.
fn copy_flags(s: &[bool]) -> (flags: Vec<bool>)
    ensures
        flags@ == s@,
{
    let mut flags: Vec<bool> = Vec::with_capacity(s.len());
    let mut i: usize = 0;
    while i < s.len()
        invariant
            i <= s@.len(),
            flags@ == s@.take(i as int),
        decreases s@.len() - i,
    {
        flags.push(s[i]);
        i = i + 1;
        assert(flags@ =~= s@.take(i as int));
    }
    assert(s@.take(s@.len() as int) =~= s@);
    flags
}

impl Default for SignalProcessor {
    fn default() -> (p: Self)
        ensures
            !p.allow_pyramiding,
            p.max_pyramid_entries == 1,
    {
        SignalProcessor { allow_pyramiding: false, max_pyramid_entries: 1 }
    }
}

impl SignalProcessor {
    /// Create a new signal processor: no pyramiding, one entry at a time.
    pub fn new() -> (p: Self)
        ensures
            !p.allow_pyramiding,
            p.max_pyramid_entries == 1,
    {
        SignalProcessor { allow_pyramiding: false, max_pyramid_entries: 1 }
    }

    /// Enable pyramiding with a maximum number of entries.
    ///
    /// Pyramiding is on only when more than one entry may be open.
    pub fn with_pyramiding(self, max_entries: usize) -> (p: Self)
        ensures
            p.allow_pyramiding == (max_entries > 1),
            p.max_pyramid_entries == max_entries,
    {
        let mut p = self;
        p.allow_pyramiding = max_entries > 1;
        p.max_pyramid_entries = max_entries;
        p
    }

    /// Clean entry/exit signals to ensure proper alternation.
    ///
    /// Rules:
    /// 1. First signal must be an entry
    /// 2. After an entry, ignore further entries (unless pyramiding)
    /// 3. After an exit, ignore further exits
    /// 4. Entries and exits must alternate properly
    /// 5. Same-bar conflict: If both entry AND exit signals are True on the same bar
    ///    when in position, entry takes priority — stay in position (ignore the exit).
    ///
    /// Returns the cleaned entries and the cleaned exits.
    pub fn clean_signals(&self, entries: &[bool], exits: &[bool]) -> (result: (Vec<bool>, Vec<bool>))
        requires
            entries@.len() == exits@.len(),
        ensures
            result.0@.len() == entries@.len(),
            result.1@.len() == entries@.len(),
            forall|i: int| 0 <= i < entries@.len() ==>
                #[trigger] result.0@[i] == kept_entry(*self, entries@, exits@, i),
            forall|i: int| 0 <= i < entries@.len() ==>
                #[trigger] result.1@[i] == kept_exit(*self, entries@, exits@, i),
    {
        let n = entries.len();
        let mut clean_entries = all_clear(n);
        let mut clean_exits = all_clear(n);

        let mut in_position = false;
        let mut position_count: usize = 0;

        let mut i: usize = 0;
        while i < n
            invariant
                n == entries@.len(),
                n == exits@.len(),
                i <= n,
                clean_entries@.len() == n,
                clean_exits@.len() == n,
                position_count == open_before(*self, entries@, exits@, i as int),
                in_position == (position_count > 0),
                forall|j: int| 0 <= j < i ==>
                    #[trigger] clean_entries@[j] == kept_entry(*self, entries@, exits@, j),
                forall|j: int| 0 <= j < i ==>
                    #[trigger] clean_exits@[j] == kept_exit(*self, entries@, exits@, j),
                forall|j: int| i <= j < n ==> !#[trigger] clean_entries@[j],
                forall|j: int| i <= j < n ==> !#[trigger] clean_exits@[j],
            decreases n - i,
        {
            if !in_position {
                // Not in position: looking for an entry; exits are ignored.
                if entries[i] {
                    clean_entries.set(i, true);
                    in_position = true;
                    position_count = 1;
                }
            } else {
                // In position: looking for an exit, or a pyramid entry.
                if exits[i] && !entries[i] {
                    // Only exit when no entry shares the bar.
                    clean_exits.set(i, true);
                    if self.allow_pyramiding {
                        position_count = position_count - 1;
                        if position_count == 0 {
                            in_position = false;
                        }
                    } else {
                        in_position = false;
                        position_count = 0;
                    }
                } else if entries[i] && self.allow_pyramiding && position_count
                    < self.max_pyramid_entries {
                    clean_entries.set(i, true);
                    position_count = position_count + 1;
                }
            }
            i = i + 1;
        }

        (clean_entries, clean_exits)
    }

    /// Clean entry/exit signals whose entries name their own direction.
    ///
    /// This is [`Self::clean_signals`] for a two-sided run. It keeps that
    /// method's alternation and pyramiding rules and adds the one case a
    /// single-sided run cannot express: an entry arriving against the open
    /// position's direction is a reversal, and closes the whole position and
    /// opens the other side on the same bar.
    ///
    /// `directions` carries `1`/`-1` per bar and is read only where `entries`
    /// is set; a bar whose direction names neither side takes `fallback`, so
    /// a caller that leaves the array zeroed gets `clean_signals` back.
    ///
    /// Returns the cleaned entries, the cleaned exits, and the direction each
    /// surviving entry opens in.
    pub fn clean_signals_signed(
        &self,
        entries: &[bool],
        exits: &[bool],
        directions: &[i8],
        fallback: Direction,
    ) -> (result: (Vec<bool>, Vec<bool>, Vec<i8>))
        requires
            entries@.len() == exits@.len(),
            entries@.len() == directions@.len(),
        ensures
            result.0@.len() == entries@.len(),
            result.1@.len() == entries@.len(),
            result.2@.len() == entries@.len(),
            forall|i: int| 0 <= i < entries@.len() ==>
                #[trigger] result.0@[i] == signed_at(*self, entries@, exits@, directions@, fallback, i).2,
            forall|i: int| 0 <= i < entries@.len() ==>
                #[trigger] result.1@[i] == signed_at(*self, entries@, exits@, directions@, fallback, i).3,
            forall|i: int| 0 <= i < entries@.len() ==>
                #[trigger] result.2@[i] == signed_at(*self, entries@, exits@, directions@, fallback, i).4,
    {
        let n = entries.len();
        let mut clean_entries = all_clear(n);
        let mut clean_exits = all_clear(n);
        let mut clean_directions: Vec<i8> = Vec::with_capacity(n);

        let mut held: Option<Direction> = None;
        let mut open: usize = 0;

        let mut i: usize = 0;
        while i < n
            invariant
                n == entries@.len(),
                n == exits@.len(),
                n == directions@.len(),
                i <= n,
                clean_entries@.len() == n,
                clean_exits@.len() == n,
                clean_directions@.len() == i,
                (held, open as nat) == held_before(*self, entries@, exits@, directions@, fallback, i as int),
                held is None <==> open == 0,
                forall|j: int| 0 <= j < i ==>
                    #[trigger] clean_entries@[j] == signed_at(*self, entries@, exits@, directions@, fallback, j).2,
                forall|j: int| 0 <= j < i ==>
                    #[trigger] clean_exits@[j] == signed_at(*self, entries@, exits@, directions@, fallback, j).3,
                forall|j: int| 0 <= j < i ==>
                    #[trigger] clean_directions@[j] == signed_at(*self, entries@, exits@, directions@, fallback, j).4,
                forall|j: int| i <= j < n ==> !#[trigger] clean_entries@[j],
                forall|j: int| i <= j < n ==> !#[trigger] clean_exits@[j],
            decreases n - i,
        {
            let wanted = match Direction::from_int(directions[i] as i32) {
                Some(d) => d,
                None => fallback,
            };
            let mut code: i8 = 0;
            match held {
                None => {
                    // Flat: an entry opens, and an exit has nothing to close.
                    if entries[i] {
                        clean_entries.set(i, true);
                        code = wanted.to_i8();
                        held = Some(wanted);
                        open = 1;
                    }
                },
                Some(side) => {
                    if entries[i] && wanted != side {
                        // Reversal: close this side and open the other, on one bar.
                        clean_exits.set(i, true);
                        clean_entries.set(i, true);
                        code = wanted.to_i8();
                        held = Some(wanted);
                        open = 1;
                    } else if exits[i] && !entries[i] {
                        // An exit closes one pyramid layer, or the whole position.
                        clean_exits.set(i, true);
                        if self.allow_pyramiding {
                            open = open - 1;
                        } else {
                            open = 0;
                        }
                        if open == 0 {
                            held = None;
                        }
                    } else if entries[i] && self.allow_pyramiding && open < self.max_pyramid_entries {
                        // A same-side entry adds a pyramid layer.
                        clean_entries.set(i, true);
                        code = side.to_i8();
                        open = open + 1;
                    }
                    // Otherwise a same-side entry keeps the position, even
                    // when an exit shares the bar.
                },
            }
            clean_directions.push(code);
            i = i + 1;
        }

        (clean_entries, clean_exits, clean_directions)
    }

    /// Clean signals with direction awareness (for strategies that can go
    /// long/short).
    ///
    /// Returns (clean_long_entries, clean_long_exits, clean_short_entries,
    /// clean_short_exits).
    pub fn clean_signals_bidirectional(
        &self,
        long_entries: &[bool],
        long_exits: &[bool],
        short_entries: &[bool],
        short_exits: &[bool],
    ) -> (result: (Vec<bool>, Vec<bool>, Vec<bool>, Vec<bool>))
        requires
            long_exits@.len() == long_entries@.len(),
            short_entries@.len() == long_entries@.len(),
            short_exits@.len() == long_entries@.len(),
        ensures
            result.0@.len() == long_entries@.len(),
            result.1@.len() == long_entries@.len(),
            result.2@.len() == long_entries@.len(),
            result.3@.len() == long_entries@.len(),
            forall|i: int| 0 <= i < long_entries@.len() ==>
                #[trigger] result.0@[i] == bi_kept(long_entries@, long_exits@, short_entries@, short_exits@, i).long_entry,
            forall|i: int| 0 <= i < long_entries@.len() ==>
                #[trigger] result.1@[i] == bi_kept(long_entries@, long_exits@, short_entries@, short_exits@, i).long_exit,
            forall|i: int| 0 <= i < long_entries@.len() ==>
                #[trigger] result.2@[i] == bi_kept(long_entries@, long_exits@, short_entries@, short_exits@, i).short_entry,
            forall|i: int| 0 <= i < long_entries@.len() ==>
                #[trigger] result.3@[i] == bi_kept(long_entries@, long_exits@, short_entries@, short_exits@, i).short_exit,
    {
        let n = long_entries.len();
        let mut clean_long_entries = all_clear(n);
        let mut clean_long_exits = all_clear(n);
        let mut clean_short_entries = all_clear(n);
        let mut clean_short_exits = all_clear(n);

        let mut current: Option<Direction> = None;

        let mut i: usize = 0;
        while i < n
            invariant
                n == long_entries@.len(),
                n == long_exits@.len(),
                n == short_entries@.len(),
                n == short_exits@.len(),
                i <= n,
                clean_long_entries@.len() == n,
                clean_long_exits@.len() == n,
                clean_short_entries@.len() == n,
                clean_short_exits@.len() == n,
                current == bi_held_before(long_entries@, long_exits@, short_entries@, short_exits@, i as int),
                forall|j: int| 0 <= j < i ==>
                    #[trigger] clean_long_entries@[j] == bi_kept(long_entries@, long_exits@, short_entries@, short_exits@, j).long_entry,
                forall|j: int| 0 <= j < i ==>
                    #[trigger] clean_long_exits@[j] == bi_kept(long_entries@, long_exits@, short_entries@, short_exits@, j).long_exit,
                forall|j: int| 0 <= j < i ==>
                    #[trigger] clean_short_entries@[j] == bi_kept(long_entries@, long_exits@, short_entries@, short_exits@, j).short_entry,
                forall|j: int| 0 <= j < i ==>
                    #[trigger] clean_short_exits@[j] == bi_kept(long_entries@, long_exits@, short_entries@, short_exits@, j).short_exit,
                forall|j: int| i <= j < n ==> !#[trigger] clean_long_entries@[j],
                forall|j: int| i <= j < n ==> !#[trigger] clean_long_exits@[j],
                forall|j: int| i <= j < n ==> !#[trigger] clean_short_entries@[j],
                forall|j: int| i <= j < n ==> !#[trigger] clean_short_exits@[j],
            decreases n - i,
        {
            match current {
                None => {
                    if long_entries[i] {
                        clean_long_entries.set(i, true);
                        current = Some(Direction::Long);
                    } else if short_entries[i] {
                        clean_short_entries.set(i, true);
                        current = Some(Direction::Short);
                    }
                },
                Some(Direction::Long) => {
                    if long_exits[i] {
                        clean_long_exits.set(i, true);
                        current = None;
                    } else if short_entries[i] {
                        // Reversal: exit long and enter short.
                        clean_long_exits.set(i, true);
                        clean_short_entries.set(i, true);
                        current = Some(Direction::Short);
                    }
                },
                Some(Direction::Short) => {
                    if short_exits[i] {
                        clean_short_exits.set(i, true);
                        current = None;
                    } else if long_entries[i] {
                        // Reversal: exit short and enter long.
                        clean_short_exits.set(i, true);
                        clean_long_entries.set(i, true);
                        current = Some(Direction::Long);
                    }
                },
            }
            i = i + 1;
        }

        (clean_long_entries, clean_long_exits, clean_short_entries, clean_short_exits)
    }

    /// Generate exit-on-opposite-entry signals: a long exits on a short
    /// entry, and a short exits on a long entry.
    ///
    /// Returns (long exits, short exits).
    pub fn exits_from_opposite_entries(&self, long_entries: &[bool], short_entries: &[bool]) -> (result: (
        Vec<bool>,
        Vec<bool>,
    ))
        requires
            long_entries@.len() == short_entries@.len(),
        ensures
            result.0@ == short_entries@,
            result.1@ == long_entries@,
    {
        (copy_flags(short_entries), copy_flags(long_entries))
    }

    /// Count the number of trades that cleaned signals generate: one per exit.
    pub fn count_trades(entries: &[bool], exits: &[bool]) -> (count: usize)
        ensures
            count == count_true(exits@),
    {
        let mut count: usize = 0;
        let mut i: usize = 0;
        while i < exits.len()
            invariant
                i <= exits@.len(),
                count == count_true(exits@.take(i as int)),
                count <= i,
            decreases exits@.len() - i,
        {
            proof {
                assert(exits@.take(i + 1).drop_last() =~= exits@.take(i as int));
            }
            if exits[i] {
                count = count + 1;
            }
            i = i + 1;
        }
        proof {
            assert(exits@.take(exits@.len() as int) =~= exits@);
        }
        count
    }

    /// Indices of the set entries and of the set exits, each ascending.
    pub fn get_trade_indices(entries: &[bool], exits: &[bool]) -> (result: (Vec<usize>, Vec<usize>))
        ensures
            result.0@.len() == count_true(entries@),
            result.1@.len() == count_true(exits@),
            forall|k: int| 0 <= k < result.0@.len() ==> {
                &&& #[trigger] result.0@[k] < entries@.len()
                &&& entries@[result.0@[k] as int]
            },
            forall|k: int| 0 <= k < result.1@.len() ==> {
                &&& #[trigger] result.1@[k] < exits@.len()
                &&& exits@[result.1@[k] as int]
            },
            forall|a: int, b: int| 0 <= a < b < result.0@.len() ==> result.0@[a] < result.0@[b],
            forall|a: int, b: int| 0 <= a < b < result.1@.len() ==> result.1@[a] < result.1@[b],
            forall|i: int| 0 <= i < entries@.len() && entries@[i] ==> result.0@.contains(i as usize),
            forall|i: int| 0 <= i < exits@.len() && exits@[i] ==> result.1@.contains(i as usize),
    {
        (set_indices(entries), set_indices(exits))
    }
}

/// Ascending indices of the set flags in `flags`.
fn set_indices(flags: &[bool]) -> (indices: Vec<usize>)
    ensures
        indices@.len() == count_true(flags@),
        forall|k: int| 0 <= k < indices@.len() ==> {
            &&& #[trigger] indices@[k] < flags@.len()
            &&& flags@[indices@[k] as int]
        },
        forall|a: int, b: int| 0 <= a < b < indices@.len() ==> indices@[a] < indices@[b],
        forall|i: int| 0 <= i < flags@.len() && flags@[i] ==> indices@.contains(i as usize),
{
    let mut indices: Vec<usize> = Vec::new();
    let mut i: usize = 0;
    while i < flags.len()
        invariant
            i <= flags@.len(),
            indices@.len() == count_true(flags@.take(i as int)),
            forall|k: int| 0 <= k < indices@.len() ==> {
                &&& #[trigger] indices@[k] < i
                &&& flags@[indices@[k] as int]
            },
            forall|a: int, b: int| 0 <= a < b < indices@.len() ==> indices@[a] < indices@[b],
            forall|j: int| 0 <= j < i && flags@[j] ==> indices@.contains(j as usize),
        decreases flags@.len() - i,
    {
        proof {
            assert(flags@.take(i + 1).drop_last() =~= flags@.take(i as int));
        }
        if flags[i] {
            let ghost before = indices@;
            indices.push(i);
            proof {
                assert(indices@[before.len() as int] == i);
                assert forall|j: int| 0 <= j < i + 1 && flags@[j] implies indices@.contains(j as usize) by {
                    if j < i {
                        let k = choose|k: int| 0 <= k < before.len() && before[k] == j as usize;
                        assert(indices@[k] == j as usize);
                    } else {
                        assert(indices@[before.len() as int] == j as usize);
                    }
                }
            }
        }
        i = i + 1;
    }
    proof {
        assert(flags@.take(flags@.len() as int) =~= flags@);
    }
    indices
}

/// Shift signals forward by `n` bars (delays execution).
pub fn shift_signals(signals: &[bool], n: usize) -> (result: Vec<bool>)
    ensures
        result@ == crate::signal_laws::shifted(signals@, n as int),
{
    let len = signals.len();
    let mut result = all_clear(len);
    if n >= len {
        assert(result@ =~= crate::signal_laws::shifted(signals@, n as int));
        return result;
    }
    let mut i: usize = n;
    while i < len
        invariant
            len == signals@.len(),
            n < len,
            n <= i <= len,
            result@.len() == len,
            forall|j: int| 0 <= j < i ==> #[trigger] result@[j] == (j >= n && signals@[j - n]),
            forall|j: int| i <= j < len ==> !#[trigger] result@[j],
        decreases len - i,
    {
        result.set(i, signals[i - n]);
        i = i + 1;
    }
    assert(result@ =~= crate::signal_laws::shifted(signals@, n as int));
    result
}

/// Combine multiple signal arrays with AND logic.
pub fn combine_signals_and(signals: &[&[bool]]) -> (result: Vec<bool>)
    requires
        forall|k: int| 0 <= k < signals@.len() ==> (#[trigger] signals@[k])@.len() == signals@[0]@.len(),
    ensures
        signals@.len() == 0 ==> result@.len() == 0,
        signals@.len() > 0 ==> result@.len() == signals@[0]@.len(),
        forall|i: int| 0 <= i < result@.len() ==>
            #[trigger] result@[i] == (forall|k: int| 0 <= k < signals@.len() ==> (#[trigger] signals@[k])@[i]),
{
    if signals.len() == 0 {
        return Vec::new();
    }
    let n = signals[0].len();
    let mut result = all_set(n);
    let mut s: usize = 0;
    while s < signals.len()
        invariant
            s <= signals@.len(),
            signals@.len() > 0,
            n == signals@[0]@.len(),
            forall|k: int| 0 <= k < signals@.len() ==> (#[trigger] signals@[k])@.len() == n,
            result@.len() == n,
            forall|i: int| 0 <= i < n ==>
                #[trigger] result@[i] == (forall|k: int| 0 <= k < s ==> (#[trigger] signals@[k])@[i]),
        decreases signals@.len() - s,
    {
        let sig = signals[s];
        let mut i: usize = 0;
        while i < n
            invariant
                0 <= s < signals@.len(),
                sig@ == signals@[s as int]@,
                sig@.len() == n,
                i <= n,
                result@.len() == n,
                forall|j: int| 0 <= j < i ==>
                    #[trigger] result@[j] == (forall|k: int| 0 <= k < s + 1 ==> (#[trigger] signals@[k])@[j]),
                forall|j: int| i <= j < n ==>
                    #[trigger] result@[j] == (forall|k: int| 0 <= k < s ==> (#[trigger] signals@[k])@[j]),
            decreases n - i,
        {
            let v = result[i] && sig[i];
            proof {
                let j = i as int;
                assert(v == (forall|k: int| 0 <= k < s + 1 ==> (#[trigger] signals@[k])@[j])) by {
                    if v {
                        assert forall|k: int| 0 <= k < s + 1 implies (#[trigger] signals@[k])@[j] by {
                            if k < s {
                            }
                        }
                    } else if !sig@[j] {
                        assert(signals@[s as int]@[j] == false);
                    } else {
                        let k = choose|k: int| 0 <= k < s && !(#[trigger] signals@[k])@[j];
                        assert(!signals@[k]@[j]);
                    }
                }
            }
            result.set(i, v);
            i = i + 1;
        }
        s = s + 1;
    }
    result
}

/// Combine multiple signal arrays with OR logic.
pub fn combine_signals_or(signals: &[&[bool]]) -> (result: Vec<bool>)
    requires
        forall|k: int| 0 <= k < signals@.len() ==> (#[trigger] signals@[k])@.len() == signals@[0]@.len(),
    ensures
        signals@.len() == 0 ==> result@.len() == 0,
        signals@.len() > 0 ==> result@.len() == signals@[0]@.len(),
        forall|i: int| 0 <= i < result@.len() ==>
            #[trigger] result@[i] == (exists|k: int| 0 <= k < signals@.len() && (#[trigger] signals@[k])@[i]),
{
    if signals.len() == 0 {
        return Vec::new();
    }
    let n = signals[0].len();
    let mut result = all_clear(n);
    let mut s: usize = 0;
    while s < signals.len()
        invariant
            s <= signals@.len(),
            signals@.len() > 0,
            n == signals@[0]@.len(),
            forall|k: int| 0 <= k < signals@.len() ==> (#[trigger] signals@[k])@.len() == n,
            result@.len() == n,
            forall|i: int| 0 <= i < n ==>
                #[trigger] result@[i] == (exists|k: int| 0 <= k < s && (#[trigger] signals@[k])@[i]),
        decreases signals@.len() - s,
    {
        let sig = signals[s];
        let mut i: usize = 0;
        while i < n
            invariant
                0 <= s < signals@.len(),
                sig@ == signals@[s as int]@,
                sig@.len() == n,
                i <= n,
                result@.len() == n,
                forall|j: int| 0 <= j < i ==>
                    #[trigger] result@[j] == (exists|k: int| 0 <= k < s + 1 && (#[trigger] signals@[k])@[j]),
                forall|j: int| i <= j < n ==>
                    #[trigger] result@[j] == (exists|k: int| 0 <= k < s && (#[trigger] signals@[k])@[j]),
            decreases n - i,
        {
            let v = result[i] || sig[i];
            proof {
                let j = i as int;
                assert(v == (exists|k: int| 0 <= k < s + 1 && (#[trigger] signals@[k])@[j])) by {
                    if sig@[j] {
                        assert(signals@[s as int]@[j]);
                    } else if v {
                        let k = choose|k: int| 0 <= k < s && (#[trigger] signals@[k])@[j];
                        assert(signals@[k]@[j]);
                    } else {
                        assert forall|k: int| 0 <= k < s + 1 implies !(#[trigger] signals@[k])@[j] by {
                            if k < s {
                            }
                        }
                    }
                }
            }
            result.set(i, v);
            i = i + 1;
        }
        s = s + 1;
    }
    result
}

} // verus!
