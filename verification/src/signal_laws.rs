//! What signal cleaning guarantees, across bars and across calls.
use vstd::prelude::*;

use crate::signals::{
    bi_held_before, bi_kept, count_true, held_before, kept_entry, kept_exit, open_before, signed_at,
    wanted_direction, SignalProcessor,
};
use crate::types::{direction_code, Direction};

verus! {

/// The cleaned entries of a single-sided run, bar by bar.
pub open spec fn kept_entries(p: SignalProcessor, entries: Seq<bool>, exits: Seq<bool>) -> Seq<bool> {
    Seq::new(entries.len(), |i: int| kept_entry(p, entries, exits, i))
}

/// The cleaned exits of a single-sided run, bar by bar.
pub open spec fn kept_exits(p: SignalProcessor, entries: Seq<bool>, exits: Seq<bool>) -> Seq<bool> {
    Seq::new(entries.len(), |i: int| kept_exit(p, entries, exits, i))
}

/// The most entries a processor lets be open at once.
pub open spec fn open_limit(p: SignalProcessor) -> nat {
    if p.allow_pyramiding && p.max_pyramid_entries > 1 {
        p.max_pyramid_entries as nat
    } else {
        1
    }
}

/// Kept entries minus kept exits over the first `i` bars.
pub open spec fn net_open(ke: Seq<bool>, kx: Seq<bool>, i: int) -> int {
    count_true(ke.take(i)) - count_true(kx.take(i))
}

/// Counting one more bar adds that bar's flag.
pub proof fn lemma_count_true_take_step(s: Seq<bool>, i: int)
    requires
        0 <= i < s.len(),
    ensures
        count_true(s.take(i + 1)) == count_true(s.take(i)) + if s[i] { 1int } else { 0int },
{
    assert(s.take(i + 1).drop_last() =~= s.take(i));
}

/// The open count the cleaner tracks is exactly the kept entries minus the
/// kept exits so far, and never exceeds the processor's limit.
proof fn lemma_open_is_net(p: SignalProcessor, entries: Seq<bool>, exits: Seq<bool>, i: int)
    requires
        entries.len() == exits.len(),
        0 <= i <= entries.len(),
    ensures
        open_before(p, entries, exits, i) == net_open(kept_entries(p, entries, exits), kept_exits(p, entries, exits), i),
        open_before(p, entries, exits, i) <= open_limit(p),
    decreases i,
{
    let ke = kept_entries(p, entries, exits);
    let kx = kept_exits(p, entries, exits);
    if i == 0 {
        assert(ke.take(0) =~= Seq::<bool>::empty());
        assert(kx.take(0) =~= Seq::<bool>::empty());
    } else {
        lemma_open_is_net(p, entries, exits, i - 1);
        lemma_count_true_take_step(ke, i - 1);
        lemma_count_true_take_step(kx, i - 1);
    }
}

/// Cleaning is a filter, and a bar never keeps both signals.
///
/// Every kept entry was a raw entry, every kept exit a raw exit, and no bar
/// both enters and exits.
pub proof fn law_cleaning_only_drops_signals(p: SignalProcessor, entries: Seq<bool>, exits: Seq<bool>, i: int)
    requires
        entries.len() == exits.len(),
        0 <= i < entries.len(),
    ensures
        kept_entry(p, entries, exits, i) ==> entries[i],
        kept_exit(p, entries, exits, i) ==> exits[i],
        !(kept_entry(p, entries, exits, i) && kept_exit(p, entries, exits, i)),
{
}

/// Entries and exits alternate: before any bar the kept entries outnumber
/// the kept exits by between zero and the pyramid limit (one without
/// pyramiding); an exit is kept only while a position is open, so the first
/// kept signal is an entry; and without pyramiding an entry is kept only
/// while flat.
pub proof fn law_cleaned_signals_alternate(p: SignalProcessor, entries: Seq<bool>, exits: Seq<bool>, i: int)
    requires
        entries.len() == exits.len(),
        0 <= i <= entries.len(),
    ensures
        0 <= net_open(kept_entries(p, entries, exits), kept_exits(p, entries, exits), i) <= open_limit(p),
        i < entries.len() && kept_exit(p, entries, exits, i) ==> net_open(
            kept_entries(p, entries, exits),
            kept_exits(p, entries, exits),
            i,
        ) >= 1,
        i < entries.len() && kept_entry(p, entries, exits, i) ==> net_open(
            kept_entries(p, entries, exits),
            kept_exits(p, entries, exits),
            i,
        ) < open_limit(p),
        i < entries.len() && kept_entry(p, entries, exits, i) && !p.allow_pyramiding ==> net_open(
            kept_entries(p, entries, exits),
            kept_exits(p, entries, exits),
            i,
        ) == 0,
{
    lemma_open_is_net(p, entries, exits, i);
}

/// While a position is open, an entry on the same bar as an exit keeps the
/// position: the exit is dropped.
pub proof fn law_same_bar_entry_outranks_exit(p: SignalProcessor, entries: Seq<bool>, exits: Seq<bool>, i: int)
    requires
        entries.len() == exits.len(),
        0 <= i < entries.len(),
        open_before(p, entries, exits, i) > 0,
        entries[i],
    ensures
        !kept_exit(p, entries, exits, i),
{
}

/// Cleaning the same run again with the same processor, bar by bar.
proof fn lemma_reclean_agrees(p: SignalProcessor, entries: Seq<bool>, exits: Seq<bool>, i: int)
    requires
        entries.len() == exits.len(),
        0 <= i <= entries.len(),
    ensures
        open_before(p, kept_entries(p, entries, exits), kept_exits(p, entries, exits), i) == open_before(
            p,
            entries,
            exits,
            i,
        ),
    decreases i,
{
    if i > 0 {
        lemma_reclean_agrees(p, entries, exits, i - 1);
    }
}

/// Cleaning is idempotent: cleaned signals come back from a second pass
/// unchanged.
pub proof fn law_cleaning_is_idempotent(p: SignalProcessor, entries: Seq<bool>, exits: Seq<bool>)
    requires
        entries.len() == exits.len(),
    ensures
        kept_entries(p, kept_entries(p, entries, exits), kept_exits(p, entries, exits)) == kept_entries(
            p,
            entries,
            exits,
        ),
        kept_exits(p, kept_entries(p, entries, exits), kept_exits(p, entries, exits)) == kept_exits(
            p,
            entries,
            exits,
        ),
{
    let ke = kept_entries(p, entries, exits);
    let kx = kept_exits(p, entries, exits);
    assert forall|i: int| 0 <= i < entries.len() implies kept_entry(p, ke, kx, i) == ke[i] && kept_exit(
        p,
        ke,
        kx,
        i,
    ) == kx[i] by {
        lemma_reclean_agrees(p, entries, exits, i);
    }
    assert(kept_entries(p, ke, kx) =~= ke);
    assert(kept_exits(p, ke, kx) =~= kx);
}

/// Whether no bar of `directions` names a side.
pub open spec fn names_no_side(directions: Seq<i8>) -> bool {
    forall|i: int| 0 <= i < directions.len() ==> directions[i] != 1 && directions[i] != -1
}

/// Signed cleaning over one side only, bar by bar.
proof fn lemma_one_sided_signed_run(
    p: SignalProcessor,
    entries: Seq<bool>,
    exits: Seq<bool>,
    directions: Seq<i8>,
    fallback: Direction,
    i: int,
)
    requires
        entries.len() == exits.len(),
        entries.len() == directions.len(),
        names_no_side(directions),
        0 <= i <= entries.len(),
    ensures
        held_before(p, entries, exits, directions, fallback, i) == (
            if open_before(p, entries, exits, i) == 0 {
                None
            } else {
                Some(fallback)
            },
            open_before(p, entries, exits, i),
        ),
    decreases i,
{
    if i > 0 {
        lemma_one_sided_signed_run(p, entries, exits, directions, fallback, i - 1);
    }
}

/// A signed run whose directions name no side is the single-sided run: it
/// keeps exactly what [`SignalProcessor::clean_signals`] keeps for the same
/// processor, pyramiding included, and every kept entry opens in the
/// fallback direction.
pub proof fn law_unsigned_directions_clean_as_one_side(
    p: SignalProcessor,
    entries: Seq<bool>,
    exits: Seq<bool>,
    directions: Seq<i8>,
    fallback: Direction,
    i: int,
)
    requires
        entries.len() == exits.len(),
        entries.len() == directions.len(),
        names_no_side(directions),
        0 <= i < entries.len(),
    ensures
        signed_at(p, entries, exits, directions, fallback, i).2 == kept_entry(p, entries, exits, i),
        signed_at(p, entries, exits, directions, fallback, i).3 == kept_exit(p, entries, exits, i),
        signed_at(p, entries, exits, directions, fallback, i).4 == if signed_at(
            p,
            entries,
            exits,
            directions,
            fallback,
            i,
        ).2 {
            direction_code(fallback)
        } else {
            0
        },
{
    lemma_one_sided_signed_run(p, entries, exits, directions, fallback, i);
}

/// An entry against the side held is a reversal on one bar: the held side
/// closes, one entry opens on the other side, and it carries its own
/// direction.
pub proof fn law_opposite_entry_reverses(
    p: SignalProcessor,
    entries: Seq<bool>,
    exits: Seq<bool>,
    directions: Seq<i8>,
    fallback: Direction,
    i: int,
)
    requires
        entries.len() == exits.len(),
        entries.len() == directions.len(),
        0 <= i < entries.len(),
        entries[i],
        held_before(p, entries, exits, directions, fallback, i).0 is Some,
        held_before(p, entries, exits, directions, fallback, i).0->0 != wanted_direction(directions[i], fallback),
    ensures
        signed_at(p, entries, exits, directions, fallback, i).2,
        signed_at(p, entries, exits, directions, fallback, i).3,
        signed_at(p, entries, exits, directions, fallback, i).4 == direction_code(
            wanted_direction(directions[i], fallback),
        ),
        held_before(p, entries, exits, directions, fallback, i + 1) == (
            Some(wanted_direction(directions[i], fallback)),
            1nat,
        ),
{
}

/// The two-sided cleaned signals of a run, side by side.
pub open spec fn bi_seq(
    long_entries: Seq<bool>,
    long_exits: Seq<bool>,
    short_entries: Seq<bool>,
    short_exits: Seq<bool>,
    which: int,
) -> Seq<bool> {
    Seq::new(
        long_entries.len(),
        |i: int|
            {
                let k = bi_kept(long_entries, long_exits, short_entries, short_exits, i);
                if which == 0 {
                    k.long_entry
                } else if which == 1 {
                    k.long_exit
                } else if which == 2 {
                    k.short_entry
                } else {
                    k.short_exit
                }
            },
    )
}

/// Two-sided cleaning holds at most one side: before any bar the kept long
/// entries outnumber the kept long exits by zero or one, the same holds of
/// the short side, and the two sides are never open together.
pub proof fn law_two_sided_holds_one_side(
    long_entries: Seq<bool>,
    long_exits: Seq<bool>,
    short_entries: Seq<bool>,
    short_exits: Seq<bool>,
    i: int,
)
    requires
        long_exits.len() == long_entries.len(),
        short_entries.len() == long_entries.len(),
        short_exits.len() == long_entries.len(),
        0 <= i <= long_entries.len(),
    ensures
        ({
            let long_open = net_open(
                bi_seq(long_entries, long_exits, short_entries, short_exits, 0),
                bi_seq(long_entries, long_exits, short_entries, short_exits, 1),
                i,
            );
            let short_open = net_open(
                bi_seq(long_entries, long_exits, short_entries, short_exits, 2),
                bi_seq(long_entries, long_exits, short_entries, short_exits, 3),
                i,
            );
            &&& 0 <= long_open <= 1
            &&& 0 <= short_open <= 1
            &&& long_open + short_open <= 1
            &&& long_open == 1 <==> bi_held_before(long_entries, long_exits, short_entries, short_exits, i)
                == Some(Direction::Long)
            &&& short_open == 1 <==> bi_held_before(long_entries, long_exits, short_entries, short_exits, i)
                == Some(Direction::Short)
        }),
    decreases i,
{
    let le = bi_seq(long_entries, long_exits, short_entries, short_exits, 0);
    let lx = bi_seq(long_entries, long_exits, short_entries, short_exits, 1);
    let se = bi_seq(long_entries, long_exits, short_entries, short_exits, 2);
    let sx = bi_seq(long_entries, long_exits, short_entries, short_exits, 3);
    if i == 0 {
        assert(le.take(0) =~= Seq::<bool>::empty());
        assert(lx.take(0) =~= Seq::<bool>::empty());
        assert(se.take(0) =~= Seq::<bool>::empty());
        assert(sx.take(0) =~= Seq::<bool>::empty());
    } else {
        law_two_sided_holds_one_side(long_entries, long_exits, short_entries, short_exits, i - 1);
        lemma_count_true_take_step(le, i - 1);
        lemma_count_true_take_step(lx, i - 1);
        lemma_count_true_take_step(se, i - 1);
        lemma_count_true_take_step(sx, i - 1);
    }
}

/// In two-sided cleaning an opposite entry reverses the held side: while
/// short, a bar with a long entry and no short exit keeps both a short exit
/// and a long entry and leaves the run long; while long, a bar with a short
/// entry and no long exit keeps both a long exit and a short entry and leaves
/// the run short. Nothing else is kept on such a bar.
pub proof fn law_two_sided_entry_reverses(
    long_entries: Seq<bool>,
    long_exits: Seq<bool>,
    short_entries: Seq<bool>,
    short_exits: Seq<bool>,
    i: int,
)
    requires
        long_exits.len() == long_entries.len(),
        short_entries.len() == long_entries.len(),
        short_exits.len() == long_entries.len(),
        0 <= i < long_entries.len(),
    ensures
        bi_held_before(long_entries, long_exits, short_entries, short_exits, i) == Some(Direction::Short)
            && long_entries[i] && !short_exits[i] ==> {
            let k = bi_kept(long_entries, long_exits, short_entries, short_exits, i);
            &&& k.short_exit && k.long_entry
            &&& !k.long_exit && !k.short_entry
            &&& bi_held_before(long_entries, long_exits, short_entries, short_exits, i + 1)
                == Some(Direction::Long)
        },
        bi_held_before(long_entries, long_exits, short_entries, short_exits, i) == Some(Direction::Long)
            && short_entries[i] && !long_exits[i] ==> {
            let k = bi_kept(long_entries, long_exits, short_entries, short_exits, i);
            &&& k.long_exit && k.short_entry
            &&& !k.short_exit && !k.long_entry
            &&& bi_held_before(long_entries, long_exits, short_entries, short_exits, i + 1)
                == Some(Direction::Short)
        },
{
}

/// In two-sided cleaning a flat run opens on an entry (a long entry
/// outranking a short one on the same bar), an exit of the held side closes
/// it and keeps only that exit, and a bar with neither keeps nothing and
/// leaves the held side as it was.
pub proof fn law_two_sided_opens_and_closes(
    long_entries: Seq<bool>,
    long_exits: Seq<bool>,
    short_entries: Seq<bool>,
    short_exits: Seq<bool>,
    i: int,
)
    requires
        long_exits.len() == long_entries.len(),
        short_entries.len() == long_entries.len(),
        short_exits.len() == long_entries.len(),
        0 <= i < long_entries.len(),
    ensures
        ({
            let held = bi_held_before(long_entries, long_exits, short_entries, short_exits, i);
            let next = bi_held_before(long_entries, long_exits, short_entries, short_exits, i + 1);
            let k = bi_kept(long_entries, long_exits, short_entries, short_exits, i);
            &&& held is None && long_entries[i] ==> next == Some(Direction::Long) && k.long_entry
                && !k.short_entry && !k.long_exit && !k.short_exit
            &&& held is None && !long_entries[i] && short_entries[i] ==> next == Some(Direction::Short)
                && k.short_entry && !k.long_entry && !k.long_exit && !k.short_exit
            &&& held == Some(Direction::Long) && long_exits[i] ==> next is None && k.long_exit && !k.long_entry
                && !k.short_entry && !k.short_exit
            &&& held == Some(Direction::Short) && short_exits[i] ==> next is None && k.short_exit
                && !k.long_entry && !k.short_entry && !k.long_exit
            &&& (held is None && !long_entries[i] && !short_entries[i]) || (held == Some(Direction::Long)
                && !long_exits[i] && !short_entries[i]) || (held == Some(Direction::Short) && !short_exits[i]
                && !long_entries[i]) ==> next == held && !k.long_entry && !k.long_exit && !k.short_entry
                && !k.short_exit
        }),
{
}

/// `signals` delayed by `n` bars, with nothing shifted in.
pub open spec fn shifted(signals: Seq<bool>, n: int) -> Seq<bool> {
    Seq::new(signals.len(), |i: int| i >= n && signals[i - n])
}

/// Delays add up: shifting by `a` bars and then by `b` bars is shifting by
/// `a + b` bars.
pub proof fn law_shifts_compose(signals: Seq<bool>, a: nat, b: nat)
    ensures
        shifted(shifted(signals, a as int), b as int) == shifted(signals, (a + b) as int),
{
    assert(shifted(shifted(signals, a as int), b as int) =~= shifted(signals, (a + b) as int));
}

} // verus!
