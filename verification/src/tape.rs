//! The venue's tape: which prints a step puts up, and what they offer an
//! order.
//!
//! A bar is replayed as up to four prints -- open, high, low, close -- but
//! only a price that moves the tape prints at all. An order resting at a
//! price takes what the prints it is marketable against show; an order
//! arriving mid-step meets whatever the last print left on the book.
//!
//! Only the order of prices decides anything here, so a price enters as its
//! rank in price order (`rank`), next to the value itself (`price`), which is
//! carried and never read. Print sizes are carried the same way.
use vstd::prelude::*;

use crate::fill::{StepKind, Tail};

verus! {

/// Number of prints a bar is replayed as: open, high, low, close.
pub const PRINTS_PER_BAR: usize = 4;

/// A price as the tape reads it: its rank in price order, and the price.
///
/// Equal prices have equal ranks, and a higher price a higher rank.
#[derive(Debug, Clone, Copy, PartialEq)]
pub struct Level<P> {
    /// Place in price order.
    pub rank: i64,
    /// The price itself.
    pub price: P,
}

/// One print on the tape: the price that traded, and the size shown at it.
#[derive(Debug, Clone, Copy, PartialEq)]
pub struct Print<P, S> {
    /// Rank of the traded price in price order.
    pub rank: i64,
    /// The traded price.
    pub price: P,
    /// The size shown at it.
    pub size: S,
}

/// A size a print shows: a bounded quantity, or no bound at all.
#[derive(Debug, Clone, Copy, PartialEq)]
pub enum Size<S> {
    /// A print of this size.
    Bounded(S),
    /// A print that bounds nothing.
    Unbounded,
}

/// The four prices of one step, as ranked levels.
#[derive(Debug, Clone, Copy, PartialEq)]
pub struct StepPrices<P> {
    /// The open.
    pub open: Level<P>,
    /// The high.
    pub high: Level<P>,
    /// The low.
    pub low: Level<P>,
    /// The close.
    pub close: Level<P>,
}

/// The print of `level` at `size`.
pub open spec fn print_at<P, S>(level: Level<P>, size: S) -> Print<P, S> {
    Print { rank: level.rank, price: level.price, size }
}

/// `x` alone where `b` holds, nothing otherwise.
pub open spec fn only_if<T>(b: bool, x: T) -> Seq<T> {
    if b {
        seq![x]
    } else {
        Seq::empty()
    }
}

/// The prints a bar puts up on a tape that sits at `from` (nowhere yet, for
/// `None`): every print but the close shows `share`, the close `last`.
///
/// The open prints unless the tape already sits there; the high only above
/// the open; the low only below where the high left the tape; the close only
/// where the low did not leave it.
pub open spec fn bar_prints<P, S>(from: Option<i64>, q: StepPrices<P>, share: S, last: S) -> Seq<
    Print<P, S>,
> {
    let opens = from is None || from->0 != q.open.rank;
    let highs = q.high.rank > q.open.rank;
    let after_high = if highs {
        q.high.rank
    } else {
        q.open.rank
    };
    let lows = q.low.rank < after_high;
    let after_low = if lows {
        q.low.rank
    } else {
        after_high
    };
    let closes = q.close.rank != after_low;
    only_if(opens, print_at(q.open, share)) + only_if(highs, print_at(q.high, share)) + only_if(
        lows,
        print_at(q.low, share),
    ) + only_if(closes, print_at(q.close, last))
}

/// Whether a print at `rank` trades against an order at `limit`: at or
/// below it for a buy, at or above it for a sell.
pub open spec fn marketable(rank: i64, limit: i64, buying: bool) -> bool {
    if buying {
        rank <= limit
    } else {
        rank >= limit
    }
}

/// What a run of prints offers an order resting at `limit`: the sizes it
/// takes, soonest first, and what becomes of its remainder.
///
/// Every marketable print offers its size. The first one that trades
/// through the order -- at a price other than the order's own -- ends the
/// run: the order was there first, so the rest fills at its price. An
/// immediate order stops after the first marketable print, whatever it was.
pub open spec fn offer_from<P, S>(prints: Seq<Print<P, S>>, limit: i64, buying: bool, immediate: bool) -> (
    Seq<Size<S>>,
    Tail,
)
    decreases prints.len(),
{
    if prints.len() == 0 {
        (Seq::empty(), Tail::Rests)
    } else {
        let p = prints[0];
        let rest = offer_from(prints.drop_first(), limit, buying, immediate);
        if !marketable(p.rank, limit, buying) {
            rest
        } else if immediate {
            (seq![Size::Bounded(p.size)], Tail::Rests)
        } else if p.rank != limit {
            (seq![Size::Bounded(p.size)], Tail::Through)
        } else {
            (seq![Size::Bounded(p.size)] + rest.0, rest.1)
        }
    }
}

/// What a book offers an order arriving at `limit`.
///
/// Nothing, if the book is empty or out of the order's reach. A book that
/// shows no bound offers one unbounded print. Otherwise an immediate order
/// takes the book once; an order priced at the book takes it twice and then
/// rests; an order priced through it takes it once and sweeps the rest one
/// increment worse.
pub open spec fn book_offer<P, S>(book: Option<Print<P, Size<S>>>, limit: i64, buying: bool, immediate: bool) -> (
    Seq<Size<S>>,
    Tail,
) {
    match book {
        None => (Seq::empty(), Tail::Rests),
        Some(b) => if !marketable(b.rank, limit, buying) {
            (Seq::empty(), Tail::Rests)
        } else {
            match b.size {
                Size::Unbounded => (seq![Size::Unbounded], Tail::Rests),
                Size::Bounded(s) => if immediate {
                    (seq![Size::Bounded(s)], Tail::Rests)
                } else if b.rank == limit {
                    (seq![Size::Bounded(s), Size::Bounded(s)], Tail::Rests)
                } else {
                    (seq![Size::Bounded(s)], Tail::Sweep)
                },
            }
        },
    }
}

/// What a bar offered one order: the prints it gets, in order, and what
/// becomes of any remainder.
///
/// Read it as a schedule rather than a quantity: take [`FillDepth::cap`],
/// fill that much, then follow [`FillDepth::next`] until it runs out.
#[derive(Debug, Clone, PartialEq)]
pub struct FillDepth<S> {
    sizes: Vec<Size<S>>,
    tail: Tail,
}

/// What a bar still owes an order after the print it has just taken.
#[derive(Debug, Clone, PartialEq)]
pub enum NextPrint<S> {
    /// Another print at the order's own price, of the size this depth says.
    Same(FillDepth<S>),
    /// The market moved through a resting order: the rest fills at its price.
    Through,
    /// The book is empty at the order's price; the rest crosses one increment
    /// worse, in one fill, unbounded by the bar.
    Sweep,
}

impl<S> View for FillDepth<S> {
    type V = (Seq<Size<S>>, Tail);

    closed spec fn view(&self) -> (Seq<Size<S>>, Tail) {
        (self.sizes@, self.tail)
    }
}

impl<S: Copy> FillDepth<S> {
    /// A bar that offered the order nothing at all.
    pub fn none() -> (d: Self)
        ensures
            d@ == (Seq::<Size<S>>::empty(), Tail::Rests),
    {
        FillDepth { sizes: Vec::new(), tail: Tail::Rests }
    }

    /// Depth that bounds nothing: one fill, for whatever was asked.
    pub fn unlimited() -> (d: Self)
        ensures
            d@ == (seq![Size::<S>::Unbounded], Tail::Rests),
    {
        Self::single(Size::Unbounded, Tail::Rests)
    }

    /// One print of `size`, with `tail` describing the remainder.
    pub fn single(size: Size<S>, tail: Tail) -> (d: Self)
        ensures
            d@ == (seq![size], tail),
    {
        let mut sizes = Vec::new();
        sizes.push(size);
        proof {
            assert(sizes@ =~= seq![size]);
        }
        FillDepth { sizes, tail }
    }

    /// The same print offered `times` over, with `tail` after the last.
    ///
    /// `times` is clamped to what a bar can hold.
    pub fn repeated(size: Size<S>, times: usize, tail: Tail) -> (d: Self)
        ensures
            d@.0.len() == if times > PRINTS_PER_BAR {
                PRINTS_PER_BAR
            } else {
                times
            },
            forall|i: int| 0 <= i < d@.0.len() ==> d@.0[i] == size,
            d@.1 == tail,
    {
        let prints = if times > PRINTS_PER_BAR {
            PRINTS_PER_BAR
        } else {
            times
        };
        let mut sizes = Vec::new();
        let mut i: usize = 0;
        while i < prints
            invariant
                i <= prints,
                sizes@.len() == i,
                forall|j: int| 0 <= j < i ==> sizes@[j] == size,
            decreases prints - i,
        {
            sizes.push(size);
            i = i + 1;
        }
        FillDepth { sizes, tail }
    }

    /// Whether the bar offered this order no print at all.
    pub fn is_empty(&self) -> (empty: bool)
        ensures
            empty == (self@.0.len() == 0),
    {
        self.sizes.len() == 0
    }

    /// How many prints remain.
    pub fn prints(&self) -> (n: usize)
        ensures
            n == self@.0.len(),
    {
        self.sizes.len()
    }

    /// What happens to the remainder once the prints are spent.
    pub fn tail(&self) -> (tail: Tail)
        ensures
            tail == self@.1,
    {
        self.tail
    }

    /// How much the next fill may take; `None` once the bar is spent.
    pub fn cap(&self) -> (cap: Option<Size<S>>)
        ensures
            self@.0.len() == 0 ==> cap.is_none(),
            self@.0.len() > 0 ==> cap == Some(self@.0[0]),
    {
        if self.sizes.len() == 0 {
            None
        } else {
            Some(self.sizes[0])
        }
    }

    /// What follows the print [`FillDepth::cap`] describes, if anything.
    ///
    /// More prints: the same depth without the first. The last print: its
    /// tail, unless the order simply rests.
    pub fn next(&self) -> (next: Option<NextPrint<S>>)
        ensures
            self@.0.len() == 0 ==> next.is_none(),
            self@.0.len() == 1 ==> next == match self@.1 {
                Tail::Rests => None,
                Tail::Through => Some(NextPrint::<S>::Through),
                Tail::Sweep => Some(NextPrint::<S>::Sweep),
            },
            self@.0.len() > 1 ==> (next matches Some(NextPrint::Same(rest)) && rest@ == (
                self@.0.drop_first(),
                self@.1,
            )),
    {
        let n = self.sizes.len();
        if n == 0 {
            None
        } else if n == 1 {
            match self.tail {
                Tail::Rests => None,
                Tail::Through => Some(NextPrint::Through),
                Tail::Sweep => Some(NextPrint::Sweep),
            }
        } else {
            let mut sizes = Vec::new();
            let mut i: usize = 1;
            while i < n
                invariant
                    1 <= i <= n,
                    n == self.sizes@.len(),
                    sizes@ =~= self.sizes@.subrange(1, i as int),
                decreases n - i,
            {
                sizes.push(self.sizes[i]);
                i = i + 1;
            }
            Some(NextPrint::Same(FillDepth { sizes, tail: self.tail }))
        }
    }
}

/// The prints one step put on the tape, in the order they traded.
///
/// An unbounded tape was produced under a liquidity model that bounds
/// nothing: every order it is offered to fills for whatever it asked.
#[derive(Debug, Clone, PartialEq)]
pub struct Tape<P, S> {
    prints: Vec<Print<P, S>>,
    unbounded: bool,
}

impl<P, S> View for Tape<P, S> {
    type V = (Seq<Print<P, S>>, bool);

    closed spec fn view(&self) -> (Seq<Print<P, S>>, bool) {
        (self.prints@, self.unbounded)
    }
}

proof fn lemma_offer_step<P, S>(prints: Seq<Print<P, S>>, i: int, limit: i64, buying: bool, immediate: bool)
    requires
        0 <= i < prints.len(),
    ensures
        ({
            let p = prints[i];
            let here = offer_from(prints.skip(i), limit, buying, immediate);
            let rest = offer_from(prints.skip(i + 1), limit, buying, immediate);
            &&& !marketable(p.rank, limit, buying) ==> here == rest
            &&& marketable(p.rank, limit, buying) && immediate ==> here == (
                seq![Size::Bounded(p.size)],
                Tail::Rests,
            )
            &&& marketable(p.rank, limit, buying) && !immediate && p.rank != limit ==> here == (
                seq![Size::Bounded(p.size)],
                Tail::Through,
            )
            &&& marketable(p.rank, limit, buying) && !immediate && p.rank == limit ==> here == (
                seq![Size::Bounded(p.size)] + rest.0,
                rest.1,
            )
        }),
{
    assert(prints.skip(i).drop_first() =~= prints.skip(i + 1));
    assert(prints.skip(i)[0] == prints[i]);
}

impl<P: Copy, S: Copy> Tape<P, S> {
    /// The prints this step put up, soonest first.
    pub fn prints(&self) -> (prints: &[Print<P, S>])
        ensures
            prints@ == self@.0,
    {
        self.prints.as_slice()
    }

    /// Whether this step was replayed under a model that bounds nothing.
    pub fn is_unbounded(&self) -> (unbounded: bool)
        ensures
            unbounded == self@.1,
    {
        self.unbounded
    }

    /// What this step offered an order already resting at `limit`.
    ///
    /// An unbounded step offers one unbounded print. Otherwise every print
    /// the order is marketable against shows one print's size, and the
    /// order takes that much and no more: it is queued behind the size
    /// already resting at its price. The first print that trades through
    /// the order fills the whole remainder at the order's own price. An
    /// `immediate` order (IOC, FOK) never survives to take a second print or
    /// a tail.
    pub fn offered(&self, limit: i64, buying: bool, immediate: bool) -> (d: FillDepth<S>)
        ensures
            self@.1 ==> d@ == (seq![Size::<S>::Unbounded], Tail::Rests),
            !self@.1 ==> d@ == offer_from(self@.0, limit, buying, immediate),
    {
        if self.unbounded {
            return FillDepth::unlimited();
        }
        let n = self.prints.len();
        let ghost all = self.prints@;
        let mut sizes: Vec<Size<S>> = Vec::new();
        let mut i: usize = 0;
        assert(all.skip(0) =~= all);
        while i < n
            invariant
                i <= n,
                n == all.len(),
                all == self.prints@,
                !self.unbounded,
                sizes@ + offer_from(all.skip(i as int), limit, buying, immediate).0 == offer_from(
                    all,
                    limit,
                    buying,
                    immediate,
                ).0,
                offer_from(all.skip(i as int), limit, buying, immediate).1 == offer_from(
                    all,
                    limit,
                    buying,
                    immediate,
                ).1,
            decreases n - i,
        {
            let p = self.prints[i];
            proof {
                lemma_offer_step(all, i as int, limit, buying, immediate);
            }
            let reaches = if buying {
                p.rank <= limit
            } else {
                p.rank >= limit
            };
            if reaches {
                let ghost before = sizes@;
                sizes.push(Size::Bounded(p.size));
                if immediate {
                    return FillDepth { sizes, tail: Tail::Rests };
                }
                if p.rank != limit {
                    return FillDepth { sizes, tail: Tail::Through };
                }
                proof {
                    let rest = offer_from(all.skip(i + 1), limit, buying, immediate);
                    assert(before + (seq![Size::Bounded(p.size)] + rest.0) =~= sizes@ + rest.0);
                }
            }
            i = i + 1;
        }
        assert(all.skip(n as int) =~= Seq::<Print<P, S>>::empty());
        assert(sizes@ + Seq::<Size<S>>::empty() =~= sizes@);
        FillDepth { sizes, tail: Tail::Rests }
    }
}

/// The venue's tape: the last price to trade, and the size showing there.
///
/// A bar whose whole range collapses onto the last traded price prints
/// nothing, matches no resting order, and leaves the book as it was -- so
/// an order arriving on such a bar is filled against a size that may be
/// many bars old. That carry-over is why this is state and not a function
/// of one bar.
#[derive(Debug, Clone, PartialEq)]
pub struct BarTape<P, S> {
    book: Option<Print<P, Size<S>>>,
}

impl<P, S> View for BarTape<P, S> {
    type V = Option<Print<P, Size<S>>>;

    closed spec fn view(&self) -> Option<Print<P, Size<S>>> {
        self.book
    }
}

/// The rank a book sits at, if it shows anything.
pub open spec fn book_rank<P, S>(book: Option<Print<P, Size<S>>>) -> Option<i64> {
    match book {
        Some(b) => Some(b.rank),
        None => None,
    }
}

/// A print as the book shows it: its size, bounded.
pub open spec fn as_book<P, S>(p: Print<P, S>) -> Print<P, Size<S>> {
    Print { rank: p.rank, price: p.price, size: Size::Bounded(p.size) }
}

/// The book after a bar put up its prints: the last print, or the book as
/// it was if the bar printed nothing.
pub open spec fn book_after_bar<P, S>(book: Option<Print<P, Size<S>>>, q: StepPrices<P>, share: S, last: S) -> Option<
    Print<P, Size<S>>,
> {
    let ps = bar_prints(book_rank(book), q, share, last);
    if ps.len() > 0 {
        Some(as_book(ps.last()))
    } else {
        book
    }
}

impl<P: Copy, S: Copy> BarTape<P, S> {
    /// A tape on which nothing has traded yet.
    pub fn new() -> (t: Self)
        ensures
            t@.is_none(),
    {
        BarTape { book: None }
    }

    /// The book this tape currently shows, if anything has traded yet.
    pub fn book(&self) -> (book: Option<Print<P, Size<S>>>)
        ensures
            book == self@,
    {
        self.book
    }

    /// Replay one step onto the tape and return the prints it put up.
    ///
    /// `shares` is the size every print but a bar's close shows, and the
    /// size its close shows; `None` where the liquidity model bounds
    /// nothing, in which case the step is unbounded and the tape only
    /// records that the market now sits at the close. A trade print always
    /// prints, at its price, even where the tape already sits. A bar prints
    /// only the prices that move the tape (see [`bar_prints`]). The book
    /// then shows the last print, or stays as it was if nothing printed.
    pub fn replay(&mut self, q: StepPrices<P>, shares: Option<(S, S)>, kind: StepKind) -> (tape: Tape<
        P,
        S,
    >)
        ensures
            (match shares {
                None => tape@ == (Seq::<Print<P, S>>::empty(), true) && final(self)@ == Some(
                    Print { rank: q.close.rank, price: q.close.price, size: Size::<S>::Unbounded },
                ),
                Some((share, last)) => match kind {
                    StepKind::Print => tape@ == (seq![print_at(q.close, share)], false) && final(self)@
                        == Some(as_book(print_at(q.close, share))),
                    StepKind::Bar => tape@ == (bar_prints(book_rank(old(self)@), q, share, last), false)
                        && final(self)@ == book_after_bar(old(self)@, q, share, last),
                },
            }),
    {
        match shares {
            None => {
                self.book = Some(Print { rank: q.close.rank, price: q.close.price, size: Size::Unbounded });
                Tape { prints: Vec::new(), unbounded: true }
            },
            Some((share, last)) => {
                let mut prints: Vec<Print<P, S>> = Vec::new();
                match kind {
                    StepKind::Print => {
                        let p = Print { rank: q.close.rank, price: q.close.price, size: share };
                        prints.push(p);
                        self.book = Some(Print { rank: p.rank, price: p.price, size: Size::Bounded(share) });
                        proof {
                            assert(prints@ =~= seq![print_at(q.close, share)]);
                        }
                        Tape { prints, unbounded: false }
                    },
                    StepKind::Bar => {
                        let ghost from = book_rank(self.book);
                        let opens = match self.book {
                            None => true,
                            Some(b) => b.rank != q.open.rank,
                        };
                        if opens {
                            prints.push(Print { rank: q.open.rank, price: q.open.price, size: share });
                        }
                        let mut here = q.open.rank;
                        let highs = q.high.rank > here;
                        if highs {
                            prints.push(Print { rank: q.high.rank, price: q.high.price, size: share });
                            here = q.high.rank;
                        }
                        let lows = q.low.rank < here;
                        if lows {
                            prints.push(Print { rank: q.low.rank, price: q.low.price, size: share });
                            here = q.low.rank;
                        }
                        let closes = q.close.rank != here;
                        if closes {
                            prints.push(Print { rank: q.close.rank, price: q.close.price, size: last });
                        }
                        proof {
                            assert(prints@ =~= bar_prints(from, q, share, last));
                        }
                        let n = prints.len();
                        if n > 0 {
                            let p = prints[n - 1];
                            self.book = Some(Print { rank: p.rank, price: p.price, size: Size::Bounded(p.size) });
                        }
                        Tape { prints, unbounded: false }
                    },
                }
            },
        }
    }

    /// What the book offers an order arriving marketable against it.
    ///
    /// This is the aggressive side of the same tape: an order submitted
    /// while a step was being observed meets whatever the last print left
    /// showing (see [`book_offer`]).
    pub fn offered(&self, limit: i64, buying: bool, immediate: bool) -> (d: FillDepth<S>)
        ensures
            d@ == book_offer(self@, limit, buying, immediate),
    {
        match self.book {
            None => FillDepth::none(),
            Some(b) => {
                let reaches = if buying {
                    b.rank <= limit
                } else {
                    b.rank >= limit
                };
                if !reaches {
                    return FillDepth::none();
                }
                match b.size {
                    Size::Unbounded => FillDepth::unlimited(),
                    Size::Bounded(s) => {
                        if immediate {
                            FillDepth::single(Size::Bounded(s), Tail::Rests)
                        } else if b.rank == limit {
                            let d = FillDepth::repeated(Size::Bounded(s), 2, Tail::Rests);
                            proof {
                                assert(d@.0 =~= seq![Size::Bounded(s), Size::Bounded(s)]);
                            }
                            d
                        } else {
                            FillDepth::single(Size::Bounded(s), Tail::Sweep)
                        }
                    },
                }
            },
        }
    }
}

/// The sizes of the prints an order at `limit` is marketable against,
/// soonest first.
pub open spec fn marketable_sizes<P, S>(prints: Seq<Print<P, S>>, limit: i64, buying: bool) -> Seq<Size<S>>
    decreases prints.len(),
{
    if prints.len() == 0 {
        Seq::empty()
    } else {
        let rest = marketable_sizes(prints.drop_first(), limit, buying);
        if marketable(prints[0].rank, limit, buying) {
            seq![Size::Bounded(prints[0].size)] + rest
        } else {
            rest
        }
    }
}

/// A bar that never leaves the price the tape sits at prints nothing, so
/// it offers no resting order anything and leaves the book exactly as it
/// was -- size included, however many bars old.
pub proof fn law_a_bar_that_stays_put_prints_nothing<P, S>(
    book: Print<P, Size<S>>,
    q: StepPrices<P>,
    share: S,
    last: S,
    limit: i64,
    buying: bool,
    immediate: bool,
)
    requires
        q.open.rank == book.rank,
        q.high.rank == book.rank,
        q.low.rank == book.rank,
        q.close.rank == book.rank,
    ensures
        bar_prints(Some(book.rank), q, share, last).len() == 0,
        offer_from(bar_prints(Some(book.rank), q, share, last), limit, buying, immediate) == (
            Seq::<Size<S>>::empty(),
            Tail::Rests,
        ),
        book_after_bar(Some(book), q, share, last) == Some(book),
{
    assert(bar_prints(Some(book.rank), q, share, last) =~= Seq::<Print<P, S>>::empty());
}

/// Nothing that is already on the tape prints again: a bar puts up at most
/// four prints, the first away from where the tape sat, and each at a price
/// other than the one before it.
pub proof fn law_every_print_moves_the_tape<P, S>(from: Option<i64>, q: StepPrices<P>, share: S, last: S)
    ensures
        bar_prints(from, q, share, last).len() <= PRINTS_PER_BAR,
        from is Some && bar_prints(from, q, share, last).len() > 0 ==> bar_prints(
            from,
            q,
            share,
            last,
        )[0].rank != from->0,
        forall|i: int|
            0 < i < bar_prints(from, q, share, last).len() ==> #[trigger] bar_prints(
                from,
                q,
                share,
                last,
            )[i].rank != bar_prints(from, q, share, last)[i - 1].rank,
{
    let opens = from is None || from->0 != q.open.rank;
    let highs = q.high.rank > q.open.rank;
    let after_high = if highs {
        q.high.rank
    } else {
        q.open.rank
    };
    let lows = q.low.rank < after_high;
    let after_low = if lows {
        q.low.rank
    } else {
        after_high
    };
    let closes = q.close.rank != after_low;
    let ps = bar_prints(from, q, share, last);
    // Each print's rank, and where the tape sits before it.
    let ranks: Seq<int> = only_if(opens, q.open.rank as int) + only_if(highs, q.high.rank as int) + only_if(
        lows,
        q.low.rank as int,
    ) + only_if(closes, q.close.rank as int);
    let first_before: int = if from is Some {
        from->0 as int
    } else {
        q.open.rank + 1
    };
    let befores: Seq<int> = only_if(opens, first_before) + only_if(highs, q.open.rank as int) + only_if(
        lows,
        after_high as int,
    ) + only_if(closes, after_low as int);
    assert(ps.len() == ranks.len());
    assert(forall|i: int| 0 <= i < ps.len() ==> ps[i].rank == ranks[i]);
    assert(forall|i: int| 0 <= i < ps.len() ==> ranks[i] != befores[i]);
    assert(forall|i: int| 0 < i < ps.len() ==> befores[i] == ranks[i - 1]);
}

/// An immediate order (IOC, FOK) never walks past the first print it
/// takes, from a step's prints or from the book: it takes at most one, and
/// its remainder rests.
pub proof fn law_an_immediate_order_takes_at_most_one_print<P, S>(
    prints: Seq<Print<P, S>>,
    book: Option<Print<P, Size<S>>>,
    limit: i64,
    buying: bool,
)
    ensures
        offer_from(prints, limit, buying, true).0.len() <= 1,
        offer_from(prints, limit, buying, true).1 == Tail::Rests,
        book_offer(book, limit, buying, true).0.len() <= 1,
        book_offer(book, limit, buying, true).1 == Tail::Rests,
    decreases prints.len(),
{
    if prints.len() > 0 {
        law_an_immediate_order_takes_at_most_one_print(prints.drop_first(), book, limit, buying);
    }
}

/// An order takes only what the prints it is marketable against show, in
/// the order they traded: its schedule is a leading run of their sizes, all
/// of them when nothing traded through it and it is not immediate.
pub proof fn law_an_order_takes_only_marketable_prints<P, S>(
    prints: Seq<Print<P, S>>,
    limit: i64,
    buying: bool,
    immediate: bool,
)
    ensures
        offer_from(prints, limit, buying, immediate).0.len() <= marketable_sizes(
            prints,
            limit,
            buying,
        ).len(),
        offer_from(prints, limit, buying, immediate).0 == marketable_sizes(prints, limit, buying).take(
            offer_from(prints, limit, buying, immediate).0.len() as int,
        ),
        !immediate && offer_from(prints, limit, buying, immediate).1 == Tail::Rests ==> offer_from(
            prints,
            limit,
            buying,
            immediate,
        ).0 == marketable_sizes(prints, limit, buying),
    decreases prints.len(),
{
    if prints.len() > 0 {
        let rest = prints.drop_first();
        law_an_order_takes_only_marketable_prints(rest, limit, buying, immediate);
        let o = offer_from(prints, limit, buying, immediate);
        let m = marketable_sizes(prints, limit, buying);
        let ro = offer_from(rest, limit, buying, immediate);
        let rm = marketable_sizes(rest, limit, buying);
        if marketable(prints[0].rank, limit, buying) {
            let head = seq![Size::Bounded(prints[0].size)];
            assert(m == head + rm);
            if immediate || prints[0].rank != limit {
                assert(o.0 =~= m.take(1));
            } else {
                assert(o.0 == head + ro.0);
                assert(o.0 =~= m.take(o.0.len() as int));
            }
        } else {
            assert(m == rm);
        }
    } else {
        assert(offer_from(prints, limit, buying, immediate).0 =~= marketable_sizes(prints, limit, buying).take(
            0,
        ));
    }
}

} // verus!
