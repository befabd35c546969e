//! The phase decisions of one engine step.
//!
//! A step runs in a fixed order: an expired contract settles and ends the
//! step; otherwise the intents deferred by the previous bar fill at this
//! bar's open (exits before the entry); protective and signal exits run;
//! a margin breach halts entries; resting orders match; this bar's signal
//! entry is deferred or attempted; market orders are swept. The decisions
//! between those phases are taken here, from plain flags. The accounting
//! each phase does (prices, sizes, cash, margin) is outside this module.
use vstd::prelude::*;

use crate::matching::{OrderKind, WorkingOrder};
use crate::orders::TimeInForce;
use crate::portfolio::StepMode;

verus! {

/// Signals a bar decided under next-bar-open timing, waiting for the next
/// bar's open. `E` is the entry's decision-time payload, carried.
#[derive(Debug, Clone, Copy, PartialEq)]
pub struct DeferredIntent<E> {
    /// A signal entry, with its payload.
    pub entry: Option<E>,
    /// A signal exit for every open position.
    pub exit: bool,
}

/// How a step begins.
#[derive(Debug, Clone, Copy, PartialEq)]
pub enum StepStart<E> {
    /// The contract has expired: settle the positions, cancel every working
    /// order, refuse this bar's entry if it has one, and end the step.
    Expire { refuse_entry: bool },
    /// Go on: first close every position for a deferred exit, if any, then
    /// try the deferred entry, if any.
    Proceed { close_all: bool, deferred_entry: Option<E> },
}

/// How a step begins, and the intent left deferred after it.
///
/// Expiry pre-empts everything and drops the deferred intent with the
/// contract. Otherwise a bar takes the deferred intent and fills it at its
/// open; a trade print is not a bar open, and leaves it waiting.
pub open spec fn step_start_spec<E>(
    deferred: Option<DeferredIntent<E>>,
    expired: bool,
    mode: StepMode,
    entry_signal: bool,
) -> (StepStart<E>, Option<DeferredIntent<E>>) {
    if expired {
        (StepStart::Expire { refuse_entry: entry_signal }, None)
    } else if mode == StepMode::Bar {
        match deferred {
            Some(d) => (StepStart::Proceed { close_all: d.exit, deferred_entry: d.entry }, None),
            None => (StepStart::Proceed { close_all: false, deferred_entry: None }, None),
        }
    } else {
        (StepStart::Proceed { close_all: false, deferred_entry: None }, deferred)
    }
}

/// Decide how a step begins; `deferred` is left as the step leaves it.
pub fn step_start<E: Copy>(
    deferred: &mut Option<DeferredIntent<E>>,
    expired: bool,
    mode: StepMode,
    entry_signal: bool,
) -> (start: StepStart<E>)
    ensures
        (start, *final(deferred)) == step_start_spec(*old(deferred), expired, mode, entry_signal),
{
    if expired {
        *deferred = None;
        return StepStart::Expire { refuse_entry: entry_signal };
    }
    match mode {
        StepMode::Bar => {
            let taken = *deferred;
            *deferred = None;
            match taken {
                Some(d) => StepStart::Proceed { close_all: d.exit, deferred_entry: d.entry },
                None => StepStart::Proceed { close_all: false, deferred_entry: None },
            }
        },
        StepMode::Trade => StepStart::Proceed { close_all: false, deferred_entry: None },
    }
}

/// Why an entry is refused before the risk check sees it.
#[derive(Debug, Clone, Copy, PartialEq, Eq, Structural)]
pub enum EntryRefusal {
    /// The contract has expired.
    Expired,
    /// The instrument is not yet active.
    Inactive,
    /// A margin call halts entries.
    MarginCall,
}

/// What happens to an entry that is checked.
#[derive(Debug, Clone, Copy, PartialEq, Eq, Structural)]
pub enum EntryCheck {
    /// A position is already open: the entry does nothing.
    Skip,
    /// Refused before the risk check.
    Refuse(EntryRefusal),
    /// Ask the risk check, and enter if it allows.
    AskRisk,
}

/// The checks an entry passes at fill time: nothing while a position is
/// open; refused while the instrument is inactive, then while a margin call
/// halts entries; otherwise on to the risk check.
pub open spec fn entry_check_spec(in_position: bool, active: bool, margin_halted: bool) -> EntryCheck {
    if in_position {
        EntryCheck::Skip
    } else if !active {
        EntryCheck::Refuse(EntryRefusal::Inactive)
    } else if margin_halted {
        EntryCheck::Refuse(EntryRefusal::MarginCall)
    } else {
        EntryCheck::AskRisk
    }
}

/// Decide the checks an entry passes at fill time.
pub fn entry_check(in_position: bool, active: bool, margin_halted: bool) -> (g: EntryCheck)
    ensures
        g == entry_check_spec(in_position, active, margin_halted),
{
    if in_position {
        EntryCheck::Skip
    } else if !active {
        EntryCheck::Refuse(EntryRefusal::Inactive)
    } else if margin_halted {
        EntryCheck::Refuse(EntryRefusal::MarginCall)
    } else {
        EntryCheck::AskRisk
    }
}

/// Whether a refusal of this bar's own signal entry ends the step: a
/// refusal before the risk check does, skipping the schedule release and
/// the market sweep; a risk-check refusal does not, and neither does any
/// refusal of a deferred entry.
pub open spec fn signal_refusal_ends_step(g: EntryCheck) -> bool {
    g is Refuse
}

/// What a bar's signals do.
#[derive(Debug, Clone, Copy, PartialEq, Eq, Structural)]
pub struct SignalPlan {
    /// Whether the exit signal closes positions on this bar.
    pub exit_now: bool,
    /// Whether the exit signal is deferred to the next bar's open.
    pub defer_exit: bool,
    /// Whether the entry signal is deferred to the next bar's open.
    pub defer_entry: bool,
    /// Whether the entry signal is tried on this bar (then through
    /// [`entry_check`]).
    pub enter_now: bool,
}

/// What a bar's signals do: under next-bar-open timing on a bar, both are
/// deferred to the next bar's open; otherwise an exit acts now, and an
/// entry is tried now unless a position is already open.
pub open spec fn signal_plan_spec(next_bar_open: bool, mode: StepMode, entry: bool, exit: bool, in_position: bool) -> SignalPlan {
    let defer = next_bar_open && mode == StepMode::Bar;
    SignalPlan {
        exit_now: !defer && exit,
        defer_exit: defer && exit,
        defer_entry: defer && entry,
        enter_now: !defer && entry && !in_position,
    }
}

/// Decide what a bar's signals do.
pub fn signal_plan(next_bar_open: bool, mode: StepMode, entry: bool, exit: bool, in_position: bool) -> (p: SignalPlan)
    ensures
        p == signal_plan_spec(next_bar_open, mode, entry, exit, in_position),
{
    let defer = next_bar_open && match mode {
        StepMode::Bar => true,
        StepMode::Trade => false,
    };
    SignalPlan {
        exit_now: !defer && exit,
        defer_exit: defer && exit,
        defer_entry: defer && entry,
        enter_now: !defer && entry && !in_position,
    }
}

/// Whether a bar's close breaches margin maintenance: a position is open,
/// entries are not halted yet, something is required, and equity is below
/// it. A breach halts entries (and the halt latches).
pub open spec fn margin_breach_spec(in_position: bool, halted: bool, requires_margin: bool, equity_below: bool) -> bool {
    in_position && !halted && requires_margin && equity_below
}

/// Decide whether a bar's close breaches margin maintenance.
pub fn margin_breach(in_position: bool, halted: bool, requires_margin: bool, equity_below: bool) -> (breach: bool)
    ensures
        breach == margin_breach_spec(in_position, halted, requires_margin, equity_below),
{
    in_position && !halted && requires_margin && equity_below
}

/// Whether an order is a plain market order the kernel sweeps itself:
/// market, no parent, not queued to a bar phase.
pub open spec fn is_plain_market<P, Q>(o: WorkingOrder<P, Q>) -> bool {
    o.kind == OrderKind::<P>::Market && o.parent_id is None && o.tif != TimeInForce::AtOpen && o.tif
        != TimeInForce::AtClose
}

/// Whether a working plain market order is swept on step `idx`: under
/// deferral the ones sent on earlier steps, otherwise the ones sent on this
/// step.
pub open spec fn swept_spec<P, Q>(o: WorkingOrder<P, Q>, idx: u64, defer: bool) -> bool {
    is_plain_market(o) && if defer {
        o.submitted_idx < idx
    } else {
        o.submitted_idx == idx
    }
}

/// Whether a working plain market order is acknowledged on step `idx`:
/// under deferral, the ones sent on this step, which fill on the next.
pub open spec fn acknowledged_spec<P, Q>(o: WorkingOrder<P, Q>, idx: u64, defer: bool) -> bool {
    defer && is_plain_market(o) && o.submitted_idx == idx
}

fn plain_market<P: Copy, Q: Copy>(o: &WorkingOrder<P, Q>) -> (plain: bool)
    ensures
        plain == is_plain_market(*o),
{
    match o.kind {
        OrderKind::Market => o.parent_id.is_none() && match o.tif {
            TimeInForce::AtOpen | TimeInForce::AtClose => false,
            _ => true,
        },
        _ => false,
    }
}

/// Whether a working order is a plain market order swept on step `idx`.
pub fn swept<P: Copy, Q: Copy>(o: &WorkingOrder<P, Q>, idx: u64, defer: bool) -> (s: bool)
    ensures
        s == swept_spec(*o, idx, defer),
{
    plain_market(o) && if defer {
        o.submitted_idx < idx
    } else {
        o.submitted_idx == idx
    }
}

/// Whether a working order is a plain market order acknowledged on step
/// `idx`.
pub fn acknowledged<P: Copy, Q: Copy>(o: &WorkingOrder<P, Q>, idx: u64, defer: bool) -> (a: bool)
    ensures
        a == acknowledged_spec(*o, idx, defer),
{
    defer && plain_market(o) && o.submitted_idx == idx
}

/// An expired contract ends the step: its entry is refused, nothing is left
/// deferred, and no deferred entry fills.
pub proof fn law_expiry_refuses_entries<E>(deferred: Option<DeferredIntent<E>>, mode: StepMode, entry_signal: bool)
    ensures
        step_start_spec(deferred, true, mode, entry_signal) == (
            StepStart::<E>::Expire { refuse_entry: entry_signal },
            None::<DeferredIntent<E>>,
        ),
{
}

/// While a margin call halts entries, no entry reaches the risk check.
pub proof fn law_a_margin_call_halts_entries(in_position: bool, active: bool)
    ensures
        entry_check_spec(in_position, active, true) != EntryCheck::AskRisk,
{
}

/// Under next-bar-open timing no bar acts on its own signals: both are
/// deferred, and none acts now.
pub proof fn law_next_bar_open_defers_every_signal(entry: bool, exit: bool, in_position: bool)
    ensures
        !signal_plan_spec(true, StepMode::Bar, entry, exit, in_position).exit_now,
        !signal_plan_spec(true, StepMode::Bar, entry, exit, in_position).enter_now,
        signal_plan_spec(true, StepMode::Bar, entry, exit, in_position).defer_exit == exit,
        signal_plan_spec(true, StepMode::Bar, entry, exit, in_position).defer_entry == entry,
{
}

/// On any one step a plain market order is never both swept and
/// acknowledged, and on the step it was sent on it is one or the other:
/// swept at once, or, under deferral, acknowledged to fill on a later step.
pub proof fn law_a_market_order_is_swept_or_acknowledged_not_both<P, Q>(o: WorkingOrder<P, Q>, idx: u64, defer: bool)
    ensures
        !(swept_spec(o, idx, defer) && acknowledged_spec(o, idx, defer)),
        is_plain_market(o) && o.submitted_idx == idx ==> (swept_spec(o, idx, defer) || acknowledged_spec(
            o,
            idx,
            defer,
        )),
{
}

/// One phase of an engine step.
#[derive(Debug, Clone, Copy, PartialEq, Eq, Structural)]
pub enum Phase {
    /// Acknowledgments queued between steps lead the step's events.
    DeliverQueuedEvents,
    /// Settle every position of an expired contract.
    SettleExpiry,
    /// Cancel every working order.
    CancelAllOrders,
    /// Refuse this bar's entry signal.
    RefuseEntry(EntryRefusal),
    /// Close every position for the exit deferred from the previous bar.
    CloseAllForDeferredExit,
    /// Try the entry deferred from the previous bar (through
    /// [`entry_check`]; a refusal does not end the step).
    DeferredEntry,
    /// Track running extremes for trailing stops.
    TrackExtremes,
    /// Defer this bar's exit signal to the next bar's open.
    DeferExit,
    /// Stop, target and signal exits, per position in opening order.
    ProtectiveExits,
    /// Closes the strategy requested of specific positions.
    RequestedCloses,
    /// Margin maintenance against the bar's close (see [`margin_breach`]).
    MarginCheck,
    /// Match resting orders against the step.
    MatchRestingOrders,
    /// Defer this bar's entry signal to the next bar's open.
    DeferEntry,
    /// Try this bar's entry signal (through [`entry_check`]).
    SignalEntry,
    /// Release execution-schedule slices.
    ReleaseSchedules,
    /// Acknowledge this bar's new market orders, which fill on the next.
    AcknowledgeMarketOrders,
    /// Sweep the market orders due on this step.
    SweepMarketOrders,
}

/// The flags a step is planned from.
#[derive(Debug, Clone, Copy, PartialEq, Eq, Structural)]
pub struct StepFlags {
    /// The contract has expired at this step.
    pub expired: bool,
    /// A bar or a trade print.
    pub mode: StepMode,
    /// Signals fill at the next bar's open.
    pub next_bar_open: bool,
    /// This bar's entry signal.
    pub entry: bool,
    /// This bar's exit signal.
    pub exit: bool,
    /// The previous bar deferred an exit.
    pub deferred_exit: bool,
    /// The previous bar deferred an entry.
    pub deferred_entry: bool,
}

/// `p` alone where `b` holds, nothing otherwise.
pub open spec fn phase_if(b: bool, p: Phase) -> Seq<Phase> {
    if b {
        seq![p]
    } else {
        Seq::empty()
    }
}

/// Whether a step's own signals are deferred to the next bar's open.
pub open spec fn defers(f: StepFlags) -> bool {
    f.next_bar_open && f.mode == StepMode::Bar
}

/// The phases of a step up to and including its own signal entry.
///
/// Queued acknowledgments come first. An expired contract settles, cancels
/// every working order and refuses the bar's entry, and the step ends.
/// Otherwise, on a bar, the intent deferred from the previous bar fills
/// first (its exit before its
/// entry); then running extremes are tracked, a deferred exit is recorded,
/// protective and signal exits run, requested closes fill, margin is
/// checked, and resting orders match -- all before the bar's own entry,
/// which is deferred or tried.
pub open spec fn step_plan_spec(f: StepFlags) -> Seq<Phase> {
    let bar = f.mode == StepMode::Bar;
    if f.expired {
        seq![Phase::DeliverQueuedEvents, Phase::SettleExpiry, Phase::CancelAllOrders] + phase_if(
            f.entry,
            Phase::RefuseEntry(EntryRefusal::Expired),
        )
    } else {
        seq![Phase::DeliverQueuedEvents] + phase_if(bar && f.deferred_exit, Phase::CloseAllForDeferredExit)
            + phase_if(bar && f.deferred_entry, Phase::DeferredEntry) + seq![Phase::TrackExtremes] + phase_if(
            defers(f) && f.exit,
            Phase::DeferExit,
        ) + seq![
            Phase::ProtectiveExits,
            Phase::RequestedCloses,
            Phase::MarginCheck,
            Phase::MatchRestingOrders,
        ] + phase_if(defers(f) && f.entry, Phase::DeferEntry) + phase_if(
            !defers(f) && f.entry,
            Phase::SignalEntry,
        )
    }
}

/// The phases after a step's own signal entry: none once the entry was
/// refused before the risk limits saw it; otherwise the schedule release,
/// then (when signals are deferred) the acknowledgment of this bar's market
/// orders, then the market sweep. An expired step has none.
pub open spec fn step_tail_spec(f: StepFlags, refused_before_risk: bool) -> Seq<Phase> {
    if f.expired || refused_before_risk {
        Seq::empty()
    } else {
        seq![Phase::ReleaseSchedules] + phase_if(defers(f), Phase::AcknowledgeMarketOrders) + seq![
            Phase::SweepMarketOrders,
        ]
    }
}

fn push_if(plan: &mut Vec<Phase>, b: bool, p: Phase)
    ensures
        final(plan)@ == old(plan)@ + phase_if(b, p),
{
    if b {
        plan.push(p);
    }
    proof {
        assert(final(plan)@ =~= old(plan)@ + phase_if(b, p));
    }
}

/// Plan a step up to and including its own signal entry.
pub fn step_plan(f: StepFlags) -> (plan: Vec<Phase>)
    ensures
        plan@ == step_plan_spec(f),
{
    let bar = match f.mode {
        StepMode::Bar => true,
        StepMode::Trade => false,
    };
    let defer = f.next_bar_open && bar;
    let mut plan: Vec<Phase> = Vec::new();
    plan.push(Phase::DeliverQueuedEvents);
    if f.expired {
        plan.push(Phase::SettleExpiry);
        plan.push(Phase::CancelAllOrders);
        push_if(&mut plan, f.entry, Phase::RefuseEntry(EntryRefusal::Expired));
        proof {
            assert(plan@ =~= step_plan_spec(f));
        }
        return plan;
    }
    push_if(&mut plan, bar && f.deferred_exit, Phase::CloseAllForDeferredExit);
    push_if(&mut plan, bar && f.deferred_entry, Phase::DeferredEntry);
    plan.push(Phase::TrackExtremes);
    push_if(&mut plan, defer && f.exit, Phase::DeferExit);
    plan.push(Phase::ProtectiveExits);
    plan.push(Phase::RequestedCloses);
    plan.push(Phase::MarginCheck);
    plan.push(Phase::MatchRestingOrders);
    push_if(&mut plan, defer && f.entry, Phase::DeferEntry);
    push_if(&mut plan, !defer && f.entry, Phase::SignalEntry);
    proof {
        assert(plan@ =~= step_plan_spec(f));
    }
    plan
}

/// Plan the phases after a step's own signal entry.
pub fn step_tail(f: StepFlags, refused_before_risk: bool) -> (tail: Vec<Phase>)
    ensures
        tail@ == step_tail_spec(f, refused_before_risk),
{
    let mut tail: Vec<Phase> = Vec::new();
    if f.expired || refused_before_risk {
        proof {
            assert(tail@ =~= step_tail_spec(f, refused_before_risk));
        }
        return tail;
    }
    let defer = f.next_bar_open && match f.mode {
        StepMode::Bar => true,
        StepMode::Trade => false,
    };
    tail.push(Phase::ReleaseSchedules);
    push_if(&mut tail, defer, Phase::AcknowledgeMarketOrders);
    tail.push(Phase::SweepMarketOrders);
    proof {
        assert(tail@ =~= step_tail_spec(f, refused_before_risk));
    }
    tail
}

/// The tail a market order's depth takes in the sweep: an immediate order
/// is canceled once its first fill lands and rests; any other sweeps one
/// increment worse.
pub fn market_sweep_tail(tif: TimeInForce) -> (tail: crate::fill::Tail)
    ensures
        tail == if tif == TimeInForce::Ioc || tif == TimeInForce::Fok {
            crate::fill::Tail::Rests
        } else {
            crate::fill::Tail::Sweep
        },
{
    match tif {
        TimeInForce::Ioc | TimeInForce::Fok => crate::fill::Tail::Rests,
        _ => crate::fill::Tail::Sweep,
    }
}

/// Where `p` first stands in `plan`, or `plan.len()` if nowhere.
pub open spec fn position_of(plan: Seq<Phase>, p: Phase) -> int
    decreases plan.len(),
{
    if plan.len() == 0 {
        0
    } else if plan[0] == p {
        0
    } else {
        1 + position_of(plan.drop_first(), p)
    }
}

proof fn lemma_position_in_concat(a: Seq<Phase>, b: Seq<Phase>, p: Phase)
    requires
        !a.contains(p),
    ensures
        position_of(a + b, p) == a.len() + position_of(b, p),
    decreases a.len(),
{
    if a.len() > 0 {
        assert((a + b).drop_first() =~= a.drop_first() + b);
        assert(a[0] != p);
        assert(!a.drop_first().contains(p)) by {
            if a.drop_first().contains(p) {
                let k = choose|k: int| 0 <= k < a.drop_first().len() && a.drop_first()[k] == p;
                assert(a[k + 1] == p);
            }
        }
        lemma_position_in_concat(a.drop_first(), b, p);
    }
}

/// Every step is planned in the load-bearing order: queued acknowledgments
/// first; protective and signal exits before resting orders match, and
/// resting orders before the bar's own entry is deferred or tried; and an
/// expired contract neither matches resting orders nor takes any entry.
pub proof fn law_phases_run_in_order(f: StepFlags)
    ensures
        step_plan_spec(f)[0] == Phase::DeliverQueuedEvents,
        !f.expired ==> {
            let plan = step_plan_spec(f);
            &&& position_of(plan, Phase::ProtectiveExits) < position_of(plan, Phase::MatchRestingOrders)
            &&& position_of(plan, Phase::MatchRestingOrders) < plan.len()
            &&& f.entry ==> position_of(plan, Phase::MatchRestingOrders) == plan.len() - 2
            &&& f.entry ==> (plan.last() == Phase::SignalEntry || plan.last() == Phase::DeferEntry)
        },
        f.expired ==> !step_plan_spec(f).contains(Phase::MatchRestingOrders) && !step_plan_spec(f).contains(
            Phase::SignalEntry,
        ) && !step_plan_spec(f).contains(Phase::DeferredEntry),
{
    let bar = f.mode == StepMode::Bar;
    let plan = step_plan_spec(f);
    if f.expired {
        let e = seq![Phase::DeliverQueuedEvents, Phase::SettleExpiry, Phase::CancelAllOrders] + phase_if(
            f.entry,
            Phase::RefuseEntry(EntryRefusal::Expired),
        );
        assert(plan == e);
        assert forall|k: int| 0 <= k < plan.len() implies plan[k] != Phase::MatchRestingOrders
            && plan[k] != Phase::SignalEntry && plan[k] != Phase::DeferredEntry by {
            if k < 3 {
            } else {
                assert(plan[k] == Phase::RefuseEntry(EntryRefusal::Expired));
            }
        }
    } else {
        let head = seq![Phase::DeliverQueuedEvents] + phase_if(bar && f.deferred_exit, Phase::CloseAllForDeferredExit)
            + phase_if(bar && f.deferred_entry, Phase::DeferredEntry) + seq![Phase::TrackExtremes] + phase_if(
            defers(f) && f.exit,
            Phase::DeferExit,
        );
        let mid = seq![
            Phase::ProtectiveExits,
            Phase::RequestedCloses,
            Phase::MarginCheck,
            Phase::MatchRestingOrders,
        ];
        let tail = phase_if(defers(f) && f.entry, Phase::DeferEntry) + phase_if(
            !defers(f) && f.entry,
            Phase::SignalEntry,
        );
        assert(plan =~= head + (mid + tail));
        assert(!head.contains(Phase::ProtectiveExits)) by {
            if head.contains(Phase::ProtectiveExits) {
                let k = choose|k: int| 0 <= k < head.len() && head[k] == Phase::ProtectiveExits;
            }
        }
        assert(!head.contains(Phase::MatchRestingOrders)) by {
            if head.contains(Phase::MatchRestingOrders) {
                let k = choose|k: int| 0 <= k < head.len() && head[k] == Phase::MatchRestingOrders;
            }
        }
        lemma_position_in_concat(head, mid + tail, Phase::ProtectiveExits);
        lemma_position_in_concat(head, mid + tail, Phase::MatchRestingOrders);
        let pre = seq![Phase::ProtectiveExits, Phase::RequestedCloses, Phase::MarginCheck];
        assert(mid + tail =~= pre + (seq![Phase::MatchRestingOrders] + tail));
        assert(!pre.contains(Phase::MatchRestingOrders)) by {
            if pre.contains(Phase::MatchRestingOrders) {
                let k = choose|k: int| 0 <= k < pre.len() && pre[k] == Phase::MatchRestingOrders;
            }
        }
        lemma_position_in_concat(pre, seq![Phase::MatchRestingOrders] + tail, Phase::MatchRestingOrders);
        assert(position_of(seq![Phase::MatchRestingOrders] + tail, Phase::MatchRestingOrders) == 0);
        assert(position_of(mid + tail, Phase::ProtectiveExits) == 0);
        if f.entry {
            assert(tail.len() == 1);
        }
    }
}

/// Deferred intents are taken only at a bar's open: the plan of a trade
/// print holds neither the deferred exit's close-out nor the deferred entry,
/// while an unexpired bar takes each deferred intent that is pending, the
/// deferred exit right after the queued acknowledgments.
pub proof fn law_deferred_intents_wait_for_a_bar(f: StepFlags)
    ensures
        f.mode == StepMode::Trade ==> !step_plan_spec(f).contains(Phase::DeferredEntry)
            && !step_plan_spec(f).contains(Phase::CloseAllForDeferredExit),
        f.mode == StepMode::Bar && !f.expired ==> {
            let plan = step_plan_spec(f);
            &&& plan.contains(Phase::DeferredEntry) <==> f.deferred_entry
            &&& plan.contains(Phase::CloseAllForDeferredExit) <==> f.deferred_exit
            &&& f.deferred_exit ==> plan[1] == Phase::CloseAllForDeferredExit
        },
{
    let bar = f.mode == StepMode::Bar;
    let plan = step_plan_spec(f);
    if f.expired {
        assert forall|k: int| 0 <= k < plan.len() implies plan[k] != Phase::DeferredEntry
            && plan[k] != Phase::CloseAllForDeferredExit by {
            if k >= 3 {
                assert(plan[k] == Phase::RefuseEntry(EntryRefusal::Expired));
            }
        }
    } else {
        let x = phase_if(bar && f.deferred_exit, Phase::CloseAllForDeferredExit);
        let e = phase_if(bar && f.deferred_entry, Phase::DeferredEntry);
        let rest = seq![Phase::TrackExtremes] + phase_if(defers(f) && f.exit, Phase::DeferExit) + seq![
            Phase::ProtectiveExits,
            Phase::RequestedCloses,
            Phase::MarginCheck,
            Phase::MatchRestingOrders,
        ] + phase_if(defers(f) && f.entry, Phase::DeferEntry) + phase_if(!defers(f) && f.entry, Phase::SignalEntry);
        assert(plan =~= seq![Phase::DeliverQueuedEvents] + x + e + rest);
        assert forall|k: int| 0 <= k < rest.len() implies rest[k] != Phase::DeferredEntry
            && rest[k] != Phase::CloseAllForDeferredExit by {
        }
        if bar && f.deferred_exit {
            assert(plan[1] == Phase::CloseAllForDeferredExit);
        }
        if bar && f.deferred_entry {
            assert(plan[1 + x.len() as int] == Phase::DeferredEntry);
        }
        assert forall|k: int| 0 <= k < plan.len() && plan[k] == Phase::DeferredEntry implies bar
            && f.deferred_entry by {
            if k >= 1 + x.len() + e.len() {
                assert(plan[k] == rest[k - 1 - x.len() - e.len()]);
            }
        }
        assert forall|k: int| 0 <= k < plan.len() && plan[k] == Phase::CloseAllForDeferredExit implies bar
            && f.deferred_exit by {
            if k >= 1 + x.len() + e.len() {
                assert(plan[k] == rest[k - 1 - x.len() - e.len()]);
            }
        }
    }
}

/// An entry refused before the risk limits saw it ends the step: no schedule
/// is released and no market order is swept on it.
pub proof fn law_a_refused_signal_entry_ends_the_step(f: StepFlags)
    ensures
        step_tail_spec(f, true).len() == 0,
        !f.expired ==> step_tail_spec(f, false).last() == Phase::SweepMarketOrders,
{
}

} // verus!
