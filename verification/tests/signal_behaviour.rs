use raptorbt::signals::{combine_signals_and, combine_signals_or, shift_signals, SignalProcessor};
use raptorbt::types::Direction;

fn messy() -> (Vec<bool>, Vec<bool>) {
    let entries = vec![false, true, true, true, false, true, false, true, true, false, false, true];
    let exits = vec![true, false, true, false, true, true, true, true, false, true, true, true];
    (entries, exits)
}

#[test]
fn cleaning_twice_changes_nothing() {
    let (entries, exits) = messy();
    for processor in [SignalProcessor::new(), SignalProcessor::new().with_pyramiding(3)] {
        let (e1, x1) = processor.clean_signals(&entries, &exits);
        let (e2, x2) = processor.clean_signals(&e1, &x1);
        assert_eq!(e1, e2);
        assert_eq!(x1, x2);
    }
}

#[test]
fn cleaning_only_drops_and_never_keeps_both_on_a_bar() {
    let (entries, exits) = messy();
    let (e, x) = SignalProcessor::new().with_pyramiding(2).clean_signals(&entries, &exits);
    for i in 0..entries.len() {
        assert!(!e[i] || entries[i]);
        assert!(!x[i] || exits[i]);
        assert!(!(e[i] && x[i]));
    }
}

#[test]
fn cleaned_signals_alternate_without_pyramiding() {
    let (entries, exits) = messy();
    let (e, x) = SignalProcessor::new().clean_signals(&entries, &exits);
    let mut open = 0i32;
    for i in 0..entries.len() {
        if e[i] {
            assert_eq!(open, 0);
            open += 1;
        }
        if x[i] {
            assert_eq!(open, 1);
            open -= 1;
        }
    }
    assert_eq!(e, vec![false, true, false, false, false, true, false, true, false, false, false, true]);
    assert_eq!(x, vec![false, false, false, false, true, false, true, false, false, true, false, false]);
}

#[test]
fn pyramiding_stops_at_its_limit_and_unwinds_layer_by_layer() {
    let processor = SignalProcessor::new().with_pyramiding(2);
    let (e, x) = processor.clean_signals(
        &[true, true, true, false, false, false],
        &[false, false, false, true, true, true],
    );
    assert_eq!(e, vec![true, true, false, false, false, false]);
    assert_eq!(x, vec![false, false, false, true, true, false]);
}

#[test]
fn a_limit_of_one_is_no_pyramiding() {
    let processor = SignalProcessor::new().with_pyramiding(1);
    assert!(!processor.allow_pyramiding);
    assert_eq!(processor.max_pyramid_entries, 1);
    let fresh = SignalProcessor::default();
    assert!(!fresh.allow_pyramiding);
    assert_eq!(fresh.max_pyramid_entries, 1);
}

#[test]
fn a_same_bar_entry_keeps_the_position_open() {
    let (e, x) = SignalProcessor::new().clean_signals(&[true, true, false], &[false, true, true]);
    assert_eq!(e, vec![true, false, false]);
    assert_eq!(x, vec![false, false, true]);
}

#[test]
fn empty_runs_clean_to_empty() {
    let (e, x) = SignalProcessor::new().clean_signals(&[], &[]);
    assert!(e.is_empty() && x.is_empty());
    let (e, x, d) = SignalProcessor::new().clean_signals_signed(&[], &[], &[], Direction::Long);
    assert!(e.is_empty() && x.is_empty() && d.is_empty());
}

#[test]
fn unsigned_directions_clean_like_one_side() {
    let (entries, exits) = messy();
    let zeros = vec![0i8; entries.len()];
    let p = SignalProcessor::new().with_pyramiding(3);
    let (e, x, d) = p.clean_signals_signed(&entries, &exits, &zeros, Direction::Long);
    let (pe, px) = p.clean_signals(&entries, &exits);
    assert_eq!(e, pe);
    assert_eq!(x, px);
    for i in 0..e.len() {
        assert_eq!(d[i], if e[i] { 1 } else { 0 });
    }
}

#[test]
fn bidirectional_reverses_and_holds_one_side() {
    let p = SignalProcessor::new();
    let (le, lx, se, sx) = p.clean_signals_bidirectional(
        &[true, false, false, true, false],
        &[false, false, false, false, true],
        &[false, true, false, false, true],
        &[false, false, true, false, false],
    );
    assert_eq!(le, vec![true, false, false, true, false]);
    assert_eq!(lx, vec![false, true, false, false, true]);
    assert_eq!(se, vec![false, true, false, false, false]);
    assert_eq!(sx, vec![false, false, true, false, false]);
    let (mut long_open, mut short_open) = (0i32, 0i32);
    for i in 0..le.len() {
        long_open += le[i] as i32 - lx[i] as i32;
        short_open += se[i] as i32 - sx[i] as i32;
        assert!(long_open + short_open <= 1);
        assert!(long_open >= 0 && short_open >= 0);
    }
}

#[test]
fn opposite_entries_become_exits() {
    let (long_exits, short_exits) =
        SignalProcessor::new().exits_from_opposite_entries(&[true, false, true], &[false, true, false]);
    assert_eq!(long_exits, vec![false, true, false]);
    assert_eq!(short_exits, vec![true, false, true]);
}

#[test]
fn trades_are_counted_by_exit_and_indexed_in_order() {
    let entries = [true, false, false, true, false];
    let exits = [false, true, false, false, true];
    assert_eq!(SignalProcessor::count_trades(&entries, &exits), 2);
    let (ei, xi) = SignalProcessor::get_trade_indices(&entries, &exits);
    assert_eq!(ei, vec![0, 3]);
    assert_eq!(xi, vec![1, 4]);
}

#[test]
fn shifting_past_the_end_clears_everything() {
    assert_eq!(shift_signals(&[true, true, true], 3), vec![false, false, false]);
    assert_eq!(shift_signals(&[true, false, true], 0), vec![true, false, true]);
    assert!(shift_signals(&[], 2).is_empty());
}

#[test]
fn combining_nothing_gives_nothing() {
    assert!(combine_signals_and(&[]).is_empty());
    assert!(combine_signals_or(&[]).is_empty());
    let only = [true, false];
    assert_eq!(combine_signals_and(&[&only]), vec![true, false]);
    let a = [true, false, true];
    let b = [true, true, false];
    let c = [false, true, true];
    assert_eq!(combine_signals_and(&[&a, &b, &c]), vec![false, false, false]);
    assert_eq!(combine_signals_or(&[&a, &b, &c]), vec![true, true, true]);
}

#[test]
fn delays_add_up() {
    let signals = [true, false, true, true, false, true, false];
    let twice = shift_signals(&shift_signals(&signals, 2), 3);
    assert_eq!(twice, shift_signals(&signals, 5));
    assert_eq!(twice, vec![false, false, false, false, false, true, false]);
}

#[test]
fn zeroed_directions_give_clean_signals_back_with_pyramiding() {
    let p = SignalProcessor::new().with_pyramiding(2);
    let entries = [true, true, true, false, false];
    let exits = [false, false, false, true, true];
    let (e, x) = p.clean_signals(&entries, &exits);
    let (se, sx, sd) = p.clean_signals_signed(&entries, &exits, &[0; 5], Direction::Short);
    assert_eq!(se, e);
    assert_eq!(sx, x);
    assert_eq!(e, vec![true, true, false, false, false]);
    assert_eq!(sd, vec![-1, -1, 0, 0, 0]);
}

#[test]
fn a_reversal_closes_every_pyramid_layer() {
    let p = SignalProcessor::new().with_pyramiding(3);
    let entries = [true, true, true, false];
    let exits = [false, false, false, true];
    let (e, x, d) = p.clean_signals_signed(&entries, &exits, &[1, 1, -1, 0], Direction::Long);
    assert_eq!(e, vec![true, true, true, false]);
    assert_eq!(x, vec![false, false, true, true]);
    assert_eq!(d, vec![1, 1, -1, 0]);
}
