use raptorbt::signals::{combine_signals_and, combine_signals_or, shift_signals, SignalProcessor};
use raptorbt::types::Direction;

#[test]
fn test_clean_signals_basic() {
    let processor = SignalProcessor::new();

    let entries = vec![true, false, true, false, true, false];
    let exits = vec![false, true, false, true, false, true];

    let (clean_e, clean_x) = processor.clean_signals(&entries, &exits);

    // First entry should be kept
    assert!(clean_e[0]);
    // First exit should be kept
    assert!(clean_x[1]);
    // Second entry should be kept
    assert!(clean_e[2]);
    // Second exit should be kept
    assert!(clean_x[3]);
}

#[test]
fn test_clean_signals_consecutive_entries() {
    let processor = SignalProcessor::new();

    let entries = vec![true, true, true, false, false];
    let exits = vec![false, false, false, true, false];

    let (clean_e, clean_x) = processor.clean_signals(&entries, &exits);

    // Only first entry should be kept
    assert!(clean_e[0]);
    assert!(!clean_e[1]);
    assert!(!clean_e[2]);
    // Exit should be kept
    assert!(clean_x[3]);
}

#[test]
fn test_clean_signals_consecutive_exits() {
    let processor = SignalProcessor::new();

    let entries = vec![true, false, false, false, false];
    let exits = vec![false, true, true, true, false];

    let (clean_e, clean_x) = processor.clean_signals(&entries, &exits);

    // Entry should be kept
    assert!(clean_e[0]);
    // Only first exit should be kept
    assert!(clean_x[1]);
    assert!(!clean_x[2]);
    assert!(!clean_x[3]);
}

#[test]
fn test_clean_signals_exit_before_entry() {
    let processor = SignalProcessor::new();

    let entries = vec![false, false, true, false, false];
    let exits = vec![true, true, false, true, false];

    let (clean_e, clean_x) = processor.clean_signals(&entries, &exits);

    // Exits before first entry should be ignored
    assert!(!clean_x[0]);
    assert!(!clean_x[1]);
    // Entry should be kept
    assert!(clean_e[2]);
    // Exit after entry should be kept
    assert!(clean_x[3]);
}

#[test]
fn test_pyramiding() {
    let processor = SignalProcessor::new().with_pyramiding(3);

    let entries = vec![true, true, true, false, false];
    let exits = vec![false, false, false, true, true];

    let (clean_e, clean_x) = processor.clean_signals(&entries, &exits);

    // All three entries should be kept (pyramiding)
    assert!(clean_e[0]);
    assert!(clean_e[1]);
    assert!(clean_e[2]);
    // Both exits should be kept
    assert!(clean_x[3]);
    assert!(clean_x[4]);
}

#[test]
fn test_shift_signals() {
    let signals = vec![true, false, true, false, true];
    let shifted = shift_signals(&signals, 2);

    assert!(!shifted[0]);
    assert!(!shifted[1]);
    assert!(shifted[2]); // signals[0]
    assert!(!shifted[3]); // signals[1]
    assert!(shifted[4]); // signals[2]
}

#[test]
fn test_combine_signals_and() {
    let sig1 = vec![true, true, false, false];
    let sig2 = vec![true, false, true, false];

    let combined = combine_signals_and(&[&sig1, &sig2]);

    assert!(combined[0]); // true && true
    assert!(!combined[1]); // true && false
    assert!(!combined[2]); // false && true
    assert!(!combined[3]); // false && false
}

#[test]
fn test_combine_signals_or() {
    let sig1 = vec![true, true, false, false];
    let sig2 = vec![true, false, true, false];

    let combined = combine_signals_or(&[&sig1, &sig2]);

    assert!(combined[0]); // true || true
    assert!(combined[1]); // true || false
    assert!(combined[2]); // false || true
    assert!(!combined[3]); // false || false
}

#[test]
fn signed_cleaning_opens_in_the_direction_the_bar_names() {
    let processor = SignalProcessor::new();
    let (entries, exits, directions) = processor.clean_signals_signed(
        &[true, false, false],
        &[false, false, true],
        &[-1, 0, 0],
        Direction::Long,
    );
    assert_eq!(entries, vec![true, false, false]);
    assert_eq!(exits, vec![false, false, true]);
    assert_eq!(directions, vec![-1, 0, 0]);
}

#[test]
fn signed_cleaning_reverses_on_one_bar() {
    let processor = SignalProcessor::new();
    let (entries, exits, directions) = processor.clean_signals_signed(
        &[true, true, false],
        &[false, false, true],
        &[1, -1, 0],
        Direction::Long,
    );
    // Bar 1 both closes the long and opens the short.
    assert_eq!(entries, vec![true, true, false]);
    assert_eq!(exits, vec![false, true, true]);
    assert_eq!(directions, vec![1, -1, 0]);
}

#[test]
fn signed_cleaning_ignores_a_same_side_entry() {
    let processor = SignalProcessor::new();
    let (entries, exits, _) = processor.clean_signals_signed(
        &[true, true, false],
        &[false, false, true],
        &[-1, -1, 0],
        Direction::Long,
    );
    assert_eq!(entries, vec![true, false, false]);
    assert_eq!(exits, vec![false, false, true]);
}

#[test]
fn signed_cleaning_lets_a_same_side_entry_outrank_its_bar_s_exit() {
    let processor = SignalProcessor::new();
    let (entries, exits, _) = processor.clean_signals_signed(
        &[true, true, false],
        &[false, true, true],
        &[1, 1, 0],
        Direction::Long,
    );
    // Exactly `clean_signals`: the bar-1 exit is dropped, not taken.
    assert_eq!(entries, vec![true, false, false]);
    assert_eq!(exits, vec![false, false, true]);
}

#[test]
fn signed_cleaning_falls_back_to_the_run_direction() {
    let processor = SignalProcessor::new();
    let (entries, exits, directions) = processor.clean_signals_signed(
        &[true, false, false],
        &[false, false, true],
        &[0, 0, 0],
        Direction::Short,
    );
    assert_eq!(directions, vec![-1, 0, 0]);
    // And the alternation is the single-sided cleaner's, unchanged.
    let (plain_entries, plain_exits) =
        processor.clean_signals(&[true, false, false], &[false, false, true]);
    assert_eq!(entries, plain_entries);
    assert_eq!(exits, plain_exits);
}

#[test]
fn signed_cleaning_ignores_an_exit_taken_while_flat() {
    let processor = SignalProcessor::new();
    let (entries, exits, _) = processor.clean_signals_signed(
        &[false, true],
        &[true, false],
        &[0, -1],
        Direction::Long,
    );
    assert_eq!(entries, vec![false, true]);
    assert_eq!(exits, vec![false, false]);
}
