use rescue_shell::console::TerminalSizeNegotiator;
use rescue_shell::protocol::{HelperId, PtySize, TIMEOUT};

const SECOND: u128 = 1_000_000_000;

fn size(cols: u16, rows: u16) -> PtySize {
    PtySize { cols, rows }
}

#[test]
fn alone_the_local_terminal_decides() {
    let mut n = TerminalSizeNegotiator::new(size(80, 24));
    assert_eq!(n.best_size(), size(80, 24));
    assert_eq!(n.update_local(size(100, 30)), size(100, 30));
}

#[test]
fn smallest_width_and_height_win() {
    let mut n = TerminalSizeNegotiator::new(size(80, 24));
    assert_eq!(n.update_helper(HelperId(1), size(100, 20)), size(80, 20));
    assert_eq!(n.update_helper(HelperId(2), size(60, 40)), size(60, 20));
    assert_eq!(n.update_helper(HelperId(2), size(90, 40)), size(80, 20));
    assert_eq!(n.best_size(), size(80, 20));
    assert_eq!(n.update_local(size(70, 50)), size(70, 20));
}

#[test]
fn helper_that_leaves_no_longer_counts() {
    let mut n = TerminalSizeNegotiator::new(size(80, 24));
    n.update_helper(HelperId(1), size(40, 10));
    assert_eq!(n.remove_helper(HelperId(1)), size(80, 24));
    assert_eq!(n.remove_helper(HelperId(1)), size(80, 24));
}

#[test]
fn helper_that_is_silent_no_longer_counts() {
    let mut n = TerminalSizeNegotiator::new(size(80, 24));
    let timeout = TIMEOUT as u128 * SECOND;
    assert_eq!(n.update_helper_at(HelperId(1), size(40, 10), 5, 5), size(40, 10));
    assert_eq!(n.best_size_at(5 + timeout - 1), size(40, 10));
    assert_eq!(n.best_size_at(5 + timeout), size(80, 24));
    assert_eq!(n.best_size_at(0), size(80, 24));
}

#[test]
fn helper_that_is_heard_again_goes_on_counting() {
    let mut n = TerminalSizeNegotiator::new(size(80, 24));
    n.update_helper_at(HelperId(1), size(40, 10), 0, 0);
    n.update_helper_at(HelperId(1), size(40, 10), 5 * SECOND, 5 * SECOND);
    assert_eq!(n.best_size_at(14 * SECOND), size(40, 10));
    assert_eq!(n.best_size_at(15 * SECOND), size(80, 24));
}

#[test]
fn remove_and_update_local_at_a_time() {
    let mut n = TerminalSizeNegotiator::new(size(80, 24));
    n.update_helper_at(HelperId(1), size(40, 10), 0, 0);
    n.update_helper_at(HelperId(2), size(50, 20), 0, 0);
    assert_eq!(n.remove_helper_at(HelperId(1), 1), size(50, 20));
    assert_eq!(n.update_local_at(size(45, 30), 2), size(45, 20));
    assert_eq!(n.update_local_at(size(45, 30), 10 * SECOND), size(45, 30));
}

#[test]
fn clock_does_not_run_backwards() {
    let n = TerminalSizeNegotiator::new(size(80, 24));
    let a = n.clock();
    let b = n.clock();
    assert!(a <= b);
}

#[test]
fn min_dimensions_takes_each_minimum() {
    assert_eq!(size(80, 10).min_dimensions(size(70, 24)), size(70, 10));
    assert_eq!(size(5, 5).min_dimensions(size(5, 5)), size(5, 5));
    assert_eq!(PtySize::default(), size(0, 0));
    assert_eq!(HelperId::from(9), HelperId(9));
}
