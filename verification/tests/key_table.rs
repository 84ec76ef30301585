use bytes::BytesMut;
use rescue_shell::console::stdin_parser::{
    maybe_partial, poll_millis, sgr_coords, st_length, stdin_readable, table_match, Action,
    StdinProcessor, ESC_QUIET_PERIOD,
};
use rescue_shell::console::LocalEvent;
use std::time::Duration;

fn burst(processor: &mut StdinProcessor, input: &[u8]) -> (Vec<LocalEvent>, Vec<u8>) {
    let (events, bytes) = processor.process(input);
    (events, bytes.to_vec())
}

#[test]
fn table_plain_input_is_forwarded() {
    let mut p = StdinProcessor::new(20);
    let input = "ls \u{7f}\u{3}€".as_bytes();
    assert_eq!(burst(&mut p, input), (vec![], input.to_vec()));
}

#[test]
fn table_detach_is_local() {
    let mut p = StdinProcessor::new(20);
    assert_eq!(burst(&mut p, b"a\x1db"), (vec![LocalEvent::Detach], b"ab".to_vec()));
}

#[test]
fn table_cursor_keys_are_rewritten() {
    let mut p = StdinProcessor::new(20);
    assert_eq!(burst(&mut p, b"\x1b[A\x1bOB\x1b[1~"), (vec![], b"\x1b[A\x1b[B\x1b[1~".to_vec()));
    p.set_state(false, false, 20, true);
    assert_eq!(
        burst(&mut p, b"\x1b[A\x1bOB\x1b[1~\x1b[7~\x1b[4~\x1b[8~"),
        (vec![], b"\x1bOA\x1bOB\x1bOH\x1bOH\x1bOF\x1bOF".to_vec())
    );
}

#[test]
fn table_scroll_keys() {
    let mut p = StdinProcessor::new(12);
    assert_eq!(
        burst(&mut p, b"\x1b[5~\x1b[5;2~\x1b[6~\x1b[6;2~\x1b[1;5A\x1b[1;5B"),
        (
            vec![
                LocalEvent::Scroll(12),
                LocalEvent::Scroll(12),
                LocalEvent::Scroll(-12),
                LocalEvent::Scroll(-12),
                LocalEvent::Scroll(1),
                LocalEvent::Scroll(-1),
            ],
            vec![]
        )
    );
    p.set_state(true, false, 12, false);
    assert_eq!(burst(&mut p, b"\x1b[5~\x1b[1;5A"), (vec![], b"\x1b[5~\x1b[1;5A".to_vec()));
}

#[test]
fn table_answers_are_dropped() {
    let mut p = StdinProcessor::new(20);
    assert_eq!(burst(&mut p, b"\x1b[0n\x1b[24;80R\x1b[?62;1c"), (vec![], vec![]));
    assert_eq!(burst(&mut p, b"\x1b[62c"), (vec![], b"\x1b[62c".to_vec()));
}

#[test]
fn table_unknown_keys_are_forwarded() {
    let mut p = StdinProcessor::new(20);
    for key in [
        b"\x1b[15~".as_slice(),
        b"\x1bOP",
        b"\x1bx",
        b"\x1b\r",
        b"\x1b\x7f",
        b"\x1b",
        b"\x1b[2~",
        b"\x1b[3~",
        b"\x1b]0;t\x07",
        b"\x1b]0;t",
        b"\x1bPq\x1b\\",
        b"\x1b[1;2",
        b"\x1b[1\x01A",
        b"\x1b[M",
    ] {
        assert_eq!(burst(&mut p, key), (vec![], key.to_vec()));
    }
}

#[test]
fn table_mouse() {
    let mut p = StdinProcessor::new(20);
    assert_eq!(burst(&mut p, b"\x1b[<64;1;1M"), (vec![LocalEvent::Scroll(3)], vec![]));
    assert_eq!(burst(&mut p, b"\x1b[<65;1;1M"), (vec![LocalEvent::Scroll(-3)], vec![]));
    assert_eq!(burst(&mut p, b"\x1b[<0;4;9M"), (vec![], vec![]));
    p.set_state(false, true, 20, false);
    assert_eq!(burst(&mut p, b"\x1b[<0;4;9M"), (vec![], b"\x1b[<0;4;8M".to_vec()));
    assert_eq!(burst(&mut p, b"\x1b[<0;4;1M"), (vec![], vec![]));
    assert_eq!(burst(&mut p, b"\x1b[<0;x;9M"), (vec![], b"\x1b[<0;x;9M".to_vec()));
}

#[test]
fn table_match_finds_the_longest_key() {
    match table_match(b"\x1b[5;2~x") {
        Some((6, Action::ScrollPage(1))) => {}
        _ => panic!("no page key"),
    }
    match table_match(b"\x1b[A") {
        Some((3, Action::Cursor { normal, app })) => {
            assert_eq!(normal, b"\x1b[A".to_vec());
            assert_eq!(app, b"\x1bOA".to_vec());
        }
        _ => panic!("no cursor key"),
    }
    assert!(table_match(b"\x1b[Z").is_none());
    assert!(table_match(b"x").is_none());
    assert!(table_match(b"").is_none());
}

#[test]
fn st_length_finds_the_terminator() {
    assert_eq!(st_length(b"\x1b]0;t\x07rest", true), Some(6));
    assert_eq!(st_length(b"\x1b]0;t\x07rest", false), None);
    assert_eq!(st_length(b"\x1bPq\x1b\\rest", false), Some(5));
    assert_eq!(st_length(b"\x1b]0;t\x1b", true), None);
    assert_eq!(st_length(b"", true), None);
}

#[test]
fn sgr_coords_reads_three_numbers() {
    assert_eq!(sgr_coords(b"0;12;34"), Some((0, 12, 34)));
    assert_eq!(sgr_coords(b"+0;012;34;5"), Some((0, 12, 34)));
    assert_eq!(sgr_coords(b"4294967295;1;1"), Some((4294967295, 1, 1)));
    assert_eq!(sgr_coords(b"4294967296;1;1"), None);
    assert_eq!(sgr_coords(b"1;2"), None);
    assert_eq!(sgr_coords(b"1;;3"), None);
    assert_eq!(sgr_coords(b"1;-2;3"), None);
    assert_eq!(sgr_coords(b"+;2;3"), None);
    assert_eq!(sgr_coords(b""), None);
}

#[test]
fn maybe_partial_tells_unfinished_sequences() {
    assert!(!maybe_partial(b"text"));
    assert!(!maybe_partial(b""));
    assert!(maybe_partial(b"text\x1b"));
    assert!(maybe_partial(b"\x1b[1;5"));
    assert!(!maybe_partial(b"\x1b[1;5A"));
    assert!(maybe_partial(b"\x1b]0;t"));
    assert!(!maybe_partial(b"\x1b]0;t\x07"));
    assert!(maybe_partial(b"\x1bPq\x07"));
    assert!(maybe_partial(b"\x1bO"));
    assert!(!maybe_partial(b"\x1bOA"));
    assert!(!maybe_partial(b"\x1bx"));
    assert!(maybe_partial(b"\x1b[A\x1b"));
}

#[test]
fn finished_burst_needs_no_more() {
    let second: &[u8] = b"b\x1d\x1b[5~";
    for first in [b"a\x1b[A".as_slice(), b"\x1bx", b"\x1b]0;t\x07", b"\x1bOA"] {
        assert!(!maybe_partial(first));
        let mut whole = StdinProcessor::new(20);
        let joined: Vec<u8> = first.iter().chain(second).copied().collect();
        let expected = burst(&mut whole, &joined);
        let mut p = StdinProcessor::new(20);
        let (mut events, mut bytes) = burst(&mut p, first);
        let (more_events, more_bytes) = burst(&mut p, second);
        events.extend(more_events);
        bytes.extend(more_bytes);
        assert_eq!((events, bytes), expected);
    }
}

#[test]
fn poll_counts_milliseconds() {
    assert_eq!(poll_millis(Duration::from_millis(ESC_QUIET_PERIOD)), 50);
    assert_eq!(poll_millis(Duration::from_micros(1999)), 1);
    assert_eq!(poll_millis(Duration::from_millis(1 << 32)), 0);
}

#[test]
fn whole_sequences_need_no_waiting() {
    assert!(!stdin_readable(Duration::from_millis(50)));
}

#[test]
fn sequence_adds_an_event_or_bytes() {
    let p = StdinProcessor::new(20);
    let mut events = vec![LocalEvent::Detach];
    let mut out = BytesMut::from(&b"x"[..]);
    assert_eq!(p.escape(b"\x1b[5~rest", &mut events, &mut out), 4);
    assert_eq!(events, vec![LocalEvent::Detach, LocalEvent::Scroll(20)]);
    assert_eq!(out.to_vec(), b"x".to_vec());
    assert_eq!(p.escape(b"\x1b[Arest", &mut events, &mut out), 3);
    assert_eq!(events.len(), 2);
    assert_eq!(out.to_vec(), b"x\x1b[A".to_vec());
    assert_eq!(p.escape(b"\x1b[0n", &mut events, &mut out), 4);
    assert_eq!(events.len(), 2);
    assert_eq!(out.to_vec(), b"x\x1b[A".to_vec());
    assert_eq!(p.escape(b"\x1b", &mut events, &mut out), 1);
    assert_eq!(out.to_vec(), b"x\x1b[A\x1b".to_vec());
}
