use bytes::BytesMut;
use rescue_shell::console::{LocalEvent, StdinPerformer, StdinProcessor};
use rescue_shell::vt::VtAction;

fn performer() -> StdinPerformer {
    StdinPerformer {
        row_offset: 1,
        alt_screen: false,
        mouse_on: false,
        app_cursor: false,
        page_size: 20,
        events: Vec::new(),
        pty_output: BytesMut::new(),
    }
}

fn run(processor: &mut StdinProcessor, input: &[u8]) -> (Vec<LocalEvent>, Vec<u8>) {
    let (events, bytes) = processor.process(input);
    (events, bytes.to_vec())
}

#[test]
fn typed_text_reaches_the_shell() {
    let mut p = StdinProcessor::new(20);
    assert_eq!(run(&mut p, b"ls -l\r"), (vec![], b"ls -l\r".to_vec()));
    assert_eq!(run(&mut p, "zwölf €".as_bytes()), (vec![], "zwölf €".as_bytes().to_vec()));
}

#[test]
fn control_characters_reach_the_shell() {
    let mut p = StdinProcessor::new(20);
    assert_eq!(run(&mut p, &[0x03, 0x04, 0x08]), (vec![], vec![0x03, 0x04, 0x08]));
}

#[test]
fn detach_chord_is_local() {
    let mut p = StdinProcessor::new(20);
    assert_eq!(run(&mut p, b"a\x1db"), (vec![LocalEvent::Detach], b"ab".to_vec()));
}

#[test]
fn backspace_reaches_the_shell() {
    let mut p = StdinProcessor::new(20);
    assert_eq!(run(&mut p, &[0x7f]), (vec![], vec![0x7f]));
    assert_eq!(run(&mut p, &[0x1b, 0x7f]), (vec![], vec![0x1b, 0x7f]));
    assert_eq!(run(&mut p, b"x"), (vec![], b"x".to_vec()));
}

#[test]
fn backspace_after_escape_in_two_pieces() {
    let mut p = StdinProcessor::new(20);
    assert_eq!(run(&mut p, &[0x1b]), (vec![], vec![]));
    assert_eq!(run(&mut p, &[0x7f]), (vec![], vec![0x1b, 0x7f]));
}

#[test]
fn second_escape_flushes_the_first() {
    let mut p = StdinProcessor::new(20);
    assert_eq!(run(&mut p, &[0x1b, 0x1b]), (vec![], vec![0x1b]));
}

#[test]
fn page_keys_scroll_by_a_page() {
    let mut p = StdinProcessor::new(20);
    assert_eq!(run(&mut p, b"\x1b[5~"), (vec![LocalEvent::Scroll(20)], vec![]));
    assert_eq!(run(&mut p, b"\x1b[5;2~"), (vec![LocalEvent::Scroll(20)], vec![]));
    assert_eq!(run(&mut p, b"\x1b[6~"), (vec![LocalEvent::Scroll(-20)], vec![]));
    assert_eq!(run(&mut p, b"\x1b[6;2~"), (vec![LocalEvent::Scroll(-20)], vec![]));
}

#[test]
fn control_arrows_scroll_by_a_line() {
    let mut p = StdinProcessor::new(20);
    assert_eq!(run(&mut p, b"\x1b[1;5A"), (vec![LocalEvent::Scroll(1)], vec![]));
    assert_eq!(run(&mut p, b"\x1b[1;5B"), (vec![LocalEvent::Scroll(-1)], vec![]));
    assert_eq!(run(&mut p, b"\x1b[1;5C"), (vec![], b"\x1b[1;5C".to_vec()));
}

#[test]
fn page_keys_are_forwarded_on_the_alternate_screen() {
    let mut p = StdinProcessor::new(20);
    p.set_state(true, false, 20, false);
    assert_eq!(run(&mut p, b"\x1b[5~"), (vec![], b"\x1b[5~".to_vec()));
    assert_eq!(run(&mut p, b"\x1b[1;5A"), (vec![], b"\x1b[1;5A".to_vec()));
}

#[test]
fn set_state_changes_the_page_size() {
    let mut p = StdinProcessor::new(20);
    p.set_state(false, false, 7, false);
    assert_eq!(run(&mut p, b"\x1b[6~"), (vec![LocalEvent::Scroll(-7)], vec![]));
}

#[test]
fn arrows_follow_the_cursor_key_mode() {
    let mut p = StdinProcessor::new(20);
    assert_eq!(run(&mut p, b"\x1b[A\x1b[D\x1b[H"), (vec![], b"\x1b[A\x1b[D\x1b[H".to_vec()));
    p.set_state(false, false, 20, true);
    assert_eq!(run(&mut p, b"\x1b[A\x1b[1F"), (vec![], b"\x1bOA\x1bOF".to_vec()));
}

#[test]
fn answers_of_the_terminal_are_dropped() {
    let mut p = StdinProcessor::new(20);
    assert_eq!(run(&mut p, b"\x1b[24;80R"), (vec![], vec![]));
    assert_eq!(run(&mut p, b"\x1b[0n"), (vec![], vec![]));
    assert_eq!(run(&mut p, b"\x1b[?62;1c"), (vec![], vec![]));
    assert_eq!(run(&mut p, b"\x1b[5n"), (vec![], b"\x1b[5n".to_vec()));
}

#[test]
fn wheel_scrolls_the_local_view() {
    let mut p = StdinProcessor::new(20);
    assert_eq!(run(&mut p, b"\x1b[<64;10;5M"), (vec![LocalEvent::Scroll(3)], vec![]));
    assert_eq!(run(&mut p, b"\x1b[<65;10;5M"), (vec![LocalEvent::Scroll(-3)], vec![]));
}

#[test]
fn clicks_need_a_program_that_wants_them() {
    let mut p = StdinProcessor::new(20);
    assert_eq!(run(&mut p, b"\x1b[<0;10;5M"), (vec![], vec![]));
    p.set_state(false, true, 20, false);
    assert_eq!(run(&mut p, b"\x1b[<0;10;5M"), (vec![], b"\x1b[<0;10;4M".to_vec()));
    assert_eq!(run(&mut p, b"\x1b[<0;10;5m"), (vec![], b"\x1b[<0;10;4m".to_vec()));
}

#[test]
fn clicks_on_the_status_bar_are_dropped() {
    let mut p = StdinProcessor::new(20);
    p.set_state(true, true, 20, false);
    assert_eq!(run(&mut p, b"\x1b[<0;10;1M"), (vec![], vec![]));
    assert_eq!(run(&mut p, b"\x1b[<64;10;2M"), (vec![], b"\x1b[<64;10;1M".to_vec()));
}

#[test]
fn other_sequences_are_spelled_out_again() {
    let mut p = StdinProcessor::new(20);
    assert_eq!(run(&mut p, b"\x1b[38:2:1:2:3;4m"), (vec![], b"\x1b[38:2:1:2:3;4m".to_vec()));
    assert_eq!(run(&mut p, b"\x1b[Z"), (vec![], b"\x1b[Z".to_vec()));
    assert_eq!(run(&mut p, b"\x1b[?1;2q"), (vec![], b"\x1b[?1;2q".to_vec()));
}

#[test]
fn alt_keys_are_forwarded() {
    let mut p = StdinProcessor::new(20);
    assert_eq!(run(&mut p, b"\x1bx"), (vec![], b"\x1bx".to_vec()));
    assert_eq!(run(&mut p, b"\x1b(B"), (vec![], b"\x1b(B".to_vec()));
}

#[test]
fn input_in_pieces_leads_to_the_same() {
    let input: &[u8] = b"a\x1b[5~b\x1b[<64;1;2Mc\x1b\x7f\x1b[1;5Bd\x1d\xe2\x82\xac";
    let mut whole = StdinProcessor::new(20);
    let expected = run(&mut whole, input);
    for cut in 0..=input.len() {
        let mut p = StdinProcessor::new(20);
        let (mut events, mut bytes) = run(&mut p, &input[..cut]);
        let (more_events, more_bytes) = run(&mut p, &input[cut..]);
        events.extend(more_events);
        bytes.extend(more_bytes);
        assert_eq!((events, bytes), expected);
    }
}

#[test]
fn performer_handles_actions_in_order() {
    let mut p = performer();
    p.perform(&vec![
        VtAction::Print('é'),
        VtAction::Execute(0x0d),
        VtAction::Csi { params: vec![vec![6]], intermediates: vec![], ignore: false, action: '~' },
        VtAction::Esc { intermediates: vec![b'('], ignore: false, byte: b'0' },
        VtAction::Osc { fields: vec![b"0".to_vec()], bell_terminated: true },
    ]);
    assert_eq!(p.events, vec![LocalEvent::Scroll(-20)]);
    assert_eq!(p.pty_output.to_vec(), b"\xc3\xa9\r\x1b(0".to_vec());
}

#[test]
fn performer_single_callbacks() {
    let mut p = performer();
    p.print('a');
    p.execute(0x1d);
    p.esc_dispatch(b"#", false, b'8');
    p.csi_dispatch(&vec![vec![0]], &[], false, 'C');
    assert_eq!(p.events, vec![LocalEvent::Detach]);
    assert_eq!(p.pty_output.to_vec(), b"a\x1b#8\x1b[C".to_vec());
}

#[test]
fn mouse_report_with_subparameters_is_no_mouse_report() {
    let mut p = performer();
    p.csi_dispatch(&vec![vec![0, 1], vec![2], vec![3]], b"<", false, 'M');
    assert_eq!(p.pty_output.to_vec(), b"\x1b[<0:1;2;3M".to_vec());
}
