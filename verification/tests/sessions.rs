use bytes::Bytes;
use rescue_shell::console::LocalEvent;
use rescue_shell::helper::{data_actions, Helper, HelperAction};
use rescue_shell::protocol::{HelperId, PtySize, ToHelper, ToVictim};
use rescue_shell::session::{plan_input, scroll_view, SessionError};
use rescue_shell::victim::{output_actions, Victim, VictimAction};
use rescue_shell::console::StdinProcessor;

fn size(cols: u16, rows: u16) -> PtySize {
    PtySize { cols, rows }
}

fn victim(read_only: bool) -> Victim {
    Victim::new(size(80, 23), read_only, "rs".to_string(), "1".to_string(), true)
}

fn told(actions: &[VictimAction]) -> Vec<String> {
    actions
        .iter()
        .map(|a| match a {
            VictimAction::Render => "render".to_string(),
            VictimAction::Broadcast(m) => format!("tell {m:?}"),
            VictimAction::WritePty(b) => format!("type {:?}", String::from_utf8_lossy(b)),
            VictimAction::WriteStdout(b) => format!("write {:?}", String::from_utf8_lossy(b)),
            VictimAction::ResizePty(s) => format!("resize {}x{}", s.cols, s.rows),
            VictimAction::Exit => "exit".to_string(),
        })
        .collect()
}

fn done(actions: &[HelperAction]) -> Vec<String> {
    actions
        .iter()
        .map(|a| match a {
            HelperAction::Render => "render".to_string(),
            HelperAction::Send(m) => format!("send {m:?}"),
            HelperAction::WriteStdout(b) => format!("write {:?}", String::from_utf8_lossy(b)),
            HelperAction::Feed(b) => format!("feed {:?}", String::from_utf8_lossy(b)),
            HelperAction::SetConnected(n) => format!("connected {n}"),
            HelperAction::Exit => "exit".to_string(),
        })
        .collect()
}

fn screen_with_history() -> vt100::Parser {
    let mut parser = vt100::Parser::new(23, 80, 1000);
    for i in 0..100 {
        parser.process(format!("line {i}\r\n").as_bytes());
    }
    parser
}

#[test]
fn victim_tells_the_number_of_helpers_when_it_changes() {
    let mut v = victim(false);
    assert_eq!(told(&v.on_statusbar(0)), vec!["render"]);
    assert_eq!(told(&v.on_statusbar(2)), vec!["render", "tell ConnectedHelpers(2)"]);
    assert_eq!(told(&v.on_statusbar(2)), vec!["render"]);
}

#[test]
fn victim_shares_its_output() {
    let mut v = victim(false);
    let mut parser = vt100::Parser::new(23, 80, 1000);
    let chunk = b"hi".to_vec();
    parser.process(&chunk);
    assert_eq!(told(&v.on_output(chunk, parser.screen())), vec!["tell Data(b\"hi\")", "render"]);
}

#[test]
fn victim_answers_queries_with_the_cursor_after_the_output() {
    let mut v = victim(false);
    let mut parser = vt100::Parser::new(23, 80, 1000);
    let chunk = b"abc\x1b[6n\x1b]52;;eA==\x07".to_vec();
    parser.process(&chunk);
    let actions = v.on_output(chunk, parser.screen());
    assert_eq!(actions.len(), 4);
    let text = told(&actions);
    assert_eq!(text[0], "type \"\\u{1b}[1;4R\"");
    assert_eq!(text[1], "write \"\\u{1b}]52;c;eA==\\u{7}\"");
    assert_eq!(text[3], "render");
}

#[test]
fn output_without_reply_is_only_shared() {
    let actions = output_actions(None, None, b"x".to_vec());
    assert_eq!(told(&actions), vec!["tell Data(b\"x\")", "render"]);
    let actions = output_actions(
        Some(Bytes::from_static(b"r")),
        Some(Bytes::from_static(b"c")),
        b"x".to_vec(),
    );
    assert_eq!(
        told(&actions),
        vec!["type \"r\"", "write \"c\"", "tell Data(b\"x\")", "render"]
    );
}

#[test]
fn victim_typing_goes_to_the_shell() {
    let mut v = victim(false);
    let mut parser = screen_with_history();
    let plan = v.on_stdin(b"ls\x1b[5~", parser.screen(), 23);
    assert_eq!(plan.events, vec![LocalEvent::Scroll(23)]);
    assert_eq!(plan.forward.unwrap().to_vec(), b"ls".to_vec());
    assert!(!plan.reset);
    let actions = Victim::on_local_event(plan.events[0], parser.screen_mut()).unwrap();
    assert_eq!(told(&actions), vec!["tell ScrollTo { offset: 23 }", "render"]);
    assert_eq!(parser.screen().scrollback(), 23);
    let actions = Victim::on_local_event(LocalEvent::Detach, parser.screen_mut()).unwrap();
    assert_eq!(told(&actions), vec!["exit"]);
}

#[test]
fn typing_takes_the_view_back_to_now() {
    let mut v = victim(false);
    let mut parser = screen_with_history();
    parser.screen_mut().set_scrollback(5);
    let plan = v.on_stdin(b"x", parser.screen(), 23);
    assert!(plan.reset);
    let actions = Victim::on_forward(plan.reset, plan.forward.unwrap(), parser.screen_mut());
    assert_eq!(told(&actions), vec!["tell ScrollTo { offset: 0 }", "render", "type \"x\""]);
    assert_eq!(parser.screen().scrollback(), 0);
    let plan = v.on_stdin(b"y", parser.screen(), 23);
    assert!(!plan.reset);
    let actions = Victim::on_forward(plan.reset, plan.forward.unwrap(), parser.screen_mut());
    assert_eq!(told(&actions), vec!["type \"y\""]);
}

#[test]
fn keys_follow_the_modes_of_the_screen() {
    let mut stdin = StdinProcessor::new(23);
    let mut parser = vt100::Parser::new(23, 80, 0);
    parser.process(b"\x1b[?1h\x1b[?1000h\x1b[?1049h");
    let plan = plan_input(&mut stdin, parser.screen(), 23, b"\x1b[A\x1b[<0;3;4M\x1b[5~");
    assert!(plan.events.is_empty());
    assert_eq!(plan.forward.unwrap().to_vec(), b"\x1bOA\x1b[<0;3;3M\x1b[5~".to_vec());
    let mut parser = vt100::Parser::new(23, 80, 0);
    parser.process(b"x");
    let plan = plan_input(&mut stdin, parser.screen(), 23, b"\x1b[A\x1b[<0;3;4M\x1b[5~");
    assert_eq!(plan.events, vec![LocalEvent::Scroll(23)]);
    assert_eq!(plan.forward.unwrap().to_vec(), b"\x1b[A".to_vec());
}

#[test]
fn helper_keystrokes_reach_the_shell_unless_it_only_watches() {
    let mut parser = vt100::Parser::new(23, 80, 0);
    let data = || ToVictim::Data(Bytes::from_static(b"id\r"));
    let actions = victim(false).on_message(data(), parser.screen_mut(), size(80, 23));
    assert_eq!(told(&actions), vec!["type \"id\\r\""]);
    let actions = victim(true).on_message(data(), parser.screen_mut(), size(80, 23));
    assert!(actions.is_empty());
}

#[test]
fn watchers_still_share_size_and_view() {
    let mut v = victim(true);
    let mut parser = screen_with_history();
    let hint = ToVictim::SizeHint { id: HelperId(1), size: size(70, 20) };
    let actions = v.on_message(hint, parser.screen_mut(), size(80, 23));
    assert_eq!(actions.len(), 3);
    let actions = v.on_message(
        ToVictim::RequestScrollTo { offset: 4 },
        parser.screen_mut(),
        size(80, 23),
    );
    assert_eq!(told(&actions), vec!["tell ScrollTo { offset: 4 }", "render"]);
    assert_eq!(parser.screen().scrollback(), 4);
}

#[test]
fn helper_size_changes_the_shared_screen() {
    let mut v = victim(false);
    let mut parser = vt100::Parser::new(23, 80, 0);
    let hint = ToVictim::SizeHint { id: HelperId(1), size: size(100, 20) };
    let actions = v.on_message(hint, parser.screen_mut(), size(80, 23));
    assert_eq!(
        told(&actions),
        vec!["resize 80x20", "tell SetSize(PtySize { cols: 80, rows: 20 })", "render"]
    );
    assert_eq!(parser.screen().size(), (20, 80));
    let actions =
        v.on_message(ToVictim::Bye { id: HelperId(1) }, parser.screen_mut(), size(90, 30));
    assert_eq!(
        told(&actions),
        vec!["tell SetSize(PtySize { cols: 90, rows: 30 })", "resize 90x30", "render"]
    );
    assert_eq!(parser.screen().size(), (30, 90));
}

#[test]
fn silent_helper_no_longer_limits_the_screen() {
    let mut v = victim(false);
    let mut parser = vt100::Parser::new(23, 80, 0);
    let hint = |id, s| ToVictim::SizeHint { id: HelperId(id), size: s };
    v.on_message_at(hint(1, size(10, 10)), parser.screen_mut(), size(80, 23), 0, 0);
    let late = 10_000_000_000;
    let actions =
        v.on_message_at(hint(2, size(70, 40)), parser.screen_mut(), size(80, 23), late, late);
    assert_eq!(told(&actions)[0], "resize 70x23");
}

#[test]
fn window_change_is_told() {
    let mut v = victim(false);
    let mut parser = vt100::Parser::new(23, 80, 0);
    let actions = v.on_window_change(parser.screen_mut(), size(60, 15));
    assert_eq!(
        told(&actions),
        vec!["resize 60x15", "tell SetSize(PtySize { cols: 60, rows: 15 })", "render"]
    );
    assert_eq!(parser.screen().size(), (15, 60));
}

#[test]
fn view_too_far_back_cannot_be_told() {
    let mut parser = vt100::Parser::new(1, 2, 100_000);
    for _ in 0..70_000 {
        parser.process(b"x\r\n");
    }
    assert_eq!(scroll_view(parser.screen_mut(), 65_535), Ok(65_535));
    assert_eq!(scroll_view(parser.screen_mut(), 1), Err(SessionError::OffsetTooLarge));
    match Victim::on_local_event(LocalEvent::Scroll(1), parser.screen_mut()) {
        Err(e) => assert_eq!(e, SessionError::OffsetTooLarge),
        Ok(_) => panic!("told"),
    }
    match Helper::on_local_event(LocalEvent::Scroll(1), parser.screen_mut()) {
        Err(e) => assert_eq!(e, SessionError::OffsetTooLarge),
        Ok(_) => panic!("told"),
    }
}

#[test]
fn helper_tells_its_size() {
    let h = Helper::new(HelperId(5), 23);
    assert_eq!(
        done(&h.on_size(size(80, 23))),
        vec!["send SizeHint { id: HelperId(5), size: PtySize { cols: 80, rows: 23 } }"]
    );
    assert_eq!(Helper::resend_secs(), 5);
}

#[test]
fn helper_typing_goes_to_the_victim() {
    let mut h = Helper::new(HelperId(5), 23);
    let mut parser = screen_with_history();
    let plan = h.on_stdin(b"ls\x1b[6~", parser.screen(), 23);
    assert_eq!(plan.events, vec![LocalEvent::Scroll(-23)]);
    assert_eq!(
        done(&Helper::on_forward(plan.reset, plan.forward.unwrap(), parser.screen_mut())),
        vec!["send Data(b\"ls\")"]
    );
    let actions = Helper::on_local_event(LocalEvent::Scroll(7), parser.screen_mut()).unwrap();
    assert_eq!(done(&actions), vec!["send RequestScrollTo { offset: 7 }", "render"]);
    assert_eq!(
        done(&Helper::on_forward(true, Bytes::from_static(b"x"), parser.screen_mut())),
        vec!["send RequestScrollTo { offset: 0 }", "render", "send Data(b\"x\")"]
    );
    assert_eq!(parser.screen().scrollback(), 0);
    let actions = Helper::on_local_event(LocalEvent::Detach, parser.screen_mut()).unwrap();
    assert_eq!(done(&actions), vec!["exit"]);
}

#[test]
fn helper_follows_the_victim() {
    let mut h = Helper::new(HelperId(5), 23);
    let mut parser = screen_with_history();
    let data = ToHelper::Data(Bytes::from_static(b"hi\x1b]52;c;eA==\x07"));
    let text = done(&h.on_message(data, parser.screen_mut()));
    assert_eq!(text[0], "write \"\\u{1b}]52;c;eA==\\u{7}\"");
    assert!(text[1].starts_with("feed \"hi"));
    assert_eq!(text[2], "render");
    let actions = h.on_message(ToHelper::ConnectedHelpers(3), parser.screen_mut());
    assert_eq!(done(&actions), vec!["connected 3"]);
    let actions = h.on_message(ToHelper::ScrollTo { offset: 9 }, parser.screen_mut());
    assert_eq!(done(&actions), vec!["render"]);
    assert_eq!(parser.screen().scrollback(), 9);
    let actions = h.on_message(ToHelper::SetSize(size(40, 12)), parser.screen_mut());
    assert_eq!(done(&actions), vec!["render"]);
    assert_eq!(parser.screen().size(), (12, 40));
    assert_eq!(done(&h.on_message(ToHelper::Bye, parser.screen_mut())), vec!["exit"]);
}

#[test]
fn output_without_clipboard_write_is_only_shown() {
    let actions = data_actions(None, Bytes::from_static(b"x"));
    assert_eq!(done(&actions), vec!["feed \"x\"", "render"]);
}

#[test]
fn views_of_both_ends_converge() {
    let mut victim_screen = screen_with_history();
    let mut helper_screen = screen_with_history();
    let mut v = victim(true);
    let mut h = Helper::new(HelperId(5), 23);
    Helper::on_local_event(LocalEvent::Scroll(12), helper_screen.screen_mut()).unwrap();
    v.on_message(
        ToVictim::RequestScrollTo { offset: 12 },
        victim_screen.screen_mut(),
        size(80, 23),
    );
    h.on_message(ToHelper::ScrollTo { offset: 12 }, helper_screen.screen_mut());
    assert_eq!(victim_screen.screen().scrollback(), 12);
    assert_eq!(helper_screen.screen().scrollback(), 12);
}

#[test]
fn input_with_the_chord_forwards_nothing() {
    let mut parser = screen_with_history();
    parser.screen_mut().set_scrollback(5);
    let input = b"ls\x1b[5~\x1d\x1b[6~rm\x1d";
    let expected = vec![LocalEvent::Scroll(23), LocalEvent::Detach];
    let plan = victim(false).on_stdin(input, parser.screen(), 23);
    assert_eq!(plan.events, expected);
    assert!(plan.forward.is_none());
    assert!(!plan.reset);
    let plan = Helper::new(HelperId(5), 23).on_stdin(input, parser.screen(), 23);
    assert_eq!(plan.events, expected);
    assert!(plan.forward.is_none());
    assert!(!plan.reset);
}

#[test]
fn input_that_says_nothing_is_forwarded_too() {
    let mut parser = screen_with_history();
    parser.screen_mut().set_scrollback(5);
    let plan = victim(false).on_stdin(b"\x1b[5~", parser.screen(), 23);
    assert_eq!(plan.forward.unwrap().len(), 0);
    assert!(!plan.reset);
}

#[test]
fn size_hint_counts_at_once() {
    let mut v = victim(false);
    let mut parser = vt100::Parser::new(23, 80, 0);
    let hint = ToVictim::SizeHint { id: HelperId(1), size: size(10, 10) };
    v.on_message(hint, parser.screen_mut(), size(80, 23));
    v.on_window_change(parser.screen_mut(), size(60, 15));
    assert_eq!(parser.screen().size(), (10, 10));
}

#[test]
fn each_end_takes_its_leave() {
    let h = Helper::new(HelperId(5), 23);
    assert_eq!(done(&h.on_exit()), vec!["send Bye { id: HelperId(5) }"]);
    assert_eq!(told(&Victim::on_exit()), vec!["tell Bye"]);
}

#[test]
fn farewells_reach_the_other_end() {
    let mut parser = vt100::Parser::new(23, 80, 0);
    let mut v = victim(false);
    let mut h = Helper::new(HelperId(5), 23);
    v.on_message(
        ToVictim::SizeHint { id: HelperId(5), size: size(10, 10) },
        parser.screen_mut(),
        size(80, 23),
    );
    assert_eq!(parser.screen().size(), (10, 10));
    for action in h.on_exit() {
        if let HelperAction::Send(message) = action {
            v.on_message(message, parser.screen_mut(), size(80, 23));
        }
    }
    assert_eq!(parser.screen().size(), (23, 80));
    for action in Victim::on_exit() {
        if let VictimAction::Broadcast(message) = action {
            assert_eq!(done(&h.on_message(message, parser.screen_mut())), vec!["exit"]);
        }
    }
}
