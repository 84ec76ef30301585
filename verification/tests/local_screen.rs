use rescue_shell::console::local_console::{ScreenFrame, Terminal};
use rescue_shell::console::status_bar::{ColorCodes, ColorSupport, Role};
use rescue_shell::console::{LocalConsole, StatusBarState, SCROLLBACK_LINES};
use rescue_shell::protocol::PtySize;
use rescue_shell::screen::is_drawable;

fn codes() -> ColorCodes {
    ColorCodes {
        bar: b"<bar>".to_vec(),
        white: b"<w>".to_vec(),
        grey: b"<g>".to_vec(),
        dark_grey: b"<dg>".to_vec(),
        green: b"<gr>".to_vec(),
        red: b"<r>".to_vec(),
    }
}

fn terminal(cols: u16, rows: u16, utf8: bool) -> Terminal {
    Terminal { cols, rows, utf8, codes: codes() }
}

fn bar() -> StatusBarState {
    StatusBarState::new(Role::Helper, true, ColorSupport::Ansi256, "t".to_string())
}

fn frame(lines: &[&str], cols: u16) -> ScreenFrame {
    ScreenFrame {
        rows: lines.len() as u16,
        cols,
        lines: lines.iter().map(|l| l.as_bytes().to_vec()).collect(),
        input_mode: b"<modes>".to_vec(),
        cursor: (1, 2),
        cursor_hidden: false,
        scrolled: false,
    }
}

fn render(console: &mut LocalConsole, frame: &ScreenFrame, terminal: &Terminal) -> String {
    let bytes = console.render_frame(frame, terminal, &bar());
    let text = String::from_utf8(bytes.to_vec()).unwrap();
    let end = text.find("\x1b[0m\x1b[0m").unwrap() + 8;
    text[end..].to_string()
}

const ROW: &str = "\x1b[0m\x1b[0m\x1b[K";
const CURSOR: &str = "\x1b[0m\x1b[0m\x1b[3;3H\x1b[?25h";

#[test]
fn first_frame_draws_everything() {
    let mut console = LocalConsole::new(true);
    let out = render(&mut console, &frame(&["one", "two"], 10), &terminal(10, 3, true));
    assert_eq!(
        out,
        format!("<modes>\x1b[?1000h\x1b[?1006h\x1b[2;1H{ROW}one\x1b[3;1H{ROW}two{CURSOR}")
    );
}

#[test]
fn unchanged_frame_draws_no_rows() {
    let mut console = LocalConsole::new(true);
    let t = terminal(10, 3, true);
    render(&mut console, &frame(&["one", "two"], 10), &t);
    assert_eq!(render(&mut console, &frame(&["one", "two"], 10), &t), CURSOR);
}

#[test]
fn changed_row_is_drawn_alone() {
    let mut console = LocalConsole::new(true);
    let t = terminal(10, 3, true);
    render(&mut console, &frame(&["one", "two"], 10), &t);
    assert_eq!(
        render(&mut console, &frame(&["one", "TWO"], 10), &t),
        format!("\x1b[3;1H{ROW}TWO{CURSOR}")
    );
}

#[test]
fn other_size_draws_everything_again() {
    let mut console = LocalConsole::new(true);
    render(&mut console, &frame(&["one", "two"], 10), &terminal(10, 3, true));
    let wider = render(&mut console, &frame(&["one", "two"], 10), &terminal(10, 4, true));
    assert!(wider.starts_with("<modes>"));
    let narrower = render(&mut console, &frame(&["one", "two"], 9), &terminal(10, 4, true));
    assert!(narrower.starts_with("<modes>"));
}

#[test]
fn borders_surround_a_smaller_screen() {
    let mut console = LocalConsole::new(true);
    let out = render(&mut console, &frame(&["ab"], 2), &terminal(4, 5, true));
    let side = "\x1b[0m<dg>\x1b[22m│\x1b[0m\x1b[K";
    assert_eq!(
        out,
        format!(
            "<modes>\x1b[?1000h\x1b[?1006h\x1b[2;1H{ROW}ab\x1b[2;3H{side}\
             \x1b[3;1H\x1b[0m<dg>\x1b[22m──┘\x1b[0m\x1b[K\x1b[4;1H{ROW}\x1b[5;1H{ROW}\
             \x1b[0m\x1b[0m\x1b[3;2H\x1b[?25h"
        )
    );
    let mut plain = LocalConsole::new(false);
    let out = render(&mut plain, &frame(&["ab"], 2), &terminal(4, 3, false));
    assert!(out.contains("\x1b[22m|\x1b[0m"));
    assert!(out.contains("\x1b[22m--+\x1b[0m\x1b[K"));
    let out = render(&mut plain, &frame(&["ab"], 2), &terminal(2, 3, false));
    assert!(out.contains("\x1b[22m--\x1b[0m\x1b[K"));
}

#[test]
fn rows_that_do_not_fit_are_left_out() {
    let mut console = LocalConsole::new(true);
    let t = terminal(10, 2, true);
    let out = render(&mut console, &frame(&["one", "two"], 10), &t);
    assert_eq!(
        out,
        format!(
            "<modes>\x1b[?1000h\x1b[?1006h\x1b[2;1H{ROW}one\x1b[0m\x1b[0m\x1b[2;3H\x1b[?25h"
        )
    );
}

#[test]
fn terminal_without_rows_gets_the_bar_and_the_cursor() {
    let mut console = LocalConsole::new(true);
    let out = render(&mut console, &frame(&["one"], 10), &terminal(10, 0, true));
    assert_eq!(out, "<modes>\x1b[?1000h\x1b[?1006h\x1b[0m\x1b[0m\x1b[1;3H\x1b[?25h");
}

#[test]
fn cursor_is_hidden_when_the_view_is_back_in_time() {
    let mut console = LocalConsole::new(true);
    let t = terminal(10, 3, true);
    let mut f = frame(&["one", "two"], 10);
    f.scrolled = true;
    assert!(render(&mut console, &f, &t).ends_with("two\x1b[?25l"));
    f.scrolled = false;
    f.cursor_hidden = true;
    assert_eq!(render(&mut console, &f, &t), "\x1b[0m\x1b[0m\x1b[3;3H\x1b[?25l");
}

#[test]
fn cursor_stays_on_the_screen() {
    let mut console = LocalConsole::new(true);
    let mut f = frame(&["one", "two"], 10);
    f.cursor = (9, 10);
    assert!(render(&mut console, &f, &terminal(10, 3, true)).ends_with("\x1b[3;10H\x1b[?25h"));
}

#[test]
fn capture_reads_the_screen() {
    let mut parser = vt100::Parser::new(3, 10, SCROLLBACK_LINES);
    parser.process(b"hello\r\n\x1b[?25lyo");
    let f = ScreenFrame::capture(parser.screen());
    assert_eq!((f.rows, f.cols), (3, 10));
    assert_eq!(f.lines, vec![b"hello".to_vec(), b"yo".to_vec(), b"".to_vec()]);
    assert_eq!(f.cursor, (1, 2));
    assert!(f.cursor_hidden);
    assert!(!f.scrolled);
    assert_eq!(f.input_mode, parser.screen().input_mode_formatted());
}

#[test]
fn render_draws_a_screen() {
    crossterm::style::force_color_output(true);
    let mut parser = vt100::Parser::new(2, 4, 0);
    parser.process(b"hi");
    let mut console = LocalConsole::new(true);
    let out = console.render(parser.screen(), 4, 3, &bar()).to_vec();
    let mut expected = b"\x1b[1;1H\x1b[48;5;17m\x1b[38;5;15m\x1b[22mNo c\x1b[0m\x1b[0m".to_vec();
    expected.extend(parser.screen().input_mode_formatted());
    expected.extend(b"\x1b[?1000h\x1b[?1006h\x1b[2;1H\x1b[0m\x1b[0m\x1b[Khi");
    expected.extend(b"\x1b[3;1H\x1b[0m\x1b[0m\x1b[K\x1b[0m\x1b[0m\x1b[2;3H\x1b[?25h");
    assert_eq!(out, expected);
}

#[test]
fn try_render_leaves_out_screens_that_cannot_be_drawn() {
    let mut console = LocalConsole::new(true);
    let flat = vt100::Parser::new(1, 0, 0);
    assert!(console.try_render(flat.screen(), 80, 24, &bar()).is_none());
    let parser = vt100::Parser::new(2, 4, 0);
    assert!(console.try_render(parser.screen(), 80, 24, &bar()).is_some());
}

#[test]
fn scrolling_stays_within_what_is_kept() {
    let mut parser = vt100::Parser::new(2, 10, SCROLLBACK_LINES);
    parser.process(b"1\r\n2\r\n3\r\n4\r\n5");
    let screen = parser.screen_mut();
    assert_eq!(LocalConsole::apply_scroll(screen, 2), 2);
    assert_eq!(LocalConsole::apply_scroll(screen, -1), 1);
    assert_eq!(LocalConsole::apply_scroll(screen, 1), 2);
    assert_eq!(LocalConsole::apply_scroll(screen, 100), 3);
    assert_eq!(LocalConsole::apply_scroll(screen, isize::MIN), 0);
    assert_eq!(LocalConsole::apply_scroll(screen, isize::MAX), 3);
}

#[test]
fn initial_state_tells_which_screen_is_shown() {
    let mut parser = vt100::Parser::new(2, 10, 0);
    parser.process(b"hi");
    let mut expected = b"\x1b[?1049l".to_vec();
    expected.extend(parser.screen().state_formatted());
    assert_eq!(LocalConsole::get_initial_screen_state(parser.screen()).to_vec(), expected);
    parser.process(b"\x1b[?1049h");
    let state = LocalConsole::get_initial_screen_state(parser.screen()).to_vec();
    assert!(state.starts_with(b"\x1b[?1049h"));
}

#[test]
fn status_bar_takes_one_row() {
    assert_eq!(LocalConsole::get_pty_size(Some((80, 24))), PtySize { cols: 80, rows: 23 });
    assert_eq!(LocalConsole::get_pty_size(Some((80, 1))), PtySize { cols: 80, rows: 1 });
    assert_eq!(LocalConsole::get_pty_size(Some((80, 0))), PtySize { cols: 80, rows: 1 });
    assert_eq!(LocalConsole::get_pty_size(Some((100, 50))), PtySize { cols: 100, rows: 49 });
    assert_eq!(LocalConsole::get_pty_size(None), PtySize { cols: 80, rows: 23 });
}

#[test]
fn resize_gives_the_screen_another_size() {
    let mut parser = vt100::Parser::new(2, 10, 0);
    LocalConsole::resize_parser(parser.screen_mut(), PtySize { cols: 20, rows: 5 });
    assert_eq!(parser.screen().size(), (5, 20));
}

#[test]
fn console_opens_and_closes() {
    assert_eq!(LocalConsole::opening_codes().to_vec(), b"\x1b[?1049h".to_vec());
    assert_eq!(
        LocalConsole::closing_codes().to_vec(),
        b"\x1b[0m\x1b[?1049l\x1b[?1006l\x1b[?1015l\x1b[?1003l\x1b[?1002l\x1b[?1000l\x1b[?25h".to_vec()
    );
}

#[test]
fn screen_can_be_drawn_if_it_has_cells() {
    assert!(is_drawable(vt100::Parser::new(2, 3, 10).screen()));
    assert!(!is_drawable(vt100::Parser::new(2, 0, 10).screen()));
    let mut parser = vt100::Parser::new(2, 3, 10);
    parser.process(b"a\r\nb\r\nc\r\nd");
    parser.screen_mut().set_scrollback(2);
    assert!(is_drawable(parser.screen()));
}

#[test]
fn row_of_a_screen_without_columns_cannot_be_drawn() {
    let mut parser = vt100::Parser::new(2, 0, 10);
    parser.process(b"\n\n\n");
    parser.screen_mut().set_size(2, 3);
    assert!(is_drawable(parser.screen()));
    parser.screen_mut().set_scrollback(1);
    assert!(!is_drawable(parser.screen()));
    let mut console = LocalConsole::new(false);
    assert!(console.try_render(parser.screen(), 10, 5, &bar()).is_none());
}
