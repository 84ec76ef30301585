use bytes::BytesMut;
use rescue_shell::console::status_bar::{ColorCodes, ColorSupport, InternetState, Role};
use rescue_shell::console::{StatusBarState, WormholeCodeState};
use std::time::Duration;

fn codes() -> ColorCodes {
    ColorCodes {
        bar: b"<bar>".to_vec(),
        white: b"<w>".to_vec(),
        grey: b"<g>".to_vec(),
        dark_grey: b"<dg>".to_vec(),
        green: b"<gr>".to_vec(),
        red: b"<r>".to_vec(),
    }
}

fn bar(utf8: bool, colors: ColorSupport) -> StatusBarState {
    StatusBarState::new(Role::Victim, utf8, colors, "rs 1".to_string())
}

fn drawn(state: &StatusBarState, cols: u16) -> String {
    let mut buf = BytesMut::new();
    state.render_with(&mut buf, cols, &codes());
    String::from_utf8(buf.to_vec()).unwrap()
}

fn text_of(drawn: &str) -> String {
    let mut out = drawn.to_string();
    for code in [
        "\x1b[1;1H", "<bar>", "<w>", "<g>", "<dg>", "<gr>", "<r>", "\x1b[22m", "\x1b[1m", "\x1b[0m",
    ] {
        out = out.replace(code, "");
    }
    out
}

#[test]
fn new_bar_says_what_is_known() {
    let state = bar(true, ColorSupport::Ansi256);
    assert_eq!(
        drawn(&state, 80),
        format!(
            "\x1b[1;1H<bar><w>\x1b[22mNo code ║ rs 1 ║ Victim ║ <dg>\x1b[22m0 Connected<w>\x1b[22m ║ \
             <r>\x1b[22mx Offline<w>\x1b[22m ║ CTRL+] to exit{}\x1b[0m\x1b[0m",
            " ".repeat(80 - 66)
        )
    );
}

#[test]
fn code_is_bold_and_helpers_are_green() {
    let mut state = bar(true, ColorSupport::TrueColor);
    state.set_code_state(WormholeCodeState::Code("7-guitar-battery".to_string()));
    state.inc_connected();
    state.online(Duration::from_millis(42));
    assert_eq!(
        drawn(&state, 120),
        format!(
            "\x1b[1;1H<bar><w>\x1b[1m7-guitar-battery<w>\x1b[22m ║ rs 1 ║ Victim ║ <gr>\x1b[22m1 Connected\
             <w>\x1b[22m ║ <gr>\x1b[22m● Online (42 ms)<w>\x1b[22m ║ CTRL+] to exit{}\x1b[0m\x1b[0m",
            " ".repeat(120 - 82)
        )
    );
}

#[test]
fn plain_terminals_get_plain_signs_and_colors() {
    let mut state = bar(false, ColorSupport::Basic);
    state.online(Duration::from_micros(1500));
    let text = drawn(&state, 100);
    assert!(text.contains("<g>\x1b[22m0 Connected"));
    assert!(text.contains("<gr>\x1b[22m* Online (1 ms)"));
}

#[test]
fn bar_is_as_wide_as_the_terminal() {
    let mut state = bar(true, ColorSupport::Ansi256);
    for cols in [0u16, 1, 10, 65, 66, 67, 200] {
        for _ in 0..80 {
            assert_eq!(text_of(&drawn(&state, cols)).chars().count(), cols as usize);
            state.advance_tick();
        }
    }
}

#[test]
fn bar_that_does_not_fit_moves_round() {
    let mut state = bar(true, ColorSupport::Ansi256);
    assert_eq!(text_of(&drawn(&state, 10)), "No code ║ ");
    state.advance_tick();
    assert_eq!(text_of(&drawn(&state, 10)), "o code ║ r");
    state.tick = 62;
    assert_eq!(text_of(&drawn(&state, 10)), "exit   ***");
    state.tick = 70;
    assert_eq!(text_of(&drawn(&state, 10)), "**   No co");
    state.tick = 75;
    assert_eq!(text_of(&drawn(&state, 10)), "No code ║ ");
}

#[test]
fn bar_that_fits_stands_still() {
    let mut state = bar(true, ColorSupport::Ansi256);
    let before = drawn(&state, 80);
    state.advance_tick();
    assert_eq!(drawn(&state, 80), before);
}

#[test]
fn tick_wraps_round() {
    let mut state = bar(true, ColorSupport::Ansi256);
    state.tick = usize::MAX;
    state.advance_tick();
    assert_eq!(state.tick, 0);
}

#[test]
fn helpers_are_counted() {
    let mut state = bar(true, ColorSupport::Ansi256);
    state.dec_connected();
    assert_eq!(state.get_connected(), 0);
    state.inc_connected();
    state.inc_connected();
    state.dec_connected();
    assert_eq!(state.get_connected(), 1);
    state.set_connected(255);
    state.inc_connected();
    assert_eq!(state.get_connected(), 255);
}

#[test]
fn internet_state_changes() {
    let mut state = bar(true, ColorSupport::Ansi256);
    state.online(Duration::from_secs(2));
    assert_eq!(state.internet_state.to_text(), "Online (2000 ms)");
    state.offline();
    assert_eq!(state.internet_state.to_text(), "Offline");
    assert_eq!(InternetState::Online(Duration::from_nanos(999_999)).to_text(), "Online (0 ms)");
}

#[test]
fn states_have_names() {
    assert_eq!(WormholeCodeState::Generating.to_text(), "Generating...");
    assert_eq!(WormholeCodeState::NoCode.to_text(), "No code");
    assert_eq!(WormholeCodeState::Code("1-a-b".to_string()).to_text(), "1-a-b");
    assert_eq!(Role::Victim.name(), "Victim");
    assert_eq!(Role::Helper.name(), "Helper");
}

#[test]
fn color_codes_are_those_of_the_terminal() {
    crossterm::style::force_color_output(true);
    let rich = ColorCodes::new(ColorSupport::Ansi256);
    assert_eq!(rich.bar, b"\x1b[48;5;17m".to_vec());
    assert_eq!(rich.white, b"\x1b[38;5;15m".to_vec());
    assert_eq!(rich.grey, b"\x1b[38;5;7m".to_vec());
    assert_eq!(rich.dark_grey, b"\x1b[38;5;8m".to_vec());
    assert_eq!(rich.green, b"\x1b[38;5;10m".to_vec());
    assert_eq!(rich.red, b"\x1b[38;5;9m".to_vec());
    assert_eq!(ColorCodes::new(ColorSupport::TrueColor).bar, b"\x1b[48;5;17m".to_vec());
    assert_eq!(ColorCodes::new(ColorSupport::Basic).bar, b"\x1b[48;5;4m".to_vec());
    crossterm::style::force_color_output(false);
    let none = ColorCodes::new(ColorSupport::Basic);
    assert_eq!(none.bar, b"\x1b[m".to_vec());
    assert_eq!(none.green, b"\x1b[m".to_vec());
}

#[test]
fn render_to_draws_with_the_colors_of_the_terminal() {
    crossterm::style::force_color_output(true);
    let state = bar(true, ColorSupport::Basic);
    let mut buf = BytesMut::new();
    state.render_to(&mut buf, 3);
    assert_eq!(
        buf.to_vec(),
        b"\x1b[1;1H\x1b[48;5;4m\x1b[38;5;15m\x1b[22mNo \x1b[0m\x1b[0m".to_vec()
    );
}
