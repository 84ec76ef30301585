use rescue_shell::common::{
    best_ping, internet_state, RelayLatency, RelayStatus, ALPN, CODEC_BUFFER_SIZE, QUEUE_SIZE,
    VICTIM_FRAME_SIZE,
};
use rescue_shell::console::title::TitleSession;
use rescue_shell::console::{ColorSupport, Environment};
use rescue_shell::io::{
    copy_to_osc52, gen_public_key, gen_secret_key, parse_public_keys, secret_key_text, KeyError,
};
use rescue_shell::osc_extractor::Osc52Extractor;
use rescue_shell::shell::{find_shell, find_windows_shell, shell_candidates};
use rescue_shell::strings::{contains_text, split_words, starts_with, trim};
use rescue_shell::util::{parse_answer, question, retry_hint, Cancelled};
use std::time::Duration;

const RFC_SECRET: &str = "9d61b19deffd5a60ba844af492ec2cc44449c5697b326919703bac031cae7f60";
const RFC_PUBLIC: &str = "d75a980182b10ab7d54bfed3c964073a0ee172f3daa62325af021a68f707511a";

#[test]
fn copy_writes_base64() {
    assert_eq!(copy_to_osc52(b""), b"\x1b]52;c;\x07".to_vec());
    assert_eq!(copy_to_osc52(b"f"), b"\x1b]52;c;Zg==\x07".to_vec());
    assert_eq!(copy_to_osc52(b"fo"), b"\x1b]52;c;Zm8=\x07".to_vec());
    assert_eq!(copy_to_osc52(b"foobar"), b"\x1b]52;c;Zm9vYmFy\x07".to_vec());
    assert_eq!(copy_to_osc52(&[0xfb, 0xff, 0xfe]), b"\x1b]52;c;+//+\x07".to_vec());
}

#[test]
fn copy_comes_through_the_extractor() {
    let write = copy_to_osc52("größe".as_bytes());
    assert_eq!(Osc52Extractor::default().extract(&write), write);
}

#[test]
fn public_key_belongs_to_the_secret_key() {
    assert_eq!(gen_public_key(RFC_SECRET).unwrap(), RFC_PUBLIC);
    assert_eq!(gen_public_key(&format!("  {}\n", RFC_SECRET.to_uppercase())).unwrap(), RFC_PUBLIC);
}

#[test]
fn broken_secret_keys_are_refused() {
    assert_eq!(gen_public_key("xyz"), Err(KeyError::InvalidHex));
    assert_eq!(gen_public_key("abc"), Err(KeyError::InvalidHex));
    assert_eq!(gen_public_key("é"), Err(KeyError::InvalidHex));
    assert_eq!(gen_public_key(""), Err(KeyError::InvalidSecretKey));
    assert_eq!(gen_public_key("00ff"), Err(KeyError::InvalidSecretKey));
}

#[test]
fn secret_key_is_written_in_hexadecimal() {
    let mut secret = [0u8; 32];
    secret[0] = 0xab;
    secret[31] = 0x09;
    let text = secret_key_text(&secret);
    assert_eq!(text.len(), 64);
    assert!(text.starts_with("ab00") && text.ends_with("0009"));
}

#[test]
fn generated_secret_key_is_taken() {
    let a = gen_secret_key();
    let b = gen_secret_key();
    assert_eq!(a.len(), 64);
    assert!(a != b);
    let public = gen_public_key(&a).unwrap();
    assert_eq!(parse_public_keys(&public).unwrap().len(), 1);
}

#[test]
fn public_keys_are_read_from_a_list() {
    let keys = parse_public_keys(&format!("\t{RFC_PUBLIC}\r\n  {RFC_PUBLIC}\u{2003}")).unwrap();
    assert_eq!(keys.len(), 2);
    assert_eq!(keys[0], keys[1]);
    assert_eq!(keys[0][0], 0xd7);
    assert_eq!(keys[0][31], 0x1a);
    assert_eq!(parse_public_keys(" \n "), Ok(vec![]));
    assert_eq!(
        parse_public_keys(&format!("{RFC_PUBLIC} nonsense")),
        Err(KeyError::InvalidPublicKey)
    );
}

fn empty() -> Environment {
    Environment {
        term: None,
        colorterm: None,
        wt_session: false,
        term_program: false,
        konsole_version: false,
        tmux: false,
        lc_all: None,
        lc_ctype: None,
        lang: None,
    }
}

#[test]
fn unicode_support() {
    assert!(!empty().supports_unicode(false));
    assert!(empty().supports_unicode(true));
    let linux = Environment { term: Some("Linux-16color".to_string()), tmux: true, ..empty() };
    assert!(!linux.supports_unicode(true));
    assert!(Environment { tmux: true, ..empty() }.supports_unicode(false));
    assert!(Environment { wt_session: true, ..empty() }.supports_unicode(false));
    assert!(Environment { term_program: true, ..empty() }.supports_unicode(false));
    assert!(Environment { konsole_version: true, ..empty() }.supports_unicode(false));
    let utf8 = Some("de_DE.UTF-8".to_string());
    let c = Some("C".to_string());
    assert!(Environment { lang: utf8.clone(), ..empty() }.supports_unicode(false));
    assert!(Environment { lc_ctype: Some("C.utf8".to_string()), ..empty() }.supports_unicode(false));
    assert!(!Environment { lc_all: c, lang: utf8, ..empty() }.supports_unicode(false));
}

#[test]
fn color_support() {
    let term = |t: &str| Environment { term: Some(t.to_string()), ..empty() };
    assert_eq!(empty().detect_color_support(), ColorSupport::Ansi256);
    assert_eq!(term("xterm-256color").detect_color_support(), ColorSupport::Ansi256);
    assert_eq!(term("LINUX").detect_color_support(), ColorSupport::Basic);
    assert_eq!(term("dumb").detect_color_support(), ColorSupport::Basic);
    assert_eq!(term("vt100").detect_color_support(), ColorSupport::Basic);
    assert_eq!(term("vt256").detect_color_support(), ColorSupport::Ansi256);
    assert_eq!(term("xterm").detect_color_support(), ColorSupport::Ansi256);
    let full = Environment { colorterm: Some("truecolor".to_string()), ..term("linux") };
    assert_eq!(full.detect_color_support(), ColorSupport::TrueColor);
    let full = Environment { colorterm: Some("24bit".to_string()), ..empty() };
    assert_eq!(full.detect_color_support(), ColorSupport::TrueColor);
    let other = Environment { colorterm: Some("yes".to_string()), ..term("linux") };
    assert_eq!(other.detect_color_support(), ColorSupport::Basic);
}

#[test]
fn title_is_set_and_restored() {
    let (session, opening) = TitleSession::new("box".to_string());
    assert_eq!(opening.to_vec(), b"\x1b[22;0t\x1b]0;rescue-shell [box]\x07".to_vec());
    assert_eq!(session.set_command("top").to_vec(), b"\x1b]0;rescue-shell [box]: top\x07".to_vec());
    assert_eq!(session.set_command("").to_vec(), b"\x1b]0;rescue-shell [box]\x07".to_vec());
    assert_eq!(session.restore().to_vec(), b"\x1b[23;0t".to_vec());
    let (session, opening) = TitleSession::new(String::new());
    assert_eq!(opening.to_vec(), b"\x1b[22;0t\x1b]0;rescue-shell\x07".to_vec());
    assert_eq!(session.set_command("x").to_vec(), b"\x1b]0;rescue-shell: x\x07".to_vec());
}

#[test]
fn shell_of_the_user_comes_first() {
    let zsh = Some("/bin/zsh".to_string());
    assert_eq!(find_shell(zsh.clone(), true, &[true, true, true, true]), "/bin/zsh");
    assert_eq!(find_shell(zsh, false, &[false, true, true, true]), "/bin/bash");
    assert_eq!(find_shell(None, true, &[true]), "/bin/sh");
    assert_eq!(find_shell(None, false, &[false, false, false, true]), "/bin/dash");
    assert_eq!(find_shell(None, false, &[]), "sh");
    assert_eq!(shell_candidates().len(), 4);
    assert_eq!(find_windows_shell(Some("cmd.exe".to_string())), "cmd.exe");
    assert_eq!(find_windows_shell(None), "powershell.exe");
}

#[test]
fn questions_and_answers() {
    assert_eq!(question("Go on?", true), "Go on? (Y/n) ");
    assert_eq!(question("Go on?", false), "Go on? (y/N) ");
    assert_eq!(parse_answer("Y\n", false), Some(true));
    assert_eq!(parse_answer(" Yes \r\n", false), Some(true));
    assert_eq!(parse_answer("n", true), Some(false));
    assert_eq!(parse_answer("NO\n", true), Some(false));
    assert_eq!(parse_answer("\n", true), Some(true));
    assert_eq!(parse_answer("", false), Some(false));
    assert_eq!(parse_answer("maybe", true), None);
    assert_eq!(retry_hint(), "Please type y or n!\n");
    assert_eq!(Cancelled.message(), "Task has been cancelled");
}

#[test]
fn texts_are_taken_apart() {
    assert_eq!(trim("\u{a0} a b \n"), "a b");
    assert_eq!(trim(" \t "), "");
    assert_eq!(split_words(" a  bc\u{3000}d "), vec!["a", "bc", "d"]);
    assert!(split_words("").is_empty());
    assert!(contains_text("abc", "bc"));
    assert!(contains_text("abc", ""));
    assert!(!contains_text("abc", "abcd"));
    assert!(!contains_text("abc", "ac"));
    assert!(starts_with("abc", "ab"));
    assert!(!starts_with("ab", "abc"));
}

fn relay(url: &str, connected: bool) -> RelayStatus {
    RelayStatus { url: url.to_string(), connected }
}

fn latency(url: &str, millis: u64) -> RelayLatency {
    RelayLatency { url: url.to_string(), latency: Duration::from_millis(millis) }
}

#[test]
fn ping_is_the_shortest_of_the_first_connected_relay() {
    let report = Some(vec![latency("b", 30), latency("a", 5), latency("b", 20), latency("b", 25)]);
    let statuses = vec![relay("a", false), relay("b", true), relay("a", true)];
    assert_eq!(best_ping(&statuses, &report), Some(Duration::from_millis(20)));
    assert_eq!(best_ping(&vec![relay("a", false)], &report), None);
    assert_eq!(best_ping(&vec![], &report), None);
    assert_eq!(best_ping(&statuses, &None), None);
    assert_eq!(best_ping(&vec![relay("c", true), relay("a", true)], &report), None);
}

#[test]
fn ping_decides_what_the_bar_shows() {
    let ping = Some(Duration::from_millis(7));
    assert_eq!(internet_state(ping).to_text(), "Online (7 ms)");
    assert_eq!(internet_state(None).to_text(), "Offline");
}

#[test]
fn shared_sizes_and_names() {
    assert_eq!(QUEUE_SIZE, 1024);
    assert_eq!(CODEC_BUFFER_SIZE, 256 * 1024);
    assert_eq!(VICTIM_FRAME_SIZE, 8 * 1024 * 1024);
    assert_eq!(ALPN, "/rescue-shell/");
}
