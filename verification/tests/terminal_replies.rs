use rescue_shell::console::responder::{xtversion, DA1_RESP, DA2_RESP};
use rescue_shell::console::{Osc52Extractor, PtyResponder};
use rescue_shell::vt::VtAction;

fn responder(direct: bool) -> PtyResponder {
    PtyResponder::new("rescue-shell".to_string(), "1.2.3".to_string(), direct)
}

fn answer(direct: bool, screen_text: &[u8], query: &[u8]) -> Option<Vec<u8>> {
    let mut parser = vt100::Parser::new(24, 80, 0);
    parser.process(screen_text);
    responder(direct).process(query, parser.screen()).map(|b| b.to_vec())
}

#[test]
fn primary_attributes_are_answered() {
    assert_eq!(answer(false, b"", b"\x1b[c"), Some(DA1_RESP.as_bytes().to_vec()));
    assert_eq!(answer(true, b"", b"\x1b[0c"), Some(b"\x1b[?62;1;9;15;22;29;52c".to_vec()));
    assert_eq!(answer(true, b"", b"\x1b[1c"), None);
}

#[test]
fn cursor_position_is_answered() {
    assert_eq!(answer(true, b"", b"\x1b[6n"), Some(b"\x1b[1;1R".to_vec()));
    assert_eq!(answer(true, b"\x1b[5;12H", b"\x1b[6n"), Some(b"\x1b[5;12R".to_vec()));
    assert_eq!(answer(true, b"", b"\x1b[5n"), None);
}

#[test]
fn direct_queries_are_answered() {
    assert_eq!(answer(true, b"", b"\x1b[>c"), Some(DA2_RESP.as_bytes().to_vec()));
    assert_eq!(answer(true, b"", b"\x1b[>0c"), Some(b"\x1b[>1;277;0c".to_vec()));
    assert_eq!(
        answer(true, b"", b"\x1b[>q"),
        Some(b"\x1bP>|rescue-shell 1.2.3\x1b\\".to_vec())
    );
    assert_eq!(answer(false, b"", b"\x1b[>c\x1b[>q"), None);
}

#[test]
fn output_that_asks_nothing_is_not_answered() {
    assert_eq!(answer(true, b"", b"hello\r\n\x1b[31m\x1b]0;t\x07\x1bM"), None);
}

#[test]
fn answers_come_in_order() {
    assert_eq!(
        answer(true, b"", b"\x1b[6nabc\x1b[c"),
        Some(b"\x1b[1;1R\x1b[?62;1;9;15;22;29;52c".to_vec())
    );
}

#[test]
fn query_in_two_pieces_is_answered_once() {
    let parser = vt100::Parser::new(24, 80, 0);
    let mut r = responder(true);
    assert!(r.process(b"\x1b[", parser.screen()).is_none());
    assert_eq!(r.process(b"6n", parser.screen()).unwrap().to_vec(), b"\x1b[1;1R".to_vec());
    assert!(r.process(b"x", parser.screen()).is_none());
}

#[test]
fn respond_uses_the_given_cursor() {
    let query = VtAction::Csi {
        params: vec![vec![6]],
        intermediates: vec![],
        ignore: false,
        action: 'n',
    };
    let mut r = responder(true);
    assert_eq!(
        r.respond(&vec![query], (65535, 65535)).unwrap().to_vec(),
        b"\x1b[65536;65536R".to_vec()
    );
    assert!(r.respond(&vec![VtAction::Print('c')], (0, 0)).is_none());
}

#[test]
fn version_reply_names_the_program() {
    assert_eq!(xtversion("prog", "0.1"), b"\x1bP>|prog 0.1\x1b\\".to_vec());
}

fn clipboard(input: &[u8]) -> Option<Vec<u8>> {
    Osc52Extractor::default().extract(input).map(|b| b.to_vec())
}

#[test]
fn clipboard_writes_are_picked_out() {
    assert_eq!(
        clipboard(b"text\x1b[1m\x1b]52;c;aGk=\x07more"),
        Some(b"\x1b]52;c;aGk=\x07".to_vec())
    );
    assert_eq!(clipboard(b"\x1b]52;p;aGk=\x1b\\"), Some(b"\x1b]52;p;aGk=\x1b\\".to_vec()));
    assert_eq!(clipboard(b"\x1b]0;title\x07"), None);
    assert_eq!(clipboard(b"text"), None);
}

#[test]
fn clipboard_write_without_a_clipboard_gets_one() {
    assert_eq!(clipboard(b"\x1b]52;;aGk=\x07"), Some(b"\x1b]52;c;aGk=\x07".to_vec()));
    assert_eq!(clipboard(b"\x1b]52;p\x07"), Some(b"\x1b]52;p;\x07".to_vec()));
    assert_eq!(clipboard(b"\x1b]52\x07"), None);
}

#[test]
fn clipboard_write_in_two_pieces() {
    let mut extractor = Osc52Extractor::default();
    assert!(extractor.extract(b"\x1b]52;c;aG").is_none());
    assert_eq!(extractor.extract(b"k=\x07").unwrap().to_vec(), b"\x1b]52;c;aGk=\x07".to_vec());
}

#[test]
fn clipboard_actions_keep_their_order() {
    let write = |payload: &[u8], bell: bool| VtAction::Osc {
        fields: vec![b"52".to_vec(), b"c".to_vec(), payload.to_vec()],
        bell_terminated: bell,
    };
    let out = Osc52Extractor::collect(&vec![
        write(b"YQ==", true),
        VtAction::Print('x'),
        write(b"Yg==", false),
    ]);
    assert_eq!(out.unwrap().to_vec(), b"\x1b]52;c;YQ==\x07\x1b]52;c;Yg==\x1b\\".to_vec());
    assert!(Osc52Extractor::collect(&vec![]).is_none());
}

#[test]
fn clipboard_payload_with_semicolons_is_kept() {
    assert_eq!(clipboard(b"\x1b]52;c;a;b\x07"), Some(b"\x1b]52;c;a;b\x07".to_vec()));
}

#[test]
fn every_direct_query_gets_an_answer() {
    for query in [&b"\x1b[c"[..], b"\x1b[6n", b"\x1b[>c", b"\x1b[>q"] {
        assert!(answer(true, b"", query).is_some());
    }
}
