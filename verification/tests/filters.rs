use rescue_shell::osc_extractor::Osc52Extractor;
use rescue_shell::osc_filter::OscFilter;

fn filtered(input: &[u8]) -> Vec<u8> {
    OscFilter::default().filter(input)
}

fn extracted(input: &[u8]) -> Vec<u8> {
    Osc52Extractor::default().extract(input)
}

#[test]
fn filter_passes_plain_text() {
    assert_eq!(filtered(b"hello\r\n"), b"hello\r\n".to_vec());
}

#[test]
fn filter_drops_color_queries() {
    assert_eq!(filtered(b"a\x1b]10;?\x07b"), b"ab".to_vec());
    assert_eq!(filtered(b"a\x1b]11;?\x1b\\b"), b"ab".to_vec());
    assert_eq!(filtered(b"a\x1b]11;rgb:00/00/00\x1bx\x07b"), b"ab".to_vec());
    assert_eq!(filtered(b"a\x1b]11;x\x1b\x07b"), b"ab".to_vec());
}

#[test]
fn filter_drops_device_attributes() {
    assert_eq!(filtered(b"a\x1b[?62;1cb"), b"ab".to_vec());
    assert_eq!(filtered(b"a\x1b[>1;277;0cb"), b"ab".to_vec());
}

#[test]
fn filter_passes_other_sequences() {
    assert_eq!(filtered(b"\x1b[31mred\x1b[0m"), b"\x1b[31mred\x1b[0m".to_vec());
    assert_eq!(filtered(b"\x1b]0;title\x07"), b"\x1b]0;title\x07".to_vec());
    assert_eq!(filtered(b"\x1bM"), b"\x1bM".to_vec());
}

#[test]
fn filter_holds_back_a_beginning() {
    let mut filter = OscFilter::default();
    assert_eq!(filter.filter(b"x\x1b]1"), b"x".to_vec());
    assert_eq!(filter.filter(b"0;?\x07y"), b"y".to_vec());
    assert_eq!(filter.filter(b"\x1b"), b"".to_vec());
    assert_eq!(filter.filter(b"Mz"), b"\x1bMz".to_vec());
}

#[test]
fn filter_passes_other_commands() {
    for input in [&b"\x1b]110;x\x07y"[..], b"\x1b]210;x\x07", b"\x1b]111;x\x1b\\", b"\x1b]1;10;x\x07"] {
        assert_eq!(filtered(input), input.to_vec());
    }
}

#[test]
fn filter_passes_private_modes() {
    for input in [&b"\x1b[?25hok"[..], b"\x1b[?1049l", b"\x1b[>4;1m", b"\x1b[cabc"] {
        assert_eq!(filtered(input), input.to_vec());
    }
}

#[test]
fn filter_drops_queries_wherever_they_stand() {
    assert_eq!(filtered(b"\x1b\x1b]10;?\x07a"), b"\x1ba".to_vec());
    assert_eq!(filtered(b"\x1b]2\x1b]11;?\x07a"), b"\x1b]2a".to_vec());
    assert_eq!(filtered(b"\x1b[\x1b[?1ca"), b"\x1b[a".to_vec());
    assert_eq!(filtered(b"\x1b[?1\x1b[>1ca"), b"\x1b[?1a".to_vec());
    assert_eq!(filtered(b"\x1b]l\x07\x1b]10;?\x1b\\a"), b"\x1b]l\x07a".to_vec());
    assert_eq!(filtered(b"\x1b]10;?\x1b\x1b\\a"), b"a".to_vec());
}

#[test]
fn filter_holds_back_what_may_be_attributes() {
    let mut filter = OscFilter::default();
    assert_eq!(filter.filter(b"a\x1b[?25"), b"a".to_vec());
    assert_eq!(filter.filter(b"hb"), b"\x1b[?25hb".to_vec());
    assert_eq!(filter.filter(b"\x1b[>0"), b"".to_vec());
    assert_eq!(filter.filter(b"cb"), b"b".to_vec());
}

#[test]
fn filter_in_pieces_leads_to_the_same() {
    let input: &[u8] = b"a\x1b]10;?\x07b\x1b[?1;2cc\x1b]0;t\x07d\x1b[1me\x1b\x1bf";
    let expected = filtered(input);
    for cut in 0..=input.len() {
        let mut filter = OscFilter::default();
        let mut out = filter.filter(&input[..cut]);
        out.extend(filter.filter(&input[cut..]));
        assert_eq!(out, expected);
    }
}

#[test]
fn extractor_keeps_clipboard_writes_only() {
    assert_eq!(
        extracted(b"text\x1b[31m\x1b]52;c;aGk=\x07more"),
        b"\x1b]52;c;aGk=\x07".to_vec()
    );
    assert_eq!(extracted(b"\x1b]52;p;aGk=\x1b\\"), b"\x1b]52;p;aGk=\x1b\\".to_vec());
    assert_eq!(extracted(b"plain"), b"".to_vec());
    assert_eq!(extracted(b"\x1b]0;title\x07"), b"".to_vec());
}

#[test]
fn extractor_names_a_missing_clipboard() {
    assert_eq!(extracted(b"\x1b]52;;aGk=\x07"), b"\x1b]52;c;aGk=\x07".to_vec());
}

#[test]
fn extractor_joins_pieces() {
    let mut extractor = Osc52Extractor::default();
    assert_eq!(extractor.extract(b"\x1b]52;c;aG"), b"".to_vec());
    assert_eq!(extractor.extract(b"k=\x07"), b"\x1b]52;c;aGk=\x07".to_vec());
}

#[test]
fn extractor_breaks_off_at_another_sequence() {
    assert_eq!(
        extracted(b"\x1b]52;c;aGk\x1b]52;c;eA==\x07"),
        b"\x1b]52;c;eA==\x07".to_vec()
    );
    assert_eq!(extracted(b"\x1b]52;c;aGk\x1b[0m=\x07"), b"".to_vec());
    assert_eq!(extracted(b"\x1b\x1b]52;c;eA==\x07"), b"\x1b]52;c;eA==\x07".to_vec());
    assert_eq!(extracted(b"\x1b]5\x1b]52;c;eA==\x07"), b"\x1b]52;c;eA==\x07".to_vec());
}

#[test]
fn extractor_keeps_a_stray_escape_in_the_payload() {
    assert_eq!(extracted(b"\x1b]52;c;a\x1b\x1bb\x07"), b"\x1b]52;c;a\x1b\x1bb\x07".to_vec());
    assert_eq!(extracted(b"\x1b]52;c;a\x1b\x07"), b"\x1b]52;c;a\x1b\x07".to_vec());
}

#[test]
fn extracting_twice_is_extracting_once() {
    let once = extracted(b"x\x1b]52;;YQ==\x07y\x1b]52;p;Yg==\x1b\\z");
    assert_eq!(once, b"\x1b]52;c;YQ==\x07\x1b]52;p;Yg==\x1b\\".to_vec());
    assert_eq!(extracted(&once), once);
}

#[test]
fn extractor_in_pieces_leads_to_the_same() {
    let input: &[u8] = b"a\x1b]52;;YQ==\x07b\x1b]5x\x1b]52;c;a\x1b\\c\x1b\x1b]52;x\x1b[1m";
    let expected = extracted(input);
    for cut in 0..=input.len() {
        let mut extractor = Osc52Extractor::default();
        let mut out = extractor.extract(&input[..cut]);
        out.extend(extractor.extract(&input[cut..]));
        assert_eq!(out, expected);
    }
}
