use darkheim_launcher::text::{
    chars_of, ends_with, find_char, i32_text, parse_u16, rfind_char, starts_with, str_equal,
    strip_prefix, trim,
};

#[test]
fn trim_matches_std() {
    let samples = [
        "", " ", "  a  ", "\t\nhost\r\n", "\u{3000}nick\u{3000}", "\u{85}x", "a b",
        "\u{200b}z", "  \u{a0} ", "word",
    ];
    for s in samples {
        assert_eq!(trim(s), s.trim(), "input {:?}", s);
    }
}

#[test]
fn parse_u16_matches_std() {
    let samples = [
        "", "+", "-", "0", "+0", "-0", "22", "+22", "007", "65535", "65536", "99999", "1a",
        " 1", "1 ", "++1", "+-1", "4294967297", "٣",
    ];
    for s in samples {
        assert_eq!(parse_u16(s), s.parse::<u16>().ok(), "input {:?}", s);
    }
}

#[test]
fn prefix_and_suffix() {
    assert!(starts_with("sftp://x", "sftp://"));
    assert!(!starts_with("sft", "sftp://"));
    assert!(ends_with("hs_err_pid1.log", ".log"));
    assert!(!ends_with("log", ".log"));
    assert_eq!(strip_prefix("ssh://h", "ssh://"), Some("h"));
    assert_eq!(strip_prefix("h", "ssh://"), None);
    assert!(str_equal("aarch64", "aarch64"));
    assert!(!str_equal("aarch64", "aarch6"));
}

#[test]
fn char_positions() {
    assert_eq!(find_char("a:b:c", ':'), Some(1));
    assert_eq!(rfind_char("a:b:c", ':'), Some(3));
    assert_eq!(find_char("abc", ':'), None);
    assert_eq!(rfind_char("", ':'), None);
    assert_eq!(chars_of("дом"), vec!['д', 'о', 'м']);
}

#[test]
fn decimal_text_of_i32() {
    for n in [0, 7, 10, -1, 255, i32::MAX, i32::MIN, -1000] {
        assert_eq!(i32_text(n), n.to_string());
    }
}
