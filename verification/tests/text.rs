use mib_browser::text::{after_last_dot, decimal_text, join, split_at_char, trim, trim_lines};

fn strings(parts: &[&str]) -> Vec<String> {
    parts.iter().map(|s| s.to_string()).collect()
}

#[test]
fn last_segment_follows_the_last_dot() {
    assert_eq!(after_last_dot(".1.3.6"), "6");
    assert_eq!(after_last_dot("1.3."), "");
    assert_eq!(after_last_dot("iso"), "iso");
    assert_eq!(after_last_dot(""), "");
    assert_eq!(after_last_dot("."), "");
}

#[test]
fn split_gives_all_pieces() {
    assert_eq!(split_at_char("a\nb\n\nc", '\n'), strings(&["a", "b", "", "c"]));
    assert_eq!(split_at_char("", '\n'), strings(&[""]));
    assert_eq!(split_at_char("\n", '\n'), strings(&["", ""]));
    for s in ["", ".", "a.b", "..", ".a..b.", "é.ü"] {
        let expected: Vec<String> = s.split('.').map(|p| p.to_string()).collect();
        assert_eq!(split_at_char(s, '.'), expected);
    }
}

#[test]
fn join_puts_separators_between() {
    assert_eq!(join(&strings(&[]), ", "), "");
    assert_eq!(join(&strings(&["a"]), ", "), "a");
    assert_eq!(join(&strings(&["a", "", "b"]), " | "), "a |  | b");
}

#[test]
fn split_undoes_join() {
    let parts = strings(&["1", "3", "", "6"]);
    assert_eq!(split_at_char(&join(&parts, "."), '.'), parts);
}

#[test]
fn trim_removes_unicode_white_space() {
    assert_eq!(trim("  org\t"), "org");
    assert_eq!(trim("\u{2003}a b\u{3000}\u{85}"), "a b");
    assert_eq!(trim(" \n "), "");
    assert_eq!(trim("\u{200b}x"), "\u{200b}x");
    for code in 0..=0x11_0000u32 {
        if let Some(c) = char::from_u32(code) {
            if c.is_whitespace() || code < 0x300 || (0x2000..0x2100).contains(&code) {
                let s = format!("{}x{}", c, c);
                assert_eq!(trim(&s), s.trim(), "{:?}", c);
            }
        }
    }
}

#[test]
fn trim_lines_trims_each_line() {
    assert_eq!(trim_lines("One.\n    Two.  \n\n\tThree."), "One.\nTwo.\n\nThree.");
    assert_eq!(trim_lines("a\r\n b"), "a\nb");
    assert_eq!(trim_lines("  "), "");
}

#[test]
fn decimal_notation() {
    assert_eq!(decimal_text(0), "0");
    assert_eq!(decimal_text(10), "10");
    assert_eq!(decimal_text(-7), "-7");
    assert_eq!(decimal_text(4294967295), "4294967295");
    assert_eq!(decimal_text(i64::MAX), "9223372036854775807");
    assert_eq!(decimal_text(i64::MIN), "-9223372036854775808");
}
