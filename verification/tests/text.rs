use notion_sync::frontmatter::{parse_scalar, MetaValue};
use notion_sync::text::{
    contains_chars, int_text_chars, lines_of, lower_chars, parse_i64_chars, to_chars, trim_chars,
};

fn s(v: &[char]) -> String {
    v.iter().collect()
}

#[test]
fn lines_split_like_str_lines() {
    for text in ["", "a", "a\n", "a\r\nb", "a\n\nb\n", "x\r", "\n", "a\rb\n"] {
        let got: Vec<String> = lines_of(&to_chars(text)).iter().map(|l| s(l)).collect();
        let want: Vec<String> = text.lines().map(String::from).collect();
        assert_eq!(got, want, "lines of {:?}", text);
    }
}

#[test]
fn trim_removes_unicode_whitespace() {
    for text in ["  a b \t", "\u{3000}x\u{A0}", "\n\r", "none", "\u{2003} y"] {
        assert_eq!(s(&trim_chars(&to_chars(text))), text.trim());
    }
}

#[test]
fn integers_format_and_read_back() {
    for n in [0i64, 7, -7, 10, 1234567890, i64::MAX, i64::MIN] {
        let t = int_text_chars(n);
        assert_eq!(s(&t), n.to_string());
        assert_eq!(parse_i64_chars(&t), Some(n));
        assert_eq!(parse_scalar(&t), Some(MetaValue::Int(n)));
    }
}

#[test]
fn parse_i64_matches_std() {
    for text in ["+5", "-0", "007", "", "+", "1 2", "99999999999999999999", "-9223372036854775809"] {
        assert_eq!(parse_i64_chars(&to_chars(text)), text.parse::<i64>().ok(), "{:?}", text);
    }
}

#[test]
fn lower_and_contains() {
    assert_eq!(s(&lower_chars(&to_chars("Used_In_POST"))), "used_in_post");
    assert!(contains_chars(&to_chars("last_updated_at"), &to_chars("updated")));
    assert!(!contains_chars(&to_chars("upd"), &to_chars("updated")));
    assert!(contains_chars(&to_chars("abc"), &to_chars("")));
}
