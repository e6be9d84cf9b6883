use notion_sync::frontmatter::{parse_note, parse_scalar, unquote, MetaValue, ParsedNote};
use notion_sync::keyed::KeyedMap;

fn note(raw: &str) -> ParsedNote {
    parse_note("vault/Prompts/p1.md", raw).expect("note reads")
}

fn value<'a>(m: &'a KeyedMap<MetaValue>, key: &str) -> Option<&'a MetaValue> {
    m.get(&key.to_string())
}

fn keys(m: &KeyedMap<MetaValue>) -> Vec<String> {
    (0..m.len()).map(|i| m.entry(i).0.clone()).collect()
}

fn chars(s: &str) -> Vec<char> {
    s.chars().collect()
}

const README_NOTE: &str = "---
title: \"ชื่อ prompt\"
id: PROMPT-001
description: \"คำอธิบายสั้น\"
status: unused
source: handwritten
created: 2026-05-25
updated: 2026-05-25
tags:
  - ai
  - revenue
used_in_post: null
scheduled_post: null
---

เนื้อหา prompt ที่นี่...
";

#[test]
fn readme_template_reads_every_field() {
    let n = note(README_NOTE);
    assert_eq!(n.file_path, "vault/Prompts/p1.md");
    assert_eq!(n.file_name, "p1.md");
    assert_eq!(
        keys(&n.meta),
        vec![
            "title", "id", "description", "status", "source", "created", "updated", "tags",
            "used_in_post", "scheduled_post"
        ]
    );
    assert_eq!(value(&n.meta, "title"), Some(&MetaValue::Text("ชื่อ prompt".to_string())));
    assert_eq!(value(&n.meta, "id"), Some(&MetaValue::Text("PROMPT-001".to_string())));
    assert_eq!(value(&n.meta, "created"), Some(&MetaValue::Text("2026-05-25".to_string())));
    assert_eq!(
        value(&n.meta, "tags"),
        Some(&MetaValue::List(vec!["ai".to_string(), "revenue".to_string()]))
    );
    assert_eq!(value(&n.meta, "used_in_post"), Some(&MetaValue::Null));
    assert_eq!(n.body, "เนื้อหา prompt ที่นี่...");
}

#[test]
fn note_without_front_matter_keeps_its_text() {
    let n = note("  # Heading\nplain text\n");
    assert!(n.meta.is_empty());
    assert_eq!(n.body, "# Heading\nplain text");
}

#[test]
fn unclosed_front_matter_is_no_front_matter() {
    let raw = "---\ntitle: x\nno closing mark";
    let n = note(raw);
    assert!(n.meta.is_empty());
    assert_eq!(n.body, raw);
}

#[test]
fn scalars_read_as_their_kinds() {
    let n = note(
        "---\na: true\nb: yes\nc: false\nd: no\ne: ~\nf:\ng: -42\nh: '7'\ni: 1.5\nj: \"\"\nk: +3\n---",
    );
    assert_eq!(value(&n.meta, "a"), Some(&MetaValue::Bool(true)));
    assert_eq!(value(&n.meta, "b"), Some(&MetaValue::Bool(true)));
    assert_eq!(value(&n.meta, "c"), Some(&MetaValue::Bool(false)));
    assert_eq!(value(&n.meta, "d"), Some(&MetaValue::Bool(false)));
    assert_eq!(value(&n.meta, "e"), Some(&MetaValue::Null));
    assert_eq!(value(&n.meta, "f"), Some(&MetaValue::Null));
    assert_eq!(value(&n.meta, "g"), Some(&MetaValue::Int(-42)));
    assert_eq!(value(&n.meta, "h"), Some(&MetaValue::Int(7)));
    assert_eq!(value(&n.meta, "i"), Some(&MetaValue::Text("1.5".to_string())));
    assert_eq!(value(&n.meta, "j"), Some(&MetaValue::Text("".to_string())));
    assert_eq!(value(&n.meta, "k"), Some(&MetaValue::Int(3)));
    assert_eq!(n.body, "");
}

#[test]
fn comments_blank_lines_and_lines_without_colon_are_skipped() {
    let n = note("---\n# a comment\n\n   \nno colon here\nkey: v\n---\nbody");
    assert_eq!(keys(&n.meta), vec!["key"]);
    assert_eq!(n.body, "body");
}

#[test]
fn repeated_key_keeps_its_place_and_takes_the_last_value() {
    let n = note("---\na: 1\nb: 2\na: 3\n---\n");
    assert_eq!(keys(&n.meta), vec!["a", "b"]);
    assert_eq!(value(&n.meta, "a"), Some(&MetaValue::Int(3)));
}

#[test]
fn list_items_are_unquoted_and_end_at_a_blank_line() {
    let n = note("---\ntags:\n  - \"x y\"\n  - - z\n\n  - after\nk: v\n---\n");
    assert_eq!(
        value(&n.meta, "tags"),
        Some(&MetaValue::List(vec!["x y".to_string(), "z".to_string()]))
    );
    assert_eq!(value(&n.meta, "k"), Some(&MetaValue::Text("v".to_string())));
    assert_eq!(keys(&n.meta), vec!["tags", "k"]);
}

#[test]
fn empty_key_takes_a_list_but_not_a_scalar() {
    let n = note("---\n: lone\n:\n - item\n---\n");
    assert_eq!(keys(&n.meta), vec![""]);
    assert_eq!(value(&n.meta, ""), Some(&MetaValue::List(vec!["item".to_string()])));
}

#[test]
fn lone_quote_value_cannot_be_read() {
    assert!(parse_note("a.md", "---\nk: \"\n---\n").is_none());
    assert!(parse_note("a.md", "---\nk:\n  - '\n---\n").is_none());
    assert!(parse_note("a.md", "---\n: '\n---\n").is_none());
    assert!(parse_note("a.md", "k: \"\n").is_some());
}

#[test]
fn crlf_lines_read_like_lf_lines() {
    let n = note("---\r\na: 1\r\nb: x\r\n---\r\nbody\r\n");
    assert_eq!(value(&n.meta, "a"), Some(&MetaValue::Int(1)));
    assert_eq!(value(&n.meta, "b"), Some(&MetaValue::Text("x".to_string())));
    assert_eq!(n.body, "body");
}

#[test]
fn unquote_strips_one_matching_pair() {
    assert_eq!(unquote("\"a\""), "a");
    assert_eq!(unquote("  'b c'  "), "b c");
    assert_eq!(unquote("\"a'"), "\"a'");
    assert_eq!(unquote("\"\"x\"\""), "\"x\"");
    assert_eq!(unquote("''"), "");
    assert_eq!(unquote("plain"), "plain");
}

#[test]
fn parse_scalar_reads_i64_range() {
    assert_eq!(parse_scalar(&chars("9223372036854775807")), Some(MetaValue::Int(i64::MAX)));
    assert_eq!(parse_scalar(&chars("-9223372036854775808")), Some(MetaValue::Int(i64::MIN)));
    assert_eq!(
        parse_scalar(&chars("9223372036854775808")),
        Some(MetaValue::Text("9223372036854775808".to_string()))
    );
    assert_eq!(parse_scalar(&chars("-")), Some(MetaValue::Text("-".to_string())));
    assert_eq!(parse_scalar(&chars("12a")), Some(MetaValue::Text("12a".to_string())));
    assert_eq!(parse_scalar(&chars("")), Some(MetaValue::Null));
    assert_eq!(parse_scalar(&chars("'")), None);
}

#[test]
fn file_names_follow_path_rules() {
    let name = |p: &str| parse_note(p, "").unwrap().file_name;
    assert_eq!(name("a/b/c.md"), "c.md");
    assert_eq!(name("c.md"), "c.md");
    assert_eq!(name("a/b/"), "b");
    assert_eq!(name("a/b/."), "b");
    assert_eq!(name("a/.."), "");
    assert_eq!(name("/"), "");
    assert_eq!(name(""), "");
    assert_eq!(name("./x"), "x");
}

#[test]
fn single_field_reads_back() {
    for (key, value, want) in [
        ("  name ", " \"x: y\" ", MetaValue::Text("x: y".to_string())),
        ("count", "12", MetaValue::Int(12)),
        ("flag", "no", MetaValue::Bool(false)),
        ("empty", "", MetaValue::Null),
    ] {
        let raw = format!("---\n{}: {}\n---tail", key, value);
        let n = note(&raw);
        assert_eq!(keys(&n.meta), vec![key.trim().to_string()]);
        assert_eq!(value_of(&n.meta, key.trim()), Some(&want));
        assert_eq!(n.body, "tail");
    }
}

fn value_of<'a>(m: &'a KeyedMap<MetaValue>, key: &str) -> Option<&'a MetaValue> {
    value(m, key)
}

#[test]
fn numbers_are_marked_only_on_text_values() {
    let mut n = note("---\na: 1.5\nb: 2\nc: x\n---\n");
    notion_sync::frontmatter::mark_numbers(
        &mut n.meta,
        vec![Some("1.5".to_string()), Some("2.0".to_string()), None],
    );
    assert_eq!(value(&n.meta, "a"), Some(&MetaValue::Float("1.5".to_string())));
    assert_eq!(value(&n.meta, "b"), Some(&MetaValue::Int(2)));
    assert_eq!(value(&n.meta, "c"), Some(&MetaValue::Text("x".to_string())));
}
