use notion_sync::config::Config;
use notion_sync::frontmatter::{parse_note, MetaValue};
use notion_sync::keyed::KeyedMap;
use notion_sync::notion::{
    block_ids, body_to_blocks, build_properties, found_page_id, infer_property, normalize_key,
    property_from, refusal, Block, BlockKind, Method, NotionClient, Payload, Property, Reply,
};

fn cfg() -> Config {
    Config {
        notion_token: "SECRET-REDACTED".to_string(),
        notion_database_id: "db123".to_string(),
        notion_version: "2022-06-28".to_string(),
        vault_path: "/vault".to_string(),
        vault_subfolder: None,
    }
}

fn text(s: &str) -> MetaValue {
    MetaValue::Text(s.to_string())
}

fn props_of(p: &KeyedMap<Property>) -> Vec<(String, Property)> {
    (0..p.len())
        .map(|i| {
            let (k, v) = p.entry(i);
            let v = match v {
                Property::Title(s) => Property::Title(s.clone()),
                Property::RichText(s) => Property::RichText(s.clone()),
                Property::Date(s) => Property::Date(s.clone()),
                Property::Url(s) => Property::Url(s.clone()),
                Property::Status(s) => Property::Status(s.clone()),
                Property::MultiSelect(v) => Property::MultiSelect(v.clone()),
            };
            (k.clone(), v)
        })
        .collect()
}

#[test]
fn new_client_takes_the_settings() {
    let c = NotionClient::new(&cfg());
    assert_eq!(c.token(), "SECRET-REDACTED");
    assert_eq!(c.version(), "2022-06-28");
    let r = c.find_by_filename("p1.md");
    assert_eq!(r.method, Method::Post);
    assert_eq!(r.url, "https://api.notion.com/v1/databases/db123/query");
    assert_eq!(r.payload, Payload::FindByFileName("p1.md".to_string()));
}

#[test]
fn normalize_key_takes_known_names_whatever_the_case() {
    assert_eq!(normalize_key("status"), "Status");
    assert_eq!(normalize_key("USED_IN_POST"), "Used_In_Post");
    assert_eq!(normalize_key("id"), "ID");
    assert_eq!(normalize_key("file_name"), "File_name");
    assert_eq!(normalize_key("custom"), "custom");
    assert_eq!(normalize_key("Title"), "Title");
    for k in ["status", "custom", "scheduled_post", "x"] {
        let once = normalize_key(k);
        assert_eq!(normalize_key(&once), once);
    }
}

#[test]
fn infer_property_by_key_and_value() {
    assert_eq!(infer_property("created", &text("2026-05-25")), Some(Property::Date("2026-05-25".to_string())));
    assert_eq!(infer_property("Last_Updated", &text("d")), Some(Property::Date("d".to_string())));
    assert_eq!(infer_property("scheduled_post", &text("s")), Some(Property::Date("s".to_string())));
    assert_eq!(infer_property("post_url", &text("u")), Some(Property::Url("u".to_string())));
    assert_eq!(infer_property("used_in_post", &text("u")), Some(Property::Url("u".to_string())));
    assert_eq!(infer_property("Status", &text("unused")), Some(Property::Status("unused".to_string())));
    assert_eq!(infer_property("source", &text("handwritten")), Some(Property::Status("handwritten".to_string())));
    assert_eq!(
        infer_property("tags", &MetaValue::List(vec!["ai".to_string(), "revenue".to_string()])),
        Some(Property::MultiSelect(vec!["ai".to_string(), "revenue".to_string()]))
    );
    assert_eq!(infer_property("anything", &MetaValue::Null), None);
    assert_eq!(infer_property("created", &MetaValue::Int(5)), Some(Property::RichText("5".to_string())));
    assert_eq!(infer_property("n", &MetaValue::Int(-12)), Some(Property::RichText("-12".to_string())));
    assert_eq!(infer_property("b", &MetaValue::Bool(false)), Some(Property::RichText("false".to_string())));
    assert_eq!(infer_property("f", &MetaValue::Float("1.5".to_string())), Some(Property::RichText("1.5".to_string())));
    assert_eq!(infer_property("status", &MetaValue::Bool(true)), Some(Property::RichText("true".to_string())));
    assert_eq!(infer_property("tags", &text("one")), Some(Property::RichText("one".to_string())));
}

#[test]
fn list_outside_tags_is_written_as_json() {
    let items = MetaValue::List(vec!["a\"b".to_string(), "c".to_string()]);
    assert_eq!(
        infer_property("aliases", &items),
        Some(Property::RichText("[\"a\\\"b\",\"c\"]".to_string()))
    );
    assert_eq!(
        property_from("aliases", &items, &"given".to_string()),
        Some(Property::RichText("given".to_string()))
    );
}

#[test]
fn properties_of_the_readme_note() {
    let n = parse_note(
        "p1.md",
        "---\ntitle: \"My prompt\"\nstatus: unused\ncount: 3\nnothing: null\ntags:\n  - ai\n---\nbody",
    )
    .unwrap();
    let p = build_properties(&n.meta, &n.file_name);
    assert_eq!(
        props_of(&p),
        vec![
            ("Title".to_string(), Property::Title("My prompt".to_string())),
            ("File_name".to_string(), Property::RichText("p1.md".to_string())),
            ("Status".to_string(), Property::Status("unused".to_string())),
            ("count".to_string(), Property::RichText("3".to_string())),
            ("Tags".to_string(), Property::MultiSelect(vec!["ai".to_string()])),
        ]
    );
}

#[test]
fn title_falls_back_to_the_file_name() {
    let n = parse_note("dir/q.md", "---\ntitle: 12\nfile_name: other\n---\n").unwrap();
    let p = build_properties(&n.meta, &n.file_name);
    assert_eq!(
        props_of(&p),
        vec![
            ("Title".to_string(), Property::Title("q.md".to_string())),
            ("File_name".to_string(), Property::RichText("q.md".to_string())),
        ]
    );
}

#[test]
fn fields_named_like_title_or_file_name_leave_them_alone() {
    let n = parse_note("p.md", "---
Title: x
FILE_NAME: y
title: T
k: v
---
").unwrap();
    let p = build_properties(&n.meta, &n.file_name);
    assert_eq!(
        props_of(&p),
        vec![
            ("Title".to_string(), Property::Title("T".to_string())),
            ("File_name".to_string(), Property::RichText("p.md".to_string())),
            ("k".to_string(), Property::RichText("v".to_string())),
        ]
    );
}

#[test]
fn body_lines_become_blocks() {
    let b = body_to_blocks("# One\n## Two\n### Three\n#### Four\n#no\n\ntext");
    let want = vec![
        (BlockKind::Heading1, "One"),
        (BlockKind::Heading2, "Two"),
        (BlockKind::Heading3, "Three"),
        (BlockKind::Paragraph, "#### Four"),
        (BlockKind::Paragraph, "#no"),
        (BlockKind::Paragraph, ""),
        (BlockKind::Paragraph, "text"),
    ];
    assert_eq!(
        b,
        want.into_iter()
            .map(|(kind, t)| Block { kind, text: t.to_string() })
            .collect::<Vec<_>>()
    );
    assert!(body_to_blocks("").is_empty());
}

#[test]
fn requests_address_the_api() {
    let c = NotionClient::new(&cfg());
    let n = parse_note("p.md", "---\na: 1\n---\nhello").unwrap();
    let create = c.create_page(&n);
    assert_eq!(create.method, Method::Post);
    assert_eq!(create.url, "https://api.notion.com/v1/pages");
    match &create.payload {
        Payload::NewPage { database_id, properties, children } => {
            assert_eq!(database_id, "db123");
            assert_eq!(properties.len(), 3);
            assert_eq!(children, &vec![Block { kind: BlockKind::Paragraph, text: "hello".to_string() }]);
        }
        other => panic!("unexpected payload {:?}", other),
    }
    let update = c.update_page("pg1", &n);
    assert_eq!(update.method, Method::Patch);
    assert_eq!(update.url, "https://api.notion.com/v1/pages/pg1");
    let list = c.clear_blocks("pg1");
    assert_eq!(list.method, Method::Get);
    assert_eq!(list.url, "https://api.notion.com/v1/blocks/pg1/children");
    assert_eq!(list.payload, Payload::Empty);
    let del = c.delete_block("b9");
    assert_eq!(del.method, Method::Delete);
    assert_eq!(del.url, "https://api.notion.com/v1/blocks/b9");
    let app = c.append_children("pg1", &n);
    assert_eq!(app.url, "https://api.notion.com/v1/blocks/pg1/children");
    assert_eq!(app.payload, Payload::Children(vec![Block { kind: BlockKind::Paragraph, text: "hello".to_string() }]));
}

fn reply(results: Option<Vec<Option<&str>>>) -> Reply {
    Reply {
        has_code: false,
        message: None,
        id: None,
        results: results.map(|v| v.into_iter().map(|o| o.map(String::from)).collect()),
    }
}

#[test]
fn query_replies_find_the_first_page() {
    assert_eq!(found_page_id(&reply(Some(vec![Some("p1"), Some("p2")]))), Some("p1".to_string()));
    assert_eq!(found_page_id(&reply(Some(vec![Some(""), Some("p2")]))), None);
    assert_eq!(found_page_id(&reply(Some(vec![None, Some("p2")]))), None);
    assert_eq!(found_page_id(&reply(Some(vec![]))), None);
    assert_eq!(found_page_id(&reply(None)), None);
}

#[test]
fn listing_replies_name_the_string_ids() {
    assert_eq!(
        block_ids(&reply(Some(vec![Some("a"), None, Some("b")]))),
        vec!["a".to_string(), "b".to_string()]
    );
    assert!(block_ids(&reply(None)).is_empty());
}

#[test]
fn refusals_carry_the_message() {
    let mut r = reply(None);
    r.has_code = true;
    assert_eq!(refusal(&r), "unknown");
    r.message = Some("bad".to_string());
    assert_eq!(refusal(&r), "bad");
}

#[test]
fn list_json_escapes_control_characters() {
    let items = MetaValue::List(vec!["a\u{1}\n\\".to_string(), "é\t".to_string()]);
    assert_eq!(
        infer_property("aliases", &items),
        Some(Property::RichText("[\"a\\u0001\\n\\\\\",\"é\\t\"]".to_string()))
    );
    assert_eq!(
        infer_property("aliases", &MetaValue::List(vec![])),
        Some(Property::RichText("[]".to_string()))
    );
}

#[test]
fn properties_do_not_depend_on_field_order() {
    let a = parse_note("p.md", "---\nstatus: s\ncount: 3\ntags:\n  - x\n---\n").unwrap();
    let b = parse_note("p.md", "---\ntags:\n  - x\ncount: 3\nstatus: s\n---\n").unwrap();
    let mut pa = props_of(&build_properties(&a.meta, &a.file_name));
    let mut pb = props_of(&build_properties(&b.meta, &b.file_name));
    pa.sort_by(|x, y| x.0.cmp(&y.0));
    pb.sort_by(|x, y| x.0.cmp(&y.0));
    assert_eq!(pa, pb);
}
