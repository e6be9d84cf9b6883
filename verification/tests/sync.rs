use notion_sync::config::Config;
use notion_sync::frontmatter::{parse_note, ParsedNote};
use notion_sync::notion::{Method, NotionClient, Payload, Reply};
use notion_sync::path::markdown_files;
use notion_sync::sync::{scan_path, tally, Event, Step, SyncError, SyncOutcome, SyncRun, Tally};

fn cfg(sub: Option<&str>) -> Config {
    Config {
        notion_token: "SECRET-REDACTED".to_string(),
        notion_database_id: "db".to_string(),
        notion_version: "2022-06-28".to_string(),
        vault_path: "/vault".to_string(),
        vault_subfolder: sub.map(String::from),
    }
}

fn note(raw: &str) -> ParsedNote {
    parse_note("notes/p.md", raw).unwrap()
}

fn ok_reply() -> Reply {
    Reply { has_code: false, message: None, id: None, results: None }
}

fn results(ids: Vec<Option<&str>>) -> Reply {
    Reply {
        has_code: false,
        message: None,
        id: None,
        results: Some(ids.into_iter().map(|o| o.map(String::from)).collect()),
    }
}

fn sent(step: &Step) -> (Method, String) {
    match step {
        Step::Send(r) => (r.method, r.url.clone()),
        Step::Finish(f) => panic!("finished early: {:?}", f),
    }
}

fn start(raw: &str, dry_run: bool) -> (SyncRun, Step) {
    SyncRun::start(NotionClient::new(&cfg(None)), note(raw), dry_run)
}

#[test]
fn note_without_front_matter_is_skipped() {
    let (run, step) = start("just text", false);
    assert!(run.is_done());
    assert_eq!(step, Step::Finish(Ok(SyncOutcome::SkippedNoFrontmatter)));
    assert_eq!(SyncOutcome::SkippedNoFrontmatter.label(), "skipped");
}

#[test]
fn dry_run_sends_nothing() {
    let (run, step) = start("---\na: 1\n---\n", true);
    assert!(run.is_done());
    assert_eq!(step, Step::Finish(Ok(SyncOutcome::SkippedDryRun)));
}

#[test]
fn missing_page_is_created() {
    let (run, step) = start("---\ntitle: T\n---\nbody", false);
    assert_eq!(sent(&step), (Method::Post, "https://api.notion.com/v1/databases/db/query".to_string()));
    let (run, step) = run.advance(Event::Replied(results(vec![])));
    assert_eq!(sent(&step), (Method::Post, "https://api.notion.com/v1/pages".to_string()));
    let mut created = ok_reply();
    created.id = Some("abcdef123456".to_string());
    let (run, step) = run.advance(Event::Replied(created));
    assert!(run.is_done());
    assert_eq!(step, Step::Finish(Ok(SyncOutcome::Created("abcdef123456".to_string()))));
    assert_eq!(SyncOutcome::Created(String::new()).label(), "created");
}

#[test]
fn created_page_without_id_has_an_empty_id() {
    let (run, _) = start("---\na: b\n---\n", false);
    let (run, _) = run.advance(Event::Replied(results(vec![None])));
    let (_, step) = run.advance(Event::Replied(ok_reply()));
    assert_eq!(step, Step::Finish(Ok(SyncOutcome::Created(String::new()))));
}

#[test]
fn existing_page_is_updated_and_its_blocks_replaced() {
    let (run, _) = start("---\ntitle: T\n---\n# H\ntext", false);
    let (run, step) = run.advance(Event::Replied(results(vec![Some("pg"), Some("other")])));
    assert_eq!(sent(&step), (Method::Patch, "https://api.notion.com/v1/pages/pg".to_string()));
    match &step {
        Step::Send(r) => assert!(matches!(r.payload, Payload::Properties(_))),
        _ => unreachable!(),
    }
    let (run, step) = run.advance(Event::Replied(ok_reply()));
    assert_eq!(sent(&step), (Method::Get, "https://api.notion.com/v1/blocks/pg/children".to_string()));
    let (run, step) = run.advance(Event::Replied(results(vec![Some("b1"), None, Some("b2")])));
    assert_eq!(sent(&step), (Method::Delete, "https://api.notion.com/v1/blocks/b1".to_string()));
    let (run, step) = run.advance(Event::Failed("curl: not found".to_string()));
    assert_eq!(sent(&step), (Method::Delete, "https://api.notion.com/v1/blocks/b2".to_string()));
    let (run, step) = run.advance(Event::Replied(ok_reply()));
    assert_eq!(sent(&step), (Method::Patch, "https://api.notion.com/v1/blocks/pg/children".to_string()));
    match &step {
        Step::Send(r) => match &r.payload {
            Payload::Children(c) => assert_eq!(c.len(), 2),
            other => panic!("unexpected payload {:?}", other),
        },
        _ => unreachable!(),
    }
    let (run, step) = run.advance(Event::Replied(ok_reply()));
    assert!(run.is_done());
    assert_eq!(step, Step::Finish(Ok(SyncOutcome::Updated("pg".to_string()))));
    assert_eq!(SyncOutcome::Updated(String::new()).label(), "updated");
}

#[test]
fn update_of_a_note_without_text_appends_nothing() {
    let (run, _) = start("---\na: 1\n---\n", false);
    let (run, _) = run.advance(Event::Replied(results(vec![Some("pg")])));
    let (run, _) = run.advance(Event::Replied(ok_reply()));
    let (run, step) = run.advance(Event::Replied(results(vec![])));
    assert!(run.is_done());
    assert_eq!(step, Step::Finish(Ok(SyncOutcome::Updated("pg".to_string()))));
}

#[test]
fn refused_requests_end_with_notions_message() {
    let (run, _) = start("---\na: 1\n---\n", false);
    let (run, _) = run.advance(Event::Replied(results(vec![Some("pg")])));
    let mut refused = ok_reply();
    refused.has_code = true;
    refused.message = Some("validation_error".to_string());
    let (run, step) = run.advance(Event::Replied(refused));
    assert!(run.is_done());
    let err = SyncError::Notion("validation_error".to_string());
    assert_eq!(step, Step::Finish(Err(SyncError::Notion("validation_error".to_string()))));
    assert_eq!(err.describe(), "Notion error: validation_error");

    let (run, _) = start("---\na: 1\n---\n", false);
    let (run, _) = run.advance(Event::Replied(results(vec![])));
    let mut refused = ok_reply();
    refused.has_code = true;
    let (_, step) = run.advance(Event::Replied(refused));
    assert_eq!(step, Step::Finish(Err(SyncError::Notion("unknown".to_string()))));
}

#[test]
fn failed_requests_end_the_sync() {
    let (run, _) = start("---\na: 1\n---\n", false);
    let (run, step) = run.advance(Event::Failed("EOF while parsing".to_string()));
    assert!(run.is_done());
    assert_eq!(step, Step::Finish(Err(SyncError::Transport("EOF while parsing".to_string()))));
    assert_eq!(SyncError::Transport("x".to_string()).describe(), "x");

    let (run, _) = start("---\na: 1\n---\nbody", false);
    let (run, _) = run.advance(Event::Replied(results(vec![Some("pg")])));
    let (run, _) = run.advance(Event::Replied(ok_reply()));
    let (run, step) = run.advance(Event::Failed("no listing".to_string()));
    assert!(run.is_done());
    assert_eq!(step, Step::Finish(Err(SyncError::Transport("no listing".to_string()))));
}

#[test]
fn scan_path_joins_the_subfolder() {
    assert_eq!(scan_path(&cfg(None)), "/vault");
    assert_eq!(scan_path(&cfg(Some("Prompts"))), "/vault/Prompts");
}

#[test]
fn markdown_files_by_extension() {
    let paths: Vec<String> = ["a.md", "b.txt", "dir/c.md", ".md", "d.MD", "e.md/", "f.", "g.tar.md", "h"]
        .iter()
        .map(|s| s.to_string())
        .collect();
    assert_eq!(markdown_files(&paths), vec!["a.md", "dir/c.md", "e.md/", "g.tar.md"]);
}

#[test]
fn tally_counts_each_kind() {
    let results = vec![
        Some(SyncOutcome::Created("x".to_string())),
        Some(SyncOutcome::Updated("y".to_string())),
        Some(SyncOutcome::Updated("z".to_string())),
        Some(SyncOutcome::SkippedNoFrontmatter),
        Some(SyncOutcome::SkippedDryRun),
        None,
    ];
    assert_eq!(tally(&results), Tally { created: 1, updated: 2, skipped: 2, errors: 1 });
    assert_eq!(tally(&vec![]), Tally { created: 0, updated: 0, skipped: 0, errors: 0 });
}
