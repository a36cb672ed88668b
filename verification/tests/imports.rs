//! Import behaviour: extraction, merge and the store, end to end.

use likelike::link::Via;
use likelike::merge::LinkSource;
use likelike::store::MemStore;
use likelike::store::process_input;

fn source(text: &str) -> LinkSource {
    LinkSource::new(text.to_string(), None, None, None)
}

fn sorted(tags: &Vec<String>) -> Vec<String> {
    let mut t = tags.clone();
    t.sort();
    t
}

#[test]
fn test_parse_tags() {
    let mut store = MemStore::new();
    process_input(
        &mut store,
        &source(
            r#"
- plain text link title: https://a.com/
    - tags: hello, there, gawrsh, this is great, yep, ok
- [markdown style](https://b.com/)
    - tags:
        - hello
        - there
        - gawrsh
        - this is great
        - yep, ok
"#,
        ),
        0,
    );

    let link_a = store.get("https://a.com/").expect("link for https://a.com/");
    assert_eq!(link_a.title(), Some("plain text link title"));
    assert_eq!(
        sorted(link_a.tags()),
        vec!["gawrsh", "hello", "ok", "there", "this is great", "yep"]
    );

    let link_b = store.get("https://b.com/").expect("link for https://b.com/");
    assert_eq!(link_b.title(), Some("markdown style"));
    assert_eq!(
        sorted(link_b.tags()),
        vec!["gawrsh", "hello", "ok", "there", "this is great", "yep"]
    );
}

#[test]
fn test_note_newlines() {}

#[test]
fn test_create_then_update_leaves_enriched_metadata_in_place() {
    // Make sure that enrichment-derived fields are preserved when updating
    // a previously-created link.
    let mut store = MemStore::new();
    process_input(&mut store, &source("- first title: https://kept.example/"), 0);

    let mut enriched = store.get("https://kept.example/").unwrap();
    enriched.src = Some(b"<html></html>".to_vec());
    enriched.extracted_text = Some("rendered".to_string());
    enriched.image = Some("https://kept.example/img.png".to_string());
    enriched.last_fetched = Some(11);
    enriched.last_processed = Some(12);
    store.write(enriched);

    process_input(
        &mut store,
        &source("- first title: https://kept.example/\n    - tags: fresh"),
        99,
    );

    let after = store.get("https://kept.example/").unwrap();
    assert_eq!(after.extract_text(), Some("rendered"));
    assert_eq!(after.src().map(|b| b.as_slice()), Some(b"<html></html>".as_slice()));
    assert_eq!(after.image(), Some("https://kept.example/img.png"));
    assert_eq!(after.last_fetched(), Some(11));
    assert_eq!(after.last_processed(), Some(12));
    assert_eq!(sorted(after.tags()), vec!["fresh"]);
}

#[test]
fn it_works() {
    let mut store = MemStore::new();
    process_input(
        &mut store,
        &source(
            r#"
# read links

- read link *markdown*: https://foo.baz
    - via: @garybusey
    - tags: alpha, beta
        - gamma
        - epsilon, mu
    - notes:
        - # just testing
        - wow, so interesting
        - uhh
          - Ok(result)
          - and yet what now
- read link *other markdown*: https://foo.baz
    - tags: foo, bar, baz
    - via: https://bar.dev/baz
    - notes:
        - testing
        - ```rust
          fn main() -> {}
          ```
        - hello world
"#,
        ),
        0,
    );

    let values = store.values();
    assert_eq!(values.len(), 1);

    // The plain-text scan canonicalises the URL, which adds the root path.
    let link = store.get("https://foo.baz/").expect("link for https://foo.baz/");
    // First extraction wins for the title.
    assert_eq!(link.title(), Some("read link *markdown*"));
    // Via: the last occurrence wins.
    match link.via() {
        Some(Via::Link(u)) => assert_eq!(u, "https://bar.dev/baz"),
        other => panic!("unexpected via: {:?}", other.is_some()),
    }
    // Tags union across both items.
    assert_eq!(
        sorted(link.tags()),
        vec!["alpha", "bar", "baz", "beta", "epsilon", "foo", "gamma", "mu"]
    );
    // Notes from both blocks, in order, newline-joined.
    let notes = link.notes().expect("notes");
    assert!(notes.starts_with("# just testing\nwow, so interesting\nuhh"));
    assert!(notes.contains("testing"));
    assert!(notes.ends_with("hello world"));
}

#[test]
fn reimport_is_idempotent() {
    let doc = r#"
- a title: https://one.example/
    - tags: alpha, beta
- [two](https://two.example/)
"#;
    let mut store = MemStore::new();
    process_input(&mut store, &source(doc), 1);
    let first: Vec<_> = store.values();
    process_input(&mut store, &source(doc), 2);
    let second: Vec<_> = store.values();

    assert_eq!(first.len(), 2);
    assert_eq!(second.len(), 2);
    for (a, b) in first.iter().zip(second.iter()) {
        assert_eq!(a.url(), b.url());
        assert_eq!(sorted(a.tags()), sorted(b.tags()));
    }
}

#[test]
fn fragment_stripped_identity() {
    let mut store = MemStore::new();
    process_input(&mut store, &source("- a: https://a.com/"), 0);
    process_input(&mut store, &source("- b: https://a.com/#frag"), 1);
    assert_eq!(store.values().len(), 1);
    assert!(store.get("https://a.com/").is_some());
}

#[test]
fn notes_accumulate_across_blocks() {
    let mut store = MemStore::new();
    process_input(
        &mut store,
        &source(
            r#"
- one: https://n.example/
    - notes:
        - first note
- one again: https://n.example/
    - notes:
        - second note
"#,
        ),
        0,
    );
    let link = store.get("https://n.example/").unwrap();
    assert_eq!(link.notes(), Some("first note\nsecond note"));
}

#[test]
fn empty_notes_clear_read_marker() {
    let mut store = MemStore::new();
    let dated = LinkSource::new(
        "- one: https://r.example/\n    - notes:\n        - something read".to_string(),
        None,
        None,
        Some(5),
    );
    process_input(&mut store, &dated, 5);
    let after_first = store.get("https://r.example/").unwrap();
    assert!(after_first.read_at().is_some());

    process_input(&mut store, &source("- one: https://r.example/"), 9);
    let after_second = store.get("https://r.example/").unwrap();
    assert_eq!(after_second.read_at(), None);
}

#[test]
fn scan_normalizes_url() {
    let mut store = MemStore::new();
    process_input(&mut store, &source("- shouty host: https://EXAMPLE.com"), 0);
    // The url crate lowercases the host and adds the root path.
    assert!(store.get("https://example.com/").is_some());
}

#[test]
fn unparsable_item_is_skipped() {
    let mut store = MemStore::new();
    process_input(
        &mut store,
        &source("- no link in this item at all\n- good: https://ok.example/"),
        0,
    );
    assert_eq!(store.values().len(), 1);
    assert!(store.get("https://ok.example/").is_some());
}

#[test]
fn filename_dates_feed_provenance() {
    let millis = likelike::dates::filename_date("20220115-link-dump.md").unwrap();
    assert_eq!(millis, 1642204800000);
    assert_eq!(likelike::dates::filename_date("not-a-date.md"), None);
    assert_eq!(likelike::dates::filename_date("20211301-dump.md"), None);

    let src = LinkSource::new(
        "- a: https://dated.example/".to_string(),
        Some("20220115-link-dump.md".to_string()),
        Some(millis),
        None,
    );
    let mut store = MemStore::new();
    process_input(&mut store, &src, 7);
    let link = store.get("https://dated.example/").unwrap();
    assert_eq!(link.found_at(), Some(millis));
    assert_eq!(link.from_filename(), Some("20220115-link-dump.md"));
}

#[test]
fn glob_matches_urls() {
    let mut store = MemStore::new();
    process_input(
        &mut store,
        &source("- a: https://a.com/x\n- b: https://b.org/y"),
        0,
    );
    let coms = store.glob("https://?.com/*");
    assert_eq!(coms.len(), 1);
    assert_eq!(coms[0].url(), "https://a.com/x");
    assert_eq!(store.glob("*").len(), 2);
    assert_eq!(store.glob("https://b.org/y").len(), 1);
    assert_eq!(store.glob("nope").len(), 0);
}

#[test]
fn parse_via_forms() {
    match likelike::parse_via("@friend") {
        Via::Friend(s) => assert_eq!(s, "@friend"),
        _ => panic!("expected friend"),
    }
    match likelike::parse_via("https://elsewhere.example/") {
        Via::Link(s) => assert_eq!(s, "https://elsewhere.example/"),
        _ => panic!("expected link"),
    }
    match likelike::parse_via("a magazine") {
        Via::Freeform(s) => assert_eq!(s, "a magazine"),
        _ => panic!("expected freeform"),
    }
}

#[test]
fn checkbox_prefix_is_stripped() {
    let mut store = MemStore::new();
    process_input(&mut store, &source("- [ ] todo item: https://todo.example/"), 0);
    let link = store.get("https://todo.example/").unwrap();
    assert_eq!(link.title(), Some("todo item"));
}

#[test]
fn url_in_parens_title_after() {
    let mut store = MemStore::new();
    process_input(
        &mut store,
        &source("- https://late.example/ (but hey here is the title)"),
        0,
    );
    let link = store.get("https://late.example/").unwrap();
    assert_eq!(link.title(), Some("(but hey here is the title)"));
}

#[test]
fn plain_text_scan_scenario() {
    let mut store = MemStore::new();
    process_input(&mut store, &source("- plain text title w/link: https://foo.bar/baz"), 0);
    let values = store.values();
    assert_eq!(values.len(), 1);
    assert_eq!(values[0].url(), "https://foo.bar/baz");
    assert_eq!(values[0].title(), Some("plain text title w/link"));
}

#[test]
fn anchor_with_title_scenario() {
    let mut store = MemStore::new();
    process_input(
        &mut store,
        &source("- [single url with title](https://apple.com/ \"title\")"),
        0,
    );
    let values = store.values();
    assert_eq!(values.len(), 1);
    assert_eq!(values[0].url(), "https://apple.com/");
    assert_eq!(values[0].title(), Some("title"));
}

#[test]
fn nested_tags_scenario() {
    let mut store = MemStore::new();
    process_input(
        &mut store,
        &source(
            "- x: https://t.example/\n  - tags: alpha, beta\n    - gamma\n    - epsilon, mu",
        ),
        0,
    );
    let link = store.get("https://t.example/").unwrap();
    assert_eq!(sorted(link.tags()), vec!["alpha", "beta", "epsilon", "gamma", "mu"]);
}

#[test]
fn continuation_line_carries_url() {
    let mut store = MemStore::new();
    process_input(
        &mut store,
        &source("- lazy wrapped item\n  tail: https://lazy.example/thing"),
        0,
    );
    let link = store.get("https://lazy.example/thing").expect("url found on continuation line");
    assert_eq!(link.title(), Some("lazy wrapped item\ntail"));
}

#[test]
fn blank_line_closes_paragraph() {
    let mut store = MemStore::new();
    process_input(
        &mut store,
        &source("- first: https://one.example/\n\n  stray: https://two.example/"),
        0,
    );
    // The blank line ends the first paragraph; the stray line continues
    // nothing and names no item, so only the first link exists.
    assert_eq!(store.values().len(), 1);
    assert!(store.get("https://one.example/").is_some());
}
