//! Persisted row encodings: compact JSON columns, compressed blobs, and
//! their canonical decoders.

use likelike::codec;
use likelike::link::Link;
use likelike::link::MetaEntry;
use likelike::link::Via;

fn chars(s: &str) -> Vec<char> {
    s.chars().collect()
}

#[test]
fn tags_encode_compact_json() {
    let tags = vec!["alpha".to_string(), "with \"quote\"".to_string(), "tab\there".to_string()];
    let text = codec::encode_tags(&tags);
    assert_eq!(text, "[\"alpha\",\"with \\\"quote\\\"\",\"tab\\there\"]");
    let back = codec::decode_tags(&chars(&text)).expect("canonical decode");
    assert_eq!(back, tags);
}

#[test]
fn control_chars_use_u00_escapes() {
    let tags = vec!["a\u{1}b".to_string()];
    let text = codec::encode_tags(&tags);
    assert_eq!(text, "[\"a\\u0001b\"]");
    assert_eq!(codec::decode_tags(&chars(&text)).unwrap(), tags);
}

#[test]
fn empty_tags_round_trip() {
    let text = codec::encode_tags(&Vec::new());
    assert_eq!(text, "[]");
    assert_eq!(codec::decode_tags(&chars(&text)).unwrap(), Vec::<String>::new());
}

#[test]
fn bad_tags_are_rejected() {
    assert!(codec::decode_tags(&chars("")).is_none());
    assert!(codec::decode_tags(&chars("[\"a\"")).is_none());
    assert!(codec::decode_tags(&chars("[\"a\"]x")).is_none());
    assert!(codec::decode_tags(&chars("[\"a\\q\"]")).is_none());
}

#[test]
fn via_encodes_tagged_object() {
    assert_eq!(codec::encode_via(&None), "null");
    let via = Some(Via::Friend("@pal".to_string()));
    let text = codec::encode_via(&via);
    assert_eq!(text, "{\"Friend\":\"@pal\"}");
    match codec::decode_via(&chars(&text)) {
        Some(Some(Via::Friend(s))) => assert_eq!(s, "@pal"),
        _ => panic!("expected friend"),
    }
    match codec::decode_via(&chars("null")) {
        Some(None) => {},
        _ => panic!("expected absent via"),
    }
    assert!(codec::decode_via(&chars("{\"Other\":\"x\"}")).is_none());
}

#[test]
fn table_round_trips() {
    let entries = vec![
        MetaEntry { name: "og:title".to_string(), values: vec!["A".to_string()] },
        MetaEntry {
            name: "keywords".to_string(),
            values: vec!["x".to_string(), "y".to_string()],
        },
    ];
    let text = codec::encode_table(&entries);
    assert_eq!(text, "{\"og:title\":[\"A\"],\"keywords\":[\"x\",\"y\"]}");
    let back = codec::decode_table(&chars(&text)).expect("canonical decode");
    assert_eq!(back.len(), 2);
    assert_eq!(back[0].name, "og:title");
    assert_eq!(back[1].values, vec!["x", "y"]);
    assert!(codec::decode_table(&chars("{}")).is_some());
    assert!(codec::decode_table(&chars("{\"a\":[\"b\"]")).is_none());
}

#[test]
fn link_row_round_trips() {
    let mut link = Link::empty();
    link.url = "https://row.example/".to_string();
    link.title = Some("A Title".to_string());
    link.via = Some(Via::Link("https://from.example/".to_string()));
    link.tags = vec!["one".to_string(), "two".to_string()];
    link.notes = Some("note".to_string());
    link.found_at = Some(1);
    link.read_at = Some(2);
    link.published_at = Some(3);
    link.from_filename = Some("dump.md".to_string());
    link.image = Some("https://row.example/i.png".to_string());
    link.meta = Some(vec![MetaEntry { name: "k".to_string(), values: vec!["v".to_string()] }]);
    link.src = Some(b"raw body bytes raw body bytes".to_vec());
    link.last_fetched = Some(4);
    link.last_processed = Some(5);
    link.http_headers = Some(vec![MetaEntry {
        name: "content-type".to_string(),
        values: vec!["text/html".to_string()],
    }]);
    link.hidden = true;

    let row = codec::encode_link_row(&link);
    assert_eq!(row.url, "https://row.example/");
    assert_eq!(row.tags, "[\"one\",\"two\"]");
    assert_eq!(row.via, "{\"Link\":\"https://from.example/\"}");
    assert_eq!(row.hidden, 1);
    // The stored blob really is compressed, not the raw bytes.
    let frame = row.src.clone().expect("compressed src");
    assert_ne!(frame, b"raw body bytes raw body bytes".to_vec());

    let back = codec::decode_link_row(row).expect("row decodes");
    let back_again = codec::row_round_trip(&back);
    assert_eq!(back_again.url(), back.url());
    assert_eq!(back_again.meta().map(|m| m.len()), back.meta().map(|m| m.len()));
    assert_eq!(back_again.http_headers().is_some(), back.http_headers().is_some());
    assert_eq!(back.url(), link.url());
    assert_eq!(back.title(), link.title());
    assert_eq!(back.tags(), link.tags());
    assert_eq!(back.notes(), link.notes());
    assert_eq!(back.found_at(), Some(1));
    assert_eq!(back.read_at(), Some(2));
    assert_eq!(back.published_at(), Some(3));
    assert_eq!(back.src().map(|b| b.as_slice()), Some(b"raw body bytes raw body bytes".as_slice()));
    assert_eq!(back.last_fetched(), Some(4));
    assert_eq!(back.last_processed(), Some(5));
    assert!(back.hidden());
    let headers = back.http_headers().expect("headers decode");
    assert_eq!(headers[0].name, "content-type");
    let meta = back.meta().expect("meta decodes");
    assert_eq!(meta[0].values, vec!["v"]);
    match back.via() {
        Some(Via::Link(u)) => assert_eq!(u, "https://from.example/"),
        _ => panic!("expected link via"),
    }
}

#[test]
fn bad_tags_column_fails_row() {
    let mut link = Link::empty();
    link.url = "https://bad.example/".to_string();
    let mut row = codec::encode_link_row(&link);
    row.tags = "not json".to_string();
    let err = codec::decode_link_row(row).expect_err("bad tags column");
    assert_eq!(err.message(), "invalid tags column");
}
