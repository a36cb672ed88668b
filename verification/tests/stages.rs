//! The enrichment stages: fetch gating, header filtering, content-class
//! extraction and blob caching.

use likelike::fetch::FetchResponse;
use likelike::fetch::RawHeader;
use likelike::fetch::apply_fetch_response;
use likelike::fetch::fetch_plan;
use likelike::html::html_stage;
use likelike::link::Link;
use likelike::pipeline;
use likelike::store::MemStore;

fn header(name: &str, value: &str) -> RawHeader {
    RawHeader { name: name.to_string(), value: value.to_string() }
}

fn fresh(url: &str) -> Link {
    let mut l = Link::empty();
    l.url = url.to_string();
    l
}

fn response(content_type: &str, body: &[u8]) -> FetchResponse {
    FetchResponse {
        status: 200,
        headers: vec![
            header("Content-Type", content_type),
            header("Set-Cookie", "tracking=1"),
            header("X-Custom", "a"),
            header("X-Custom", "b"),
        ],
        body: body.to_vec(),
    }
}

#[test]
fn fetch_runs_once() {
    let link = fresh("https://one.example/");
    assert!(fetch_plan(&link).is_some());

    let fetched = apply_fetch_response(link, response("text/html", b"<html></html>"), 42);
    assert_eq!(fetched.last_fetched(), Some(42));
    // The marker is set: the stage plans no second network call.
    assert!(fetch_plan(&fetched).is_none());
}

#[test]
fn non_2xx_leaves_marker_unset() {
    let link = fresh("https://five.example/");
    let resp = FetchResponse { status: 503, headers: vec![], body: vec![] };
    let after = apply_fetch_response(link, resp, 42);
    assert_eq!(after.last_fetched(), None);
    assert!(after.http_headers().is_none());
    // A later import may retry.
    assert!(fetch_plan(&after).is_some());
}

#[test]
fn headers_are_filtered_and_grouped() {
    let link = fresh("https://h.example/");
    let fetched = apply_fetch_response(link, response("text/html", b""), 1);
    let headers = fetched.http_headers().expect("headers stored");
    let names: Vec<_> = headers.iter().map(|e| e.name.as_str()).collect();
    // Lowercased, denylisted names dropped, repeats grouped in order.
    assert_eq!(names, vec!["content-type", "x-custom"]);
    assert_eq!(headers[1].values, vec!["a", "b"]);
    assert!(fetched.is_html());
    assert!(!fetched.is_pdf());
}

#[test]
fn body_kept_only_for_recognized_classes() {
    let html = apply_fetch_response(fresh("https://a.example/"), response("text/html", b"x"), 1);
    assert!(html.src().is_some());
    let other = apply_fetch_response(
        fresh("https://b.example/"),
        response("image/png", b"x"),
        1,
    );
    assert!(other.src().is_none());
}

#[test]
fn weighted_title_resolution() {
    let body = br#"<html><head><title>Foo</title><meta name="title" content="Bar"></head><body><p>the body text</p></body></html>"#;
    let link = apply_fetch_response(fresh("https://w.example/"), response("text/html", body), 1);
    let processed = html_stage(link, 2);
    // meta[name=title] carries weight 5 and beats the <title> text at 2.
    assert_eq!(processed.title(), Some("Bar"));
    assert_eq!(processed.last_processed(), Some(2));
    let text = processed.extract_text().expect("rendered text");
    assert!(text.contains("the body text"));
    assert!(!text.contains("<p>"));
}

#[test]
fn html_stage_fills_absent_fields_only() {
    let body = br#"<html><head><title>Doc</title><meta property="og:image" content="https://img.example/i.png"><meta name="date" content="2022-01-15"></head></html>"#;
    let mut link = apply_fetch_response(fresh("https://k.example/"), response("text/html", body), 1);
    link.title = Some("existing".to_string());
    let processed = html_stage(link, 2);
    // An existing title is never overwritten; absent fields are filled.
    assert_eq!(processed.title(), Some("existing"));
    assert_eq!(processed.image(), Some("https://img.example/i.png"));
    assert_eq!(processed.published_at(), Some(1642204800000));
    let meta = processed.meta().expect("meta recorded");
    assert!(meta.iter().any(|e| e.name == "og:image"));
}

#[test]
fn pdf_abort_still_sets_marker() {
    let link = apply_fetch_response(
        fresh("https://p.example/doc.pdf"),
        response("application/pdf", b"%PDF-broken"),
        1,
    );
    assert!(pipeline::pdf_stage_applies(&link));
    // The fault-isolated extractor aborted: it hands back None.
    let processed = pipeline::apply_pdf_text(link, None, 9);
    assert_eq!(processed.last_processed(), Some(9));
    assert_eq!(processed.extract_text(), None);

    // The record still persists, marker set and text absent.
    let mut store = MemStore::new();
    store.write(processed);
    let stored = store.get("https://p.example/doc.pdf").unwrap();
    assert_eq!(stored.last_processed(), Some(9));
    assert_eq!(stored.extract_text(), None);
}

#[test]
fn txt_stage_decodes_utf8() {
    let link = apply_fetch_response(
        fresh("https://t.example/a.txt"),
        response("text/plain", "h\u{e9}llo".as_bytes()),
        1,
    );
    let processed = pipeline::txt_stage(link, 3);
    assert_eq!(processed.extract_text(), Some("h\u{e9}llo"));
    assert_eq!(processed.last_processed(), Some(3));

    let bad = apply_fetch_response(
        fresh("https://t.example/b.txt"),
        response("text/plain", &[0xff, 0xfe, 0x00]),
        1,
    );
    let processed = pipeline::txt_stage(bad, 3);
    // Invalid bytes degrade to no extracted text, with the marker still set.
    assert_eq!(processed.extract_text(), None);
    assert_eq!(processed.last_processed(), Some(3));
}

#[test]
fn marker_blocks_reprocessing() {
    let mut link = apply_fetch_response(
        fresh("https://g.example/"),
        response("text/html", b"<html><head><title>T</title></head></html>"),
        1,
    );
    link.last_processed = Some(7);
    let processed = html_stage(link, 8);
    // The marker is already set: the stage is a pass-through.
    assert_eq!(processed.last_processed(), Some(7));
    assert_eq!(processed.title(), None);
}

#[test]
fn refetch_clears_markers() {
    let mut link = fresh("https://rf.example/");
    link.last_fetched = Some(1);
    link.last_processed = Some(2);
    let reset = pipeline::refetch_reset(link);
    assert_eq!(reset.last_fetched(), None);
    assert_eq!(reset.last_processed(), None);
    assert!(fetch_plan(&reset).is_some());
}

#[test]
fn blob_cache_stash_and_hydrate() {
    let mut link = fresh("https://c.example/");
    link.src = Some(b"bytes".to_vec());
    link.extracted_text = Some("text".to_string());

    let (bare, src, txt) = pipeline::stash_blobs(link);
    assert!(bare.src().is_none());
    assert!(bare.extract_text().is_none());
    assert_eq!(src.as_deref(), Some(b"bytes".as_slice()));
    assert_eq!(txt.as_deref(), Some("text"));

    assert_eq!(pipeline::src_key("https://c.example/"), "src!https://c.example/");
    assert_eq!(pipeline::txt_key("https://c.example/"), "txt!https://c.example/");

    let hydrated = pipeline::hydrate_blobs(bare, src, Some(b"text".to_vec()));
    assert_eq!(hydrated.src().map(|b| b.as_slice()), Some(b"bytes".as_slice()));
    assert_eq!(hydrated.extract_text(), Some("text"));

    // Lossy text hydration replaces invalid sequences.
    let lossy = pipeline::hydrate_blobs(fresh("https://c.example/"), None, Some(vec![0xff]));
    assert_eq!(lossy.extract_text(), Some("\u{fffd}"));
}

#[test]
fn dummy_wrap_never_fetches() {
    let store = MemStore::new();
    let wrap = likelike::DummyWrap::new(store);
    assert!(wrap.fetch(&fresh("https://d.example/")).is_none());
}

#[test]
fn processor_wraps_compose() {
    let store = MemStore::new();
    let layered = likelike::HtmlProcessorWrap::wrap(likelike::TextProcessorWrap::wrap(
        likelike::PdfProcessorWrap::wrap(likelike::ExternalWrap::new("cache".to_string(), store)),
    ));
    let link = apply_fetch_response(
        fresh("https://l.example/"),
        response("text/html", b"<html><head><title>Layer</title></head></html>"),
        1,
    );
    let processed = layered.process(link, 2);
    assert_eq!(processed.title(), Some("Layer"));
    assert_eq!(layered.inner().inner().inner().cache_directory, "cache");
}

#[test]
fn slug_prefers_meta_titles() {
    let mut link = fresh("https://s.example/");
    link.title = Some("Fallback Title".to_string());
    assert_eq!(link.slug(), "fallback-title");

    link.meta = Some(vec![likelike::MetaEntry {
        name: "og:title".to_string(),
        values: vec!["Chosen Name!".to_string()],
    }]);
    assert_eq!(link.slug(), "chosen-name");

    let bare = fresh("https://s.example/page");
    assert_eq!(bare.slug(), "https-s-example-page");
}
