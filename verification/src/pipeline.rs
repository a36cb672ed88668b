//! The enrichment pipeline's remaining stages and its composable layers.
//!
//! Each capability layer wraps an inner store layer and holds only the
//! configuration its stage needs. The work of each stage is a plain
//! transformation of one record, guarded by the record's own markers, so a
//! stage that does not apply is a pass-through. The sanctioned order is
//! fetch, then content-type extraction (HTML, PDF or plain text), then
//! external blob caching, then persistence; a rebuild starts at
//! extraction, and a refetch clears both markers first.

use vstd::prelude::*;

use crate::html::html_stage;
use crate::link::EpochMillis;
use crate::link::Link;
use crate::link::LinkView;
use vstd::utf8::decode_utf8;
use vstd::utf8::valid_utf8;

verus! {

/// Relies on str::from_utf8: succeeds exactly on valid UTF-8 and decodes
/// it.
#[verifier::external_body]
pub(crate) fn decode_utf8_bytes(v: &Vec<u8>) -> (r: Option<String>)
    ensures
        match r {
            Some(s) => valid_utf8(v@) && s@ == decode_utf8(v@),
            None => !valid_utf8(v@),
        },
{
    match std::str::from_utf8(v.as_slice()) {
        Ok(s) => Some(s.to_string()),
        Err(_) => None,
    }
}

/// What the lossy UTF-8 reading of a byte buffer is: a function of the
/// bytes alone.
pub uninterp spec fn utf8_lossy_of(b: Seq<u8>) -> Seq<char>;

/// Relies on String::from_utf8_lossy: invalid sequences become replacement
/// characters; valid UTF-8 decodes exactly.
#[verifier::external_body]
fn decode_utf8_lossy(v: &Vec<u8>) -> (r: String)
    ensures
        r@ == utf8_lossy_of(v@),
        valid_utf8(v@) ==> r@ == decode_utf8(v@),
{
    String::from_utf8_lossy(v.as_slice()).to_string()
}

/// When the plain-text stage runs.
pub open spec fn spec_txt_applies(l: LinkView) -> bool {
    &&& l.last_processed is None
    &&& l.src is Some
    &&& l.spec_is_plaintext()
}

/// Runs the plain-text stage: the fetched bytes, decoded as UTF-8, become
/// the extracted text; invalid bytes degrade to no extracted text rather
/// than an error. The marker is set either way.
pub fn txt_stage(link: Link, now: EpochMillis) -> (r: Link)
    ensures
        !spec_txt_applies(link@) ==> r@ == link@,
        spec_txt_applies(link@) ==> r@ == (LinkView {
            last_processed: Some(now),
            extracted_text: if valid_utf8(link@.src->Some_0) {
                Some(decode_utf8(link@.src->Some_0))
            } else {
                None
            },
            ..link@
        }),
        link@.wf() ==> r@.wf(),
{
    if !(link.last_processed.is_none() && link.src.is_some() && link.is_plaintext()) {
        return link;
    }
    let mut l = link;
    l.last_processed = Some(now);
    l.extracted_text = match &l.src {
        Some(b) => decode_utf8_bytes(b),
        None => None,
    };
    l
}

/// When the PDF stage runs.
pub open spec fn spec_pdf_applies(l: LinkView) -> bool {
    &&& l.last_processed is None
    &&& l.src is Some
    &&& l.spec_is_pdf()
}

/// Whether the PDF stage would run on this record: marker clear, bytes
/// present, content class PDF.
pub fn pdf_stage_applies(link: &Link) -> (r: bool)
    ensures
        r == spec_pdf_applies(link@),
{
    link.last_processed.is_none() && link.src.is_some() && link.is_pdf()
}

/// Folds a PDF text extraction back into the record. The extraction
/// itself runs outside, in a fault-isolated context, because the
/// underlying routine may abort abnormally on malformed input; an abort is
/// handed in as `None` and still sets the marker, so the record is persisted
/// with no extracted text rather than crashing the pipeline or retrying.
pub fn apply_pdf_text(link: Link, text: Option<String>, now: EpochMillis) -> (r: Link)
    requires
        spec_pdf_applies(link@),
    ensures
        r@ == (LinkView {
            last_processed: Some(now),
            extracted_text: text.deep_view(),
            ..link@
        }),
        r@.last_processed == Some(now),
        link@.wf() ==> r@.wf(),
{
    let mut l = link;
    l.last_processed = Some(now);
    l.extracted_text = text;
    l
}

/// The content-extraction pass in rebuild order: the HTML stage, then the
/// PDF stage when it applies (their content classes are disjoint, so at
/// most one does real work); plain text is handled by its own layer.
pub fn rebuild_process(link: Link, pdf_text: Option<String>, now: EpochMillis) -> (r: Link)
    ensures
        link@.wf() ==> r@.wf(),
        crate::html::spec_html_applies(link@) ==> r@ == crate::html::spec_html_stage_core(
            link@,
            now,
        ),
        spec_pdf_applies(link@) ==> r@ == (LinkView {
            last_processed: Some(now),
            extracted_text: pdf_text.deep_view(),
            ..link@
        }),
        !crate::html::spec_html_applies(link@) && !spec_pdf_applies(link@) ==> r@ == link@,
{
    proof {
        if spec_pdf_applies(link@) {
            reveal_strlit("application/pdf");
            reveal_strlit("text/html");
            reveal_strlit("text/html;charset=utf-8");
            reveal_strlit("text/html;charset=UTF-8");
            reveal_strlit("text/html; charset=utf-8");
            reveal_strlit("text/html; charset=UTF-8");
            assert("application/pdf"@.len() == 15);
            assert("text/html"@.len() == 9);
            assert("text/html;charset=utf-8"@.len() == 23);
            assert("text/html;charset=UTF-8"@.len() == 23);
            assert("text/html; charset=utf-8"@.len() == 24);
            assert("text/html; charset=UTF-8"@.len() == 24);
            assert(!crate::html::spec_html_applies(link@));
        }
    }
    let l = html_stage(link, now);
    if pdf_stage_applies(&l) {
        apply_pdf_text(l, pdf_text, now)
    } else {
        l
    }
}

/// Clears both idempotency markers: the only sanctioned way to make the
/// fetch and extraction stages run again.
pub fn refetch_reset(link: Link) -> (r: Link)
    ensures
        r@ == (LinkView { last_fetched: None, last_processed: None, ..link@ }),
        link@.wf() ==> r@.wf(),
{
    let mut l = link;
    l.last_fetched = None;
    l.last_processed = None;
    l
}

/// The HTML extraction layer: wraps an inner layer, holds no configuration.
pub struct HtmlProcessorWrap<T> {
    pub inner: T,
}

impl<T> HtmlProcessorWrap<T> {
    pub fn wrap(inner: T) -> (r: Self)
        ensures
            r.inner == inner,
    {
        HtmlProcessorWrap { inner }
    }

    pub fn inner(&self) -> (r: &T)
        ensures
            *r == self.inner,
    {
        &self.inner
    }

    /// The stage's own work on one record, before the inner layer writes it.
    pub fn process(&self, link: Link, now: EpochMillis) -> (r: Link)
        ensures
            !crate::html::spec_html_applies(link@) ==> r@ == link@,
            crate::html::spec_html_applies(link@) ==> r@ == crate::html::spec_html_stage_core(
                link@,
                now,
            ),
            link@.wf() ==> r@.wf(),
    {
        html_stage(link, now)
    }
}

/// The PDF extraction layer: wraps an inner layer, holds no configuration.
pub struct PdfProcessorWrap<T> {
    pub inner: T,
}

impl<T> PdfProcessorWrap<T> {
    pub fn wrap(inner: T) -> (r: Self)
        ensures
            r.inner == inner,
    {
        PdfProcessorWrap { inner }
    }

    pub fn inner(&self) -> (r: &T)
        ensures
            *r == self.inner,
    {
        &self.inner
    }

    /// The stage's own work on one record: `text` is what the
    /// fault-isolated extraction returned, `None` when it was not run or
    /// aborted.
    pub fn process(&self, link: Link, text: Option<String>, now: EpochMillis) -> (r: Link)
        ensures
            !spec_pdf_applies(link@) ==> r@ == link@,
            spec_pdf_applies(link@) ==> r@ == (LinkView {
                last_processed: Some(now),
                extracted_text: text.deep_view(),
                ..link@
            }),
            link@.wf() ==> r@.wf(),
    {
        if pdf_stage_applies(&link) {
            apply_pdf_text(link, text, now)
        } else {
            link
        }
    }
}

/// The plain-text layer: wraps an inner layer, holds no configuration.
pub struct TextProcessorWrap<T> {
    pub inner: T,
}

impl<T> TextProcessorWrap<T> {
    pub fn wrap(inner: T) -> (r: Self)
        ensures
            r.inner == inner,
    {
        TextProcessorWrap { inner }
    }

    pub fn inner(&self) -> (r: &T)
        ensures
            *r == self.inner,
    {
        &self.inner
    }

    /// The stage's own work on one record, before the inner layer writes it.
    pub fn process(&self, link: Link, now: EpochMillis) -> (r: Link)
        ensures
            !spec_txt_applies(link@) ==> r@ == link@,
            spec_txt_applies(link@) ==> r@ == (LinkView {
                last_processed: Some(now),
                extracted_text: if valid_utf8(link@.src->Some_0) {
                    Some(decode_utf8(link@.src->Some_0))
                } else {
                    None
                },
                ..link@
            }),
            link@.wf() ==> r@.wf(),
    {
        txt_stage(link, now)
    }
}

/// A layer that performs no fetching at all: every fetch is declined, so
/// records pass through the pipeline unenriched.
pub struct DummyWrap<T> {
    pub inner: T,
}

impl<T> DummyWrap<T> {
    pub fn new(inner: T) -> (r: Self)
        ensures
            r.inner == inner,
    {
        DummyWrap { inner }
    }

    pub fn inner(&self) -> (r: &T)
        ensures
            *r == self.inner,
    {
        &self.inner
    }

    /// Never fetches.
    pub fn fetch(&self, link: &Link) -> (r: Option<crate::fetch::FetchResponse>)
        ensures
            r is None,
    {
        None
    }
}

/// The external blob-cache layer: large payloads (`src`,
/// `extracted_text`) live in a content-addressed side store keyed by a
/// namespaced URL, never in the relational store.
pub struct ExternalWrap<T> {
    pub cache_directory: String,
    pub inner: T,
}

impl<T> ExternalWrap<T> {
    pub fn new(cache_directory: String, inner: T) -> (r: Self)
        ensures
            r.cache_directory == cache_directory,
            r.inner == inner,
    {
        ExternalWrap { cache_directory, inner }
    }

    pub fn inner(&self) -> (r: &T)
        ensures
            *r == self.inner,
    {
        &self.inner
    }
}

/// The side-store key for a record's raw bytes.
pub fn src_key(url: &str) -> (r: String)
    ensures
        r@ == "src!"@ + url@,
{
    let mut s: String = <String as vstd::string::StringExecFns>::from_str("src!");
    vstd::string::StringExecFns::append(&mut s, url);
    s
}

/// The side-store key for a record's extracted text.
pub fn txt_key(url: &str) -> (r: String)
    ensures
        r@ == "txt!"@ + url@,
{
    let mut s: String = <String as vstd::string::StringExecFns>::from_str("txt!");
    vstd::string::StringExecFns::append(&mut s, url);
    s
}

/// Splits the blobs out of a record before the relational write: the
/// returned record carries neither, and whatever was present comes back
/// separately for the side store.
pub fn stash_blobs(link: Link) -> (r: (Link, Option<Vec<u8>>, Option<String>))
    ensures
        r.0@ == (LinkView { src: None, extracted_text: None, ..link@ }),
        match r.1 {
            Some(b) => link@.src == Some(b@),
            None => link@.src is None,
        },
        r.2.deep_view() == link@.extracted_text,
        link@.wf() ==> r.0@.wf(),
{
    let mut l = link;
    let src = l.src;
    let txt = l.extracted_text;
    l.src = None;
    l.extracted_text = None;
    (l, src, txt)
}

/// Fills a freshly read record from the side store: cached bytes land in
/// `src` and cached text (read lossily) in `extracted_text`, each only
/// when the record does not already carry the field.
pub fn hydrate_blobs(link: Link, src: Option<Vec<u8>>, txt: Option<Vec<u8>>) -> (r: Link)
    ensures
        r@.src == (if link@.src is Some {
            link@.src
        } else {
            match src {
                Some(b) => Some(b@),
                None => None,
            }
        }),
        r@.extracted_text == (if link@.extracted_text is Some {
            link@.extracted_text
        } else {
            match txt {
                Some(b) => Some(utf8_lossy_of(b@)),
                None => None,
            }
        }),
        match txt {
            Some(b) => (link@.extracted_text is None && valid_utf8(b@))
                ==> r@.extracted_text == Some(decode_utf8(b@)),
            None => true,
        },
        r@ == (LinkView { src: r@.src, extracted_text: r@.extracted_text, ..link@ }),
        link@.wf() ==> r@.wf(),
{
    let mut l = link;
    if l.src.is_none() {
        l.src = src;
    }
    if l.extracted_text.is_none() {
        l.extracted_text = match txt {
            Some(b) => Some(decode_utf8_lossy(&b)),
            None => None,
        };
    }
    l
}

} // verus!
