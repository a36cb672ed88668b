//! The merge/reconciliation engine.
//!
//! When a document is imported, every extracted draft is reconciled against
//! the previously stored record with the same URL (if any). The rules are
//! deliberate and exact:
//!
//! - With no stored record, the draft inherits its `found_at` and
//!   `from_filename` from the source document, and non-empty notes mark the
//!   link as read at the same moment.
//! - With a stored record, input-derived fields (`title`, `notes`, `tags`,
//!   `via`) are taken from the draft (title falls back to the stored one),
//!   provenance fields fall back through stored, then draft, then source,
//!   and every enrichment-derived field is carried over unchanged: the
//!   merge never discards work the pipeline has already done.
//! - Re-importing a link whose draft carries no notes clears `read_at`:
//!   notes are the read marker. This is surprising but deliberate.

use vstd::prelude::*;

use crate::link::EpochMillis;
use crate::link::Link;
use crate::link::LinkView;
use crate::text::has_visible_text;
use crate::text::spec_trim_ws;

verus! {

/// One parsed input document: its raw text plus provenance.
///
/// `created` is conventionally derived from a `YYYYMMDD-*` filename and
/// `modified` from filesystem metadata; both are optional.
pub struct LinkSource {
    pub content: String,
    pub filename: Option<String>,
    pub created: Option<EpochMillis>,
    pub modified: Option<EpochMillis>,
}

/// Spec-level shape of a `LinkSource`.
#[verifier::ext_equal]
pub struct LinkSourceView {
    pub content: Seq<char>,
    pub filename: Option<Seq<char>>,
    pub created: Option<EpochMillis>,
    pub modified: Option<EpochMillis>,
}

impl View for LinkSource {
    type V = LinkSourceView;

    open spec fn view(&self) -> LinkSourceView {
        LinkSourceView {
            content: self.content@,
            filename: self.filename.deep_view(),
            created: self.created,
            modified: self.modified,
        }
    }
}

impl LinkSource {
    pub fn new(
        content: String,
        filename: Option<String>,
        created: Option<EpochMillis>,
        modified: Option<EpochMillis>,
    ) -> (r: LinkSource)
        ensures
            r@.content == content@,
            r@.filename == filename.deep_view(),
            r@.created == created,
            r@.modified == modified,
    {
        LinkSource { content, filename, created, modified }
    }

    pub fn filename_string(&self) -> (r: Option<String>)
        ensures
            r.deep_view() == self@.filename,
    {
        crate::link::clone_opt_string(&self.filename)
    }
}

/// The first present timestamp of the two.
pub open spec fn first_present(a: Option<EpochMillis>, b: Option<EpochMillis>) -> Option<
    EpochMillis,
> {
    if a is Some {
        a
    } else {
        b
    }
}

/// Whether the draft carries notes with any visible text.
pub open spec fn draft_has_notes(draft: LinkView) -> bool {
    match draft.notes {
        Some(n) => spec_trim_ws(n).len() > 0,
        None => false,
    }
}

/// What the merge of `draft` against `stored` produces, given the source
/// document's provenance and the current time.
pub open spec fn spec_merge(
    draft: LinkView,
    stored: Option<LinkView>,
    source: LinkSourceView,
    now: EpochMillis,
) -> LinkView {
    match stored {
        None => LinkView {
            found_at: first_present(source.modified, source.created),
            from_filename: source.filename,
            read_at: if draft_has_notes(draft) {
                first_present(source.modified, source.created)
            } else {
                draft.read_at
            },
            ..draft
        },
        Some(k) => LinkView {
            read_at: if draft_has_notes(draft) {
                first_present(k.read_at, first_present(source.modified, Some(now)))
            } else {
                None
            },
            found_at: first_present(k.found_at, first_present(draft.found_at, source.created)),
            from_filename: first_present_seq(
                k.from_filename,
                first_present_seq(draft.from_filename, source.filename),
            ),
            title: first_present_seq(draft.title, k.title),
            notes: draft.notes,
            tags: draft.tags,
            via: draft.via,
            ..k
        },
    }
}

/// The first present string of the two.
pub open spec fn first_present_seq(a: Option<Seq<char>>, b: Option<Seq<char>>) -> Option<
    Seq<char>,
> {
    if a is Some {
        a
    } else {
        b
    }
}

/// Reconciles an extracted draft with the stored record sharing its URL.
///
/// With no stored record the draft inherits provenance from the source
/// document. With one, the draft's input fields replace the stored ones,
/// while everything the pipeline has produced (`src`, `extracted_text`,
/// `meta`, `http_headers`, `image`, `published_at`, and both markers) is kept
/// from the stored record, so a re-import never regresses enrichment.
pub fn enrich_link(draft: Link, stored: Option<Link>, source: &LinkSource, now: EpochMillis) -> (r:
    Link)
    ensures
        r@ == spec_merge(draft@, stored.deep_view(), source@, now),
        stored is None ==> r@.url == draft@.url,
        match stored.deep_view() {
            Some(k) => {
                &&& r@.url == k.url
                &&& r@.src == k.src
                &&& r@.extracted_text == k.extracted_text
                &&& r@.meta == k.meta
                &&& r@.http_headers == k.http_headers
                &&& r@.last_fetched == k.last_fetched
                &&& r@.last_processed == k.last_processed
                &&& r@.image == k.image
                &&& r@.published_at == k.published_at
                &&& r@.tags == draft@.tags
                &&& r@.notes == draft@.notes
                &&& r@.via == draft@.via
            },
            None => true,
        },
        draft@.wf() && (match stored.deep_view() {
            Some(k) => k.wf(),
            None => true,
        }) ==> r@.wf(),
{
    let notes_present = match &draft.notes {
        Some(n) => has_visible_text(n.as_str()),
        None => false,
    };
    match stored {
        None => {
            let mut link = draft;
            link.found_at = match source.modified {
                Some(m) => Some(m),
                None => source.created,
            };
            link.from_filename = source.filename_string();
            if notes_present {
                link.read_at = match source.modified {
                    Some(m) => Some(m),
                    None => source.created,
                };
            }
            link
        },
        Some(known) => {
            let mut link = known;
            link.read_at = if notes_present {
                match link.read_at {
                    Some(t) => Some(t),
                    None => match source.modified {
                        Some(m) => Some(m),
                        None => Some(now),
                    },
                }
            } else {
                None
            };
            link.found_at = match link.found_at {
                Some(t) => Some(t),
                None => match draft.found_at {
                    Some(t) => Some(t),
                    None => source.created,
                },
            };
            link.from_filename = match link.from_filename {
                Some(t) => Some(t),
                None => match draft.from_filename {
                    Some(t) => Some(t),
                    None => source.filename_string(),
                },
            };
            link.title = match draft.title {
                Some(t) => Some(t),
                None => link.title,
            };
            link.notes = draft.notes;
            link.tags = draft.tags;
            link.via = draft.via;
            link
        },
    }
}

} // verus!
