//! likelike: a link-dump ingestion library.
//!
//! Markdown documents full of bulleted links are parsed into `Link` drafts,
//! reconciled against previously stored records, and enriched through a
//! staged pipeline (fetch, content-type specific extraction, blob caching,
//! persistence encoding). Every stage is guarded so expensive work runs at
//! most once per record.

pub mod codec;
pub mod dates;
pub mod extract;
pub mod fetch;
pub mod html;
pub mod link;
pub mod merge;
pub mod pipeline;
pub mod store;
pub mod text;

pub use extract::extract_links;
pub use extract::parse_via;
pub use fetch::FetchResponse;
pub use fetch::RawHeader;
pub use fetch::apply_fetch_response;
pub use fetch::fetch_plan;
pub use link::EpochMillis;
pub use link::Link;
pub use link::LinkView;
pub use link::MetaEntry;
pub use link::MetaEntryView;
pub use link::Via;
pub use link::ViaView;
pub use merge::LinkSource;
pub use merge::enrich_link;
pub use pipeline::DummyWrap;
pub use pipeline::ExternalWrap;
pub use pipeline::HtmlProcessorWrap;
pub use pipeline::PdfProcessorWrap;
pub use pipeline::TextProcessorWrap;
pub use store::MemStore;
pub use store::process_input;
