//! The link record: the unit of storage.
//!
//! A `Link` is uniquely identified by its `url`. Everything else is
//! field-level metadata, either captured at extraction time (title, tags,
//! via, notes), derived from the importing document (timestamps,
//! provenance), or filled in later by the enrichment pipeline (fetched
//! bytes, extracted text, response headers, markers).
//!
//! Timestamps are plain integers: milliseconds since the Unix epoch.
//! `last_fetched` and `last_processed` are idempotency markers: their mere
//! presence means "do not repeat this stage".

use vstd::prelude::*;

use crate::text::push_char;
use crate::text::str_eq;

verus! {

/// Milliseconds since the Unix epoch.
pub type EpochMillis = i64;

/// Provenance of a link: who or what pointed us at it.
#[derive(Debug)]
pub enum Via {
    /// A person, usually written as an `@handle`.
    Friend(String),
    /// Another URL.
    Link(String),
    /// Any other free-form text.
    Freeform(String),
}

/// Spec-level shape of a `Via`.
#[verifier::ext_equal]
pub enum ViaView {
    Friend(Seq<char>),
    Link(Seq<char>),
    Freeform(Seq<char>),
}

impl View for Via {
    type V = ViaView;

    open spec fn view(&self) -> ViaView {
        match self {
            Via::Friend(s) => ViaView::Friend(s@),
            Via::Link(s) => ViaView::Link(s@),
            Via::Freeform(s) => ViaView::Freeform(s@),
        }
    }
}

impl DeepView for Via {
    type V = ViaView;

    open spec fn deep_view(&self) -> ViaView {
        self.view()
    }
}

impl Clone for Via {
    fn clone(&self) -> (r: Self)
        ensures
            r@ == self@,
    {
        match self {
            Via::Friend(s) => Via::Friend(s.clone()),
            Via::Link(s) => Via::Link(s.clone()),
            Via::Freeform(s) => Via::Freeform(s.clone()),
        }
    }
}

/// One name with its (insertion-ordered) list of raw values. Used for both
/// HTML metadata tags and HTTP response headers.
#[derive(Debug)]
pub struct MetaEntry {
    pub name: String,
    pub values: Vec<String>,
}

/// Spec-level shape of a `MetaEntry`.
#[verifier::ext_equal]
pub struct MetaEntryView {
    pub name: Seq<char>,
    pub values: Seq<Seq<char>>,
}

impl View for MetaEntry {
    type V = MetaEntryView;

    open spec fn view(&self) -> MetaEntryView {
        MetaEntryView { name: self.name@, values: self.values.deep_view() }
    }
}

impl DeepView for MetaEntry {
    type V = MetaEntryView;

    open spec fn deep_view(&self) -> MetaEntryView {
        self.view()
    }
}

impl Clone for MetaEntry {
    fn clone(&self) -> (r: Self)
        ensures
            r@ == self@,
    {
        let r = MetaEntry { name: self.name.clone(), values: clone_strings(&self.values) };
        proof {
            assert(r@.values =~= self@.values);
        }
        r
    }
}

/// A copy of a vector of strings, preserving every character.
pub fn clone_strings(v: &Vec<String>) -> (r: Vec<String>)
    ensures
        r.deep_view() == v.deep_view(),
{
    let mut r: Vec<String> = Vec::new();
    let mut i: usize = 0;
    while i < v.len()
        invariant
            i <= v@.len(),
            r@.len() == i,
            forall|j: int| 0 <= j < i ==> #[trigger] r@[j]@ == v@[j]@,
        decreases v@.len() - i,
    {
        r.push(v[i].clone());
        i += 1;
    }
    proof {
        assert(r.deep_view() =~= v.deep_view());
    }
    r
}

/// A copy of a byte vector.
pub fn clone_bytes(v: &Vec<u8>) -> (r: Vec<u8>)
    ensures
        r@ == v@,
{
    let mut r: Vec<u8> = Vec::new();
    let mut i: usize = 0;
    while i < v.len()
        invariant
            i <= v@.len(),
            r@ == v@.take(i as int),
        decreases v@.len() - i,
    {
        r.push(v[i]);
        i += 1;
        proof {
            assert(r@ =~= v@.take(i as int));
        }
    }
    proof {
        assert(v@.take(v@.len() as int) =~= v@);
    }
    r
}

/// A copy of an optional string.
pub fn clone_opt_string(v: &Option<String>) -> (r: Option<String>)
    ensures
        r.deep_view() == v.deep_view(),
{
    match v {
        Some(s) => Some(s.clone()),
        None => None,
    }
}

/// A copy of a metadata table.
pub fn clone_entries(v: &Vec<MetaEntry>) -> (r: Vec<MetaEntry>)
    ensures
        r.deep_view() == v.deep_view(),
{
    let mut r: Vec<MetaEntry> = Vec::new();
    let mut i: usize = 0;
    while i < v.len()
        invariant
            i <= v@.len(),
            r@.len() == i,
            forall|j: int| 0 <= j < i ==> #[trigger] r@[j]@ == v@[j]@,
        decreases v@.len() - i,
    {
        r.push(v[i].clone());
        i += 1;
    }
    proof {
        assert(r.deep_view() =~= v.deep_view());
    }
    r
}

/// The record stored for one URL.
#[derive(Debug)]
pub struct Link {
    pub url: String,
    pub title: Option<String>,
    pub via: Option<Via>,
    pub tags: Vec<String>,
    pub notes: Option<String>,
    pub found_at: Option<EpochMillis>,
    pub read_at: Option<EpochMillis>,
    pub published_at: Option<EpochMillis>,
    pub from_filename: Option<String>,
    pub image: Option<String>,
    pub meta: Option<Vec<MetaEntry>>,
    pub src: Option<Vec<u8>>,
    pub extracted_text: Option<String>,
    pub last_fetched: Option<EpochMillis>,
    pub last_processed: Option<EpochMillis>,
    pub http_headers: Option<Vec<MetaEntry>>,
    pub hidden: bool,
}

/// Spec-level shape of a `Link`.
#[verifier::ext_equal]
pub struct LinkView {
    pub url: Seq<char>,
    pub title: Option<Seq<char>>,
    pub via: Option<ViaView>,
    pub tags: Seq<Seq<char>>,
    pub notes: Option<Seq<char>>,
    pub found_at: Option<EpochMillis>,
    pub read_at: Option<EpochMillis>,
    pub published_at: Option<EpochMillis>,
    pub from_filename: Option<Seq<char>>,
    pub image: Option<Seq<char>>,
    pub meta: Option<Seq<MetaEntryView>>,
    pub src: Option<Seq<u8>>,
    pub extracted_text: Option<Seq<char>>,
    pub last_fetched: Option<EpochMillis>,
    pub last_processed: Option<EpochMillis>,
    pub http_headers: Option<Seq<MetaEntryView>>,
    pub hidden: bool,
}

impl View for Link {
    type V = LinkView;

    open spec fn view(&self) -> LinkView {
        LinkView {
            url: self.url@,
            title: self.title.deep_view(),
            via: self.via.deep_view(),
            tags: self.tags.deep_view(),
            notes: self.notes.deep_view(),
            found_at: self.found_at,
            read_at: self.read_at,
            published_at: self.published_at,
            from_filename: self.from_filename.deep_view(),
            image: self.image.deep_view(),
            meta: self.meta.deep_view(),
            src: match self.src {
                Some(b) => Some(b@),
                None => None,
            },
            extracted_text: self.extracted_text.deep_view(),
            last_fetched: self.last_fetched,
            last_processed: self.last_processed,
            http_headers: self.http_headers.deep_view(),
            hidden: self.hidden,
        }
    }
}

impl DeepView for Link {
    type V = LinkView;

    open spec fn deep_view(&self) -> LinkView {
        self.view()
    }
}

/// A tag set holds no empty strings and no duplicates.
pub open spec fn tags_wf(tags: Seq<Seq<char>>) -> bool {
    &&& forall|i: int| 0 <= i < tags.len() ==> #[trigger] tags[i].len() > 0
    &&& forall|i: int, j: int| 0 <= i < j < tags.len() ==> tags[i] != tags[j]
}

/// A metadata table names each key once.
pub open spec fn entries_wf(entries: Seq<MetaEntryView>) -> bool {
    forall|i: int, j: int| 0 <= i < j < entries.len() ==> entries[i].name != entries[j].name
}

/// The first entry named `name`, if any.
pub open spec fn entry_lookup(entries: Seq<MetaEntryView>, name: Seq<char>) -> Option<
    Seq<Seq<char>>,
>
    decreases entries.len(),
{
    if entries.len() == 0 {
        None
    } else if entries[0].name == name {
        Some(entries[0].values)
    } else {
        entry_lookup(entries.drop_first(), name)
    }
}

impl LinkView {
    /// Internal invariant of a well-formed link record.
    pub open spec fn wf(self) -> bool {
        &&& tags_wf(self.tags)
        &&& match self.meta {
            Some(m) => entries_wf(m),
            None => true,
        }
        &&& match self.http_headers {
            Some(h) => entries_wf(h),
            None => true,
        }
    }

    /// The last recorded `content-type` header value, if any.
    pub open spec fn content_type(self) -> Option<Seq<char>> {
        match self.http_headers {
            Some(h) => match entry_lookup(h, "content-type"@) {
                Some(vs) => if vs.len() > 0 {
                    Some(vs.last())
                } else {
                    None
                },
                None => None,
            },
            None => None,
        }
    }

    /// Is the fetched document HTML, going by its `content-type`?
    pub open spec fn spec_is_html(self) -> bool {
        match self.content_type() {
            Some(ct) => ct == "text/html"@ || ct == "text/html;charset=utf-8"@ || ct
                == "text/html;charset=UTF-8"@ || ct == "text/html; charset=utf-8"@ || ct
                == "text/html; charset=UTF-8"@,
            None => false,
        }
    }

    /// Is the fetched document a PDF, going by its `content-type`?
    pub open spec fn spec_is_pdf(self) -> bool {
        match self.content_type() {
            Some(ct) => ct == "application/pdf"@,
            None => false,
        }
    }

    /// Is the fetched document plain text, going by its `content-type`?
    pub open spec fn spec_is_plaintext(self) -> bool {
        match self.content_type() {
            Some(ct) => ct == "text/plain"@ || ct == "text/plain;charset=utf-8"@ || ct
                == "text/plain;charset=UTF-8"@ || ct == "text/plain; charset=utf-8"@ || ct
                == "text/plain; charset=UTF-8"@,
            None => false,
        }
    }
}

/// Looks a name up in a metadata table; `None` when absent.
pub fn lookup_values<'a>(entries: &'a Vec<MetaEntry>, name: &str) -> (r: Option<&'a Vec<String>>)
    ensures
        match r {
            Some(vs) => entry_lookup(entries.deep_view(), name@) == Some(vs.deep_view()),
            None => entry_lookup(entries.deep_view(), name@) is None,
        },
{
    let ghost all = entries.deep_view();
    proof {
        assert(all.skip(0) =~= all);
    }
    let mut i: usize = 0;
    while i < entries.len()
        invariant
            i <= entries@.len(),
            all == entries.deep_view(),
            entry_lookup(all, name@) == entry_lookup(all.skip(i as int), name@),
            all.len() == entries@.len(),
            forall|j: int| 0 <= j < all.len() ==> all[j] == #[trigger] entries@[j].deep_view(),
        decreases entries@.len() - i,
    {
        if str_eq(entries[i].name.as_str(), name) {
            proof {
                assert(all.skip(i as int)[0] == all[i as int]);
            }
            return Some(&entries[i].values);
        }
        proof {
            assert(all.skip(i as int).drop_first() =~= all.skip(i + 1));
        }
        i += 1;
    }
    proof {
        assert(all.skip(all.len() as int) =~= Seq::<MetaEntryView>::empty());
    }
    None
}

impl Link {
    /// A fresh draft holding only a URL and a title.
    pub fn new(url: String, title: String) -> (r: Link)
        ensures
            r@ == (LinkView { url: url@, title: Some(title@), ..Link::empty_view() }),
            r@.url == url@,
            r@.title == Some(title@),
            r@.wf(),
    {
        let mut l = Link::empty();
        l.url = url;
        l.title = Some(title);
        l
    }

    /// The all-absent record: no metadata, nothing fetched, visible.
    pub open spec fn empty_view() -> LinkView {
        LinkView {
            url: Seq::empty(),
            title: None,
            via: None,
            tags: Seq::empty(),
            notes: None,
            found_at: None,
            read_at: None,
            published_at: None,
            from_filename: None,
            image: None,
            meta: None,
            src: None,
            extracted_text: None,
            last_fetched: None,
            last_processed: None,
            http_headers: None,
            hidden: false,
        }
    }

    /// An empty record, ready to be filled in.
    pub fn empty() -> (r: Link)
        ensures
            r@ == Link::empty_view(),
            r@.wf(),
    {
        let r = Link {
            url: String::new(),
            title: None,
            via: None,
            tags: Vec::new(),
            notes: None,
            found_at: None,
            read_at: None,
            published_at: None,
            from_filename: None,
            image: None,
            meta: None,
            src: None,
            extracted_text: None,
            last_fetched: None,
            last_processed: None,
            http_headers: None,
            hidden: false,
        };
        proof {
            assert(r@.tags =~= Seq::<Seq<char>>::empty());
        }
        r
    }

    pub fn url(&self) -> (r: &str)
        ensures
            r@ == self@.url,
    {
        self.url.as_str()
    }

    pub fn title(&self) -> (r: Option<&str>)
        ensures
            r.deep_view() == self@.title,
    {
        match &self.title {
            Some(t) => Some(t.as_str()),
            None => None,
        }
    }

    pub fn via(&self) -> (r: Option<&Via>)
        ensures
            r.deep_view() == self@.via,
    {
        match &self.via {
            Some(v) => Some(v),
            None => None,
        }
    }

    pub fn tags(&self) -> (r: &Vec<String>)
        ensures
            r.deep_view() == self@.tags,
    {
        &self.tags
    }

    pub fn notes(&self) -> (r: Option<&str>)
        ensures
            r.deep_view() == self@.notes,
    {
        match &self.notes {
            Some(t) => Some(t.as_str()),
            None => None,
        }
    }

    pub fn found_at(&self) -> (r: Option<EpochMillis>)
        ensures
            r == self@.found_at,
    {
        self.found_at
    }

    pub fn read_at(&self) -> (r: Option<EpochMillis>)
        ensures
            r == self@.read_at,
    {
        self.read_at
    }

    pub fn published_at(&self) -> (r: Option<EpochMillis>)
        ensures
            r == self@.published_at,
    {
        self.published_at
    }

    pub fn from_filename(&self) -> (r: Option<&str>)
        ensures
            r.deep_view() == self@.from_filename,
    {
        match &self.from_filename {
            Some(t) => Some(t.as_str()),
            None => None,
        }
    }

    pub fn image(&self) -> (r: Option<&str>)
        ensures
            r.deep_view() == self@.image,
    {
        match &self.image {
            Some(t) => Some(t.as_str()),
            None => None,
        }
    }

    pub fn src(&self) -> (r: Option<&Vec<u8>>)
        ensures
            match r {
                Some(b) => self@.src == Some(b@),
                None => self@.src is None,
            },
    {
        match &self.src {
            Some(b) => Some(b),
            None => None,
        }
    }

    pub fn extract_text(&self) -> (r: Option<&str>)
        ensures
            r.deep_view() == self@.extracted_text,
    {
        match &self.extracted_text {
            Some(t) => Some(t.as_str()),
            None => None,
        }
    }

    pub fn last_fetched(&self) -> (r: Option<EpochMillis>)
        ensures
            r == self@.last_fetched,
    {
        self.last_fetched
    }

    pub fn last_processed(&self) -> (r: Option<EpochMillis>)
        ensures
            r == self@.last_processed,
    {
        self.last_processed
    }

    pub fn http_headers(&self) -> (r: Option<&Vec<MetaEntry>>)
        ensures
            match r {
                Some(h) => self@.http_headers == Some(h.deep_view()),
                None => self@.http_headers is None,
            },
    {
        match &self.http_headers {
            Some(h) => Some(h),
            None => None,
        }
    }

    pub fn meta(&self) -> (r: Option<&Vec<MetaEntry>>)
        ensures
            match r {
                Some(m) => self@.meta == Some(m.deep_view()),
                None => self@.meta is None,
            },
    {
        match &self.meta {
            Some(m) => Some(m),
            None => None,
        }
    }

    pub fn hidden(&self) -> (r: bool)
        ensures
            r == self@.hidden,
    {
        self.hidden
    }

    /// Is the fetched document a PDF, going by its last `content-type` header?
    pub fn is_pdf(&self) -> (r: bool)
        ensures
            r == self@.spec_is_pdf(),
    {
        match self.content_type() {
            Some(ct) => str_eq(ct, "application/pdf"),
            None => false,
        }
    }

    /// Is the fetched document HTML, going by its last `content-type` header?
    pub fn is_html(&self) -> (r: bool)
        ensures
            r == self@.spec_is_html(),
    {
        match self.content_type() {
            Some(ct) => str_eq(ct, "text/html") || str_eq(ct, "text/html;charset=utf-8") || str_eq(
                ct,
                "text/html;charset=UTF-8",
            ) || str_eq(ct, "text/html; charset=utf-8") || str_eq(ct, "text/html; charset=UTF-8"),
            None => false,
        }
    }

    /// Is the fetched document plain text, going by its last `content-type` header?
    pub fn is_plaintext(&self) -> (r: bool)
        ensures
            r == self@.spec_is_plaintext(),
    {
        match self.content_type() {
            Some(ct) => str_eq(ct, "text/plain") || str_eq(ct, "text/plain;charset=utf-8")
                || str_eq(ct, "text/plain;charset=UTF-8") || str_eq(
                ct,
                "text/plain; charset=utf-8",
            ) || str_eq(ct, "text/plain; charset=UTF-8"),
            None => false,
        }
    }

    /// The last recorded `content-type` value, if any.
    pub fn content_type(&self) -> (r: Option<&str>)
        ensures
            r.deep_view() == self@.content_type(),
    {
        match &self.http_headers {
            Some(h) => match lookup_values(h, "content-type") {
                Some(vs) => if vs.len() > 0 {
                    proof {
                        assert(vs.deep_view().len() == vs@.len());
                        assert(vs.deep_view().last() == vs@[vs@.len() - 1]@);
                    }
                    Some(vs[vs.len() - 1].as_str())
                } else {
                    None
                },
                None => None,
            },
            None => None,
        }
    }

    pub fn set_via(&mut self, via: Option<Via>)
        ensures
            final(self)@ == (LinkView { via: via.deep_view(), ..old(self)@ }),
    {
        self.via = via;
    }

    pub fn set_tags(&mut self, tags: Vec<String>)
        ensures
            final(self)@ == (LinkView { tags: tags.deep_view(), ..old(self)@ }),
    {
        self.tags = tags;
    }

    pub fn set_notes(&mut self, notes: Option<String>)
        ensures
            final(self)@ == (LinkView { notes: notes.deep_view(), ..old(self)@ }),
    {
        self.notes = notes;
    }

    pub fn set_found_at(&mut self, at: Option<EpochMillis>)
        ensures
            final(self)@ == (LinkView { found_at: at, ..old(self)@ }),
    {
        self.found_at = at;
    }

    pub fn set_read_at(&mut self, at: Option<EpochMillis>)
        ensures
            final(self)@ == (LinkView { read_at: at, ..old(self)@ }),
    {
        self.read_at = at;
    }

    pub fn set_published_at(&mut self, at: Option<EpochMillis>)
        ensures
            final(self)@ == (LinkView { published_at: at, ..old(self)@ }),
    {
        self.published_at = at;
    }

    pub fn set_image(&mut self, image: Option<String>)
        ensures
            final(self)@ == (LinkView { image: image.deep_view(), ..old(self)@ }),
    {
        self.image = image;
    }

    pub fn set_last_fetched(&mut self, at: Option<EpochMillis>)
        ensures
            final(self)@ == (LinkView { last_fetched: at, ..old(self)@ }),
    {
        self.last_fetched = at;
    }

    pub fn set_last_processed(&mut self, at: Option<EpochMillis>)
        ensures
            final(self)@ == (LinkView { last_processed: at, ..old(self)@ }),
    {
        self.last_processed = at;
    }

    pub fn set_hidden(&mut self, hidden: bool)
        ensures
            final(self)@ == (LinkView { hidden, ..old(self)@ }),
    {
        self.hidden = hidden;
    }
}

impl Clone for Link {
    fn clone(&self) -> (r: Self)
        ensures
            r@ == self@,
    {
        let r = Link {
            url: self.url.clone(),
            title: clone_opt_string(&self.title),
            via: match &self.via {
                Some(v) => Some(v.clone()),
                None => None,
            },
            tags: clone_strings(&self.tags),
            notes: clone_opt_string(&self.notes),
            found_at: self.found_at,
            read_at: self.read_at,
            published_at: self.published_at,
            from_filename: clone_opt_string(&self.from_filename),
            image: clone_opt_string(&self.image),
            meta: match &self.meta {
                Some(m) => Some(clone_entries(m)),
                None => None,
            },
            src: match &self.src {
                Some(b) => Some(clone_bytes(b)),
                None => None,
            },
            extracted_text: clone_opt_string(&self.extracted_text),
            last_fetched: self.last_fetched,
            last_processed: self.last_processed,
            http_headers: match &self.http_headers {
                Some(h) => Some(clone_entries(h)),
                None => None,
            },
            hidden: self.hidden,
        };
        r
    }
}

/// What slug::slugify produces for a string: a function of the string
/// alone.
pub uninterp spec fn slug_of(s: Seq<char>) -> Seq<char>;

/// Relies on slug::slugify: the slug depends on the input string alone.
#[verifier::external_body]
fn slugify(s: &str) -> (r: String)
    ensures
        r@ == slug_of(s@),
{
    slug::slugify(s)
}

/// The text a record's slug is built from: the first `og:title` metadata
/// value, else the first `twitter:title` value, else the title, else the
/// URL itself.
pub open spec fn spec_slug_source(l: LinkView) -> Seq<char> {
    let vals = match l.meta {
        Some(m) => match entry_lookup(m, "og:title"@) {
            Some(v) => Some(v),
            None => entry_lookup(m, "twitter:title"@),
        },
        None => None,
    };
    let first = match vals {
        Some(v) => if v.len() > 0 {
            Some(v[0])
        } else {
            None
        },
        None => None,
    };
    match first {
        Some(t) => t,
        None => match l.title {
            Some(t) => t,
            None => l.url,
        },
    }
}

impl Link {
    /// A URL-safe display slug for the record.
    pub fn slug(&self) -> (r: String)
        ensures
            r@ == slug_of(spec_slug_source(self@)),
    {
        let vals: Option<&Vec<String>> = match &self.meta {
            Some(m) => match lookup_values(m, "og:title") {
                Some(v) => Some(v),
                None => lookup_values(m, "twitter:title"),
            },
            None => None,
        };
        let first: Option<&String> = match vals {
            Some(v) => if v.len() > 0 {
                Some(&v[0])
            } else {
                None
            },
            None => None,
        };
        match first {
            Some(t) => slugify(t.as_str()),
            None => match &self.title {
                Some(t) => slugify(t.as_str()),
                None => slugify(self.url.as_str()),
            },
        }
    }
}

} // verus!
