//! The HTML extraction stage.
//!
//! When a fetched record holds HTML, this stage scans its `<title>`,
//! `<meta>` and `<time>` elements once. Each source of a title, publish
//! date or representative image carries a fixed priority weight; per
//! field, the highest-weight non-empty candidate wins and ties go to the
//! first seen. Every `name`/`property`/`itemprop` + `content` pair is also
//! recorded verbatim into the record's metadata table. The raw HTML is
//! rendered to plain text for `extracted_text`. The stage is guarded by
//! `last_processed`, which it always sets — even when it finds nothing.

use vstd::prelude::*;

use crate::dates::spec_iso_date;
use crate::fetch::spec_entry_add;
use crate::link::EpochMillis;
use crate::link::Link;
use crate::link::LinkView;
use crate::link::MetaEntry;
use crate::link::MetaEntryView;
use crate::text::str_eq;

verus! {

/// One HTML attribute.
pub struct Attr {
    pub name: String,
    pub value: String,
}

/// One scanned element: tag name, concatenated text, attributes in order.
pub struct HtmlPart {
    pub name: String,
    pub text: String,
    pub attrs: Vec<Attr>,
}

/// Spec shape of an attribute: name and value.
pub type AttrView = (Seq<char>, Seq<char>);

/// Spec shape of a scanned element: name, text, attributes.
pub type PartView = (Seq<char>, Seq<char>, Seq<AttrView>);

pub open spec fn attr_view(a: Attr) -> AttrView {
    (a.name@, a.value@)
}

pub open spec fn part_view(p: HtmlPart) -> PartView {
    (p.name@, p.text@, p.attrs@.map_values(|a: Attr| attr_view(a)))
}

pub open spec fn parts_view(v: Seq<HtmlPart>) -> Seq<PartView> {
    v.map_values(|p: HtmlPart| part_view(p))
}

/// What scanning a byte buffer as HTML yields: the `head title`,
/// `head meta` and `time` elements in document order, each with its tag
/// name, concatenated text and attribute list. A function of the bytes
/// alone.
pub uninterp spec fn html_parts_of(src: Seq<u8>) -> Seq<PartView>;

/// Relies on scraper: Html::parse_document over the lossy UTF-8 decoding
/// of the bytes, with the selector `head title,head meta,time`; each
/// selected element is converted to its tag name, concatenated text and
/// attribute pairs. Deterministic in the bytes.
#[verifier::external_body]
fn scan_html(src: &Vec<u8>) -> (r: Vec<HtmlPart>)
    ensures
        parts_view(r@) == html_parts_of(src@),
{
    let html = String::from_utf8_lossy(src.as_slice());
    let doc = scraper::Html::parse_document(html.as_ref());
    let sel = scraper::Selector::parse("head title,head meta,time").unwrap();
    doc.select(&sel).map(|el| HtmlPart {
        name: el.value().name().to_string(),
        text: el.text().collect(),
        attrs: el.value().attrs().map(|(k, v)| Attr { name: k.to_string(), value: v.to_string() }).collect(),
    }).collect()
}

/// What rendering a byte buffer of HTML to 80-column plain text yields —
/// the text, or a rendering failure: a function of the bytes alone.
pub uninterp spec fn html_rendering_of(src: Seq<u8>) -> Option<Seq<char>>;

/// Relies on html2text::from_read at a fixed 80-column width: the whole
/// outcome, success or error, is deterministic in the bytes.
#[verifier::external_body]
fn render_html_text(src: &Vec<u8>) -> (r: Option<String>)
    ensures
        match r {
            Some(s) => html_rendering_of(src@) == Some(s@),
            None => html_rendering_of(src@) is None,
        },
{
    html2text::from_read(src.as_slice(), 80).ok()
}

/// The in-flight result of one scan: per field, the best candidate so far
/// with its weight, plus the verbatim metadata table.
#[verifier::ext_equal]
pub struct Resolution {
    pub title: Option<(u32, Seq<char>)>,
    pub pubdate: Option<(u32, EpochMillis)>,
    pub image: Option<(u32, Seq<char>)>,
    pub meta: Seq<MetaEntryView>,
}

pub open spec fn empty_resolution() -> Resolution {
    Resolution { title: None, pubdate: None, image: None, meta: Seq::empty() }
}

/// Weighted choice: a strictly heavier non-empty candidate replaces the
/// held one; an equal or lighter one is ignored, so ties keep the first
/// seen. Empty candidates never win.
pub open spec fn upd_text(cur: Option<(u32, Seq<char>)>, w: u32, v: Seq<char>) -> Option<
    (u32, Seq<char>),
> {
    if v.len() == 0 {
        cur
    } else {
        match cur {
            None => Some((w, v)),
            Some((cw, cv)) => if cw < w {
                Some((w, v))
            } else {
                cur
            },
        }
    }
}

/// Weighted choice for publish dates: the candidate must parse as
/// `YYYY-MM-DD` to count at all.
pub open spec fn upd_date(cur: Option<(u32, EpochMillis)>, w: u32, v: Seq<char>) -> Option<
    (u32, EpochMillis),
> {
    match spec_iso_date(v) {
        None => cur,
        Some(ms) => match cur {
            None => Some((w, ms)),
            Some((cw, cms)) => if cw < w {
                Some((w, ms))
            } else {
                cur
            },
        },
    }
}

/// The first attribute named `name`, if any.
pub open spec fn attr_lookup(attrs: Seq<AttrView>, name: Seq<char>) -> Option<Seq<char>>
    decreases attrs.len(),
{
    if attrs.len() == 0 {
        None
    } else if attrs[0].0 == name {
        Some(attrs[0].1)
    } else {
        attr_lookup(attrs.drop_first(), name)
    }
}

/// One recognised metadata key's effect on the resolution.
pub open spec fn apply_named_content(st: Resolution, nm: Seq<char>, c: Seq<char>) -> Resolution {
    if nm == "title"@ {
        Resolution { title: upd_text(st.title, 5, c), ..st }
    } else if nm == "og:title"@ {
        Resolution { title: upd_text(st.title, 4, c), ..st }
    } else if nm == "twitter:title"@ {
        Resolution { title: upd_text(st.title, 3, c), ..st }
    } else if nm == "twitter:text:title"@ {
        Resolution { title: upd_text(st.title, 0, c), ..st }
    } else if nm == "og:image:url"@ || nm == "og:image"@ {
        Resolution { image: upd_text(st.image, 5, c), ..st }
    } else if nm == "twitter:image:src"@ || nm == "twitter:image"@ {
        Resolution { image: upd_text(st.image, 4, c), ..st }
    } else if nm == "date.created"@ {
        Resolution { pubdate: upd_date(st.pubdate, 5, c), ..st }
    } else if nm == "date"@ {
        Resolution { pubdate: upd_date(st.pubdate, 4, c), ..st }
    } else if nm == "article:published_time"@ {
        Resolution { pubdate: upd_date(st.pubdate, 3, c), ..st }
    } else if nm == "DC.Date"@ {
        Resolution { pubdate: upd_date(st.pubdate, 0, c), ..st }
    } else {
        st
    }
}

pub open spec fn is_recognized_meta(nm: Seq<char>) -> bool {
    ||| nm == "title"@
    ||| nm == "og:title"@
    ||| nm == "twitter:title"@
    ||| nm == "twitter:text:title"@
    ||| nm == "og:image:url"@
    ||| nm == "og:image"@
    ||| nm == "twitter:image:src"@
    ||| nm == "twitter:image"@
    ||| nm == "date.created"@
    ||| nm == "date"@
    ||| nm == "article:published_time"@
    ||| nm == "DC.Date"@
}

/// A `<meta>` element's attribute walk. `name`-ish attributes
/// (`name`, `property`, `itemprop`) and `content` update a running pair;
/// whenever both are present the pair is recorded verbatim into the
/// metadata table, and the first recognised key with content also updates
/// the weighted resolution and ends the walk.
pub open spec fn spec_meta_attrs(
    st: Resolution,
    attrs: Seq<AttrView>,
    name: Option<Seq<char>>,
    content: Option<Seq<char>>,
    i: int,
) -> Resolution
    decreases attrs.len() - i
        when 0 <= i <= attrs.len()
{
    if i >= attrs.len() {
        st
    } else {
        let (an, av) = attrs[i];
        if an == "name"@ || an == "property"@ || an == "itemprop"@ || an == "content"@ {
            let name2 = if an == "content"@ {
                name
            } else {
                Some(av)
            };
            let content2 = if an == "content"@ {
                Some(av)
            } else {
                content
            };
            let st2 = match (name2, content2) {
                (Some(nm), Some(c)) => Resolution {
                    meta: spec_entry_add(st.meta, nm, c),
                    ..st
                },
                _ => st,
            };
            match (name2, content2) {
                (Some(nm), Some(c)) => if is_recognized_meta(nm) {
                    apply_named_content(st2, nm, c)
                } else {
                    spec_meta_attrs(st2, attrs, name2, content2, i + 1)
                },
                _ => spec_meta_attrs(st2, attrs, name2, content2, i + 1),
            }
        } else {
            spec_meta_attrs(st, attrs, name, content, i + 1)
        }
    }
}

/// One scanned element's effect on the resolution.
pub open spec fn spec_part_step(st: Resolution, part: PartView) -> Resolution {
    if part.0 == "title"@ {
        Resolution { title: upd_text(st.title, 2, part.1), ..st }
    } else if part.0 == "time"@ {
        match attr_lookup(part.2, "datetime"@) {
            Some(v) => Resolution { pubdate: upd_date(st.pubdate, 2, v), ..st },
            None => st,
        }
    } else if part.0 == "meta"@ {
        let content0: Option<Seq<char>> = if part.1.len() > 0 {
            Some(part.1)
        } else {
            None
        };
        spec_meta_attrs(st, part.2, None, content0, 0)
    } else {
        st
    }
}

/// The resolution of a whole scan, elements in document order.
pub open spec fn spec_resolve(parts: Seq<PartView>) -> Resolution
    decreases parts.len(),
{
    if parts.len() == 0 {
        empty_resolution()
    } else {
        spec_part_step(spec_resolve(parts.drop_last()), parts.last())
    }
}

/// Exec shape of an in-flight resolution.
pub struct ResolveState {
    pub title: Option<(u32, String)>,
    pub pubdate: Option<(u32, EpochMillis)>,
    pub image: Option<(u32, String)>,
    pub meta: Vec<MetaEntry>,
}

pub open spec fn cand_view(c: Option<(u32, String)>) -> Option<(u32, Seq<char>)> {
    match c {
        Some((w, v)) => Some((w, v@)),
        None => None,
    }
}

impl View for ResolveState {
    type V = Resolution;

    open spec fn view(&self) -> Resolution {
        Resolution {
            title: cand_view(self.title),
            pubdate: self.pubdate,
            image: cand_view(self.image),
            meta: self.meta.deep_view(),
        }
    }
}

/// Weighted text candidate update, executably.
fn upd_text_exec(cur: Option<(u32, String)>, w: u32, v: String) -> (r: Option<(u32, String)>)
    ensures
        cand_view(r) == upd_text(cand_view(cur), w, v@),
{
    if v.as_str().is_empty() {
        return cur;
    }
    match cur {
        None => Some((w, v)),
        Some((cw, cv)) => if cw < w {
            Some((w, v))
        } else {
            Some((cw, cv))
        },
    }
}

/// Weighted date candidate update, executably.
fn upd_date_exec(cur: Option<(u32, EpochMillis)>, w: u32, v: &str) -> (r: Option<
    (u32, EpochMillis),
>)
    ensures
        r == upd_date(cur, w, v@),
{
    let t = crate::text::chars_of(v);
    match crate::dates::parse_iso_date(t.as_slice()) {
        None => cur,
        Some(ms) => match cur {
            None => Some((w, ms)),
            Some((cw, cms)) => if cw < w {
                Some((w, ms))
            } else {
                Some((cw, cms))
            },
        },
    }
}

/// Whether a metadata key is one the weighted resolution recognises.
fn is_recognized_exec(nm: &str) -> (r: bool)
    ensures
        r == is_recognized_meta(nm@),
{
    str_eq(nm, "title") || str_eq(nm, "og:title") || str_eq(nm, "twitter:title") || str_eq(
        nm,
        "twitter:text:title",
    ) || str_eq(nm, "og:image:url") || str_eq(nm, "og:image") || str_eq(nm, "twitter:image:src")
        || str_eq(nm, "twitter:image") || str_eq(nm, "date.created") || str_eq(nm, "date")
        || str_eq(nm, "article:published_time") || str_eq(nm, "DC.Date")
}

/// One recognised key's effect, executably.
fn apply_named_exec(st: ResolveState, nm: &str, c: String) -> (r: ResolveState)
    ensures
        r@ == apply_named_content(st@, nm@, c@),
{
    let mut st = st;
    if str_eq(nm, "title") {
        st.title = upd_text_exec(st.title, 5, c);
    } else if str_eq(nm, "og:title") {
        st.title = upd_text_exec(st.title, 4, c);
    } else if str_eq(nm, "twitter:title") {
        st.title = upd_text_exec(st.title, 3, c);
    } else if str_eq(nm, "twitter:text:title") {
        st.title = upd_text_exec(st.title, 0, c);
    } else if str_eq(nm, "og:image:url") || str_eq(nm, "og:image") {
        st.image = upd_text_exec(st.image, 5, c);
    } else if str_eq(nm, "twitter:image:src") || str_eq(nm, "twitter:image") {
        st.image = upd_text_exec(st.image, 4, c);
    } else if str_eq(nm, "date.created") {
        st.pubdate = upd_date_exec(st.pubdate, 5, c.as_str());
    } else if str_eq(nm, "date") {
        st.pubdate = upd_date_exec(st.pubdate, 4, c.as_str());
    } else if str_eq(nm, "article:published_time") {
        st.pubdate = upd_date_exec(st.pubdate, 3, c.as_str());
    } else if str_eq(nm, "DC.Date") {
        st.pubdate = upd_date_exec(st.pubdate, 0, c.as_str());
    }
    st
}

/// One element's effect on the resolution, executably.
#[verifier::loop_isolation(false)]
fn part_step_exec(st: ResolveState, part: &HtmlPart) -> (r: ResolveState)
    ensures
        r@ == spec_part_step(st@, part_view(*part)),
{
    let ghost pv = part_view(*part);
    if str_eq(part.name.as_str(), "title") {
        let mut st = st;
        st.title = upd_text_exec(st.title, 2, part.text.clone());
        return st;
    }
    if str_eq(part.name.as_str(), "time") {
        proof {
            assert(pv.2.skip(0) =~= pv.2);
        }
        let mut i: usize = 0;
        while i < part.attrs.len()
            invariant
                i <= part.attrs@.len(),
                pv == part_view(*part),
                attr_lookup(pv.2, "datetime"@) == attr_lookup(pv.2.skip(i as int), "datetime"@),
                forall|j: int| 0 <= j < pv.2.len() ==> pv.2[j] == attr_view(#[trigger] part.attrs@[j]),
            decreases part.attrs@.len() - i,
        {
            if str_eq(part.attrs[i].name.as_str(), "datetime") {
                let mut st = st;
                proof {
                    assert(pv.2.skip(i as int)[0] == pv.2[i as int]);
                }
                st.pubdate = upd_date_exec(st.pubdate, 2, part.attrs[i].value.as_str());
                return st;
            }
            proof {
                assert(pv.2.skip(i as int).drop_first() =~= pv.2.skip(i + 1));
            }
            i += 1;
        }
        proof {
            assert(pv.2.skip(pv.2.len() as int) =~= Seq::<AttrView>::empty());
        }
        return st;
    }
    if !str_eq(part.name.as_str(), "meta") {
        return st;
    }
    let ghost st0 = st@;
    let content0: Option<String> = if !part.text.as_str().is_empty() {
        Some(part.text.clone())
    } else {
        None
    };
    let ghost content0v = content0.deep_view();
    let mut st = st;
    let mut name: Option<String> = None;
    let mut content: Option<String> = content0;
    let mut i: usize = 0;
    while i < part.attrs.len()
        invariant
            i <= part.attrs@.len(),
            pv == part_view(*part),
            forall|j: int| 0 <= j < pv.2.len() ==> pv.2[j] == attr_view(#[trigger] part.attrs@[j]),
            spec_meta_attrs(st0, pv.2, None, content0v, 0) == spec_meta_attrs(
                st@,
                pv.2,
                name.deep_view(),
                content.deep_view(),
                i as int,
            ),
        decreases part.attrs@.len() - i,
    {
        let an = &part.attrs[i].name;
        let is_namish = str_eq(an.as_str(), "name") || str_eq(an.as_str(), "property") || str_eq(
            an.as_str(),
            "itemprop",
        );
        let is_content = str_eq(an.as_str(), "content");
        if is_namish || is_content {
            if is_content {
                content = Some(part.attrs[i].value.clone());
            } else {
                name = Some(part.attrs[i].value.clone());
            }
            let record = match (&name, &content) {
                (Some(_), Some(_)) => true,
                _ => false,
            };
            if record {
                let nm: String = match &name {
                    Some(n) => n.clone(),
                    None => String::new(),
                };
                let cv: String = match &content {
                    Some(c) => c.clone(),
                    None => String::new(),
                };
                crate::fetch::entry_add(&mut st.meta, nm.clone(), cv.clone());
                if is_recognized_exec(nm.as_str()) {
                    let r = apply_named_exec(st, nm.as_str(), cv);
                    return r;
                }
            }
        }
        i += 1;
    }
    proof {
        assert(spec_meta_attrs(st@, pv.2, name.deep_view(), content.deep_view(), i as int) == st@);
    }
    st
}

/// The resolution of a scan, executably.
#[verifier::loop_isolation(false)]
fn resolve_parts(parts: &Vec<HtmlPart>) -> (r: ResolveState)
    ensures
        r@ == spec_resolve(parts_view(parts@)),
{
    let ghost all = parts_view(parts@);
    let mut st = ResolveState { title: None, pubdate: None, image: None, meta: Vec::new() };
    proof {
        assert(st@ =~= empty_resolution());
    }
    let mut i: usize = 0;
    while i < parts.len()
        invariant
            i <= parts@.len(),
            all == parts_view(parts@),
            all.len() == parts@.len(),
            st@ == spec_resolve(all.take(i as int)),
        decreases parts@.len() - i,
    {
        st = part_step_exec(st, &parts[i]);
        i += 1;
        proof {
            assert(all.take(i as int).drop_last() =~= all.take(i - 1));
            assert(all.take(i as int).last() == all[i - 1]);
        }
    }
    proof {
        assert(all.take(all.len() as int) =~= all);
    }
    st
}

/// The verbatim metadata table a scan produces is always well-formed.
proof fn lemma_meta_attrs_wf(
    st: Resolution,
    attrs: Seq<AttrView>,
    name: Option<Seq<char>>,
    content: Option<Seq<char>>,
    i: int,
)
    requires
        0 <= i <= attrs.len(),
        crate::link::entries_wf(st.meta),
    ensures
        crate::link::entries_wf(spec_meta_attrs(st, attrs, name, content, i).meta),
    decreases attrs.len() - i,
{
    if i < attrs.len() {
        let (an, av) = attrs[i];
        if an == "name"@ || an == "property"@ || an == "itemprop"@ || an == "content"@ {
            let name2 = if an == "content"@ {
                name
            } else {
                Some(av)
            };
            let content2 = if an == "content"@ {
                Some(av)
            } else {
                content
            };
            match (name2, content2) {
                (Some(nm), Some(c)) => {
                    crate::fetch::lemma_entry_add_wf(st.meta, nm, c);
                    let st2 = Resolution { meta: spec_entry_add(st.meta, nm, c), ..st };
                    if !is_recognized_meta(nm) {
                        lemma_meta_attrs_wf(st2, attrs, name2, content2, i + 1);
                    }
                },
                _ => {
                    lemma_meta_attrs_wf(st, attrs, name2, content2, i + 1);
                },
            }
        } else {
            lemma_meta_attrs_wf(st, attrs, name, content, i + 1);
        }
    }
}

/// The whole resolution's metadata table is well-formed.
pub proof fn lemma_resolve_wf(parts: Seq<PartView>)
    ensures
        crate::link::entries_wf(spec_resolve(parts).meta),
    decreases parts.len(),
{
    if parts.len() > 0 {
        lemma_resolve_wf(parts.drop_last());
        let st = spec_resolve(parts.drop_last());
        let part = parts.last();
        if part.0 == "meta"@ {
            let content0: Option<Seq<char>> = if part.1.len() > 0 {
                Some(part.1)
            } else {
                None
            };
            lemma_meta_attrs_wf(st, part.2, None, content0, 0);
        }
    }
}

/// When the HTML stage runs: the marker is clear, bytes are present, and
/// the record classifies as HTML.
pub open spec fn spec_html_applies(l: LinkView) -> bool {
    &&& l.last_processed is None
    &&& l.src is Some
    &&& l.spec_is_html()
}

/// The candidate value a resolution settles on, weight dropped.
pub open spec fn cand_text(c: Option<(u32, Seq<char>)>) -> Option<Seq<char>> {
    match c {
        Some((w, v)) => Some(v),
        None => None,
    }
}

pub open spec fn cand_date(c: Option<(u32, EpochMillis)>) -> Option<EpochMillis> {
    match c {
        Some((w, v)) => Some(v),
        None => None,
    }
}

/// What the HTML stage produces: the marker is set, each still-absent
/// field takes its resolved candidate (fields already present are never
/// overwritten), and the extracted text is the plain-text rendering — or
/// absent when rendering fails.
pub open spec fn spec_html_stage_core(l: LinkView, now: EpochMillis) -> LinkView {
    let res = spec_resolve(html_parts_of(l.src->Some_0));
    LinkView {
        last_processed: Some(now),
        extracted_text: html_rendering_of(l.src->Some_0),
        title: if l.title is Some {
            l.title
        } else {
            cand_text(res.title)
        },
        published_at: if l.published_at is Some {
            l.published_at
        } else {
            cand_date(res.pubdate)
        },
        image: if l.image is Some {
            l.image
        } else {
            cand_text(res.image)
        },
        meta: if l.meta is Some {
            l.meta
        } else {
            Some(res.meta)
        },
        ..l
    }
}

/// Runs the HTML extraction stage.
///
/// A record whose marker is set, whose bytes are missing or whose content
/// class is not HTML passes through untouched. Otherwise the marker is set
/// unconditionally — this stage is never retried — the weighted scan fills
/// any still-absent title, publish date and image, the metadata table is
/// recorded, and the HTML is rendered to plain text (a rendering failure
/// degrades to no extracted text).
pub fn html_stage(link: Link, now: EpochMillis) -> (r: Link)
    ensures
        !spec_html_applies(link@) ==> r@ == link@,
        spec_html_applies(link@) ==> r@ == spec_html_stage_core(link@, now),
        link@.wf() ==> r@.wf(),
{
    let applies = link.last_processed.is_none() && link.src.is_some() && link.is_html();
    if !applies {
        return link;
    }
    let mut l = link;
    let (parts, rendering) = match &l.src {
        Some(b) => (scan_html(b), render_html_text(b)),
        None => {
            proof {
                assert(false);
            }
            (Vec::new(), None)
        },
    };
    let res = resolve_parts(&parts);
    proof {
        lemma_resolve_wf(parts_view(parts@));
    }
    l.last_processed = Some(now);
    if l.title.is_none() {
        l.title = match res.title {
            Some((w, v)) => Some(v),
            None => None,
        };
    }
    if l.published_at.is_none() {
        l.published_at = match res.pubdate {
            Some((w, v)) => Some(v),
            None => None,
        };
    }
    if l.image.is_none() {
        l.image = match res.image {
            Some((w, v)) => Some(v),
            None => None,
        };
    }
    if l.meta.is_none() {
        l.meta = Some(res.meta);
    }
    l.extracted_text = rendering;
    proof {
        assert(l@ =~= spec_html_stage_core(link@, now));
    }
    l
}

/// The weighted choice in full: an empty candidate never wins; a
/// non-empty candidate wins when nothing is held or when it is strictly
/// heavier than what is held; anything else leaves the held candidate in
/// place, so equal weights keep the first seen.
pub proof fn lemma_weighted_choice(cur: Option<(u32, Seq<char>)>, w: u32, v: Seq<char>)
    ensures
        v.len() == 0 ==> upd_text(cur, w, v) == cur,
        v.len() > 0 && cur is None ==> upd_text(cur, w, v) == Some((w, v)),
        v.len() > 0 && (cur matches Some((cw, cv)) && cw < w) ==> upd_text(cur, w, v) == Some(
            (w, v),
        ),
        (cur matches Some((cw, cv)) && cw >= w) ==> upd_text(cur, w, v) == cur,
{
}

} // verus!
