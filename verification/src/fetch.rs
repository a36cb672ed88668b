//! The fetch stage: deciding when to issue a network request and folding a
//! response back into the record.
//!
//! The stage is guarded by `last_fetched`: once set, no request is made. A
//! connection-level failure leaves the record untouched (the caller simply
//! does not apply a response). A response with a non-2xx status is applied
//! but changes nothing — deliberately leaving the marker unset so a later
//! import may retry. A 2xx response sets the marker, stores the response
//! headers minus a fixed denylist of security and tracking headers, and
//! keeps the raw body only when the `content-type` classifies as HTML, PDF
//! or plain text.

use vstd::prelude::*;
use vstd::pervasive::VecAdditionalExecFns;

use crate::link::EpochMillis;
use crate::link::Link;
use crate::link::LinkView;
use crate::link::MetaEntry;
use crate::link::MetaEntryView;
use crate::link::entries_wf;
use crate::text::push_char;
use crate::text::str_eq;

verus! {

/// One raw response header line, as the transport delivered it.
pub struct RawHeader {
    pub name: String,
    pub value: String,
}

/// Spec-level shape of a raw header.
#[verifier::ext_equal]
pub struct RawHeaderView {
    pub name: Seq<char>,
    pub value: Seq<char>,
}

impl View for RawHeader {
    type V = RawHeaderView;

    open spec fn view(&self) -> RawHeaderView {
        RawHeaderView { name: self.name@, value: self.value@ }
    }
}

impl DeepView for RawHeader {
    type V = RawHeaderView;

    open spec fn deep_view(&self) -> RawHeaderView {
        self.view()
    }
}

/// ASCII lowercase of one character; anything but `A`..`Z` is unchanged.
/// Header names are ASCII tokens, so this matches full Unicode lowering.
pub open spec fn lower_char(c: char) -> char {
    if 'A' <= c && c <= 'Z' {
        ((c as u8) + 32) as char
    } else {
        c
    }
}

/// ASCII lowercase, character by character.
pub open spec fn lower_seq(s: Seq<char>) -> Seq<char> {
    s.map_values(|c: char| lower_char(c))
}

/// The ASCII-lowercased copy of `s`.
pub fn lower_ascii(s: &str) -> (r: String)
    ensures
        r@ == lower_seq(s@),
{
    let n: usize = vstd::string::StrSliceExecFns::unicode_len(s);
    let mut r = String::new();
    let mut i: usize = 0;
    while i < n
        invariant
            n == s@.len(),
            i <= n,
            r@ == lower_seq(s@).take(i as int),
        decreases n - i,
    {
        let c = vstd::string::StrSliceExecFns::get_char(s, i);
        let lc: char = if 'A' <= c && c <= 'Z' {
            ((c as u8) + 32) as char
        } else {
            c
        };
        push_char(&mut r, lc);
        i += 1;
        proof {
            assert(r@ =~= lower_seq(s@).take(i as int));
        }
    }
    proof {
        assert(lower_seq(s@).take(n as int) =~= lower_seq(s@));
    }
    r
}

/// Security and tracking headers that are never stored.
pub open spec fn spec_is_denied_header(name: Seq<char>) -> bool {
    ||| name == "set-cookie"@
    ||| name == "x-xss-protection"@
    ||| name == "strict-transport-security"@
    ||| name == "content-security-policy"@
    ||| name == "x-content-security-policy"@
    ||| name == "vary"@
    ||| name == "referrer-policy"@
    ||| name == "x-referrer-policy"@
    ||| name == "x-frame-options"@
    ||| name == "x-content-type-options"@
    ||| name == "origin-trial"@
    ||| name == "content-security-policy-report-only"@
    ||| name == "p3p"@
    ||| name == "permissions-policy"@
    ||| name == "report-to"@
}

/// Whether a (lowercased) header name is on the storage denylist.
pub fn is_denied_header(name: &str) -> (r: bool)
    ensures
        r == spec_is_denied_header(name@),
{
    str_eq(name, "set-cookie") || str_eq(name, "x-xss-protection") || str_eq(
        name,
        "strict-transport-security",
    ) || str_eq(name, "content-security-policy") || str_eq(name, "x-content-security-policy")
        || str_eq(name, "vary") || str_eq(name, "referrer-policy") || str_eq(
        name,
        "x-referrer-policy",
    ) || str_eq(name, "x-frame-options") || str_eq(name, "x-content-type-options") || str_eq(
        name,
        "origin-trial",
    ) || str_eq(name, "content-security-policy-report-only") || str_eq(name, "p3p") || str_eq(
        name,
        "permissions-policy",
    ) || str_eq(name, "report-to")
}

/// Appends `value` under `name`, keeping one entry per name and the order
/// in which names first appeared.
pub open spec fn spec_entry_add(
    entries: Seq<MetaEntryView>,
    name: Seq<char>,
    value: Seq<char>,
) -> Seq<MetaEntryView>
    decreases entries.len(),
{
    if entries.len() == 0 {
        seq![MetaEntryView { name, values: seq![value] }]
    } else if entries[0].name == name {
        seq![
            MetaEntryView { name, values: entries[0].values.push(value) },
        ] + entries.drop_first()
    } else {
        seq![entries[0]] + spec_entry_add(entries.drop_first(), name, value)
    }
}

proof fn lemma_entry_add_found(entries: Seq<MetaEntryView>, name: Seq<char>, value: Seq<char>, k: int)
    requires
        0 <= k < entries.len(),
        entries[k].name == name,
        forall|j: int| 0 <= j < k ==> entries[j].name != name,
    ensures
        spec_entry_add(entries, name, value) == entries.update(
            k,
            MetaEntryView { name, values: entries[k].values.push(value) },
        ),
    decreases k,
{
    if k == 0 {
        assert(spec_entry_add(entries, name, value) =~= entries.update(
            0,
            MetaEntryView { name, values: entries[0].values.push(value) },
        ));
    } else {
        assert(entries[0].name != name);
        lemma_entry_add_found(entries.drop_first(), name, value, k - 1);
        assert(spec_entry_add(entries, name, value) =~= entries.update(
            k,
            MetaEntryView { name, values: entries[k].values.push(value) },
        ));
    }
}

proof fn lemma_entry_add_missing(entries: Seq<MetaEntryView>, name: Seq<char>, value: Seq<char>)
    requires
        forall|j: int| 0 <= j < entries.len() ==> entries[j].name != name,
    ensures
        spec_entry_add(entries, name, value) == entries.push(
            MetaEntryView { name, values: seq![value] },
        ),
    decreases entries.len(),
{
    if entries.len() == 0 {
        assert(spec_entry_add(entries, name, value) =~= entries.push(
            MetaEntryView { name, values: seq![value] },
        ));
    } else {
        lemma_entry_add_missing(entries.drop_first(), name, value);
        assert(spec_entry_add(entries, name, value) =~= entries.push(
            MetaEntryView { name, values: seq![value] },
        ));
    }
}

/// Adding a value keeps names unique and adds no denied name.
pub proof fn lemma_entry_add_wf(entries: Seq<MetaEntryView>, name: Seq<char>, value: Seq<char>)
    requires
        entries_wf(entries),
    ensures
        entries_wf(spec_entry_add(entries, name, value)),
        forall|i: int|
            0 <= i < spec_entry_add(entries, name, value).len() ==> (
            #[trigger] spec_entry_add(entries, name, value)[i].name == name || exists|j: int|
                0 <= j < entries.len() && entries[j].name == spec_entry_add(
                    entries,
                    name,
                    value,
                )[i].name),
    decreases entries.len(),
{
    if entries.len() == 0 {
    } else if entries[0].name == name {
        assert forall|i: int, j: int|
            0 <= i < j < spec_entry_add(entries, name, value).len() implies spec_entry_add(
            entries,
            name,
            value,
        )[i].name != spec_entry_add(entries, name, value)[j].name by {
            assert(entries[i].name == spec_entry_add(entries, name, value)[i].name);
            assert(entries[j].name == spec_entry_add(entries, name, value)[j].name);
        }
    } else {
        lemma_entry_add_wf(entries.drop_first(), name, value);
        let r = spec_entry_add(entries, name, value);
        let rr = spec_entry_add(entries.drop_first(), name, value);
        assert forall|i: int, j: int| 0 <= i < j < r.len() implies r[i].name != r[j].name by {
            if i == 0 {
                assert(r[j] == rr[j - 1]);
                if rr[j - 1].name == name {
                } else {
                    let nm = rr[j - 1].name;
                    let w = choose|w: int|
                        0 <= w < entries.drop_first().len() && entries.drop_first()[w].name == nm;
                    assert(entries[w + 1].name == rr[j - 1].name);
                }
            } else {
                assert(r[i] == rr[i - 1] && r[j] == rr[j - 1]);
            }
        }
        assert forall|i: int|
            0 <= i < r.len() implies (r[i].name == name || exists|j: int|
            0 <= j < entries.len() && entries[j].name == r[i].name) by {
            if i == 0 {
                assert(entries[0].name == r[0].name);
            } else {
                assert(r[i] == rr[i - 1]);
                if rr[i - 1].name != name {
                    let nm = rr[i - 1].name;
                    let w = choose|w: int|
                        0 <= w < entries.drop_first().len() && entries.drop_first()[w].name == nm;
                    assert(entries[w + 1].name == r[i].name);
                }
            }
        }
    }
}

/// The stored header table for a raw header list: names lowercased, the
/// denylist dropped, values grouped per name in arrival order.
pub open spec fn spec_filter_headers(raw: Seq<RawHeaderView>) -> Seq<MetaEntryView>
    decreases raw.len(),
{
    if raw.len() == 0 {
        Seq::empty()
    } else {
        let prev = spec_filter_headers(raw.drop_last());
        let name = lower_seq(raw.last().name);
        if spec_is_denied_header(name) {
            prev
        } else {
            spec_entry_add(prev, name, raw.last().value)
        }
    }
}

/// Filtered headers always form a well-formed table.
pub proof fn lemma_filter_headers_wf(raw: Seq<RawHeaderView>)
    ensures
        entries_wf(spec_filter_headers(raw)),
    decreases raw.len(),
{
    if raw.len() > 0 {
        lemma_filter_headers_wf(raw.drop_last());
        let name = lower_seq(raw.last().name);
        if !spec_is_denied_header(name) {
            lemma_entry_add_wf(spec_filter_headers(raw.drop_last()), name, raw.last().value);
        }
    }
}

/// Appends one value to the entry named `name`, creating it if missing.
#[verifier::loop_isolation(false)]
pub fn entry_add(entries: &mut Vec<MetaEntry>, name: String, value: String)
    ensures
        final(entries).deep_view() == spec_entry_add(old(entries).deep_view(), name@, value@),
{
    let ghost orig = entries.deep_view();
    let ghost name_v = name@;
    let ghost value_v = value@;
    let mut i: usize = 0;
    while i < entries.len()
        invariant
            i <= entries@.len(),
            entries.deep_view() == orig,
            orig.len() == entries@.len(),
            name_v == name@,
            value_v == value@,
            forall|j: int| 0 <= j < i ==> orig[j].name != name_v,
        decreases entries@.len() - i,
    {
        if str_eq(entries[i].name.as_str(), name.as_str()) {
            let mut values = crate::link::clone_strings(&entries[i].values);
            values.push(value);
            let ghost vs = values.deep_view();
            entries.set(i, MetaEntry { name, values });
            proof {
                assert(vs =~= orig[i as int].values.push(value_v));
                assert(entries.deep_view() =~~= orig.update(
                    i as int,
                    MetaEntryView { name: name_v, values: orig[i as int].values.push(value_v) },
                ));
                lemma_entry_add_found(orig, name_v, value_v, i as int);
                assert(entries.deep_view() == spec_entry_add(orig, name_v, value_v));
            }
            return ;
        }
        i += 1;
    }
    let mut values: Vec<String> = Vec::new();
    values.push(value);
    entries.push(MetaEntry { name, values });
    proof {
        assert(entries.deep_view() =~~= orig.push(
            MetaEntryView { name: name_v, values: seq![value_v] },
        ));
        lemma_entry_add_missing(orig, name_v, value_v);
    }
}

/// The stored header table for a raw header list.
pub fn filter_headers(raw: Vec<RawHeader>) -> (r: Vec<MetaEntry>)
    ensures
        r.deep_view() == spec_filter_headers(raw.deep_view()),
        entries_wf(r.deep_view()),
{
    let ghost all = raw.deep_view();
    let mut r: Vec<MetaEntry> = Vec::new();
    let mut i: usize = 0;
    while i < raw.len()
        invariant
            i <= raw@.len(),
            all == raw.deep_view(),
            all.len() == raw@.len(),
            r.deep_view() == spec_filter_headers(all.take(i as int)),
        decreases raw@.len() - i,
    {
        let name = lower_ascii(raw[i].name.as_str());
        if !is_denied_header(name.as_str()) {
            let value = raw[i].value.clone();
            entry_add(&mut r, name, value);
        }
        i += 1;
        proof {
            assert(all.take(i as int).drop_last() =~= all.take(i - 1));
            assert(all.take(i as int).last() == all[i - 1]);
        }
    }
    proof {
        assert(all.take(all.len() as int) =~= all);
        lemma_filter_headers_wf(all);
    }
    r
}

/// A transport-level response: status code, header lines, raw body.
pub struct FetchResponse {
    pub status: u16,
    pub headers: Vec<RawHeader>,
    pub body: Vec<u8>,
}

impl FetchResponse {
    pub open spec fn spec_is_success(self) -> bool {
        200 <= self.status < 300
    }

    /// Whether the status code counts as a 2xx success.
    pub fn is_success(&self) -> (r: bool)
        ensures
            r == self.spec_is_success(),
    {
        200 <= self.status && self.status < 300
    }
}

/// Whether the fetch stage would issue a request for this record.
pub open spec fn spec_needs_fetch(l: LinkView) -> bool {
    l.last_fetched is None
}

/// The URL the fetch stage will request, or `None` when the marker is set.
pub fn fetch_plan(link: &Link) -> (r: Option<&str>)
    ensures
        spec_needs_fetch(link@) ==> (r matches Some(u) && u@ == link@.url),
        !spec_needs_fetch(link@) ==> r is None,
{
    match link.last_fetched {
        Some(_) => None,
        None => Some(link.url()),
    }
}

/// What applying a transport response does to the record.
pub open spec fn spec_apply_fetch(
    l: LinkView,
    status: u16,
    raw: Seq<RawHeaderView>,
    body: Seq<u8>,
    now: EpochMillis,
) -> LinkView {
    if !(200 <= status < 300) {
        l
    } else {
        let fetched = LinkView {
            last_fetched: Some(now),
            http_headers: Some(spec_filter_headers(raw)),
            ..l
        };
        if fetched.spec_is_html() || fetched.spec_is_pdf() || fetched.spec_is_plaintext() {
            LinkView { src: Some(body), ..fetched }
        } else {
            fetched
        }
    }
}

/// Folds a transport response into the record.
///
/// A non-2xx response changes nothing, deliberately leaving `last_fetched`
/// unset so the fetch may be retried on a later import. A 2xx response sets
/// the marker, stores the filtered headers, and keeps the body only for the
/// three recognised content classes.
pub fn apply_fetch_response(link: Link, response: FetchResponse, now: EpochMillis) -> (r: Link)
    requires
        spec_needs_fetch(link@),
    ensures
        r@ == spec_apply_fetch(link@, response.status, response.headers.deep_view(), response.body@, now),
        response.spec_is_success() ==> r@.last_fetched == Some(now),
        !response.spec_is_success() ==> r@ == link@,
        link@.wf() ==> r@.wf(),
{
    if !response.is_success() {
        return link;
    }
    let mut link = link;
    link.last_fetched = Some(now);
    link.http_headers = Some(filter_headers(response.headers));
    if link.is_html() || link.is_pdf() || link.is_plaintext() {
        link.src = Some(response.body);
    }
    link
}

/// The fetch marker runs the network step at most once: after a successful
/// response is applied, the stage plans no further request; and once the
/// marker is set, applying is never reached because no request is planned.
pub proof fn lemma_fetch_runs_once(
    l: LinkView,
    status: u16,
    raw: Seq<RawHeaderView>,
    body: Seq<u8>,
    now: EpochMillis,
)
    requires
        200 <= status < 300,
    ensures
        !spec_needs_fetch(spec_apply_fetch(l, status, raw, body, now)),
{
}

} // verus!
