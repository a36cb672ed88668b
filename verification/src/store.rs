//! The in-memory link store and the import operation.
//!
//! The store is the model every backend must honour: records keyed by
//! URL, one per URL, read back as written. `process_input` is the import
//! path: extract a document's drafts, reconcile each against its stored
//! record, and upsert the result. Because extraction is a pure function of
//! the document and the merge replaces the input-derived fields wholesale,
//! importing the same document twice leaves the store with the same keys
//! and the same tags as importing it once — proved below.

use vstd::prelude::*;

use crate::extract::draft_index;
use crate::extract::extract_links;
use crate::extract::spec_extract_doc;
use crate::link::Link;
use crate::link::LinkView;
use crate::link::EpochMillis;
use crate::merge::LinkSource;
use crate::merge::LinkSourceView;
use crate::merge::enrich_link;
use crate::merge::spec_merge;
use crate::text::str_eq;
use vstd::pervasive::VecAdditionalExecFns;

verus! {

/// Whole-pattern wildcard matching: `?` matches exactly one character,
/// `*` any run of characters including none.
pub open spec fn glob_matches(p: Seq<char>, t: Seq<char>) -> bool
    decreases p.len() + t.len(),
{
    if p.len() == 0 {
        t.len() == 0
    } else if p[0] == '*' {
        glob_matches(p.drop_first(), t) || (t.len() > 0 && glob_matches(p, t.drop_first()))
    } else if t.len() == 0 {
        false
    } else {
        (p[0] == '?' || p[0] == t[0]) && glob_matches(p.drop_first(), t.drop_first())
    }
}

/// Relies on wildmatch::WildMatch (new + matches): `?` matches exactly one
/// occurrence of any character, `*` arbitrarily many including zero, and
/// the pattern must match the entire input.
#[verifier::external_body]
fn wild_match(pattern: &str, text: &str) -> (r: bool)
    ensures
        r == glob_matches(pattern@, text@),
{
    wildmatch::WildMatch::new(pattern).matches(text)
}

/// A URL-keyed record list holds one record per URL, each well-formed.
pub open spec fn store_wf_seq(s: Seq<LinkView>) -> bool {
    &&& forall|i: int, j: int| 0 <= i < j < s.len() ==> s[i].url != s[j].url
    &&& forall|i: int| 0 <= i < s.len() ==> (#[trigger] s[i]).wf()
}

/// The record stored under `url`, if any.
pub open spec fn lookup(s: Seq<LinkView>, url: Seq<char>) -> Option<LinkView>
    decreases s.len(),
{
    if s.len() == 0 {
        None
    } else if s[0].url == url {
        Some(s[0])
    } else {
        lookup(s.drop_first(), url)
    }
}

/// The list after writing `l`: the record with its URL is replaced in
/// place, or `l` is appended when its URL is new.
pub open spec fn upsert(s: Seq<LinkView>, l: LinkView) -> Seq<LinkView>
    decreases s.len(),
{
    if s.len() == 0 {
        seq![l]
    } else if s[0].url == l.url {
        seq![l] + s.drop_first()
    } else {
        seq![s[0]] + upsert(s.drop_first(), l)
    }
}

/// After a write, the written URL reads back as written and every other
/// URL reads as before.
pub proof fn lemma_upsert_lookup(s: Seq<LinkView>, l: LinkView, u: Seq<char>)
    ensures
        lookup(upsert(s, l), l.url) == Some(l),
        u != l.url ==> lookup(upsert(s, l), u) == lookup(s, u),
    decreases s.len(),
{
    let r = upsert(s, l);
    if s.len() > 0 {
        if s[0].url == l.url {
            assert(r[0] == l);
            assert(r.drop_first() =~= s.drop_first());
            assert(lookup(r, l.url) == Some(l));
            if u != l.url {
                assert(lookup(r, u) == lookup(r.drop_first(), u));
                assert(lookup(s, u) == lookup(s.drop_first(), u));
            }
        } else {
            lemma_upsert_lookup(s.drop_first(), l, u);
            assert(r[0] == s[0]);
            assert(r.drop_first() =~= upsert(s.drop_first(), l));
            assert(lookup(r, l.url) == Some(l));
            if u != l.url {
                if s[0].url == u {
                    assert(lookup(r, u) == Some(s[0]));
                    assert(lookup(s, u) == Some(s[0]));
                } else {
                    assert(lookup(r, u) == lookup(r.drop_first(), u));
                    assert(lookup(s, u) == lookup(s.drop_first(), u));
                }
            }
        }
    } else {
        assert(r =~= seq![l]);
        assert(r[0] == l);
        assert(r.drop_first() =~= Seq::<LinkView>::empty());
        assert(lookup(r, l.url) == Some(l));
        if u != l.url {
            assert(lookup(r, u) == lookup(r.drop_first(), u));
        }
    }
}

/// Every URL in an upserted list was there before or is the written one.
proof fn lemma_upsert_urls(s: Seq<LinkView>, l: LinkView)
    ensures
        upsert(s, l).len() <= s.len() + 1,
        forall|j: int|
            0 <= j < upsert(s, l).len() ==> (#[trigger] upsert(s, l)[j].url == l.url || exists|k: int|
                0 <= k < s.len() && s[k].url == upsert(s, l)[j].url),
        forall|j: int|
            0 <= j < upsert(s, l).len() ==> (#[trigger] upsert(s, l)[j] == l || exists|k: int|
                0 <= k < s.len() && s[k] == upsert(s, l)[j]),
    decreases s.len(),
{
    if s.len() > 0 && s[0].url != l.url {
        lemma_upsert_urls(s.drop_first(), l);
        let r = upsert(s, l);
        let rr = upsert(s.drop_first(), l);
        assert forall|j: int|
            0 <= j < r.len() implies (#[trigger] r[j] == l || exists|k: int|
            0 <= k < s.len() && s[k] == r[j]) by {
            if j == 0 {
                assert(s[0] == r[0]);
            } else {
                assert(r[j] == rr[j - 1]);
                if rr[j - 1] != l {
                    let e = rr[j - 1];
                    let w = choose|w: int|
                        0 <= w < s.drop_first().len() && s.drop_first()[w] == e;
                    assert(s[w + 1] == e);
                }
            }
        }
        assert forall|j: int|
            0 <= j < r.len() implies (#[trigger] r[j].url == l.url || exists|k: int|
            0 <= k < s.len() && s[k].url == r[j].url) by {
            if j == 0 {
                assert(s[0].url == r[0].url);
            } else {
                assert(r[j] == rr[j - 1]);
                if rr[j - 1].url != l.url {
                    let e = rr[j - 1].url;
                    let w = choose|w: int|
                        0 <= w < s.drop_first().len() && s.drop_first()[w].url == e;
                    assert(s[w + 1].url == e);
                }
            }
        }
    }
}

/// A write preserves the store invariant.
pub proof fn lemma_upsert_wf(s: Seq<LinkView>, l: LinkView)
    requires
        store_wf_seq(s),
        l.wf(),
    ensures
        store_wf_seq(upsert(s, l)),
    decreases s.len(),
{
    if s.len() == 0 {
        assert(upsert(s, l) =~= seq![l]);
    } else if s[0].url == l.url {
        let r = upsert(s, l);
        assert(r =~= seq![l] + s.drop_first());
        assert forall|i: int, j: int| 0 <= i < j < r.len() implies r[i].url != r[j].url by {
            if i == 0 {
                assert(r[j] == s[j]);
                assert(s[0].url != s[j].url);
            } else {
                assert(r[i] == s[i] && r[j] == s[j]);
            }
        }
    } else {
        assert(store_wf_seq(s.drop_first())) by {
            assert(forall|i: int|
                0 <= i < s.drop_first().len() ==> #[trigger] s.drop_first()[i] == s[i + 1]);
        }
        lemma_upsert_wf(s.drop_first(), l);
        lemma_upsert_urls(s.drop_first(), l);
        let r = upsert(s, l);
        let rr = upsert(s.drop_first(), l);
        assert forall|i: int, j: int| 0 <= i < j < r.len() implies r[i].url != r[j].url by {
            if i == 0 {
                assert(r[j] == rr[j - 1]);
                if rr[j - 1].url == l.url {
                    assert(s[0].url != l.url);
                } else {
                    let e = rr[j - 1].url;
                    let w = choose|w: int|
                        0 <= w < s.drop_first().len() && s.drop_first()[w].url == e;
                    assert(s[w + 1].url == e);
                    assert(s[0].url != s[w + 1].url);
                }
            } else {
                assert(r[i] == rr[i - 1] && r[j] == rr[j - 1]);
            }
        }
        assert forall|i: int| 0 <= i < r.len() implies (#[trigger] r[i]).wf() by {
            if i == 0 {
                assert(r[0] == s[0]);
            } else {
                assert(r[i] == rr[i - 1]);
            }
        }
    }
}

/// `upsert` replaces in place when the URL is held at `k`, else appends.
proof fn lemma_upsert_exact(s: Seq<LinkView>, l: LinkView, k: int)
    requires
        0 <= k <= s.len(),
        forall|j: int| 0 <= j < k ==> s[j].url != l.url,
        k < s.len() ==> s[k].url == l.url,
    ensures
        upsert(s, l) == if k < s.len() {
            s.update(k, l)
        } else {
            s.push(l)
        },
    decreases k,
{
    if s.len() == 0 {
        assert(upsert(s, l) =~= s.push(l));
    } else if k == 0 && s[0].url == l.url {
        assert(upsert(s, l) =~= s.update(0, l));
    } else {
        assert(s[0].url != l.url);
        lemma_upsert_exact(s.drop_first(), l, if k > 0 { k - 1 } else { 0 });
        if k < s.len() {
            assert(upsert(s, l) =~= s.update(k, l));
        } else {
            assert(upsert(s, l) =~= s.push(l));
        }
    }
}

/// `lookup` finds the first record with the URL.
proof fn lemma_lookup_exact(s: Seq<LinkView>, url: Seq<char>, k: int)
    requires
        0 <= k <= s.len(),
        forall|j: int| 0 <= j < k ==> s[j].url != url,
        k < s.len() ==> s[k].url == url,
    ensures
        lookup(s, url) == if k < s.len() {
            Some(s[k])
        } else {
            None::<LinkView>
        },
    decreases k,
{
    if s.len() > 0 && !(k == 0 && s[0].url == url) {
        assert(s[0].url != url);
        lemma_lookup_exact(s.drop_first(), url, if k > 0 { k - 1 } else { 0 });
    }
}

/// The records matching a wildcard pattern over their URLs, in store order.
pub open spec fn spec_glob(s: Seq<LinkView>, p: Seq<char>) -> Seq<LinkView>
    decreases s.len(),
{
    if s.len() == 0 {
        Seq::empty()
    } else {
        let rest = spec_glob(s.drop_last(), p);
        if glob_matches(p, s.last().url) {
            rest.push(s.last())
        } else {
            rest
        }
    }
}

/// An in-memory link store: the reference model of the store boundary.
pub struct MemStore {
    pub links: Vec<Link>,
}

impl View for MemStore {
    type V = Seq<LinkView>;

    open spec fn view(&self) -> Seq<LinkView> {
        self.links.deep_view()
    }
}

impl MemStore {
    /// An empty store.
    pub fn new() -> (r: MemStore)
        ensures
            r@ == Seq::<LinkView>::empty(),
            store_wf_seq(r@),
    {
        let r = MemStore { links: Vec::new() };
        proof {
            assert(r@ =~= Seq::<LinkView>::empty());
        }
        r
    }

    /// Fetch by identity.
    pub fn get(&self, url: &str) -> (r: Option<Link>)
        ensures
            match r {
                Some(l) => lookup(self@, url@) == Some(l@),
                None => lookup(self@, url@) is None,
            },
    {
        let mut i: usize = 0;
        while i < self.links.len()
            invariant
                i <= self.links@.len(),
                forall|j: int| 0 <= j < i ==> self@[j].url != url@,
            decreases self.links@.len() - i,
        {
            if str_eq(self.links[i].url.as_str(), url) {
                proof {
                    lemma_lookup_exact(self@, url@, i as int);
                }
                return Some(self.links[i].clone());
            }
            i += 1;
        }
        proof {
            lemma_lookup_exact(self@, url@, self@.len() as int);
        }
        None
    }

    /// Upsert by identity; reports whether a row was affected (always, in
    /// this model).
    #[verifier::loop_isolation(false)]
    pub fn write(&mut self, link: Link) -> (r: bool)
        ensures
            final(self)@ == upsert(old(self)@, link@),
            r == true,
    {
        let ghost orig = self@;
        let ghost lv = link@;
        let mut i: usize = 0;
        let mut found: bool = false;
        let mut at: usize = 0;
        while i < self.links.len() && !found
            invariant
                i <= self.links@.len(),
                self@ == orig,
                !found ==> forall|j: int| 0 <= j < i ==> orig[j].url != lv.url,
                found ==> at < i && orig[at as int].url == lv.url && (forall|j: int|
                    0 <= j < at ==> orig[j].url != lv.url),
            decreases self.links@.len() - i + (if found { 0int } else { 1int }),
        {
            if str_eq(self.links[i].url.as_str(), link.url.as_str()) {
                found = true;
                at = i;
            }
            i += 1;
        }
        if found {
            self.links.set(at, link);
            proof {
                lemma_upsert_exact(orig, lv, at as int);
                assert(self@ =~= orig.update(at as int, lv));
            }
        } else {
            self.links.push(link);
            proof {
                lemma_upsert_exact(orig, lv, orig.len() as int);
                assert(self@ =~= orig.push(lv));
            }
        }
        true
    }

    /// Enumerate every record, in store order.
    pub fn values(&self) -> (r: Vec<Link>)
        ensures
            r.deep_view() == self@,
    {
        let mut r: Vec<Link> = Vec::new();
        let mut i: usize = 0;
        while i < self.links.len()
            invariant
                i <= self.links@.len(),
                r@.len() == i,
                forall|j: int| 0 <= j < i ==> #[trigger] r@[j]@ == self@[j],
            decreases self.links@.len() - i,
        {
            r.push(self.links[i].clone());
            i += 1;
        }
        proof {
            assert(r.deep_view() =~= self@);
        }
        r
    }

    /// Enumerate the records whose URL matches a shell-style wildcard.
    #[verifier::loop_isolation(false)]
    pub fn glob(&self, pattern: &str) -> (r: Vec<Link>)
        ensures
            r.deep_view() == spec_glob(self@, pattern@),
    {
        let mut r: Vec<Link> = Vec::new();
        let mut i: usize = 0;
        while i < self.links.len()
            invariant
                i <= self.links@.len(),
                r.deep_view() =~= spec_glob(self@.take(i as int), pattern@),
            decreases self.links@.len() - i,
        {
            if wild_match(pattern, self.links[i].url.as_str()) {
                let ghost prev = r.deep_view();
                r.push(self.links[i].clone());
                proof {
                    assert(r.deep_view() =~~= prev.push(self@[i as int]));
                }
            }
            i += 1;
            proof {
                assert(self@.take(i as int).drop_last() =~= self@.take(i - 1));
                assert(self@.take(i as int).last() == self@[i - 1]);
            }
        }
        proof {
            assert(self@.take(self@.len() as int) =~= self@);
        }
        r
    }
}

/// One draft's effect on the store: reconcile against the stored record
/// with the same URL, then write the result.
pub open spec fn spec_import_one(
    s: Seq<LinkView>,
    draft: LinkView,
    source: LinkSourceView,
    now: EpochMillis,
) -> Seq<LinkView> {
    upsert(s, spec_merge(draft, lookup(s, draft.url), source, now))
}

/// The store after importing the first `i` drafts.
pub open spec fn spec_import_upto(
    s: Seq<LinkView>,
    drafts: Seq<LinkView>,
    source: LinkSourceView,
    now: EpochMillis,
    i: int,
) -> Seq<LinkView>
    decreases i,
{
    if i <= 0 {
        s
    } else {
        spec_import_one(spec_import_upto(s, drafts, source, now, i - 1), drafts[i - 1], source, now)
    }
}

/// The store after importing a whole document.
pub open spec fn spec_import(
    s: Seq<LinkView>,
    source: LinkSourceView,
    now: EpochMillis,
) -> Seq<LinkView> {
    let drafts = spec_extract_doc(source.content);
    spec_import_upto(s, drafts, source, now, drafts.len() as int)
}

/// Imports one document: extracts its drafts, reconciles each against the
/// stored record with the same URL, and upserts the merged record. The
/// enrichment stages run separately, against the records this leaves
/// behind; nothing here touches their fields, so imported documents never
/// regress prior enrichment.
#[verifier::loop_isolation(false)]
pub fn process_input(store: &mut MemStore, source: &LinkSource, now: EpochMillis)
    requires
        store_wf_seq(old(store)@),
    ensures
        final(store)@ == spec_import(old(store)@, source@, now),
        store_wf_seq(final(store)@),
{
    let ghost s0 = store@;
    let drafts = extract_links(source);
    let ghost dv = drafts.deep_view();
    let mut i: usize = 0;
    while i < drafts.len()
        invariant
            i <= drafts@.len(),
            dv == drafts.deep_view(),
            dv.len() == drafts@.len(),
            dv == spec_extract_doc(source@.content),
            store@ == spec_import_upto(s0, dv, source@, now, i as int),
            store_wf_seq(store@),
            forall|a: int| 0 <= a < dv.len() ==> (#[trigger] dv[a]).wf(),
        decreases drafts@.len() - i,
    {
        let draft = drafts[i].clone();
        let stored = store.get(draft.url.as_str());
        let ghost stored_v = stored.deep_view();
        proof {
            if stored_v is Some {
                lemma_lookup_wf(store@, draft@.url);
            }
        }
        proof {
            assert(draft@ == dv[i as int]);
        }
        let merged = enrich_link(draft, stored, source, now);
        proof {
            assert(merged@.wf());
            lemma_upsert_wf(store@, merged@);
        }
        store.write(merged);
        i += 1;
    }
}

/// A looked-up record is well-formed when the store is.
proof fn lemma_lookup_wf(s: Seq<LinkView>, url: Seq<char>)
    requires
        store_wf_seq(s),
        lookup(s, url) is Some,
    ensures
        lookup(s, url)->Some_0.wf(),
    decreases s.len(),
{
    if s.len() > 0 && s[0].url != url {
        assert(store_wf_seq(s.drop_first())) by {
            assert(forall|i: int|
                0 <= i < s.drop_first().len() ==> #[trigger] s.drop_first()[i] == s[i + 1]);
        }
        lemma_lookup_wf(s.drop_first(), url);
    }
}

/// A stored record is filed under its own URL.
pub proof fn lemma_lookup_url(s: Seq<LinkView>, u: Seq<char>)
    requires
        lookup(s, u) is Some,
    ensures
        lookup(s, u)->Some_0.url == u,
    decreases s.len(),
{
    if s.len() > 0 && s[0].url != u {
        lemma_lookup_url(s.drop_first(), u);
    }
}

/// The merge keeps the identity and replaces the tags with the draft's,
/// and preserves well-formedness.
pub proof fn lemma_merge_shape(
    d: LinkView,
    st: Option<LinkView>,
    source: LinkSourceView,
    now: EpochMillis,
)
    ensures
        spec_merge(d, st, source, now).tags == d.tags,
        st is None ==> spec_merge(d, st, source, now).url == d.url,
        st matches Some(k) ==> spec_merge(d, st, source, now).url == k.url,
        d.wf() && (st matches Some(k) ==> k.wf()) ==> spec_merge(d, st, source, now).wf(),
{
}

/// Appending a draft does not change where earlier URLs are found.
proof fn lemma_draft_index_push(ds: Seq<LinkView>, x: LinkView, u: Seq<char>)
    ensures
        draft_index(ds.push(x), u) == if draft_index(ds, u) < ds.len() {
            draft_index(ds, u)
        } else if x.url == u {
            ds.len() as int
        } else {
            ds.len() + 1int
        },
    decreases ds.len(),
{
    crate::extract::lemma_draft_index(ds, u);
    crate::extract::lemma_draft_index(ds.push(x), u);
    if ds.len() == 0 {
        assert(ds.push(x).drop_first() =~= Seq::<LinkView>::empty());
        assert(ds.push(x)[0] == x);
    } else if ds[0].url != u {
        crate::extract::lemma_draft_index(ds.drop_first(), u);
        lemma_draft_index_push(ds.drop_first(), x, u);
        assert(ds.push(x).drop_first() =~= ds.drop_first().push(x));
        assert(ds.push(x)[0] == ds[0]);
        assert(draft_index(ds.push(x), u) == 1 + draft_index(ds.drop_first().push(x), u));
        assert(draft_index(ds, u) == 1 + draft_index(ds.drop_first(), u));
    }
}

/// Importing drafts preserves the store invariant.
pub proof fn lemma_import_upto_wf(
    s: Seq<LinkView>,
    drafts: Seq<LinkView>,
    source: LinkSourceView,
    now: EpochMillis,
    i: int,
)
    requires
        0 <= i <= drafts.len(),
        store_wf_seq(s),
        forall|a: int| 0 <= a < drafts.len() ==> (#[trigger] drafts[a]).wf(),
    ensures
        store_wf_seq(spec_import_upto(s, drafts, source, now, i)),
    decreases i,
{
    if i > 0 {
        lemma_import_upto_wf(s, drafts, source, now, i - 1);
        let prev = spec_import_upto(s, drafts, source, now, i - 1);
        let d = drafts[i - 1];
        let st = lookup(prev, d.url);
        if st is Some {
            lemma_lookup_wf(prev, d.url);
        }
        lemma_merge_shape(d, st, source, now);
        lemma_upsert_wf(prev, spec_merge(d, st, source, now));
    }
}

/// Where each URL stands after importing the first `i` drafts: a URL named
/// by one of them holds a record with exactly that draft's tags; any other
/// URL reads as before the import.
pub proof fn lemma_import_upto_lookup(
    s: Seq<LinkView>,
    drafts: Seq<LinkView>,
    source: LinkSourceView,
    now: EpochMillis,
    i: int,
    u: Seq<char>,
)
    requires
        0 <= i <= drafts.len(),
        forall|a: int, b: int| 0 <= a < b < drafts.len() ==> drafts[a].url != drafts[b].url,
    ensures
        ({
            let r = spec_import_upto(s, drafts, source, now, i);
            let di = draft_index(drafts.take(i), u);
            &&& (di == i ==> lookup(r, u) == lookup(s, u))
            &&& (di < i ==> match lookup(r, u) {
                Some(l) => l.url == u && l.tags == drafts[di].tags,
                None => false,
            })
        }),
    decreases i,
{
    crate::extract::lemma_draft_index(drafts.take(i), u);
    if i > 0 {
        lemma_import_upto_lookup(s, drafts, source, now, i - 1, u);
        crate::extract::lemma_draft_index(drafts.take(i - 1), u);
        let prev = spec_import_upto(s, drafts, source, now, i - 1);
        let r = spec_import_upto(s, drafts, source, now, i);
        let d = drafts[i - 1];
        let st = lookup(prev, d.url);
        let merged = spec_merge(d, st, source, now);
        if st is Some {
            lemma_lookup_url(prev, d.url);
        }
        lemma_merge_shape(d, st, source, now);
        assert(merged.url == d.url);
        lemma_upsert_lookup(prev, merged, u);
        lemma_draft_index_push(drafts.take(i - 1), d, u);
        assert(drafts.take(i - 1).push(d) =~= drafts.take(i));
        let di1 = draft_index(drafts.take(i - 1), u);
        let di = draft_index(drafts.take(i), u);
        if u == d.url {
            assert(lookup(r, u) == Some(merged));
            assert(di < i);
            assert(drafts.take(i)[di].url == u);
            if di < i - 1 {
                assert(drafts[di].url == u && drafts[i - 1].url == u);
                assert(false);
            }
            assert(di == i - 1);
            assert(merged.tags == d.tags);
        } else {
            assert(lookup(r, u) == lookup(prev, u));
            if di1 < i - 1 {
                assert(di == di1);
                assert(drafts.take(i)[di] == drafts.take(i - 1)[di1]);
            } else {
                assert(di == i);
            }
        }
    } else {
        assert(drafts.take(0) =~= Seq::<LinkView>::empty());
    }
}

/// The drafts a document extracts are unique by URL and well-formed, at
/// the spec level.
pub proof fn lemma_extract_doc_wf(text: Seq<char>)
    ensures
        forall|a: int, b: int|
            0 <= a < b < spec_extract_doc(text).len() ==> spec_extract_doc(text)[a].url
                != spec_extract_doc(text)[b].url,
        forall|a: int|
            0 <= a < spec_extract_doc(text).len() ==> (#[trigger] spec_extract_doc(text)[a]).wf(),
{
    let lines = crate::extract::spec_lines(text);
    crate::extract::lemma_fold_wf(lines, lines.len() as int);
    crate::extract::lemma_flush_wf(crate::extract::spec_fold(lines, lines.len() as int));
    let folded = crate::extract::spec_flush(
        crate::extract::spec_fold(lines, lines.len() as int),
    ).drafts;
    let mapped = spec_extract_doc(text);
    assert(mapped =~= folded.map_values(|d: LinkView| crate::extract::normalize_notes(d)));
    assert forall|a: int, b: int|
        0 <= a < b < mapped.len() implies mapped[a].url != mapped[b].url by {
        assert(mapped[a].url == folded[a].url);
        assert(mapped[b].url == folded[b].url);
    }
    assert forall|a: int| 0 <= a < mapped.len() implies (#[trigger] mapped[a]).wf() by {
        assert(folded[a].wf());
        assert(mapped[a].tags == folded[a].tags);
        assert(mapped[a].meta == folded[a].meta);
        assert(mapped[a].http_headers == folded[a].http_headers);
    }
}

/// Importing the same document twice is as good as once: the store keeps
/// a single record per URL, the second import stores records for exactly
/// the URLs the first did, and each record's tag set after the second
/// import equals its tag set after the first (tag union is idempotent
/// because extraction is a pure function of the document and the merge
/// replaces tags with the draft's).
pub proof fn lemma_reimport_idempotent(
    s0: Seq<LinkView>,
    source: LinkSourceView,
    now1: EpochMillis,
    now2: EpochMillis,
    u: Seq<char>,
)
    requires
        store_wf_seq(s0),
    ensures
        ({
            let s1 = spec_import(s0, source, now1);
            let s2 = spec_import(s1, source, now2);
            &&& store_wf_seq(s2)
            &&& (lookup(s2, u) is Some <==> lookup(s1, u) is Some)
            &&& match (lookup(s1, u), lookup(s2, u)) {
                (Some(l1), Some(l2)) => l1.tags == l2.tags,
                (None, None) => true,
                _ => false,
            }
        }),
{
    let drafts = spec_extract_doc(source.content);
    lemma_extract_doc_wf(source.content);
    let s1 = spec_import(s0, source, now1);
    let s2 = spec_import(s1, source, now2);
    lemma_import_upto_wf(s0, drafts, source, now1, drafts.len() as int);
    lemma_import_upto_wf(s1, drafts, source, now2, drafts.len() as int);
    lemma_import_upto_lookup(s0, drafts, source, now1, drafts.len() as int, u);
    lemma_import_upto_lookup(s1, drafts, source, now2, drafts.len() as int, u);
    assert(drafts.take(drafts.len() as int) =~= drafts);
    crate::extract::lemma_draft_index(drafts, u);
}

/// Two records agree on every enrichment-derived field.
pub open spec fn enrichment_eq(l: LinkView, k: LinkView) -> bool {
    &&& l.src == k.src
    &&& l.extracted_text == k.extracted_text
    &&& l.meta == k.meta
    &&& l.http_headers == k.http_headers
    &&& l.last_fetched == k.last_fetched
    &&& l.last_processed == k.last_processed
    &&& l.image == k.image
    &&& l.published_at == k.published_at
}

/// Importing bare drafts never disturbs enrichment: a URL already stored
/// keeps every enrichment-derived field, a URL that was absent gains a
/// record with none, and no stored URL disappears.
proof fn lemma_import_upto_enrichment(
    s: Seq<LinkView>,
    drafts: Seq<LinkView>,
    source: LinkSourceView,
    now: EpochMillis,
    i: int,
    u: Seq<char>,
)
    requires
        0 <= i <= drafts.len(),
        forall|a: int| 0 <= a < drafts.len() ==> crate::extract::draft_bare(#[trigger] drafts[a]),
    ensures
        ({
            let r = spec_import_upto(s, drafts, source, now, i);
            match (lookup(s, u), lookup(r, u)) {
                (Some(k), Some(l)) => enrichment_eq(l, k),
                (Some(k), None) => false,
                (None, Some(l)) => crate::extract::draft_bare(l),
                (None, None) => true,
            }
        }),
    decreases i,
{
    if i > 0 {
        lemma_import_upto_enrichment(s, drafts, source, now, i - 1, u);
        let prev = spec_import_upto(s, drafts, source, now, i - 1);
        let r = spec_import_upto(s, drafts, source, now, i);
        let d = drafts[i - 1];
        lemma_import_upto_enrichment(s, drafts, source, now, i - 1, d.url);
        let st = lookup(prev, d.url);
        let merged = spec_merge(d, st, source, now);
        if st is Some {
            lemma_lookup_url(prev, d.url);
        }
        lemma_merge_shape(d, st, source, now);
        lemma_upsert_lookup(prev, merged, u);
        assert(enrichment_eq(merged, match st {
            Some(k) => k,
            None => d,
        }));
    }
}

/// The merge preserves enrichment across a whole import: every record
/// already in the store keeps its fetched bytes, extracted text, metadata
/// table, response headers, representative image, publish date and both
/// stage markers through a re-import, whatever the document changes.
pub proof fn lemma_import_preserves_enrichment(
    s: Seq<LinkView>,
    source: LinkSourceView,
    now: EpochMillis,
    u: Seq<char>,
)
    ensures
        ({
            let r = spec_import(s, source, now);
            match (lookup(s, u), lookup(r, u)) {
                (Some(k), Some(l)) => enrichment_eq(l, k),
                (Some(k), None) => false,
                (None, Some(l)) => crate::extract::draft_bare(l),
                (None, None) => true,
            }
        }),
{
    let drafts = spec_extract_doc(source.content);
    crate::extract::lemma_extract_doc_bare(source.content);
    lemma_import_upto_enrichment(s, drafts, source, now, drafts.len() as int, u);
}

/// An abnormally aborted PDF extraction still ends in a persisted record:
/// the stage, handed the abort as an absent text, sets the processing
/// marker and clears the extracted text, changes nothing else, and writing
/// that record stores it under its URL exactly so — marker set, no text.
pub proof fn lemma_pdf_abort_persisted(l: LinkView, now: EpochMillis, s: Seq<LinkView>)
    requires
        crate::pipeline::spec_pdf_applies(l),
    ensures
        ({
            let processed = LinkView { last_processed: Some(now), extracted_text: None, ..l };
            &&& processed.last_processed == Some(now)
            &&& processed.extracted_text is None
            &&& processed.url == l.url
            &&& lookup(upsert(s, processed), l.url) == Some(processed)
        }),
{
    let processed = LinkView { last_processed: Some(now), extracted_text: None, ..l };
    lemma_upsert_lookup(s, processed, l.url);
}

} // verus!
