//! The markdown extractor.
//!
//! A link-dump document is a markdown bulleted list. Each top-level list
//! item names one link, either as an inline anchor
//! (`[title](https://url "title")`) or as plain text scanned for an
//! `http`/`https` token. A list nested under an item carries metadata
//! blocks: `tags:` (comma-separated, with optional nested tag items),
//! `via:` (provenance, last occurrence wins) and `notes:` (nested items
//! joined by newlines). Unrecognised keys are ignored.
//!
//! The extractor works line by line: a line's indentation decides whether
//! it opens a new link item, a metadata block, or continues one. An
//! indented non-item line directly under a link item lazily continues the
//! item's paragraph, joined on a fresh line, as block-level paragraphs
//! wrap. Items
//! whose paragraph yields no URL are skipped; the document as a whole never
//! fails. Two items naming the same URL accumulate into a single draft:
//! the first extraction wins for title and URL, tags union, notes
//! concatenate, via last-wins.

use vstd::prelude::*;

use crate::link::Link;
use crate::link::LinkView;
use crate::link::Via;
use crate::link::ViaView;
use crate::link::tags_wf;
use crate::merge::LinkSource;
use crate::text::copy_range;
use crate::text::find_char;
use crate::text::lemma_scan_while_bounds;
use crate::text::lemma_spec_find_bounds;
use crate::text::lemma_spec_find_exact;
use crate::text::range_eq_str;
use crate::text::scan_while;
use crate::text::spec_find;
use crate::text::spec_starts_with;
use crate::text::spec_trim_range;
use crate::text::spec_trim_ws;
use crate::text::starts_with_at;
use crate::text::string_from_chars;
use crate::text::string_from_range;
use crate::text::trim_pred_range;
use crate::text::trim_ws_range;
use crate::text::TrimSet;
use crate::text::is_ws;

verus! {

/// A line with a trailing carriage return loses it.
pub open spec fn strip_cr(l: Seq<char>) -> Seq<char> {
    if l.len() > 0 && l.last() == '\r' {
        l.drop_last()
    } else {
        l
    }
}

/// The lines of `s` from `start` on, split at `\n`, each without its
/// trailing carriage return.
pub open spec fn spec_lines_from(s: Seq<char>, start: int) -> Seq<Seq<char>>
    decreases s.len() - start
        when 0 <= start <= s.len()
        via spec_lines_from_dec
{
    let e = spec_find(s, '\n', start);
    let line = strip_cr(s.subrange(start, e));
    if e < s.len() {
        seq![line] + spec_lines_from(s, e + 1)
    } else {
        seq![line]
    }
}

#[via_fn]
proof fn spec_lines_from_dec(s: Seq<char>, start: int) {
    lemma_spec_find_bounds(s, '\n', start);
}

/// The lines of a document.
pub open spec fn spec_lines(s: Seq<char>) -> Seq<Seq<char>> {
    spec_lines_from(s, 0)
}

/// Splits a document into lines at `\n`, dropping one trailing `\r` per
/// line so CRLF documents read the same as LF ones.
pub fn split_lines(t: &[char]) -> (r: Vec<Vec<char>>)
    ensures
        r.deep_view() == spec_lines(t@),
{
    let mut r: Vec<Vec<char>> = Vec::new();
    let mut pos: usize = 0;
    loop
        invariant_except_break
            pos <= t@.len(),
            spec_lines(t@) == r.deep_view() + spec_lines_from(t@, pos as int),
        ensures
            r.deep_view() == spec_lines(t@),
        decreases t@.len() - pos,
    {
        let e = find_char(t, pos, '\n');
        let cut: usize = if e > pos && t[e - 1] == '\r' {
            e - 1
        } else {
            e
        };
        let line = copy_range(t, pos, cut);
        proof {
            assert(line@ =~= strip_cr(t@.subrange(pos as int, e as int)));
        }
        let ghost prev = r.deep_view();
        r.push(line);
        proof {
            assert(r.deep_view() =~~= prev.push(line@));
        }
        if e < t.len() {
            proof {
                assert(spec_lines_from(t@, pos as int) == seq![line@] + spec_lines_from(t@, e + 1));
                assert(prev + (seq![line@] + spec_lines_from(t@, e + 1)) =~= prev.push(line@)
                    + spec_lines_from(t@, e + 1));
            }
            pos = e + 1;
        } else {
            proof {
                assert(spec_lines_from(t@, pos as int) == seq![line@]);
                assert(prev + seq![line@] =~= prev.push(line@));
            }
            break ;
        }
    }
    r
}

/// The pieces of `s[start..]` split at commas (not trimmed).
pub open spec fn spec_split_commas(s: Seq<char>, start: int) -> Seq<Seq<char>>
    decreases s.len() - start
        when 0 <= start <= s.len()
        via spec_split_commas_dec
{
    let e = spec_find(s, ',', start);
    let piece = s.subrange(start, e);
    if e < s.len() {
        seq![piece] + spec_split_commas(s, e + 1)
    } else {
        seq![piece]
    }
}

#[via_fn]
proof fn spec_split_commas_dec(s: Seq<char>, start: int) {
    lemma_spec_find_bounds(s, ',', start);
}

/// Splits `t` at commas.
pub fn split_commas(t: &[char]) -> (r: Vec<Vec<char>>)
    ensures
        r.deep_view() == spec_split_commas(t@, 0),
{
    let mut r: Vec<Vec<char>> = Vec::new();
    let mut pos: usize = 0;
    loop
        invariant_except_break
            pos <= t@.len(),
            spec_split_commas(t@, 0) == r.deep_view() + spec_split_commas(t@, pos as int),
        ensures
            r.deep_view() == spec_split_commas(t@, 0),
        decreases t@.len() - pos,
    {
        let e = find_char(t, pos, ',');
        let piece = copy_range(t, pos, e);
        let ghost prev = r.deep_view();
        r.push(piece);
        proof {
            assert(r.deep_view() =~~= prev.push(t@.subrange(pos as int, e as int)));
        }
        if e < t.len() {
            proof {
                assert(spec_split_commas(t@, pos as int) == seq![t@.subrange(pos as int, e as int)]
                    + spec_split_commas(t@, e + 1));
                assert(prev + (seq![t@.subrange(pos as int, e as int)] + spec_split_commas(
                    t@,
                    e + 1,
                )) =~= prev.push(t@.subrange(pos as int, e as int)) + spec_split_commas(t@, e + 1));
            }
            pos = e + 1;
        } else {
            proof {
                assert(spec_split_commas(t@, pos as int) == seq![
                    t@.subrange(pos as int, e as int),
                ]);
                assert(prev + seq![t@.subrange(pos as int, e as int)] =~= prev.push(
                    t@.subrange(pos as int, e as int),
                ));
            }
            break ;
        }
    }
    r
}

/// What a `via:` remainder means: `@handle` is a friend, an `http`/`https`
/// scheme is a link, anything else is free-form text.
pub open spec fn spec_parse_via(t: Seq<char>) -> ViaView {
    if t.len() > 0 && t[0] == '@' {
        ViaView::Friend(spec_trim_ws(t))
    } else if ({
        let k = spec_find(t, ':', 0);
        t.subrange(0, k) == "http"@ || t.subrange(0, k) == "https"@
    }) {
        ViaView::Link(spec_trim_ws(t))
    } else {
        ViaView::Freeform(t)
    }
}

/// Parses the text after `via:` into a provenance tag.
pub fn parse_via(text: &str) -> (r: Via)
    ensures
        r@ == spec_parse_via(text@),
{
    let t = crate::text::chars_of(text);
    parse_via_chars(&t)
}

/// Parses a provenance tag from a character buffer.
pub fn parse_via_chars(t: &[char]) -> (r: Via)
    ensures
        r@ == spec_parse_via(t@),
{
    if t.len() > 0 && t[0] == '@' {
        let (lo, hi) = trim_ws_range(t, 0, t.len());
        proof {
            assert(t@.subrange(0, t@.len() as int) =~= t@);
        }
        return Via::Friend(string_from_range(t, lo, hi));
    }
    let k = find_char(t, 0, ':');
    if range_eq_str(t, 0, k, "http") || range_eq_str(t, 0, k, "https") {
        let (lo, hi) = trim_ws_range(t, 0, t.len());
        proof {
            assert(t@.subrange(0, t@.len() as int) =~= t@);
        }
        Via::Link(string_from_range(t, lo, hi))
    } else {
        Via::Freeform(string_from_range(t, 0, t.len()))
    }
}

/// Adds each comma-separated piece, trimmed, skipping empties and
/// duplicates: tag sets only ever grow with fresh, non-empty tags.
pub open spec fn spec_add_tags(tags: Seq<Seq<char>>, pieces: Seq<Seq<char>>) -> Seq<Seq<char>>
    decreases pieces.len(),
{
    if pieces.len() == 0 {
        tags
    } else {
        let prev = spec_add_tags(tags, pieces.drop_last());
        let p = spec_trim_ws(pieces.last());
        if p.len() > 0 && !prev.contains(p) {
            prev.push(p)
        } else {
            prev
        }
    }
}

/// Growing a tag set keeps it well-formed.
pub proof fn lemma_add_tags_wf(tags: Seq<Seq<char>>, pieces: Seq<Seq<char>>)
    requires
        tags_wf(tags),
    ensures
        tags_wf(spec_add_tags(tags, pieces)),
    decreases pieces.len(),
{
    if pieces.len() > 0 {
        lemma_add_tags_wf(tags, pieces.drop_last());
        let prev = spec_add_tags(tags, pieces.drop_last());
        let p = spec_trim_ws(pieces.last());
        if p.len() > 0 && !prev.contains(p) {
            assert forall|i: int, j: int|
                0 <= i < j < prev.push(p).len() implies prev.push(p)[i] != prev.push(p)[j] by {
                if j == prev.len() {
                    assert(!prev.contains(p));
                    assert(prev[i] != p);
                }
            }
        }
    }
}

/// Whether a tag is already present.
#[verifier::loop_isolation(false)]
fn tags_contain(tags: &Vec<String>, piece: &[char], from: usize, to: usize) -> (r: bool)
    requires
        from <= to <= piece@.len(),
    ensures
        r == tags.deep_view().contains(piece@.subrange(from as int, to as int)),
{
    let ghost target = piece@.subrange(from as int, to as int);
    let n: usize = to - from;
    let mut i: usize = 0;
    while i < tags.len()
        invariant
            i <= tags@.len(),
            forall|j: int| 0 <= j < i ==> tags.deep_view()[j] != target,
        decreases tags@.len() - i,
    {
        let tag: &String = &tags[i];
        let tn: usize = vstd::string::StrSliceExecFns::unicode_len(tag.as_str());
        proof {
            assert(tags.deep_view()[i as int] == tags@[i as int]@);
        }
        if tn == n {
            let mut k: usize = 0;
            let mut mismatch = false;
            while k < n
                invariant
                    k <= n,
                    tn == n,
                    i < tags@.len(),
                    tag == tags@[i as int],
                    tag@.len() == n,
                    !mismatch ==> forall|j: int| 0 <= j < k ==> tag@[j] == target[j],
                    mismatch ==> tag@ != target,
                decreases n - k,
            {
                if vstd::string::StrSliceExecFns::get_char(tag.as_str(), k) != piece[from + k] {
                    proof {
                        assert(target[k as int] == piece@[from + k]);
                    }
                    mismatch = true;
                }
                k += 1;
            }
            if !mismatch {
                proof {
                    assert(tag@ =~= target);
                }
                return true;
            }
        } else {
            proof {
                assert(tag@.len() != target.len());
            }
        }
        i += 1;
    }
    proof {
        assert(!tags.deep_view().contains(target));
    }
    false
}

/// Unions the comma-separated pieces of `rest` into `tags`.
#[verifier::loop_isolation(false)]
pub fn add_tags(tags: &mut Vec<String>, rest: &[char])
    ensures
        final(tags).deep_view() == spec_add_tags(
            old(tags).deep_view(),
            spec_split_commas(rest@, 0),
        ),
{
    let pieces = split_commas(rest);
    let ghost all = pieces.deep_view();
    let ghost orig = tags.deep_view();
    let mut i: usize = 0;
    while i < pieces.len()
        invariant
            i <= pieces@.len(),
            all == pieces.deep_view(),
            all.len() == pieces@.len(),
            tags.deep_view() == spec_add_tags(orig, all.take(i as int)),
        decreases pieces@.len() - i,
    {
        let piece: &Vec<char> = &pieces[i];
        let (lo, hi) = trim_ws_range(piece.as_slice(), 0, piece.len());
        proof {
            assert(piece@.subrange(0, piece@.len() as int) =~= piece@);
            assert(all.take(i + 1).drop_last() =~= all.take(i as int));
            assert(all.take(i + 1).last() == all[i as int]);
            assert(all[i as int] == piece@);
        }
        if hi > lo && !tags_contain(tags, piece.as_slice(), lo, hi) {
            let tag = string_from_range(piece.as_slice(), lo, hi);
            tags.push(tag);
            proof {
                assert(tags.deep_view() =~= spec_add_tags(orig, all.take(i + 1)));
            }
        } else {
            proof {
                assert(tags.deep_view() =~= spec_add_tags(orig, all.take(i + 1)));
            }
        }
        i += 1;
    }
    proof {
        assert(all.take(all.len() as int) =~= all);
    }
}

/// What the `url` crate's parse-and-reserialise produces for a string:
/// `None` when the string is no absolute URL, otherwise the canonical
/// serialisation. A function of the string alone.
pub uninterp spec fn url_normalized(s: Seq<char>) -> Option<Seq<char>>;

/// Relies on url::Url::parse and Url::to_string: parses an absolute URL and
/// reserialises it canonically; the outcome depends on the input alone.
#[verifier::external_body]
fn normalize_url(s: &str) -> (r: Option<String>)
    ensures
        match (r, url_normalized(s@)) {
            (Some(out), Some(n)) => out@ == n,
            (None, None) => true,
            _ => false,
        },
{
    match s.parse::<url::Url>() {
        Ok(u) => Some(u.to_string()),
        Err(_) => None,
    }
}

/// A URL's identity keeps everything before its first `#`.
pub open spec fn strip_fragment(u: Seq<char>) -> Seq<char> {
    u.subrange(0, spec_find(u, '#', 0))
}

/// Cuts `t` at its first `#`, dropping the fragment.
pub fn cut_fragment(t: &Vec<char>) -> (r: Vec<char>)
    ensures
        r@ == strip_fragment(t@),
{
    let e = find_char(t.as_slice(), 0, '#');
    copy_range(t.as_slice(), 0, e)
}

/// `t` without any backslash characters (markdown escapes removed).
pub open spec fn remove_backslashes(t: Seq<char>) -> Seq<char>
    decreases t.len(),
{
    if t.len() == 0 {
        Seq::empty()
    } else {
        let prev = remove_backslashes(t.drop_last());
        if t.last() == '\\' {
            prev
        } else {
            prev.push(t.last())
        }
    }
}

/// Strips every backslash out of `t`.
#[verifier::loop_isolation(false)]
pub fn strip_backslashes(t: &[char]) -> (r: Vec<char>)
    ensures
        r@ == remove_backslashes(t@),
{
    let mut r: Vec<char> = Vec::new();
    let mut i: usize = 0;
    while i < t.len()
        invariant
            i <= t@.len(),
            r@ == remove_backslashes(t@.take(i as int)),
        decreases t@.len() - i,
    {
        if t[i] != '\\' {
            r.push(t[i]);
        }
        i += 1;
        proof {
            assert(t@.take(i as int).drop_last() =~= t@.take(i - 1));
            assert(t@.take(i as int).last() == t@[i - 1]);
        }
    }
    proof {
        assert(t@.take(t@.len() as int) =~= t@);
    }
    r
}

/// What an inline anchor starting at the `[` at index `i` yields: the
/// fragment-stripped destination and a title — the quoted title attribute
/// when it trims to something, else the anchor's inner text.
pub open spec fn spec_parse_anchor_at(t: Seq<char>, i: int) -> Option<(Seq<char>, Seq<char>)>
    recommends
        0 <= i < t.len(),
{
    let close = spec_find(t, ']', i + 1);
    if close < t.len() && close + 1 < t.len() && t[close + 1] == '(' {
        let endp = spec_find(t, ')', close + 2);
        if endp < t.len() {
            let inner = t.subrange(i + 1, close);
            let paren = t.subrange(close + 2, endp);
            let sp = spec_find(paren, ' ', 0);
            let dest = paren.subrange(0, sp);
            let titlepart = spec_trim_ws(paren.subrange(sp, paren.len() as int));
            let quoted = if titlepart.len() >= 2 && titlepart.first() == '"' && titlepart.last()
                == '"' {
                spec_trim_ws(titlepart.subrange(1, titlepart.len() - 1))
            } else {
                Seq::empty()
            };
            let title = if quoted.len() > 0 {
                quoted
            } else {
                inner
            };
            Some((strip_fragment(dest), title))
        } else {
            None
        }
    } else {
        None
    }
}

/// The first well-formed inline anchor at or after `i`, if any.
pub open spec fn spec_find_anchor(t: Seq<char>, i: int) -> Option<(Seq<char>, Seq<char>)>
    decreases t.len() - i
        when 0 <= i <= t.len()
{
    if i >= t.len() {
        None
    } else if t[i] == '[' {
        match spec_parse_anchor_at(t, i) {
            Some(x) => Some(x),
            None => spec_find_anchor(t, i + 1),
        }
    } else {
        spec_find_anchor(t, i + 1)
    }
}

/// Reads the anchor starting at the `[` at index `i`, if well formed.
#[verifier::loop_isolation(false)]
fn parse_anchor_at(t: &[char], i: usize) -> (r: Option<(Vec<char>, Vec<char>)>)
    requires
        i < t@.len(),
    ensures
        match (r, spec_parse_anchor_at(t@, i as int)) {
            (Some(out), Some(s)) => out.0@ == s.0 && out.1@ == s.1,
            (None, None) => true,
            _ => false,
        },
{
    let n: usize = t.len();
    let close = find_char(t, i + 1, ']');
    if !(close < t.len() && close + 1 < t.len() && t[close + 1] == '(') {
        return None;
    }
    let endp = find_char(t, close + 2, ')');
    if !(endp < t.len()) {
        return None;
    }
    let inner = copy_range(t, i + 1, close);
    let paren = copy_range(t, close + 2, endp);
    let sp = find_char(paren.as_slice(), 0, ' ');
    let dest = copy_range(paren.as_slice(), 0, sp);
    let (tlo, thi) = trim_ws_range(paren.as_slice(), sp, paren.len());
    proof {
        assert(paren@.subrange(sp as int, paren@.len() as int) =~= t@.subrange(
            close + 2,
            endp as int,
        ).subrange(sp as int, t@.subrange(close + 2, endp as int).len() as int));
    }
    let ghost titlepart = spec_trim_ws(paren@.subrange(sp as int, paren@.len() as int));
    proof {
        assert(paren@.subrange(tlo as int, thi as int) == titlepart);
    }
    let title: Vec<char> = if thi - tlo >= 2 && paren[tlo] == '"' && paren[thi - 1] == '"' {
        let (qlo, qhi) = trim_ws_range(paren.as_slice(), tlo + 1, thi - 1);
        proof {
            assert(titlepart.first() == '"' && titlepart.last() == '"');
            assert(paren@.subrange(tlo + 1, thi - 1) =~= titlepart.subrange(
                1,
                titlepart.len() - 1,
            ));
        }
        let quoted = copy_range(paren.as_slice(), qlo, qhi);
        if quoted.len() > 0 {
            quoted
        } else {
            inner
        }
    } else {
        proof {
            if titlepart.len() >= 2 {
                assert(titlepart.first() == paren@[tlo as int]);
                assert(titlepart.last() == paren@[thi - 1]);
            }
        }
        inner
    };
    Some((cut_fragment(&dest), title))
}

/// The first well-formed inline anchor in `t`, if any.
#[verifier::loop_isolation(false)]
fn find_anchor(t: &[char]) -> (r: Option<(Vec<char>, Vec<char>)>)
    ensures
        match (r, spec_find_anchor(t@, 0)) {
            (Some(out), Some(s)) => out.0@ == s.0 && out.1@ == s.1,
            (None, None) => true,
            _ => false,
        },
{
    let mut i: usize = 0;
    while i < t.len()
        invariant
            i <= t@.len(),
            spec_find_anchor(t@, 0) == spec_find_anchor(t@, i as int),
        decreases t@.len() - i,
    {
        if t[i] == '[' {
            let a = parse_anchor_at(t, i);
            if a.is_some() {
                return a;
            }
        }
        i += 1;
    }
    None
}

/// The characters on which the plain-text scan splits tokens.
pub open spec fn is_scan_delim(c: char) -> bool {
    c == '-' || c == ':' || c == ' '
}

/// The start of the first `http`/`https` token of `t` at or after token
/// start `p`, or `t.len()` when there is none.
pub open spec fn spec_find_scheme(t: Seq<char>, p: int) -> int
    decreases t.len() - p
        when 0 <= p <= t.len()
        via spec_find_scheme_dec
{
    if p >= t.len() {
        p
    } else {
        let q = scan_while(t, |c: char| !is_scan_delim(c), p);
        let piece = t.subrange(p, q);
        if piece == "http"@ || piece == "https"@ {
            p
        } else if q >= t.len() {
            t.len() as int
        } else {
            spec_find_scheme(t, q + 1)
        }
    }
}

#[via_fn]
proof fn spec_find_scheme_dec(t: Seq<char>, p: int) {
    if p < t.len() {
        lemma_scan_while_bounds(t, |c: char| !is_scan_delim(c), p);
    }
}

/// Index of the first scan delimiter at or after `from`.
#[verifier::loop_isolation(false)]
fn scan_to_delim(t: &[char], from: usize) -> (r: usize)
    requires
        from <= t@.len(),
    ensures
        r == scan_while(t@, |c: char| !is_scan_delim(c), from as int),
        from <= r <= t@.len(),
{
    let mut i: usize = from;
    while i < t.len() && !(t[i] == '-' || t[i] == ':' || t[i] == ' ')
        invariant
            from <= i <= t@.len(),
            scan_while(t@, |c: char| !is_scan_delim(c), from as int) == scan_while(
                t@,
                |c: char| !is_scan_delim(c),
                i as int,
            ),
        decreases t@.len() - i,
    {
        i += 1;
    }
    i
}

/// Index of the first whitespace character at or after `from`.
#[verifier::loop_isolation(false)]
fn scan_to_ws(t: &[char], from: usize) -> (r: usize)
    requires
        from <= t@.len(),
    ensures
        r == scan_while(t@, |c: char| !is_ws(c), from as int),
        from <= r <= t@.len(),
{
    let mut i: usize = from;
    while i < t.len() && !(t[i] == ' ' || t[i] == '\t' || t[i] == '\r' || t[i] == '\n')
        invariant
            from <= i <= t@.len(),
            scan_while(t@, |c: char| !is_ws(c), from as int) == scan_while(
                t@,
                |c: char| !is_ws(c),
                i as int,
            ),
        decreases t@.len() - i,
    {
        i += 1;
    }
    i
}

/// The start of the first `http`/`https` token of `t`, or `t.len()`.
#[verifier::loop_isolation(false)]
fn find_scheme(t: &[char]) -> (r: usize)
    ensures
        r == spec_find_scheme(t@, 0),
        r <= t@.len(),
{
    let mut p: usize = 0;
    let mut done = false;
    let mut result: usize = 0;
    while !done
        invariant
            p <= t@.len(),
            !done ==> spec_find_scheme(t@, 0) == spec_find_scheme(t@, p as int),
            done ==> result == spec_find_scheme(t@, 0) && result <= t@.len(),
        decreases t@.len() - p + (if done { 0int } else { 1int }),
    {
        if p >= t.len() {
            result = p;
            done = true;
        } else {
            let q = scan_to_delim(t, p);
            if range_eq_str(t, p, q, "http") || range_eq_str(t, p, q, "https") {
                result = p;
                done = true;
            } else if q >= t.len() {
                result = t.len();
                done = true;
            } else {
                p = q + 1;
            }
        }
    }
    result
}

/// What the plain-text scan of a paragraph yields. A leading `[ ]`
/// checkbox is stripped; the text is split on `-`, `:` and spaces until a
/// token reads `http` or `https`; the text before that token, trimmed of
/// dashes, colons and blanks, is the title (when empty, the trimmed text
/// after the URL token serves instead); the token up to the next
/// whitespace, with backslash escapes removed and its fragment dropped, is
/// canonicalised by the `url` crate. No scheme token, or a token the `url`
/// crate rejects, fails the item.
pub open spec fn spec_scan_link(t: Seq<char>) -> Option<(Seq<char>, Option<Seq<char>>)> {
    let body = if spec_starts_with(t, 0, "[ ]"@) {
        t.subrange(3, t.len() as int)
    } else {
        t
    };
    let p = spec_find_scheme(body, 0);
    if p >= body.len() {
        None
    } else {
        let title0 = spec_trim_range(
            body.subrange(0, p),
            TrimSet::TitleEdges.spec_pred(),
        ).0;
        let ue = scan_while(body, |c: char| !is_ws(c), p);
        let raw = body.subrange(p, ue);
        let derived = spec_trim_ws(body.subrange(ue, body.len() as int));
        let title = if title0.len() > 0 {
            Some(title0)
        } else if derived.len() > 0 {
            Some(derived)
        } else {
            None
        };
        match url_normalized(strip_fragment(remove_backslashes(raw))) {
            Some(u) => Some((u, title)),
            None => None,
        }
    }
}

/// What link a paragraph yields: its first inline anchor when it has one,
/// else whatever the plain-text scan finds.
pub open spec fn spec_extract_link(t: Seq<char>) -> Option<(Seq<char>, Option<Seq<char>>)> {
    match spec_find_anchor(t, 0) {
        Some(a) => Some((a.0, Some(a.1))),
        None => spec_scan_link(t),
    }
}

/// Extracts the link a paragraph names, as a fresh draft.
#[verifier::loop_isolation(false)]
pub fn extract_link_from_paragraph(t: &[char]) -> (r: Option<Link>)
    ensures
        match (r, spec_extract_link(t@)) {
            (Some(l), Some(s)) => l@ == (LinkView {
                url: s.0,
                title: s.1,
                ..Link::empty_view()
            }),
            (None, None) => true,
            _ => false,
        },
{
    match find_anchor(t) {
        Some((url, title)) => {
            let mut l = Link::empty();
            l.url = string_from_chars(url.as_slice());
            l.title = Some(string_from_chars(title.as_slice()));
            proof {
                let s = spec_extract_link(t@)->Some_0;
                assert(l@ =~= (LinkView { url: s.0, title: s.1, ..Link::empty_view() }));
            }
            return Some(l);
        },
        None => {},
    }
    let body: Vec<char> = if starts_with_at(t, 0, "[ ]") {
        proof {
            reveal_strlit("[ ]");
        }
        copy_range(t, 3, t.len())
    } else {
        let whole = copy_range(t, 0, t.len());
        proof {
            assert(t@.subrange(0, t@.len() as int) =~= t@);
        }
        whole
    };
    let p = find_scheme(body.as_slice());
    if p >= body.len() {
        return None;
    }
    let (t0lo, t0hi) = trim_pred_range(body.as_slice(), 0, p, TrimSet::TitleEdges);
    let ue = scan_to_ws(body.as_slice(), p);
    let raw = copy_range(body.as_slice(), p, ue);
    let nb = strip_backslashes(raw.as_slice());
    let nofrag = cut_fragment(&nb);
    let url_s = string_from_chars(nofrag.as_slice());
    match normalize_url(url_s.as_str()) {
        None => None,
        Some(u) => {
            let title: Option<String> = if t0hi > t0lo {
                Some(string_from_range(body.as_slice(), t0lo, t0hi))
            } else {
                let (dlo, dhi) = trim_ws_range(body.as_slice(), ue, body.len());
                if dhi > dlo {
                    Some(string_from_range(body.as_slice(), dlo, dhi))
                } else {
                    None
                }
            };
            let mut l = Link::empty();
            l.url = u;
            l.title = title;
            proof {
                let s = spec_extract_link(t@)->Some_0;
                assert(l@ =~= (LinkView { url: s.0, title: s.1, ..Link::empty_view() }));
            }
            Some(l)
        },
    }
}

/// Which metadata block the parser is inside.
#[derive(Clone, Copy)]
pub enum MetaKind {
    Tags,
    Notes,
    Other,
}

/// Where in the list structure the parser stands: outside any item,
/// inside a link item's still-open paragraph, under a closed link item, or
/// inside one of its metadata blocks.
#[derive(Clone, Copy)]
pub enum Ctx {
    Idle,
    Item { indent: usize },
    Top { idx: usize, indent: usize },
    Meta { idx: usize, top_indent: usize, meta_indent: usize, kind: MetaKind },
}

/// The extractor's running state: the drafts so far, the parse context,
/// and — while a link item's paragraph is open — its text so far.
pub struct ExtractState {
    pub drafts: Vec<Link>,
    pub ctx: Ctx,
    pub para: Vec<char>,
}

/// Spec-level shape of the extractor state.
#[verifier::ext_equal]
pub struct ExtractStateView {
    pub drafts: Seq<LinkView>,
    pub ctx: Ctx,
    pub para: Seq<char>,
}

impl View for ExtractState {
    type V = ExtractStateView;

    open spec fn view(&self) -> ExtractStateView {
        ExtractStateView { drafts: self.drafts.deep_view(), ctx: self.ctx, para: self.para@ }
    }
}

/// A line's indentation: its count of leading spaces.
pub open spec fn indent_of(l: Seq<char>) -> int {
    scan_while(l, |c: char| c == ' ', 0)
}

/// Whether a line is a list item: optional spaces, then a `-`, `*` or `+`
/// bullet standing alone or followed by a space.
pub open spec fn spec_is_item(l: Seq<char>) -> bool {
    let i = indent_of(l);
    &&& i < l.len()
    &&& (l[i] == '-' || l[i] == '*' || l[i] == '+')
    &&& (i + 1 == l.len() || l[i + 1] == ' ')
}

/// An item line's text: what follows the bullet, trimmed.
pub open spec fn spec_item_text(l: Seq<char>) -> Seq<char> {
    let i = indent_of(l);
    if i + 2 <= l.len() {
        spec_trim_ws(l.subrange(i + 2, l.len() as int))
    } else {
        Seq::empty()
    }
}

/// Index of the draft with this URL, or `ds.len()` when there is none.
pub open spec fn draft_index(ds: Seq<LinkView>, url: Seq<char>) -> int
    decreases ds.len(),
{
    if ds.len() == 0 {
        0
    } else if ds[0].url == url {
        0
    } else {
        1 + draft_index(ds.drop_first(), url)
    }
}

pub proof fn lemma_draft_index(ds: Seq<LinkView>, url: Seq<char>)
    ensures
        0 <= draft_index(ds, url) <= ds.len(),
        draft_index(ds, url) < ds.len() ==> ds[draft_index(ds, url)].url == url,
        forall|j: int| 0 <= j < draft_index(ds, url) ==> ds[j].url != url,
    decreases ds.len(),
{
    if ds.len() > 0 && ds[0].url != url {
        lemma_draft_index(ds.drop_first(), url);
        assert forall|j: int| 0 <= j < draft_index(ds, url) implies ds[j].url != url by {
            if j > 0 {
                assert(ds.drop_first()[j - 1] == ds[j]);
            }
        }
    }
}

/// A draft with `text` appended to its notes on a fresh line.
pub open spec fn notes_append(d: LinkView, text: Seq<char>) -> LinkView {
    LinkView {
        notes: match d.notes {
            None => Some(text),
            Some(n) => Some(n + "\n"@ + text),
        },
        ..d
    }
}

/// The blank draft for a freshly extracted URL and title.
pub open spec fn fresh_draft(url: Seq<char>, title: Option<Seq<char>>) -> LinkView {
    LinkView { url, title, ..Link::empty_view() }
}

/// Opening a top-level item: extract its link; on failure the item and its
/// children are skipped; on success the draft for its URL is found or
/// created, the first extraction winning for title and URL.
pub open spec fn spec_open_top(st: ExtractStateView, ind: int, text: Seq<char>) -> ExtractStateView {
    match spec_extract_link(text) {
        None => ExtractStateView { ctx: Ctx::Idle, para: Seq::empty(), ..st },
        Some((url, title)) => {
            let k = draft_index(st.drafts, url);
            if k < st.drafts.len() {
                ExtractStateView {
                    ctx: Ctx::Top { idx: k as usize, indent: ind as usize },
                    para: Seq::empty(),
                    ..st
                }
            } else {
                ExtractStateView {
                    drafts: st.drafts.push(fresh_draft(url, title)),
                    ctx: Ctx::Top { idx: st.drafts.len() as usize, indent: ind as usize },
                    para: Seq::empty(),
                }
            }
        },
    }
}

/// Begins a link item: its paragraph stays open, so following indented
/// non-item lines can lazily continue it; the link is extracted when the
/// paragraph closes.
pub open spec fn spec_begin_item(st: ExtractStateView, ind: int, text: Seq<char>) -> ExtractStateView {
    ExtractStateView { ctx: Ctx::Item { indent: ind as usize }, para: text, ..st }
}

/// Closes any open link-item paragraph, extracting its link.
pub open spec fn spec_flush(st: ExtractStateView) -> ExtractStateView {
    match st.ctx {
        Ctx::Item { indent } => spec_open_top(st, indent as int, st.para),
        _ => st,
    }
}

/// Opening a metadata item under draft `idx`: the text up to its first `:`
/// names the block. `tags:` unions the comma-separated remainder in,
/// `via:` replaces the provenance (last wins), `notes:` starts collecting
/// note lines; anything else, or no colon at all, is ignored.
pub open spec fn spec_open_meta(
    st: ExtractStateView,
    idx: usize,
    top_indent: usize,
    ind: int,
    text: Seq<char>,
) -> ExtractStateView
    recommends
        idx < st.drafts.len(),
{
    let k = spec_find(text, ':', 0);
    let next = |kind: MetaKind| Ctx::Meta {
        idx,
        top_indent,
        meta_indent: ind as usize,
        kind,
    };
    if k < text.len() {
        let key = text.subrange(0, k);
        let rest = text.subrange(k + 1, text.len() as int);
        if key == "tags"@ {
            let d = st.drafts[idx as int];
            ExtractStateView {
                drafts: st.drafts.update(
                    idx as int,
                    LinkView {
                        tags: spec_add_tags(d.tags, spec_split_commas(rest, 0)),
                        ..d
                    },
                ),
                ctx: next(MetaKind::Tags),
                ..st
            }
        } else if key == "via"@ {
            let d = st.drafts[idx as int];
            ExtractStateView {
                drafts: st.drafts.update(
                    idx as int,
                    LinkView { via: Some(spec_parse_via(spec_trim_ws(rest))), ..d },
                ),
                ctx: next(MetaKind::Other),
                ..st
            }
        } else if key == "notes"@ {
            ExtractStateView { ctx: next(MetaKind::Notes), ..st }
        } else {
            ExtractStateView { ctx: next(MetaKind::Other), ..st }
        }
    } else {
        ExtractStateView { ctx: next(MetaKind::Other), ..st }
    }
}

/// A sub-item under a metadata block: more tags under `tags:`, another
/// note line under `notes:`, nothing otherwise.
pub open spec fn spec_sub_item(
    st: ExtractStateView,
    idx: usize,
    kind: MetaKind,
    text: Seq<char>,
) -> ExtractStateView
    recommends
        idx < st.drafts.len(),
{
    match kind {
        MetaKind::Tags => {
            let d = st.drafts[idx as int];
            ExtractStateView {
                drafts: st.drafts.update(
                    idx as int,
                    LinkView {
                        tags: spec_add_tags(d.tags, spec_split_commas(text, 0)),
                        ..d
                    },
                ),
                ..st
            }
        },
        MetaKind::Notes => {
            let d = st.drafts[idx as int];
            ExtractStateView {
                drafts: st.drafts.update(idx as int, notes_append(d, text)),
                ..st
            }
        },
        MetaKind::Other => st,
    }
}

/// One line's effect on the extractor state. A blank line closes an open
/// paragraph; an indented non-item line continues one (or a notes block);
/// an unindented non-item line ends the list; an item line closes any open
/// paragraph, then opens a link item or a metadata block by indentation.
pub open spec fn spec_step(st: ExtractStateView, line: Seq<char>) -> ExtractStateView {
    if !spec_is_item(line) {
        if spec_trim_ws(line).len() == 0 {
            spec_flush(st)
        } else {
            match st.ctx {
                Ctx::Item { indent } => {
                    if indent_of(line) > 0 {
                        ExtractStateView {
                            para: st.para + seq!['\n'] + spec_trim_ws(line),
                            ..st
                        }
                    } else {
                        ExtractStateView { ctx: Ctx::Idle, para: Seq::empty(), ..spec_flush(st) }
                    }
                },
                Ctx::Meta { idx, top_indent, meta_indent, kind: MetaKind::Notes } => {
                    if indent_of(line) > meta_indent && idx < st.drafts.len() {
                        ExtractStateView {
                            drafts: st.drafts.update(
                                idx as int,
                                notes_append(st.drafts[idx as int], spec_trim_ws(line)),
                            ),
                            ..st
                        }
                    } else if indent_of(line) == 0 {
                        ExtractStateView { ctx: Ctx::Idle, ..st }
                    } else {
                        st
                    }
                },
                _ => {
                    if indent_of(line) == 0 {
                        ExtractStateView { ctx: Ctx::Idle, ..st }
                    } else {
                        st
                    }
                },
            }
        }
    } else {
        let st1 = spec_flush(st);
        let ind = indent_of(line);
        let text = spec_item_text(line);
        match st1.ctx {
            Ctx::Idle => spec_begin_item(st1, ind, text),
            Ctx::Item { .. } => spec_begin_item(st1, ind, text),
            Ctx::Top { idx, indent } => {
                if ind > indent && idx < st1.drafts.len() {
                    spec_open_meta(st1, idx, indent, ind, text)
                } else {
                    spec_begin_item(st1, ind, text)
                }
            },
            Ctx::Meta { idx, top_indent, meta_indent, kind } => {
                if ind <= top_indent || idx >= st1.drafts.len() {
                    spec_begin_item(st1, ind, text)
                } else if ind > meta_indent {
                    spec_sub_item(st1, idx, kind, text)
                } else {
                    spec_open_meta(st1, idx, top_indent, ind, text)
                }
            },
        }
    }
}

/// The extractor invariant: draft URLs stay unique, every draft stays
/// well-formed, and the context always points into the draft list.
pub open spec fn state_wf(st: ExtractStateView) -> bool {
    &&& forall|i: int, j: int|
        0 <= i < j < st.drafts.len() ==> st.drafts[i].url != st.drafts[j].url
    &&& forall|i: int| 0 <= i < st.drafts.len() ==> (#[trigger] st.drafts[i]).wf()
    &&& match st.ctx {
        Ctx::Idle => true,
        Ctx::Item { .. } => true,
        Ctx::Top { idx, .. } => idx < st.drafts.len(),
        Ctx::Meta { idx, .. } => idx < st.drafts.len(),
    }
}

/// Every step preserves the extractor invariant.
pub proof fn lemma_step_wf(st: ExtractStateView, line: Seq<char>)
    requires
        state_wf(st),
    ensures
        state_wf(spec_step(st, line)),
{
    lemma_flush_wf(st);
    if spec_is_item(line) {
        let st1 = spec_flush(st);
        let ind = indent_of(line);
        let text = spec_item_text(line);
        match st1.ctx {
            Ctx::Idle => {},
            Ctx::Item { .. } => {},
            Ctx::Top { idx, indent } => {
                if ind > indent && idx < st1.drafts.len() {
                    lemma_open_meta_wf(st1, idx, indent, ind, text);
                }
            },
            Ctx::Meta { idx, top_indent, meta_indent, kind } => {
                if ind <= top_indent || idx >= st1.drafts.len() {
                } else if ind > meta_indent {
                    lemma_sub_item_wf(st1, idx, kind, text);
                } else {
                    lemma_open_meta_wf(st1, idx, top_indent, ind, text);
                }
            },
        }
    }
}

/// Closing a paragraph preserves the extractor invariant.
pub proof fn lemma_flush_wf(st: ExtractStateView)
    requires
        state_wf(st),
    ensures
        state_wf(spec_flush(st)),
{
    match st.ctx {
        Ctx::Item { indent } => {
            lemma_open_top_wf(st, indent as int, st.para);
        },
        _ => {},
    }
}

proof fn lemma_open_top_wf(st: ExtractStateView, ind: int, text: Seq<char>)
    requires
        state_wf(st),
    ensures
        state_wf(spec_open_top(st, ind, text)),
{
    match spec_extract_link(text) {
        None => {},
        Some((url, title)) => {
            lemma_draft_index(st.drafts, url);
            let k = draft_index(st.drafts, url);
            if k >= st.drafts.len() {
                let d = fresh_draft(url, title);
                assert(d.wf());
                let ds = st.drafts.push(d);
                assert forall|i: int, j: int|
                    0 <= i < j < ds.len() implies ds[i].url != ds[j].url by {
                    if j == ds.len() - 1 {
                        assert(ds[i] == st.drafts[i]);
                        assert(st.drafts[i].url != url);
                    }
                }
            }
        },
    }
}

proof fn lemma_open_meta_wf(
    st: ExtractStateView,
    idx: usize,
    top_indent: usize,
    ind: int,
    text: Seq<char>,
)
    requires
        state_wf(st),
        idx < st.drafts.len(),
    ensures
        state_wf(spec_open_meta(st, idx, top_indent, ind, text)),
{
    let k = spec_find(text, ':', 0);
    if k < text.len() {
        let rest = text.subrange(k + 1, text.len() as int);
        lemma_add_tags_wf(st.drafts[idx as int].tags, spec_split_commas(rest, 0));
    }
}

proof fn lemma_sub_item_wf(st: ExtractStateView, idx: usize, kind: MetaKind, text: Seq<char>)
    requires
        state_wf(st),
        idx < st.drafts.len(),
    ensures
        state_wf(spec_sub_item(st, idx, kind, text)),
{
    lemma_add_tags_wf(st.drafts[idx as int].tags, spec_split_commas(text, 0));
}

/// A line's indentation, executably.
#[verifier::loop_isolation(false)]
fn indent_exec(line: &[char]) -> (r: usize)
    ensures
        r == indent_of(line@),
        r <= line@.len(),
{
    let mut i: usize = 0;
    while i < line.len() && line[i] == ' '
        invariant
            i <= line@.len(),
            scan_while(line@, |c: char| c == ' ', 0) == scan_while(line@, |c: char| c == ' ', i as int),
        decreases line@.len() - i,
    {
        i += 1;
    }
    i
}

/// Whether any character of `t` is non-whitespace.
#[verifier::loop_isolation(false)]
fn chars_visible(t: &[char]) -> (r: bool)
    ensures
        r == (spec_trim_ws(t@).len() > 0),
{
    let mut i: usize = 0;
    while i < t.len()
        invariant
            i <= t@.len(),
            forall|j: int| 0 <= j < i ==> is_ws(t@[j]),
        decreases t@.len() - i,
    {
        let c = t[i];
        if !(c == ' ' || c == '\t' || c == '\r' || c == '\n') {
            proof {
                crate::text::lemma_trim_ws_nonempty(t@);
            }
            return true;
        }
        i += 1;
    }
    proof {
        crate::text::lemma_trim_ws_nonempty(t@);
    }
    false
}

/// First draft index holding this URL, or the list's length.
#[verifier::loop_isolation(false)]
fn draft_find(drafts: &Vec<Link>, url: &str) -> (r: usize)
    ensures
        r == draft_index(drafts.deep_view(), url@),
        r <= drafts@.len(),
{
    let ghost dv = drafts.deep_view();
    let mut i: usize = 0;
    while i < drafts.len()
        invariant
            i <= drafts@.len(),
            forall|j: int| 0 <= j < i ==> dv[j].url != url@,
        decreases drafts@.len() - i,
    {
        if crate::text::str_eq(drafts[i].url.as_str(), url) {
            proof {
                lemma_draft_index_exact(dv, url@, i as int);
            }
            return i;
        }
        i += 1;
    }
    proof {
        lemma_draft_index_exact(dv, url@, dv.len() as int);
    }
    drafts.len()
}

proof fn lemma_draft_index_exact(ds: Seq<LinkView>, url: Seq<char>, k: int)
    requires
        0 <= k <= ds.len(),
        forall|j: int| 0 <= j < k ==> ds[j].url != url,
        k < ds.len() ==> ds[k].url == url,
    ensures
        draft_index(ds, url) == if k < ds.len() {
            k
        } else {
            ds.len() as int
        },
    decreases k,
{
    if k > 0 {
        assert(ds[0].url != url);
        lemma_draft_index_exact(ds.drop_first(), url, k - 1);
        assert(forall|j: int| 0 <= j < k - 1 ==> ds.drop_first()[j] == ds[j + 1]);
    }
}

/// Rewrites the draft at `idx` with extra tags from `rest`.
#[verifier::loop_isolation(false)]
fn apply_tags(drafts: &mut Vec<Link>, idx: usize, rest: &[char])
    requires
        idx < old(drafts)@.len(),
    ensures
        final(drafts).deep_view() == old(drafts).deep_view().update(
            idx as int,
            (LinkView {
                tags: spec_add_tags(
                    old(drafts).deep_view()[idx as int].tags,
                    spec_split_commas(rest@, 0),
                ),
                ..old(drafts).deep_view()[idx as int]
            }),
        ),
{
    let ghost orig = drafts.deep_view();
    let mut d = drafts[idx].clone();
    add_tags(&mut d.tags, rest);
    let ghost dv = d@;
    drafts.set(idx, d);
    proof {
        assert(dv =~= (LinkView {
            tags: spec_add_tags(orig[idx as int].tags, spec_split_commas(rest@, 0)),
            ..orig[idx as int]
        }));
        assert(drafts.deep_view() =~~= orig.update(idx as int, dv));
    }
}

/// Rewrites the draft at `idx` with a new provenance tag.
#[verifier::loop_isolation(false)]
fn apply_via(drafts: &mut Vec<Link>, idx: usize, via: Via)
    requires
        idx < old(drafts)@.len(),
    ensures
        final(drafts).deep_view() == old(drafts).deep_view().update(
            idx as int,
            (LinkView { via: Some(via@), ..old(drafts).deep_view()[idx as int] }),
        ),
{
    let ghost orig = drafts.deep_view();
    let ghost vv = via@;
    let mut d = drafts[idx].clone();
    d.via = Some(via);
    let ghost dv = d@;
    drafts.set(idx, d);
    proof {
        assert(dv =~= (LinkView { via: Some(vv), ..orig[idx as int] }));
        assert(drafts.deep_view() =~~= orig.update(idx as int, dv));
    }
}

/// Appends one note line to the draft at `idx`.
#[verifier::loop_isolation(false)]
fn apply_notes(drafts: &mut Vec<Link>, idx: usize, text: &[char])
    requires
        idx < old(drafts)@.len(),
    ensures
        final(drafts).deep_view() == old(drafts).deep_view().update(
            idx as int,
            notes_append(old(drafts).deep_view()[idx as int], text@),
        ),
{
    let ghost orig = drafts.deep_view();
    let mut d = drafts[idx].clone();
    let notes: String = match d.notes {
        None => crate::text::string_from_chars(text),
        Some(n) => {
            let mut n = n;
            crate::text::push_char(&mut n, '\n');
            crate::text::append_chars(&mut n, text);
            proof {
                reveal_strlit("\n");
                assert("\n"@ =~= seq!['\n']);
                assert(orig[idx as int].notes->Some_0.push('\n') + text@ =~= orig[
                    idx as int
                ].notes->Some_0 + "\n"@ + text@);
            }
            n
        },
    };
    d.notes = Some(notes);
    let ghost dv = d@;
    drafts.set(idx, d);
    proof {
        assert(dv =~= notes_append(orig[idx as int], text@));
        assert(drafts.deep_view() =~~= orig.update(idx as int, dv));
    }
}

/// An item line's text, executably.
#[verifier::loop_isolation(false)]
fn item_text_exec(line: &[char], ind: usize) -> (r: Vec<char>)
    requires
        ind == indent_of(line@),
        ind <= line@.len(),
    ensures
        r@ == spec_item_text(line@),
{
    let n: usize = line.len();
    if ind <= n && n - ind >= 2 {
        let (lo, hi) = trim_ws_range(line, ind + 2, line.len());
        copy_range(line, lo, hi)
    } else {
        Vec::new()
    }
}

/// Opens a top-level item: extraction failure skips it; success finds or
/// creates the draft for its URL.
#[verifier::loop_isolation(false)]
fn open_top(st: &mut ExtractState, ind: usize, text: &[char])
    ensures
        final(st)@ == spec_open_top(old(st)@, ind as int, text@),
{
    let ghost st0 = st@;
    st.para = Vec::new();
    match extract_link_from_paragraph(text) {
        None => {
            st.ctx = Ctx::Idle;
            proof {
                assert(st@ =~= spec_open_top(st0, ind as int, text@));
            }
        },
        Some(draft) => {
            let k = draft_find(&st.drafts, draft.url.as_str());
            if k < st.drafts.len() {
                st.ctx = Ctx::Top { idx: k, indent: ind };
                proof {
                    assert(st@ =~= spec_open_top(st0, ind as int, text@));
                }
            } else {
                st.drafts.push(draft);
                st.ctx = Ctx::Top { idx: k, indent: ind };
                proof {
                    let s = spec_extract_link(text@)->Some_0;
                    assert(st@.drafts =~~= st0.drafts.push(fresh_draft(s.0, s.1)));
                    assert(st@ =~= spec_open_top(st0, ind as int, text@));
                }
            }
        },
    }
}

/// Opens a link item's paragraph, executably.
fn begin_item(st: &mut ExtractState, ind: usize, text: Vec<char>)
    ensures
        final(st)@ == spec_begin_item(old(st)@, ind as int, text@),
{
    let ghost st0 = st@;
    let ghost tv = text@;
    st.ctx = Ctx::Item { indent: ind };
    st.para = text;
    proof {
        assert(st@ =~= spec_begin_item(st0, ind as int, tv));
    }
}

/// Closes any open link-item paragraph, executably.
#[verifier::loop_isolation(false)]
pub fn flush_item(st: &mut ExtractState)
    ensures
        final(st)@ == spec_flush(old(st)@),
{
    let ghost st0 = st@;
    let indent: usize = match st.ctx {
        Ctx::Item { indent } => indent,
        _ => {
            return ;
        },
    };
    let para = copy_range(st.para.as_slice(), 0, st.para.len());
    proof {
        assert(para@ =~= st0.para);
    }
    open_top(st, indent, para.as_slice());
}

/// Appends a continuation line to an open paragraph.
#[verifier::loop_isolation(false)]
fn para_extend(para: &mut Vec<char>, line: &[char], lo: usize, hi: usize)
    requires
        lo <= hi <= line@.len(),
    ensures
        final(para)@ == old(para)@ + seq!['\n'] + line@.subrange(lo as int, hi as int),
{
    let ghost base = para@;
    para.push('\n');
    proof {
        assert(para@ =~= base + seq!['\n'] + line@.subrange(lo as int, lo as int));
    }
    let mut i: usize = lo;
    while i < hi
        invariant
            lo <= i <= hi,
            para@ == base + seq!['\n'] + line@.subrange(lo as int, i as int),
        decreases hi - i,
    {
        para.push(line[i]);
        i += 1;
        proof {
            assert(para@ =~= base + seq!['\n'] + line@.subrange(lo as int, i as int));
        }
    }
}

/// Opens a metadata item under draft `idx`.
#[verifier::loop_isolation(false)]
fn open_meta(st: &mut ExtractState, idx: usize, top_indent: usize, ind: usize, text: &[char])
    requires
        idx < old(st)@.drafts.len(),
    ensures
        final(st)@ == spec_open_meta(old(st)@, idx, top_indent, ind as int, text@),
{
    let ghost st0 = st@;
    let k = find_char(text, 0, ':');
    if k < text.len() {
        if range_eq_str(text, 0, k, "tags") {
            let rest = copy_range(text, k + 1, text.len());
            apply_tags(&mut st.drafts, idx, rest.as_slice());
            st.ctx = Ctx::Meta { idx, top_indent, meta_indent: ind, kind: MetaKind::Tags };
            proof {
                assert(st@ =~= spec_open_meta(st0, idx, top_indent, ind as int, text@));
            }
        } else if range_eq_str(text, 0, k, "via") {
            let rest = copy_range(text, k + 1, text.len());
            let (rlo, rhi) = trim_ws_range(rest.as_slice(), 0, rest.len());
            proof {
                assert(rest@.subrange(0, rest@.len() as int) =~= rest@);
            }
            let trimmed = copy_range(rest.as_slice(), rlo, rhi);
            let via = parse_via_chars(trimmed.as_slice());
            apply_via(&mut st.drafts, idx, via);
            st.ctx = Ctx::Meta { idx, top_indent, meta_indent: ind, kind: MetaKind::Other };
            proof {
                assert(st@ =~= spec_open_meta(st0, idx, top_indent, ind as int, text@));
            }
        } else if range_eq_str(text, 0, k, "notes") {
            st.ctx = Ctx::Meta { idx, top_indent, meta_indent: ind, kind: MetaKind::Notes };
            proof {
                assert(st@ =~= spec_open_meta(st0, idx, top_indent, ind as int, text@));
            }
        } else {
            st.ctx = Ctx::Meta { idx, top_indent, meta_indent: ind, kind: MetaKind::Other };
            proof {
                assert(st@ =~= spec_open_meta(st0, idx, top_indent, ind as int, text@));
            }
        }
    } else {
        st.ctx = Ctx::Meta { idx, top_indent, meta_indent: ind, kind: MetaKind::Other };
        proof {
            assert(st@ =~= spec_open_meta(st0, idx, top_indent, ind as int, text@));
        }
    }
}

/// One line's effect on the extractor state, executably.
#[verifier::loop_isolation(false)]
pub fn step_line(st: &mut ExtractState, line: &[char])
    requires
        state_wf(old(st)@),
    ensures
        final(st)@ == spec_step(old(st)@, line@),
        state_wf(final(st)@),
{
    let ghost st0 = st@;
    proof {
        lemma_step_wf(st0, line@);
    }
    let ind = indent_exec(line);
    let is_item = ind < line.len() && (line[ind] == '-' || line[ind] == '*' || line[ind] == '+')
        && (ind + 1 == line.len() || line[ind + 1] == ' ');
    if !is_item {
        if !chars_visible(line) {
            flush_item(st);
            return ;
        }
        let open_para: Option<usize> = match st.ctx {
            Ctx::Item { indent } => Some(indent),
            _ => None,
        };
        match open_para {
            Some(_) => {
                if ind > 0 {
                    let (lo, hi) = trim_ws_range(line, 0, line.len());
                    proof {
                        assert(line@.subrange(0, line@.len() as int) =~= line@);
                    }
                    para_extend(&mut st.para, line, lo, hi);
                    proof {
                        assert(st@ =~= spec_step(st0, line@));
                    }
                } else {
                    flush_item(st);
                    st.ctx = Ctx::Idle;
                    st.para = Vec::new();
                    proof {
                        assert(st@ =~= spec_step(st0, line@));
                    }
                }
                return ;
            },
            None => {},
        }
        let notes_target: Option<(usize, usize)> = match st.ctx {
            Ctx::Meta { idx, meta_indent, kind: MetaKind::Notes, .. } => Some((idx, meta_indent)),
            _ => None,
        };
        match notes_target {
            Some((idx, meta_indent)) => {
                if ind > meta_indent && idx < st.drafts.len() {
                    let (lo, hi) = trim_ws_range(line, 0, line.len());
                    proof {
                        assert(line@.subrange(0, line@.len() as int) =~= line@);
                    }
                    let trimmed = copy_range(line, lo, hi);
                    apply_notes(&mut st.drafts, idx, trimmed.as_slice());
                    proof {
                        assert(st@ =~= spec_step(st0, line@));
                    }
                } else if ind == 0 {
                    st.ctx = Ctx::Idle;
                    proof {
                        assert(st@ =~= spec_step(st0, line@));
                    }
                }
            },
            None => {
                if ind == 0 {
                    st.ctx = Ctx::Idle;
                    proof {
                        assert(st@ =~= spec_step(st0, line@));
                    }
                }
            },
        }
        return ;
    }
    flush_item(st);
    let text = item_text_exec(line, ind);
    match st.ctx {
        Ctx::Idle => begin_item(st, ind, text),
        Ctx::Item { .. } => begin_item(st, ind, text),
        Ctx::Top { idx, indent } => {
            if ind > indent && idx < st.drafts.len() {
                open_meta(st, idx, indent, ind, text.as_slice());
            } else {
                begin_item(st, ind, text);
            }
        },
        Ctx::Meta { idx, top_indent, meta_indent, kind } => {
            if ind <= top_indent || idx >= st.drafts.len() {
                begin_item(st, ind, text);
            } else if ind > meta_indent {
                match kind {
                    MetaKind::Tags => {
                        apply_tags(&mut st.drafts, idx, text.as_slice());
                        proof {
                            assert(st@ =~= spec_step(st0, line@));
                        }
                    },
                    MetaKind::Notes => {
                        apply_notes(&mut st.drafts, idx, text.as_slice());
                        proof {
                            assert(st@ =~= spec_step(st0, line@));
                        }
                    },
                    MetaKind::Other => {},
                }
            } else {
                open_meta(st, idx, top_indent, ind, text.as_slice());
            }
        },
    }
}

/// The extractor's starting state.
pub open spec fn init_state() -> ExtractStateView {
    ExtractStateView { drafts: Seq::empty(), ctx: Ctx::Idle, para: Seq::empty() }
}

/// The state after the first `i` lines.
pub open spec fn spec_fold(lines: Seq<Seq<char>>, i: int) -> ExtractStateView
    decreases i,
{
    if i <= 0 {
        init_state()
    } else {
        spec_step(spec_fold(lines, i - 1), lines[i - 1])
    }
}

/// The folded state always satisfies the extractor invariant.
pub proof fn lemma_fold_wf(lines: Seq<Seq<char>>, i: int)
    requires
        0 <= i <= lines.len(),
    ensures
        state_wf(spec_fold(lines, i)),
    decreases i,
{
    if i > 0 {
        lemma_fold_wf(lines, i - 1);
        lemma_step_wf(spec_fold(lines, i - 1), lines[i - 1]);
    }
}

/// A finished draft's notes are trimmed; all-blank notes become absent.
pub open spec fn normalize_notes(d: LinkView) -> LinkView {
    match d.notes {
        Some(n) => if spec_trim_ws(n).len() == 0 {
            LinkView { notes: None, ..d }
        } else {
            LinkView { notes: Some(spec_trim_ws(n)), ..d }
        },
        None => d,
    }
}

/// Everything a document extracts: the drafts its lines build — with any
/// still-open paragraph closed at the end — one per URL, notes normalised.
pub open spec fn spec_extract_doc(text: Seq<char>) -> Seq<LinkView> {
    let lines = spec_lines(text);
    spec_flush(spec_fold(lines, lines.len() as int)).drafts.map_values(
        |d: LinkView| normalize_notes(d),
    )
}

/// Parses a source document into link drafts.
///
/// The result holds at most one draft per URL, each well-formed; it is a
/// function of the document text alone, so importing the same document
/// twice yields the same drafts.
#[verifier::rlimit(60)]
#[verifier::loop_isolation(false)]
pub fn extract_links(source: &LinkSource) -> (r: Vec<Link>)
    ensures
        r.deep_view() == spec_extract_doc(source@.content),
        forall|i: int, j: int|
            0 <= i < j < r.deep_view().len() ==> r.deep_view()[i].url != r.deep_view()[j].url,
        forall|i: int| 0 <= i < r.deep_view().len() ==> (#[trigger] r.deep_view()[i]).wf(),
{
    let chars = crate::text::chars_of(source.content.as_str());
    let lines = split_lines(chars.as_slice());
    let ghost lv = lines.deep_view();
    let mut st = ExtractState { drafts: Vec::new(), ctx: Ctx::Idle, para: Vec::new() };
    proof {
        assert(st@ =~= init_state());
    }
    let mut i: usize = 0;
    while i < lines.len()
        invariant
            i <= lines@.len(),
            lv == lines.deep_view(),
            lv.len() == lines@.len(),
            st@ == spec_fold(lv, i as int),
            state_wf(st@),
        decreases lines@.len() - i,
    {
        proof {
            assert(lines@[i as int]@ =~= lv[i as int]);
        }
        step_line(&mut st, lines[i].as_slice());
        i += 1;
    }
    proof {
        lemma_flush_wf(st@);
    }
    flush_item(&mut st);
    let ghost folded = st@.drafts;
    let mut r: Vec<Link> = Vec::new();
    let mut j: usize = 0;
    while j < st.drafts.len()
        invariant
            j <= st.drafts@.len(),
            folded == st@.drafts,
            folded.len() == st.drafts@.len(),
            state_wf(st@),
            r.deep_view() =~= folded.map_values(|d: LinkView| normalize_notes(d)).take(j as int),
        decreases st.drafts@.len() - j,
    {
        let mut d = st.drafts[j].clone();
        let new_notes: Option<String> = match &d.notes {
            Some(n) => {
                let t = crate::text::chars_of(n.as_str());
                let (lo, hi) = trim_ws_range(t.as_slice(), 0, t.len());
                proof {
                    assert(t@.subrange(0, t@.len() as int) =~= t@);
                }
                if hi > lo {
                    Some(string_from_range(t.as_slice(), lo, hi))
                } else {
                    None
                }
            },
            None => None,
        };
        d.notes = new_notes;
        proof {
            assert(d@ =~= normalize_notes(folded[j as int]));
        }
        r.push(d);
        j += 1;
        proof {
            assert(r.deep_view() =~= folded.map_values(|d: LinkView| normalize_notes(d)).take(
                j as int,
            ));
        }
    }
    proof {
        let mapped = folded.map_values(|d: LinkView| normalize_notes(d));
        assert(mapped.take(mapped.len() as int) =~= mapped);
        assert forall|a: int, b: int|
            0 <= a < b < mapped.len() implies mapped[a].url != mapped[b].url by {
            assert(mapped[a].url == folded[a].url);
            assert(mapped[b].url == folded[b].url);
        }
        assert forall|a: int| 0 <= a < mapped.len() implies (#[trigger] mapped[a]).wf() by {
            assert(folded[a].wf());
            assert(mapped[a].tags == folded[a].tags);
            assert(mapped[a].meta == folded[a].meta);
            assert(mapped[a].http_headers == folded[a].http_headers);
        }
    }
    r
}

/// A string without backslashes passes through escape removal unchanged.
pub proof fn lemma_remove_backslashes_id(t: Seq<char>)
    requires
        !t.contains('\\'),
    ensures
        remove_backslashes(t) == t,
    decreases t.len(),
{
    if t.len() > 0 {
        assert(!t.drop_last().contains('\\')) by {
            assert(forall|j: int|
                0 <= j < t.drop_last().len() ==> t.drop_last()[j] == #[trigger] t[j]);
        }
        lemma_remove_backslashes_id(t.drop_last());
        assert(t.last() != '\\');
        assert(remove_backslashes(t) =~= t);
    } else {
        assert(remove_backslashes(t) =~= t);
    }
}

/// Identity is URL-exact: a scanned URL candidate and the same candidate
/// with a fragment appended feed the very same string to canonicalisation,
/// so both extract to the same stored identity.
pub proof fn lemma_scan_identity_ignores_fragment(raw: Seq<char>, frag: Seq<char>)
    requires
        !raw.contains('\\'),
        !raw.contains('#'),
        !frag.contains('\\'),
    ensures
        url_normalized(strip_fragment(remove_backslashes(raw + seq!['#'] + frag)))
            == url_normalized(strip_fragment(remove_backslashes(raw))),
{
    let both = raw + seq!['#'] + frag;
    assert(!both.contains('\\')) by {
        assert forall|j: int| 0 <= j < both.len() implies both[j] != '\\' by {
            if j < raw.len() {
                assert(both[j] == raw[j]);
                assert(!raw.contains('\\'));
            } else if j == raw.len() {
                assert(both[j] == '#');
            } else {
                assert(both[j] == frag[j - raw.len() - 1]);
                assert(!frag.contains('\\'));
            }
        }
    }
    lemma_remove_backslashes_id(both);
    lemma_remove_backslashes_id(raw);
    lemma_fragment_stripped(raw, frag);
}

/// Link identity is URL-exact and fragment-free: a URL with no `#` is its
/// own identity, and appending `#fragment` to it strips back to the same
/// identity, so both extract to the same stored record.
pub proof fn lemma_fragment_stripped(u: Seq<char>, frag: Seq<char>)
    requires
        !u.contains('#'),
    ensures
        strip_fragment(u + seq!['#'] + frag) == strip_fragment(u),
        strip_fragment(u) == u,
{
    let s = u + seq!['#'] + frag;
    assert forall|j: int| 0 <= j < u.len() implies s[j] != '#' by {
        assert(s[j] == u[j]);
        assert(!u.contains('#'));
    }
    assert(s[u.len() as int] == '#');
    lemma_spec_find_exact(s, '#', 0, u.len() as int);
    assert forall|j: int| 0 <= j < u.len() implies u[j] != '#' by {
        assert(!u.contains('#'));
    }
    lemma_spec_find_exact(u, '#', 0, u.len() as int);
    assert(strip_fragment(s) =~= u);
    assert(strip_fragment(u) =~= u);
}

/// Notes accumulate: the first note line becomes the notes, and every
/// further line joins on a fresh line after what is already there, in
/// order, never replacing it.
pub proof fn lemma_notes_accumulate(d: LinkView, a: Seq<char>, b: Seq<char>)
    requires
        d.notes is None,
    ensures
        notes_append(d, a).notes == Some(a),
        notes_append(notes_append(d, a), b).notes == Some(a + "\n"@ + b),
{
}

/// A draft fresh from extraction carries no enrichment: nothing fetched,
/// nothing extracted, no metadata, no headers, no stage markers.
pub open spec fn draft_bare(d: LinkView) -> bool {
    &&& d.src is None
    &&& d.extracted_text is None
    &&& d.meta is None
    &&& d.http_headers is None
    &&& d.last_fetched is None
    &&& d.last_processed is None
    &&& d.image is None
    &&& d.published_at is None
}

/// Every draft the extractor builds stays bare: extraction only ever
/// touches the input-derived fields.
pub proof fn lemma_fold_bare(lines: Seq<Seq<char>>, i: int)
    requires
        0 <= i <= lines.len(),
    ensures
        forall|a: int|
            0 <= a < spec_fold(lines, i).drafts.len() ==> draft_bare(
                #[trigger] spec_fold(lines, i).drafts[a],
            ),
    decreases i,
{
    if i > 0 {
        lemma_fold_bare(lines, i - 1);
        let st = spec_fold(lines, i - 1);
        let line = lines[i - 1];
        let r = spec_step(st, line);
        assert forall|a: int| 0 <= a < r.drafts.len() implies draft_bare(r.drafts[a]) by {
            lemma_step_bare(st, line, a);
        }
    }
}

proof fn lemma_step_bare(st: ExtractStateView, line: Seq<char>, a: int)
    requires
        forall|b: int| 0 <= b < st.drafts.len() ==> draft_bare(#[trigger] st.drafts[b]),
        0 <= a < spec_step(st, line).drafts.len(),
    ensures
        draft_bare(spec_step(st, line).drafts[a]),
{
    lemma_flush_bare(st);
}

/// Closing a paragraph only ever adds a bare draft.
pub proof fn lemma_flush_bare(st: ExtractStateView)
    requires
        forall|b: int| 0 <= b < st.drafts.len() ==> draft_bare(#[trigger] st.drafts[b]),
    ensures
        forall|b: int|
            0 <= b < spec_flush(st).drafts.len() ==> draft_bare(
                #[trigger] spec_flush(st).drafts[b],
            ),
{
    match st.ctx {
        Ctx::Item { indent } => {
            match spec_extract_link(st.para) {
                Some((url, title)) => {
                    assert(draft_bare(fresh_draft(url, title)));
                },
                None => {},
            }
        },
        _ => {},
    }
}

/// The drafts a whole document extracts are bare.
pub proof fn lemma_extract_doc_bare(text: Seq<char>)
    ensures
        forall|a: int|
            0 <= a < spec_extract_doc(text).len() ==> draft_bare(
                #[trigger] spec_extract_doc(text)[a],
            ),
{
    let lines = spec_lines(text);
    lemma_fold_bare(lines, lines.len() as int);
    lemma_flush_bare(spec_fold(lines, lines.len() as int));
    let folded = spec_flush(spec_fold(lines, lines.len() as int)).drafts;
    let mapped = spec_extract_doc(text);
    assert(mapped =~= folded.map_values(|d: LinkView| normalize_notes(d)));
    assert forall|a: int| 0 <= a < mapped.len() implies draft_bare(mapped[a]) by {
        assert(draft_bare(folded[a]));
    }
}

} // verus!
