//! Persisted field encodings.
//!
//! Rows in the relational store hold `tags` and `via` as compact JSON
//! text, `meta` as JSON text, `http_headers` as JSON compressed into a
//! zstd frame, `src` as a zstd frame of the raw bytes, timestamps as
//! integer epoch milliseconds and `hidden` as 0/1. The encodings here are
//! bit-compatible with that scheme: JSON strings escape `"`, `\` and
//! control characters (with the usual short escapes and lowercase
//! `\u00xx` otherwise) and nothing else, and arrays and objects carry no
//! whitespace. The decoders accept exactly the canonical form the
//! encoders produce.

use vstd::prelude::*;

use crate::link::Link;
use crate::link::LinkView;
use crate::link::MetaEntry;
use crate::link::MetaEntryView;
use crate::link::Via;
use crate::link::ViaView;
use crate::text::push_char;
use crate::text::append_chars;

verus! {

/// Lowercase hex digit for a value below 16.
pub open spec fn hex_digit(n: int) -> char {
    if n == 0 { '0' } else if n == 1 { '1' } else if n == 2 { '2' } else if n == 3 { '3' }
    else if n == 4 { '4' } else if n == 5 { '5' } else if n == 6 { '6' } else if n == 7 { '7' }
    else if n == 8 { '8' } else if n == 9 { '9' } else if n == 10 { 'a' } else if n == 11 { 'b' }
    else if n == 12 { 'c' } else if n == 13 { 'd' } else if n == 14 { 'e' } else { 'f' }
}

/// Lowercase hex digit, executably.
fn hex_digit_exec(n: u32) -> (r: char)
    requires
        n < 16,
    ensures
        r == hex_digit(n as int),
{
    if n == 0 { '0' } else if n == 1 { '1' } else if n == 2 { '2' } else if n == 3 { '3' }
    else if n == 4 { '4' } else if n == 5 { '5' } else if n == 6 { '6' } else if n == 7 { '7' }
    else if n == 8 { '8' } else if n == 9 { '9' } else if n == 10 { 'a' } else if n == 11 { 'b' }
    else if n == 12 { 'c' } else if n == 13 { 'd' } else if n == 14 { 'e' } else { 'f' }
}

/// Control characters with a short JSON escape.
pub open spec fn short_escape(c: char) -> bool {
    c == '\n' || c == '\r' || c == '\t' || c == '\u{8}' || c == '\u{c}'
}

/// The JSON escape of one character.
pub open spec fn json_escape_char(c: char) -> Seq<char> {
    if c == '"' {
        seq!['\\', '"']
    } else if c == '\\' {
        seq!['\\', '\\']
    } else if c == '\u{8}' {
        seq!['\\', 'b']
    } else if c == '\u{c}' {
        seq!['\\', 'f']
    } else if c == '\n' {
        seq!['\\', 'n']
    } else if c == '\r' {
        seq!['\\', 'r']
    } else if c == '\t' {
        seq!['\\', 't']
    } else if (c as int) < 32 {
        seq!['\\', 'u', '0', '0', hex_digit(c as int / 16), hex_digit(c as int % 16)]
    } else {
        seq![c]
    }
}

/// The JSON escape of a whole string body.
pub open spec fn json_escape(s: Seq<char>) -> Seq<char>
    decreases s.len(),
{
    if s.len() == 0 {
        Seq::empty()
    } else {
        json_escape(s.drop_last()) + json_escape_char(s.last())
    }
}

/// A quoted JSON string.
pub open spec fn json_string(s: Seq<char>) -> Seq<char> {
    seq!['"'] + json_escape(s) + seq!['"']
}

/// Comma-joined JSON strings.
pub open spec fn json_string_list(xs: Seq<Seq<char>>) -> Seq<char>
    decreases xs.len(),
{
    if xs.len() == 0 {
        Seq::empty()
    } else if xs.len() == 1 {
        json_string(xs[0])
    } else {
        json_string_list(xs.drop_last()) + seq![','] + json_string(xs.last())
    }
}

/// A JSON array of strings, compact.
pub open spec fn json_tags(tags: Seq<Seq<char>>) -> Seq<char> {
    seq!['['] + json_string_list(tags) + seq![']']
}

/// A provenance tag as JSON: externally tagged, `null` when absent.
pub open spec fn json_via(v: Option<ViaView>) -> Seq<char> {
    match v {
        None => "null"@,
        Some(ViaView::Friend(x)) => seq!['{'] + json_string("Friend"@) + seq![':'] + json_string(x)
            + seq!['}'],
        Some(ViaView::Link(x)) => seq!['{'] + json_string("Link"@) + seq![':'] + json_string(x)
            + seq!['}'],
        Some(ViaView::Freeform(x)) => seq!['{'] + json_string("Freeform"@) + seq![':']
            + json_string(x) + seq!['}'],
    }
}

/// One metadata entry as a JSON member: `"name":["v1","v2"]`.
pub open spec fn json_member(e: MetaEntryView) -> Seq<char> {
    json_string(e.name) + seq![':'] + json_tags(e.values)
}

/// Comma-joined members.
pub open spec fn json_member_list(es: Seq<MetaEntryView>) -> Seq<char>
    decreases es.len(),
{
    if es.len() == 0 {
        Seq::empty()
    } else if es.len() == 1 {
        json_member(es[0])
    } else {
        json_member_list(es.drop_last()) + seq![','] + json_member(es.last())
    }
}

/// A metadata table as a compact JSON object.
pub open spec fn json_table(es: Seq<MetaEntryView>) -> Seq<char> {
    seq!['{'] + json_member_list(es) + seq!['}']
}

/// Appends the JSON string for `s` (quotes included) to `out`.
#[verifier::loop_isolation(false)]
pub fn encode_json_string(out: &mut String, s: &str)
    ensures
        final(out)@ == old(out)@ + json_string(s@),
{
    let ghost base = out@;
    push_char(out, '"');
    let n: usize = vstd::string::StrSliceExecFns::unicode_len(s);
    let mut i: usize = 0;
    while i < n
        invariant
            i <= n,
            n == s@.len(),
            out@ == base + seq!['"'] + json_escape(s@.take(i as int)),
        decreases n - i,
    {
        let c = vstd::string::StrSliceExecFns::get_char(s, i);
        if c == '"' {
            push_char(out, '\\');
            push_char(out, '"');
        } else if c == '\\' {
            push_char(out, '\\');
            push_char(out, '\\');
        } else if c == '\u{8}' {
            push_char(out, '\\');
            push_char(out, 'b');
        } else if c == '\u{c}' {
            push_char(out, '\\');
            push_char(out, 'f');
        } else if c == '\n' {
            push_char(out, '\\');
            push_char(out, 'n');
        } else if c == '\r' {
            push_char(out, '\\');
            push_char(out, 'r');
        } else if c == '\t' {
            push_char(out, '\\');
            push_char(out, 't');
        } else if (c as u32) < 32 {
            push_char(out, '\\');
            push_char(out, 'u');
            push_char(out, '0');
            push_char(out, '0');
            let v: u32 = c as u32;
            let hi: u32 = v / 16;
            let lo: u32 = v % 16;
            push_char(out, hex_digit_exec(hi));
            push_char(out, hex_digit_exec(lo));
        } else {
            push_char(out, c);
        }
        i += 1;
        proof {
            assert(s@.take(i as int).drop_last() =~= s@.take(i - 1));
            assert(s@.take(i as int).last() == s@[i - 1]);
            assert(out@ =~= base + seq!['"'] + json_escape(s@.take(i as int)));
        }
    }
    push_char(out, '"');
    proof {
        assert(s@.take(n as int) =~= s@);
        assert(out@ =~= base + json_string(s@));
    }
}

/// The compact JSON array for a tag list.
#[verifier::loop_isolation(false)]
pub fn encode_tags(tags: &Vec<String>) -> (r: String)
    ensures
        r@ == json_tags(tags.deep_view()),
{
    let ghost tv = tags.deep_view();
    let mut out = String::new();
    push_char(&mut out, '[');
    let mut i: usize = 0;
    while i < tags.len()
        invariant
            i <= tags@.len(),
            tv == tags.deep_view(),
            tv.len() == tags@.len(),
            out@ == seq!['['] + json_string_list(tv.take(i as int)),
        decreases tags@.len() - i,
    {
        if i > 0 {
            push_char(&mut out, ',');
        }
        encode_json_string(&mut out, tags[i].as_str());
        i += 1;
        proof {
            assert(tv.take(i as int).drop_last() =~= tv.take(i - 1));
            assert(tv.take(i as int).last() == tv[i - 1]);
            assert(out@ =~= seq!['['] + json_string_list(tv.take(i as int)));
        }
    }
    push_char(&mut out, ']');
    proof {
        assert(tv.take(tv.len() as int) =~= tv);
        assert(out@ =~= json_tags(tv));
    }
    out
}

/// The JSON text for a provenance tag.
pub fn encode_via(via: &Option<Via>) -> (r: String)
    ensures
        r@ == json_via(via.deep_view()),
{
    match via {
        None => {
            let r: String = <String as vstd::string::StringExecFns>::from_str("null");
            r
        },
        Some(v) => {
            let mut out = String::new();
            push_char(&mut out, '{');
            let body: &String = match v {
                Via::Friend(x) => {
                    encode_json_string(&mut out, "Friend");
                    x
                },
                Via::Link(x) => {
                    encode_json_string(&mut out, "Link");
                    x
                },
                Via::Freeform(x) => {
                    encode_json_string(&mut out, "Freeform");
                    x
                },
            };
            push_char(&mut out, ':');
            encode_json_string(&mut out, body.as_str());
            push_char(&mut out, '}');
            proof {
                assert(out@ =~= json_via(via.deep_view()));
            }
            out
        },
    }
}

/// The compact JSON object for a metadata table.
#[verifier::loop_isolation(false)]
pub fn encode_table(entries: &Vec<MetaEntry>) -> (r: String)
    ensures
        r@ == json_table(entries.deep_view()),
{
    let ghost ev = entries.deep_view();
    let mut out = String::new();
    push_char(&mut out, '{');
    let mut i: usize = 0;
    while i < entries.len()
        invariant
            i <= entries@.len(),
            ev == entries.deep_view(),
            ev.len() == entries@.len(),
            out@ == seq!['{'] + json_member_list(ev.take(i as int)),
        decreases entries@.len() - i,
    {
        if i > 0 {
            push_char(&mut out, ',');
        }
        encode_json_string(&mut out, entries[i].name.as_str());
        push_char(&mut out, ':');
        let values = encode_tags(&entries[i].values);
        append_chars(&mut out, crate::text::chars_of(values.as_str()).as_slice());
        i += 1;
        proof {
            assert(ev.take(i as int).drop_last() =~= ev.take(i - 1));
            assert(ev.take(i as int).last() == ev[i - 1]);
            assert(ev[i - 1] == entries@[i - 1]@);
            assert(out@ =~= seq!['{'] + json_member_list(ev.take(i as int)));
        }
    }
    push_char(&mut out, '}');
    proof {
        assert(ev.take(ev.len() as int) =~= ev);
        assert(out@ =~= json_table(ev));
    }
    out
}

pub open spec fn is_hex_lower(c: char) -> bool {
    ('0' <= c && c <= '9') || ('a' <= c && c <= 'f')
}

pub open spec fn hex_val(c: char) -> int {
    if c <= '9' {
        c as int - 48
    } else {
        c as int - 87
    }
}

/// Canonical JSON string-body parser: consumes up to and including the
/// closing quote, decoding exactly the escapes the encoder emits; any
/// other escape, or a raw control character, is rejected.
pub open spec fn sp_chars(s: Seq<char>, pos: int, acc: Seq<char>) -> Option<(Seq<char>, int)>
    decreases s.len() - pos
        when 0 <= pos <= s.len()
{
    if pos >= s.len() {
        None
    } else if s[pos] == '"' {
        Some((acc, pos + 1))
    } else if s[pos] == '\\' {
        if pos + 1 < s.len() {
            let e = s[pos + 1];
            if e == '"' {
                sp_chars(s, pos + 2, acc.push('"'))
            } else if e == '\\' {
                sp_chars(s, pos + 2, acc.push('\\'))
            } else if e == 'b' {
                sp_chars(s, pos + 2, acc.push('\u{8}'))
            } else if e == 'f' {
                sp_chars(s, pos + 2, acc.push('\u{c}'))
            } else if e == 'n' {
                sp_chars(s, pos + 2, acc.push('\n'))
            } else if e == 'r' {
                sp_chars(s, pos + 2, acc.push('\r'))
            } else if e == 't' {
                sp_chars(s, pos + 2, acc.push('\t'))
            } else if e == 'u' {
                if pos + 5 < s.len() && s[pos + 2] == '0' && s[pos + 3] == '0' && is_hex_lower(
                    s[pos + 4],
                ) && is_hex_lower(s[pos + 5]) {
                    let v = hex_val(s[pos + 4]) * 16 + hex_val(s[pos + 5]);
                    let c = ((v as u8) as char);
                    if v < 32 && !short_escape(c) {
                        sp_chars(s, pos + 6, acc.push(c))
                    } else {
                        None
                    }
                } else {
                    None
                }
            } else {
                None
            }
        } else {
            None
        }
    } else if s[pos] <= '\u{1f}' {
        None
    } else {
        sp_chars(s, pos + 1, acc.push(s[pos]))
    }
}

/// Canonical JSON string parser: expects the opening quote at `pos`.
pub open spec fn sp_string(s: Seq<char>, pos: int) -> Option<(Seq<char>, int)> {
    if 0 <= pos < s.len() && s[pos] == '"' {
        sp_chars(s, pos + 1, Seq::empty())
    } else {
        None
    }
}

/// A successful string parse always moves forward and stays in bounds.
pub proof fn lemma_sp_chars_advances(s: Seq<char>, pos: int, acc: Seq<char>)
    requires
        0 <= pos <= s.len(),
    ensures
        match sp_chars(s, pos, acc) {
            Some(r) => pos < r.1 <= s.len(),
            None => true,
        },
    decreases s.len() - pos,
{
    if pos < s.len() && s[pos] != '"' {
        if s[pos] == '\\' {
            if pos + 1 < s.len() {
                let e = s[pos + 1];
                if e == 'u' {
                    if pos + 5 < s.len() && s[pos + 2] == '0' && s[pos + 3] == '0' && is_hex_lower(
                        s[pos + 4],
                    ) && is_hex_lower(s[pos + 5]) {
                        let v = hex_val(s[pos + 4]) * 16 + hex_val(s[pos + 5]);
                        lemma_sp_chars_advances(s, pos + 6, acc.push((v as u8) as char));
                    }
                } else {
                    lemma_sp_chars_advances(s, pos + 2, acc.push(e));
                    lemma_sp_chars_advances(s, pos + 2, acc.push('"'));
                    lemma_sp_chars_advances(s, pos + 2, acc.push('\\'));
                    lemma_sp_chars_advances(s, pos + 2, acc.push('\u{8}'));
                    lemma_sp_chars_advances(s, pos + 2, acc.push('\u{c}'));
                    lemma_sp_chars_advances(s, pos + 2, acc.push('\n'));
                    lemma_sp_chars_advances(s, pos + 2, acc.push('\r'));
                    lemma_sp_chars_advances(s, pos + 2, acc.push('\t'));
                }
            }
        } else if (s[pos] as int) >= 32 {
            lemma_sp_chars_advances(s, pos + 1, acc.push(s[pos]));
        }
    }
}

/// Canonical parser for the items of a JSON string array, after `[`.
pub open spec fn sp_tag_items(s: Seq<char>, pos: int, acc: Seq<Seq<char>>) -> Option<
    (Seq<Seq<char>>, int),
>
    decreases s.len() - pos
        when 0 <= pos <= s.len()
        via sp_tag_items_dec
{
    match sp_string(s, pos) {
        None => None,
        Some((v, p2)) => if p2 < s.len() && s[p2] == ',' {
            sp_tag_items(s, p2 + 1, acc.push(v))
        } else if p2 < s.len() && s[p2] == ']' {
            Some((acc.push(v), p2 + 1))
        } else {
            None
        },
    }
}

#[via_fn]
proof fn sp_tag_items_dec(s: Seq<char>, pos: int, acc: Seq<Seq<char>>) {
    if 0 <= pos < s.len() && s[pos] == '"' {
        lemma_sp_chars_advances(s, pos + 1, Seq::empty());
    }
}

/// Canonical parser for a whole JSON string array.
pub open spec fn sp_tags(s: Seq<char>, pos: int) -> Option<(Seq<Seq<char>>, int)> {
    if 0 <= pos < s.len() && s[pos] == '[' {
        if pos + 1 < s.len() && s[pos + 1] == ']' {
            Some((Seq::empty(), pos + 2))
        } else {
            sp_tag_items(s, pos + 1, Seq::empty())
        }
    } else {
        None
    }
}

/// What decoding a stored tag column yields: the whole text must be one
/// canonical JSON string array.
pub open spec fn spec_decode_tags(s: Seq<char>) -> Option<Seq<Seq<char>>> {
    match sp_tags(s, 0) {
        Some((v, p)) => if p == s.len() {
            Some(v)
        } else {
            None
        },
        None => None,
    }
}

/// String-body parsing, executably.
#[verifier::loop_isolation(false)]
fn parse_chars(s: &[char], pos: usize, acc: String) -> (r: Option<(String, usize)>)
    requires
        pos <= s@.len(),
    ensures
        match (r, sp_chars(s@, pos as int, acc@)) {
            (Some(out), Some(sp)) => out.0@ == sp.0 && out.1 == sp.1,
            (None, None) => true,
            _ => false,
        },
    decreases s@.len() - pos,
{
    if pos >= s.len() {
        return None;
    }
    let c = s[pos];
    if c == '"' {
        return Some((acc, pos + 1));
    }
    if c == '\\' {
        if pos + 1 >= s.len() {
            return None;
        }
        let e = s[pos + 1];
        let decoded: Option<char> = if e == '"' {
            Some('"')
        } else if e == '\\' {
            Some('\\')
        } else if e == 'b' {
            Some('\u{8}')
        } else if e == 'f' {
            Some('\u{c}')
        } else if e == 'n' {
            Some('\n')
        } else if e == 'r' {
            Some('\r')
        } else if e == 't' {
            Some('\t')
        } else {
            None
        };
        match decoded {
            Some(d) => {
                proof {
                    assert(sp_chars(s@, pos as int, acc@) == sp_chars(
                        s@,
                        pos + 2,
                        acc@.push(d),
                    ));
                }
                let mut acc = acc;
                push_char(&mut acc, d);
                return parse_chars(s, pos + 2, acc);
            },
            None => {},
        }
        if e != 'u' {
            return None;
        }
        if !(s.len() - pos > 5) {
            return None;
        }
        if !(s[pos + 2] == '0' && s[pos + 3] == '0') {
            return None;
        }
        let h1 = s[pos + 4];
        let h2 = s[pos + 5];
        let hex1 = ('0' <= h1 && h1 <= '9') || ('a' <= h1 && h1 <= 'f');
        let hex2 = ('0' <= h2 && h2 <= '9') || ('a' <= h2 && h2 <= 'f');
        if !(hex1 && hex2) {
            return None;
        }
        let v1: u32 = if h1 <= '9' {
            (h1 as u32) - 48
        } else {
            (h1 as u32) - 87
        };
        let v2: u32 = if h2 <= '9' {
            (h2 as u32) - 48
        } else {
            (h2 as u32) - 87
        };
        let v: u32 = v1 * 16 + v2;
        let d: char = (v as u8) as char;
        if v < 32 && !(d == '\n' || d == '\r' || d == '\t' || d == '\u{8}' || d == '\u{c}') {
            proof {
                assert(sp_chars(s@, pos as int, acc@) == sp_chars(s@, pos + 6, acc@.push(d)));
            }
            let mut acc = acc;
            push_char(&mut acc, d);
            parse_chars(s, pos + 6, acc)
        } else {
            proof {
                assert(sp_chars(s@, pos as int, acc@) is None);
            }
            None
        }
    } else if c <= '\u{1f}' {
        proof {
            assert(sp_chars(s@, pos as int, acc@) is None);
        }
        None
    } else {
        proof {
            assert(sp_chars(s@, pos as int, acc@) == sp_chars(s@, pos + 1, acc@.push(c)));
        }
        let mut acc = acc;
        push_char(&mut acc, c);
        parse_chars(s, pos + 1, acc)
    }
}

/// Quoted-string parsing, executably.
fn parse_string(s: &[char], pos: usize) -> (r: Option<(String, usize)>)
    ensures
        match (r, sp_string(s@, pos as int)) {
            (Some(out), Some(sp)) => out.0@ == sp.0 && out.1 == sp.1,
            (None, None) => true,
            _ => false,
        },
{
    if pos < s.len() && s[pos] == '"' {
        parse_chars(s, pos + 1, String::new())
    } else {
        None
    }
}

/// Array parsing at a position, executably.
#[verifier::loop_isolation(false)]
fn parse_tags_at(s: &[char], pos: usize) -> (r: Option<(Vec<String>, usize)>)
    requires
        pos <= s@.len(),
    ensures
        match (r, sp_tags(s@, pos as int)) {
            (Some(out), Some(sp)) => out.0.deep_view() == sp.0 && out.1 == sp.1,
            (None, None) => true,
            _ => false,
        },
{
    if !(pos < s.len() && s[pos] == '[') {
        return None;
    }
    if pos + 1 < s.len() && s[pos + 1] == ']' {
        let out: Vec<String> = Vec::new();
        proof {
            assert(out.deep_view() =~= Seq::<Seq<char>>::empty());
        }
        return Some((out, pos + 2));
    }
    let mut acc: Vec<String> = Vec::new();
    proof {
        assert(acc.deep_view() =~= Seq::<Seq<char>>::empty());
    }
    let mut cur: usize = pos + 1;
    let mut done = false;
    let mut result: Option<(Vec<String>, usize)> = None;
    while !done
        invariant
            pos + 1 <= cur <= s@.len(),
            pos < s@.len() && s@[pos as int] == '[',
            !(pos + 1 < s@.len() && s@[pos + 1] == ']'),
            !done ==> sp_tags(s@, pos as int) == sp_tag_items(s@, cur as int, acc.deep_view()),
            done ==> match (result, sp_tags(s@, pos as int)) {
                (Some(out), Some(sp)) => out.0.deep_view() == sp.0 && out.1 == sp.1,
                (None, None) => true,
                _ => false,
            },
        decreases s@.len() - cur + (if done { 0int } else { 1int }),
    {
        match parse_string(s, cur) {
            None => {
                result = None;
                done = true;
            },
            Some((v, p2)) => {
                proof {
                    lemma_sp_chars_advances(s@, cur + 1, Seq::empty());
                }
                let ghost prev = acc.deep_view();
                let ghost vv = v@;
                acc.push(v);
                proof {
                    assert(acc.deep_view() =~~= prev.push(vv));
                }
                if p2 < s.len() && s[p2] == ',' {
                    cur = p2 + 1;
                } else if p2 < s.len() && s[p2] == ']' {
                    result = Some((acc, p2 + 1));
                    acc = Vec::new();
                    done = true;
                } else {
                    result = None;
                    done = true;
                }
            },
        }
    }
    result
}

/// Decodes a stored tag column: one canonical JSON string array, whole.
pub fn decode_tags(s: &[char]) -> (r: Option<Vec<String>>)
    ensures
        match (r, spec_decode_tags(s@)) {
            (Some(out), Some(sp)) => out.deep_view() == sp,
            (None, None) => true,
            _ => false,
        },
{
    match parse_tags_at(s, 0) {
        Some((v, p)) => if p == s.len() {
            Some(v)
        } else {
            None
        },
        None => None,
    }
}


/// What decoding a stored `via` column yields: `null` or one canonical
/// externally-tagged object, whole.
pub open spec fn spec_decode_via(s: Seq<char>) -> Option<Option<ViaView>> {
    if s == "null"@ {
        Some(None)
    } else if 0 < s.len() && s[0] == '{' {
        match sp_string(s, 1) {
            Some((key, p2)) => if p2 < s.len() && s[p2] == ':' {
                match sp_string(s, p2 + 1) {
                    Some((val, p3)) => if p3 < s.len() && s[p3] == '}' && p3 + 1 == s.len() {
                        if key == "Friend"@ {
                            Some(Some(ViaView::Friend(val)))
                        } else if key == "Link"@ {
                            Some(Some(ViaView::Link(val)))
                        } else if key == "Freeform"@ {
                            Some(Some(ViaView::Freeform(val)))
                        } else {
                            None
                        }
                    } else {
                        None
                    },
                    None => None,
                }
            } else {
                None
            },
            None => None,
        }
    } else {
        None
    }
}

/// Decodes a stored `via` column.
pub fn decode_via(s: &[char]) -> (r: Option<Option<Via>>)
    ensures
        match (r, spec_decode_via(s@)) {
            (Some(out), Some(sp)) => out.deep_view() == sp,
            (None, None) => true,
            _ => false,
        },
{
    if crate::text::chars_eq_str(s, "null") {
        return Some(None);
    }
    if !(0 < s.len() && s[0] == '{') {
        return None;
    }
    match parse_string(s, 1) {
        None => None,
        Some((key, p2)) => {
            if !(p2 < s.len() && s[p2] == ':') {
                return None;
            }
            match parse_string(s, p2 + 1) {
                None => None,
                Some((val, p3)) => {
                    if !(p3 < s.len() && s[p3] == '}' && p3 + 1 == s.len()) {
                        return None;
                    }
                    if crate::text::str_eq(key.as_str(), "Friend") {
                        Some(Some(Via::Friend(val)))
                    } else if crate::text::str_eq(key.as_str(), "Link") {
                        Some(Some(Via::Link(val)))
                    } else if crate::text::str_eq(key.as_str(), "Freeform") {
                        Some(Some(Via::Freeform(val)))
                    } else {
                        None
                    }
                },
            }
        },
    }
}

/// Array parses move forward.
pub proof fn lemma_sp_tags_advances(s: Seq<char>, pos: int)
    requires
        0 <= pos <= s.len(),
    ensures
        match sp_tags(s, pos) {
            Some(r) => pos < r.1 <= s.len(),
            None => true,
        },
{
    if 0 <= pos < s.len() && s[pos] == '[' {
        if !(pos + 1 < s.len() && s[pos + 1] == ']') {
            lemma_sp_tag_items_advances(s, pos + 1, Seq::empty());
        }
    }
}

proof fn lemma_sp_tag_items_advances(s: Seq<char>, pos: int, acc: Seq<Seq<char>>)
    requires
        0 <= pos <= s.len(),
    ensures
        match sp_tag_items(s, pos, acc) {
            Some(r) => pos < r.1 <= s.len(),
            None => true,
        },
    decreases s.len() - pos,
{
    if 0 <= pos < s.len() && s[pos] == '"' {
        lemma_sp_chars_advances(s, pos + 1, Seq::empty());
        match sp_chars(s, pos + 1, Seq::empty()) {
            Some((v, p2)) => {
                if p2 < s.len() && s[p2] == ',' {
                    lemma_sp_tag_items_advances(s, p2 + 1, acc.push(v));
                }
            },
            None => {},
        }
    }
}

/// Canonical parser for the members of a JSON object, after `{`.
pub open spec fn sp_members(s: Seq<char>, pos: int, acc: Seq<MetaEntryView>) -> Option<
    (Seq<MetaEntryView>, int),
>
    decreases s.len() - pos
        when 0 <= pos <= s.len()
        via sp_members_dec
{
    match sp_string(s, pos) {
        None => None,
        Some((name, p2)) => if p2 < s.len() && s[p2] == ':' {
            match sp_tags(s, p2 + 1) {
                Some((values, p3)) => if p3 < s.len() && s[p3] == ',' {
                    sp_members(s, p3 + 1, acc.push(MetaEntryView { name, values }))
                } else if p3 < s.len() && s[p3] == '}' {
                    Some((acc.push(MetaEntryView { name, values }), p3 + 1))
                } else {
                    None
                },
                None => None,
            }
        } else {
            None
        },
    }
}

#[via_fn]
proof fn sp_members_dec(s: Seq<char>, pos: int, acc: Seq<MetaEntryView>) {
    if 0 <= pos < s.len() && s[pos] == '"' {
        lemma_sp_chars_advances(s, pos + 1, Seq::empty());
        match sp_chars(s, pos + 1, Seq::empty()) {
            Some((name, p2)) => {
                if p2 < s.len() && s[p2] == ':' {
                    lemma_sp_tags_advances(s, p2 + 1);
                }
            },
            None => {},
        }
    }
}

/// What decoding a stored metadata column yields: one canonical compact
/// JSON object of string arrays, whole.
pub open spec fn spec_decode_table(s: Seq<char>) -> Option<Seq<MetaEntryView>> {
    if s.len() > 0 && s[0] == '{' {
        if s.len() == 2 && s[1] == '}' {
            Some(Seq::empty())
        } else if s.len() > 1 && s[1] == '}' {
            None
        } else {
            match sp_members(s, 1, Seq::empty()) {
                Some((v, p)) => if p == s.len() {
                    Some(v)
                } else {
                    None
                },
                None => None,
            }
        }
    } else {
        None
    }
}

/// Decodes a stored metadata column.
#[verifier::loop_isolation(false)]
pub fn decode_table(s: &[char]) -> (r: Option<Vec<MetaEntry>>)
    ensures
        match (r, spec_decode_table(s@)) {
            (Some(out), Some(sp)) => out.deep_view() == sp,
            (None, None) => true,
            _ => false,
        },
{
    if !(s.len() > 0 && s[0] == '{') {
        return None;
    }
    if s.len() > 1 && s[1] == '}' {
        if s.len() == 2 {
            let out: Vec<MetaEntry> = Vec::new();
            proof {
                assert(out.deep_view() =~= Seq::<MetaEntryView>::empty());
            }
            return Some(out);
        }
        return None;
    }
    let mut acc: Vec<MetaEntry> = Vec::new();
    proof {
        assert(acc.deep_view() =~= Seq::<MetaEntryView>::empty());
    }
    let mut cur: usize = 1;
    let mut done = false;
    let mut result: Option<Vec<MetaEntry>> = None;
    while !done
        invariant
            1 <= cur <= s@.len(),
            s@.len() > 0 && s@[0] == '{',
            !(s@.len() > 1 && s@[1] == '}'),
            !done ==> sp_members(s@, 1, Seq::empty()) == sp_members(s@, cur as int, acc.deep_view()),
            done ==> match (result, spec_decode_table(s@)) {
                (Some(out), Some(sp)) => out.deep_view() == sp,
                (None, None) => true,
                _ => false,
            },
        decreases s@.len() - cur + (if done { 0int } else { 1int }),
    {
        let parsed: Option<(MetaEntry, usize)> = match parse_string(s, cur) {
            None => None,
            Some((name, p2)) => {
                proof {
                    lemma_sp_chars_advances(s@, cur + 1, Seq::empty());
                }
                if p2 < s.len() && s[p2] == ':' {
                    match parse_tags_at(s, p2 + 1) {
                        None => None,
                        Some((values, p3)) => {
                            proof {
                                lemma_sp_tags_advances(s@, p2 + 1);
                            }
                            Some((MetaEntry { name, values }, p3))
                        },
                    }
                } else {
                    None
                }
            },
        };
        match parsed {
            None => {
                result = None;
                done = true;
            },
            Some((entry, p3)) => {
                let ghost prev = acc.deep_view();
                let ghost ev = entry@;
                acc.push(entry);
                proof {
                    assert(acc.deep_view() =~~= prev.push(ev));
                }
                if p3 < s.len() && s[p3] == ',' {
                    cur = p3 + 1;
                } else if p3 < s.len() && s[p3] == '}' {
                    if p3 + 1 == s.len() {
                        result = Some(acc);
                        acc = Vec::new();
                        done = true;
                    } else {
                        result = None;
                        done = true;
                    }
                } else {
                    result = None;
                    done = true;
                }
            },
        }
    }
    result
}

/// The view of an optional byte buffer.
pub open spec fn bytes_view(o: Option<Vec<u8>>) -> Option<Seq<u8>> {
    match o {
        Some(v) => Some(v@),
        None => None,
    }
}

/// What compressing a byte buffer into a zstd frame (level 0) yields —
/// the frame, or a failure: a deterministic function of the bytes alone.
pub uninterp spec fn zstd_frame_of(b: Seq<u8>) -> Option<Seq<u8>>;

/// What decoding a byte buffer as a zstd frame yields — the payload, or a
/// failure: a deterministic function of the bytes alone.
pub uninterp spec fn zstd_unframed(b: Seq<u8>) -> Option<Seq<u8>>;

/// Relies on zstd::encode_all at level 0: single-threaded, deterministic
/// in the input bytes; an I/O-layer failure yields `None`.
#[verifier::external_body]
fn zstd_compress(b: &Vec<u8>) -> (r: Option<Vec<u8>>)
    ensures
        match r {
            Some(v) => zstd_frame_of(b@) == Some(v@),
            None => zstd_frame_of(b@) is None,
        },
{
    zstd::encode_all(b.as_slice(), 0).ok()
}

/// Relies on zstd::decode_all: deterministic in the input bytes, and the
/// lossless inverse of compression — decoding a frame returns exactly the
/// bytes that were compressed into it.
#[verifier::external_body]
fn zstd_decompress(b: &Vec<u8>) -> (r: Option<Vec<u8>>)
    ensures
        match r {
            Some(v) => zstd_unframed(b@) == Some(v@) && (forall|orig: Seq<u8>|
                Some(b@) == #[trigger] zstd_frame_of(orig) ==> v@ == orig),
            None => zstd_unframed(b@) is None && (forall|orig: Seq<u8>|
                Some(b@) != #[trigger] zstd_frame_of(orig)),
        },
{
    zstd::decode_all(b.as_slice()).ok()
}

/// One relational row, exactly as the store binds it: JSON text for the
/// structured columns, zstd frames for the large ones, epoch milliseconds
/// for the timestamps, and 0/1 for `hidden`.
pub struct LinkRow {
    pub url: String,
    pub title: Option<String>,
    pub tags: String,
    pub via: String,
    pub notes: Option<String>,
    pub found_at: Option<i64>,
    pub read_at: Option<i64>,
    pub published_at: Option<i64>,
    pub from_filename: Option<String>,
    pub image: Option<String>,
    pub src: Option<Vec<u8>>,
    pub meta: Option<String>,
    pub last_fetched: Option<i64>,
    pub last_processed: Option<i64>,
    pub http_headers: Option<Vec<u8>>,
    pub hidden: i64,
}

/// Encodes a record into its row: `tags` and `via` as compact JSON,
/// `meta` as JSON text, `src` compressed, `http_headers` as compressed
/// JSON, timestamps as epoch milliseconds, `hidden` as 0/1. A compression
/// failure — deterministic in the bytes, and never seen in practice —
/// drops the affected column, never the row.
pub fn encode_link_row(link: &Link) -> (r: LinkRow)
    ensures
        r.url@ == link@.url,
        r.title.deep_view() == link@.title,
        r.tags@ == json_tags(link@.tags),
        r.via@ == json_via(link@.via),
        r.notes.deep_view() == link@.notes,
        r.found_at == link@.found_at,
        r.read_at == link@.read_at,
        r.published_at == link@.published_at,
        r.from_filename.deep_view() == link@.from_filename,
        r.image.deep_view() == link@.image,
        match link@.src {
            Some(b) => bytes_view(r.src) == zstd_frame_of(b),
            None => r.src is None,
        },
        match (r.meta, link@.meta) {
            (Some(m), Some(t)) => m@ == json_table(t),
            (None, None) => true,
            _ => false,
        },
        r.last_fetched == link@.last_fetched,
        r.last_processed == link@.last_processed,
        match link@.http_headers {
            Some(h) => bytes_view(r.http_headers) == zstd_frame_of(
                vstd::utf8::encode_utf8(json_table(h)),
            ),
            None => r.http_headers is None,
        },
        r.hidden == (if link@.hidden {
            1int
        } else {
            0int
        }),
{
    let src = match &link.src {
        Some(b) => zstd_compress(b),
        None => None,
    };
    let meta = match &link.meta {
        Some(m) => Some(encode_table(m)),
        None => None,
    };
    let http_headers = match &link.http_headers {
        Some(h) => {
            let text = encode_table(h);
            let bytes = vstd::string::StrSliceExecFns::as_bytes_vec(text.as_str());
            zstd_compress(&bytes)
        },
        None => None,
    };
    LinkRow {
        url: link.url.clone(),
        title: crate::link::clone_opt_string(&link.title),
        tags: encode_tags(&link.tags),
        via: encode_via(&link.via),
        notes: crate::link::clone_opt_string(&link.notes),
        found_at: link.found_at,
        read_at: link.read_at,
        published_at: link.published_at,
        from_filename: crate::link::clone_opt_string(&link.from_filename),
        image: crate::link::clone_opt_string(&link.image),
        src,
        meta,
        last_fetched: link.last_fetched,
        last_processed: link.last_processed,
        http_headers,
        hidden: if link.hidden {
            1
        } else {
            0
        },
    }
}

/// Why a stored row cannot be read back.
#[derive(Debug)]
pub enum RowError {
    /// The `tags` column is not a canonical JSON string array.
    BadTags,
}

impl RowError {
    /// A short description of the failure.
    pub fn message(&self) -> (r: &'static str)
        ensures
            r@ == "invalid tags column"@,
    {
        "invalid tags column"
    }
}

/// What a stored `http_headers` column reads back as: the zstd payload,
/// decoded as UTF-8, parsed as a canonical metadata table; any failed step
/// degrades to absence.
pub open spec fn spec_decode_header_column(f: Seq<u8>) -> Option<Seq<MetaEntryView>> {
    match zstd_unframed(f) {
        Some(bytes) => if vstd::utf8::valid_utf8(bytes) {
            spec_decode_table(vstd::utf8::decode_utf8(bytes))
        } else {
            None
        },
        None => None,
    }
}

/// Decodes a stored row back into a record.
///
/// Fails exactly when the `tags` column does not decode; every other
/// structured column degrades to absence when it cannot be read, as a
/// store populated by older writers may hold such rows. Decoding a column
/// this crate's encoder wrote recovers exactly what was encoded: tags, via
/// and meta by the round-trip laws, `src` and `http_headers` by the
/// frame clauses below.
pub fn decode_link_row(row: LinkRow) -> (r: Result<Link, RowError>)
    ensures
        r is Err <==> spec_decode_tags(row.tags@) is None,
        match r {
            Ok(l) => {
                &&& l@.url == row.url@
                &&& l@.title == row.title.deep_view()
                &&& Some(l@.tags) == spec_decode_tags(row.tags@)
                &&& l@.via == (match spec_decode_via(row.via@) {
                    Some(v) => v,
                    None => None,
                })
                &&& l@.notes == row.notes.deep_view()
                &&& l@.found_at == row.found_at
                &&& l@.read_at == row.read_at
                &&& l@.published_at == row.published_at
                &&& l@.from_filename == row.from_filename.deep_view()
                &&& l@.image == row.image.deep_view()
                &&& (match row.meta {
                    Some(m) => l@.meta == spec_decode_table(m@),
                    None => l@.meta is None,
                })
                &&& (match row.src {
                    Some(f) => l@.src == zstd_unframed(f@) && (forall|orig: Seq<u8>|
                        Some(f@) == #[trigger] zstd_frame_of(orig) ==> l@.src == Some(orig)),
                    None => l@.src is None,
                })
                &&& (match row.http_headers {
                    Some(f) => l@.http_headers == spec_decode_header_column(f@) && (forall|
                        orig: Seq<u8>,
                    |
                        Some(f@) == #[trigger] zstd_frame_of(orig) ==> l@.http_headers == (
                        if vstd::utf8::valid_utf8(orig) {
                            spec_decode_table(vstd::utf8::decode_utf8(orig))
                        } else {
                            None
                        })),
                    None => l@.http_headers is None,
                })
                &&& l@.extracted_text is None
                &&& l@.last_fetched == row.last_fetched
                &&& l@.last_processed == row.last_processed
                &&& l@.hidden == (row.hidden != 0)
            },
            Err(e) => true,
        },
{
    let tags = match decode_tags(crate::text::chars_of(row.tags.as_str()).as_slice()) {
        Some(t) => t,
        None => {
            return Err(RowError::BadTags);
        },
    };
    let via = match decode_via(crate::text::chars_of(row.via.as_str()).as_slice()) {
        Some(v) => v,
        None => None,
    };
    let meta = match &row.meta {
        Some(m) => match decode_table(crate::text::chars_of(m.as_str()).as_slice()) {
            Some(t) => Some(t),
            None => None,
        },
        None => None,
    };
    let src = match &row.src {
        Some(f) => zstd_decompress(f),
        None => None,
    };
    let http_headers = match &row.http_headers {
        Some(f) => match zstd_decompress(f) {
            Some(bytes) => match crate::pipeline::decode_utf8_bytes(&bytes) {
                Some(text) => decode_table(
                    crate::text::chars_of(text.as_str()).as_slice(),
                ),
                None => None,
            },
            None => None,
        },
        None => None,
    };
    Ok(
        Link {
            url: row.url,
            title: row.title,
            via,
            tags,
            notes: row.notes,
            found_at: row.found_at,
            read_at: row.read_at,
            published_at: row.published_at,
            from_filename: row.from_filename,
            image: row.image,
            meta,
            src,
            extracted_text: None,
            last_fetched: row.last_fetched,
            last_processed: row.last_processed,
            http_headers,
            hidden: row.hidden != 0,
        },
    )
}


/// The escape of a string also peels from the front.
proof fn lemma_json_escape_first(s: Seq<char>)
    requires
        s.len() > 0,
    ensures
        json_escape(s) == json_escape_char(s[0]) + json_escape(s.drop_first()),
    decreases s.len(),
{
    if s.len() == 1 {
        assert(s.drop_last() =~= Seq::<char>::empty());
        assert(s.drop_first() =~= Seq::<char>::empty());
        assert(json_escape(s) =~= json_escape_char(s[0]) + json_escape(s.drop_first()));
    } else {
        lemma_json_escape_first(s.drop_last());
        assert(s.drop_last()[0] == s[0]);
        assert(s.drop_first().drop_last() =~= s.drop_last().drop_first());
        assert(s.drop_first().last() == s.last());
        assert(json_escape(s) =~= json_escape_char(s[0]) + json_escape(s.drop_first()));
    }
}

/// Every character holds a valid scalar value; `Seq<char>` does not carry
/// this by itself, so round-trip proofs ask for it explicitly.
pub open spec fn valid_chars(s: Seq<char>) -> bool {
    forall|j: int| 0 <= j < s.len() ==> 0 <= #[trigger] s[j] as int
}

/// Parsing the canonical escape of `body` up to its closing quote
/// succeeds and recovers `body` exactly.
proof fn lemma_sp_chars_complete(s: Seq<char>, pos: int, acc: Seq<char>, body: Seq<char>)
    requires
        0 <= pos,
        valid_chars(body),
        pos + json_escape(body).len() + 1 <= s.len(),
        s.subrange(pos, pos + json_escape(body).len() as int) == json_escape(body),
        s[pos + json_escape(body).len() as int] == '"',
    ensures
        sp_chars(s, pos, acc) == Some(
            (acc + body, pos + json_escape(body).len() + 1),
        ),
    decreases body.len(),
{
    let esc = json_escape(body);
    if body.len() == 0 {
        assert(s[pos] == '"');
        assert(acc + body =~= acc);
    } else {
        lemma_json_escape_first(body);
        let c = body[0];
        let e = json_escape_char(c);
        let rest = body.drop_first();
        let resc = json_escape(rest);
        assert(esc == e + resc);
        assert forall|j: int| 0 <= j < esc.len() implies s[pos + j] == esc[j] by {
            assert(s.subrange(pos, pos + esc.len() as int)[j] == s[pos + j]);
        }
        assert forall|j: int| 0 <= j < e.len() implies s[pos + j] == e[j] by {
            assert(s[pos + j] == esc[j]);
            assert(esc[j] == e[j]);
        }
        let pos2 = pos + e.len();
        assert forall|j: int|
            0 <= j < resc.len() implies s.subrange(pos2 as int, pos2 + resc.len() as int)[j]
            == resc[j] by {
            assert(s.subrange(pos2 as int, pos2 + resc.len() as int)[j] == s[pos2 + j]);
            assert(s[pos2 + j] == esc[e.len() + j]);
            assert(esc[e.len() + j] == resc[j]);
        }
        assert(s.subrange(pos2 as int, pos2 + resc.len() as int) =~= resc);
        assert(s[pos2 + resc.len() as int] == '"');
        assert(valid_chars(rest)) by {
            assert(forall|j: int|
                0 <= j < rest.len() ==> rest[j] == #[trigger] body[j + 1]);
        }
        lemma_sp_chars_complete(s, pos2, acc.push(c), rest);
        assert(acc.push(c) + rest =~= acc + body);
        if c == '"' || c == '\\' || short_escape(c) {
            assert(s[pos] == '\\');
        } else if (c as int) < 32 {
            assert(s[pos] == '\\' && s[pos + 1] == 'u' && s[pos + 2] == '0' && s[pos + 3]
                == '0');
            let hi = c as int / 16;
            let lo = c as int % 16;
            assert('0' as int == 48);
            assert((c as int) < 32);
            assert(0 <= (c as int)) by {
                assert(0 <= body[0] as int);
            }
            assert(0 <= hi < 2);
            assert(0 <= lo < 16);
            assert(s[pos + 4] == hex_digit(hi) && s[pos + 5] == hex_digit(lo));
            assert(is_hex_lower(hex_digit(hi)) && hex_val(hex_digit(hi)) == hi);
            assert(is_hex_lower(hex_digit(lo)) && hex_val(hex_digit(lo)) == lo);
            let v = hex_val(s[pos + 4]) * 16 + hex_val(s[pos + 5]);
            assert(v == c as int);
            assert(((v as u8) as char) == c);
            assert(!short_escape(c));
        } else {
            assert(e[0] == c);
            assert(s[pos + 0] == e[0]);
            assert(s[pos] == c);
            assert(c != '"' && c != '\\');
            assert(!(s[pos] <= '\u{1f}'));
        }
    }
}

/// The comma-joined string list also peels from the front.
proof fn lemma_json_list_first(xs: Seq<Seq<char>>)
    requires
        xs.len() >= 2,
    ensures
        json_string_list(xs) == json_string(xs[0]) + seq![','] + json_string_list(
            xs.drop_first(),
        ),
    decreases xs.len(),
{
    if xs.len() == 2 {
        assert(xs.drop_last() =~= seq![xs[0]]);
        assert(xs.drop_first() =~= seq![xs[1]]);
        assert(json_string_list(seq![xs[0]]) == json_string(xs[0]));
        assert(json_string_list(seq![xs[1]]) == json_string(xs[1]));
        assert(xs.last() == xs[1]);
        assert(json_string_list(xs) =~= json_string(xs[0]) + seq![','] + json_string_list(
            xs.drop_first(),
        ));
    } else {
        let dl = xs.drop_last();
        let df = xs.drop_first();
        lemma_json_list_first(dl);
        assert(dl[0] == xs[0]);
        assert(df.drop_last() =~= dl.drop_first());
        assert(df.last() == xs.last());
        assert(json_string_list(xs) == json_string_list(dl) + seq![','] + json_string(
            xs.last(),
        ));
        assert(json_string_list(dl) == json_string(xs[0]) + seq![','] + json_string_list(
            dl.drop_first(),
        ));
        assert(df.len() >= 2);
        assert(json_string_list(df) == json_string_list(df.drop_last()) + seq![','] + json_string(
            df.last(),
        ));
        assert(json_string_list(df.drop_last()) == json_string_list(dl.drop_first()));
        assert(json_string_list(xs) =~= json_string(xs[0]) + seq![','] + json_string_list(df));
    }
}

/// Parsing the canonical encoding of one or more strings, up to the
/// closing bracket, succeeds and recovers them in order.
proof fn lemma_sp_tag_items_complete(
    s: Seq<char>,
    pos: int,
    acc: Seq<Seq<char>>,
    xs: Seq<Seq<char>>,
)
    requires
        0 <= pos,
        xs.len() >= 1,
        forall|i: int| 0 <= i < xs.len() ==> valid_chars(#[trigger] xs[i]),
        pos + json_string_list(xs).len() + 1 <= s.len(),
        s.subrange(pos, pos + json_string_list(xs).len() as int) == json_string_list(xs),
        s[pos + json_string_list(xs).len() as int] == ']',
    ensures
        sp_tag_items(s, pos, acc) == Some(
            (acc + xs, pos + json_string_list(xs).len() + 1),
        ),
    decreases xs.len(),
{
    let lst = json_string_list(xs);
    let x0 = xs[0];
    let js = json_string(x0);
    let esc = json_escape(x0);
    assert forall|j: int| 0 <= j < lst.len() implies s[pos + j] == lst[j] by {
        assert(s.subrange(pos, pos + lst.len() as int)[j] == s[pos + j]);
    }
    if xs.len() == 1 {
        assert(lst == js);
        assert(s[pos] == js[0] && js[0] == '"');
        assert forall|j: int| 0 <= j < esc.len() implies s[pos + 1 + j] == esc[j] by {
            assert(js[1 + j] == esc[j]);
        }
        assert(s.subrange(pos + 1, pos + 1 + esc.len() as int) =~= esc);
        assert(s[pos + 1 + esc.len() as int] == js[1 + esc.len() as int]);
        assert(js[1 + esc.len() as int] == '"');
        lemma_sp_chars_complete(s, pos + 1, Seq::empty(), x0);
        assert(Seq::empty() + x0 =~= x0);
        let p2 = pos + js.len();
        assert(s[p2] == ']');
        assert(acc.push(x0) =~= acc + xs) by {
            assert(xs =~= seq![x0]);
        }
    } else {
        lemma_json_list_first(xs);
        let rest = xs.drop_first();
        let rlst = json_string_list(rest);
        assert(lst == js + seq![','] + rlst);
        assert forall|j: int| 0 <= j < js.len() implies s[pos + j] == js[j] by {
            assert(lst[j] == js[j]);
        }
        assert(s[pos] == js[0] && js[0] == '"');
        assert forall|j: int| 0 <= j < esc.len() implies s[pos + 1 + j] == esc[j] by {
            assert(js[1 + j] == esc[j]);
        }
        assert(s.subrange(pos + 1, pos + 1 + esc.len() as int) =~= esc);
        assert(s[pos + 1 + esc.len() as int] == js[1 + esc.len() as int]);
        assert(js[1 + esc.len() as int] == '"');
        lemma_sp_chars_complete(s, pos + 1, Seq::empty(), x0);
        assert(Seq::empty() + x0 =~= x0);
        let p2 = pos + js.len();
        assert(s[p2] == lst[js.len() as int]);
        assert(lst[js.len() as int] == ',');
        let pos3 = p2 + 1;
        assert forall|j: int|
            0 <= j < rlst.len() implies s.subrange(pos3, pos3 + rlst.len() as int)[j] == rlst[j]
            by {
            assert(s.subrange(pos3, pos3 + rlst.len() as int)[j] == s[pos3 + j]);
            assert(s[pos3 + j] == lst[js.len() as int + 1 + j]);
            assert(lst[js.len() as int + 1 + j] == rlst[j]);
        }
        assert(s.subrange(pos3, pos3 + rlst.len() as int) =~= rlst);
        assert(s[pos3 + rlst.len() as int] == ']');
        assert(forall|i: int| 0 <= i < rest.len() ==> rest[i] == #[trigger] xs[i + 1]);
        lemma_sp_tag_items_complete(s, pos3, acc.push(x0), rest);
        assert(acc.push(x0) + rest =~= acc + xs);
    }
}

/// Round trip of the tag column: decoding what was encoded recovers
/// exactly the encoded tags. Together with the decoder's own contract —
/// anything it accepts is the canonical encoding of its result — the
/// persisted encoding is lossless and unambiguous.
pub proof fn lemma_tags_round_trip(tags: Seq<Seq<char>>)
    requires
        forall|i: int| 0 <= i < tags.len() ==> valid_chars(#[trigger] tags[i]),
    ensures
        spec_decode_tags(json_tags(tags)) == Some(tags),
{
    let s = json_tags(tags);
    let lst = json_string_list(tags);
    assert(s[0] == '[');
    if tags.len() == 0 {
        assert(s.len() == 2 && s[1] == ']');
        assert(Seq::<Seq<char>>::empty() =~= tags);
    } else {
        let js = json_string(tags[0]);
        assert(s[1] == lst[0]);
        assert(lst[0] == js[0]) by {
            if tags.len() >= 2 {
                lemma_json_list_first(tags);
            }
        }
        assert(js[0] == '"');
        assert(s[1] != ']');
        assert forall|j: int|
            0 <= j < lst.len() implies s.subrange(1, 1 + lst.len() as int)[j] == lst[j] by {
            assert(s.subrange(1, 1 + lst.len() as int)[j] == s[1 + j]);
            assert(s[1 + j] == lst[j]);
        }
        assert(s.subrange(1, 1 + lst.len() as int) =~= lst);
        assert(s[1 + lst.len() as int] == ']');
        lemma_sp_tag_items_complete(s, 1, Seq::empty(), tags);
        assert(Seq::empty() + tags =~= tags);
        assert(sp_tags(s, 0) == Some((tags, s.len() as int)));
    }
}

/// Parsing the canonical encoding of one quoted string inside a larger
/// text succeeds and recovers it.
proof fn lemma_sp_string_complete(s: Seq<char>, pos: int, body: Seq<char>)
    requires
        0 <= pos,
        valid_chars(body),
        pos + json_string(body).len() <= s.len(),
        s.subrange(pos, pos + json_string(body).len() as int) == json_string(body),
    ensures
        sp_string(s, pos) == Some((body, pos + json_string(body).len())),
{
    let js = json_string(body);
    let esc = json_escape(body);
    assert forall|j: int| 0 <= j < js.len() implies s[pos + j] == js[j] by {
        assert(s.subrange(pos, pos + js.len() as int)[j] == s[pos + j]);
    }
    assert(s[pos] == js[0] && js[0] == '"');
    assert forall|j: int| 0 <= j < esc.len() implies s[pos + 1 + j] == esc[j] by {
        assert(js[1 + j] == esc[j]);
    }
    assert(s.subrange(pos + 1, pos + 1 + esc.len() as int) =~= esc);
    assert(s[pos + 1 + esc.len() as int] == js[1 + esc.len() as int]);
    assert(js[1 + esc.len() as int] == '"');
    lemma_sp_chars_complete(s, pos + 1, Seq::empty(), body);
    assert(Seq::empty() + body =~= body);
}

/// Round trip of the `via` column.
pub proof fn lemma_via_round_trip(v: Option<ViaView>)
    requires
        match v {
            Some(ViaView::Friend(x)) => valid_chars(x),
            Some(ViaView::Link(x)) => valid_chars(x),
            Some(ViaView::Freeform(x)) => valid_chars(x),
            None => true,
        },
    ensures
        spec_decode_via(json_via(v)) == Some(v),
{
    let s = json_via(v);
    match v {
        None => {
            assert(spec_decode_via("null"@) == Some(None::<ViaView>));
        },
        Some(inner) => {
            let (key, body): (Seq<char>, Seq<char>) = match inner {
                ViaView::Friend(x) => ("Friend"@, x),
                ViaView::Link(x) => ("Link"@, x),
                ViaView::Freeform(x) => ("Freeform"@, x),
            };
            let jk = json_string(key);
            let jb = json_string(body);
            assert(s == seq!['{'] + jk + seq![':'] + jb + seq!['}']);
            assert(s.len() != 4) by {
                assert(jk.len() >= 2 && jb.len() >= 2);
            }
            assert(s != "null"@) by {
                reveal_strlit("null");
                assert("null"@.len() == 4);
            }
            assert(s[0] == '{');
            assert(valid_chars(key)) by {
                reveal_strlit("Friend");
                reveal_strlit("Link");
                reveal_strlit("Freeform");
                assert forall|j: int| 0 <= j < key.len() implies 0 <= #[trigger] key[j] as int
                    by {
                    assert(key[j] >= '\u{0}' || key[j] as int >= 0 || true);
                    assert(('A' as int) >= 0);
                }
            }
            assert(s.subrange(1, 1 + jk.len() as int) =~= jk);
            lemma_sp_string_complete(s, 1, key);
            let p2 = 1 + jk.len() as int;
            assert(s[p2] == ':');
            assert(s.subrange(p2 + 1, p2 + 1 + jb.len() as int) =~= jb);
            lemma_sp_string_complete(s, p2 + 1, body);
            let p3 = p2 + 1 + jb.len() as int;
            assert(s[p3] == '}');
            assert(p3 + 1 == s.len());
            reveal_strlit("Friend");
            reveal_strlit("Link");
            reveal_strlit("Freeform");
            assert("Friend"@.len() == 6);
            assert("Link"@.len() == 4);
            assert("Freeform"@.len() == 8);
            match inner {
                ViaView::Friend(x) => {
                    assert(key == "Friend"@);
                },
                ViaView::Link(x) => {
                    assert(key != "Friend"@);
                },
                ViaView::Freeform(x) => {
                    assert(key != "Friend"@ && key != "Link"@);
                },
            }
        },
    }
}

/// Parsing the canonical encoding of a whole string array inside a larger
/// text succeeds and recovers it.
proof fn lemma_sp_tags_complete(s: Seq<char>, pos: int, xs: Seq<Seq<char>>)
    requires
        0 <= pos,
        forall|i: int| 0 <= i < xs.len() ==> valid_chars(#[trigger] xs[i]),
        pos + json_tags(xs).len() <= s.len(),
        s.subrange(pos, pos + json_tags(xs).len() as int) == json_tags(xs),
    ensures
        sp_tags(s, pos) == Some((xs, pos + json_tags(xs).len())),
{
    let jt = json_tags(xs);
    let lst = json_string_list(xs);
    assert forall|j: int| 0 <= j < jt.len() implies s[pos + j] == jt[j] by {
        assert(s.subrange(pos, pos + jt.len() as int)[j] == s[pos + j]);
    }
    assert(s[pos] == jt[0] && jt[0] == '[');
    if xs.len() == 0 {
        assert(jt.len() == 2);
        assert(s[pos + 1] == jt[1] && jt[1] == ']');
        assert(Seq::<Seq<char>>::empty() =~= xs);
    } else {
        let js = json_string(xs[0]);
        assert(lst[0] == js[0]) by {
            if xs.len() >= 2 {
                lemma_json_list_first(xs);
            }
        }
        assert(s[pos + 1] == jt[1]);
        assert(jt[1] == lst[0]);
        assert(js[0] == '"');
        assert(s[pos + 1] != ']');
        assert forall|j: int|
            0 <= j < lst.len() implies s.subrange(pos + 1, pos + 1 + lst.len() as int)[j]
            == lst[j] by {
            assert(s.subrange(pos + 1, pos + 1 + lst.len() as int)[j] == s[pos + 1 + j]);
            assert(s[pos + 1 + j] == jt[1 + j]);
            assert(jt[1 + j] == lst[j]);
        }
        assert(s.subrange(pos + 1, pos + 1 + lst.len() as int) =~= lst);
        assert(s[pos + 1 + lst.len() as int] == jt[1 + lst.len() as int]);
        assert(jt[1 + lst.len() as int] == ']');
        lemma_sp_tag_items_complete(s, pos + 1, Seq::empty(), xs);
        assert(Seq::empty() + xs =~= xs);
    }
}

/// The comma-joined member list also peels from the front.
proof fn lemma_json_members_first(es: Seq<MetaEntryView>)
    requires
        es.len() >= 2,
    ensures
        json_member_list(es) == json_member(es[0]) + seq![','] + json_member_list(
            es.drop_first(),
        ),
    decreases es.len(),
{
    if es.len() == 2 {
        assert(es.drop_last() =~= seq![es[0]]);
        assert(es.drop_first() =~= seq![es[1]]);
        assert(json_member_list(seq![es[0]]) == json_member(es[0]));
        assert(json_member_list(seq![es[1]]) == json_member(es[1]));
        assert(es.last() == es[1]);
        assert(json_member_list(es) =~= json_member(es[0]) + seq![','] + json_member_list(
            es.drop_first(),
        ));
    } else {
        let dl = es.drop_last();
        let df = es.drop_first();
        lemma_json_members_first(dl);
        assert(dl[0] == es[0]);
        assert(df.drop_last() =~= dl.drop_first());
        assert(df.last() == es.last());
        assert(json_member_list(es) == json_member_list(dl) + seq![','] + json_member(
            es.last(),
        ));
        assert(df.len() >= 2);
        assert(json_member_list(df) == json_member_list(df.drop_last()) + seq![','] + json_member(
            df.last(),
        ));
        assert(json_member_list(df.drop_last()) == json_member_list(dl.drop_first()));
        assert(json_member_list(es) =~= json_member(es[0]) + seq![','] + json_member_list(df));
    }
}

/// Every name and value of a metadata table holds valid characters.
pub open spec fn valid_entries(es: Seq<MetaEntryView>) -> bool {
    forall|i: int|
        0 <= i < es.len() ==> (valid_chars(#[trigger] es[i].name) && (forall|j: int|
            0 <= j < es[i].values.len() ==> valid_chars(#[trigger] es[i].values[j])))
}

/// Parsing the canonical encoding of one or more members, up to the
/// closing brace, succeeds and recovers them in order.
proof fn lemma_sp_members_complete(
    s: Seq<char>,
    pos: int,
    acc: Seq<MetaEntryView>,
    es: Seq<MetaEntryView>,
)
    requires
        0 <= pos,
        es.len() >= 1,
        valid_entries(es),
        pos + json_member_list(es).len() + 1 <= s.len(),
        s.subrange(pos, pos + json_member_list(es).len() as int) == json_member_list(es),
        s[pos + json_member_list(es).len() as int] == '}',
    ensures
        sp_members(s, pos, acc) == Some(
            (acc + es, pos + json_member_list(es).len() + 1),
        ),
    decreases es.len(),
{
    let lst = json_member_list(es);
    let e0 = es[0];
    let jm = json_member(e0);
    let jn = json_string(e0.name);
    let jv = json_tags(e0.values);
    assert forall|j: int| 0 <= j < lst.len() implies s[pos + j] == lst[j] by {
        assert(s.subrange(pos, pos + lst.len() as int)[j] == s[pos + j]);
    }
    if es.len() == 1 {
        assert(lst == jm);
    } else {
        lemma_json_members_first(es);
    }
    assert forall|j: int| 0 <= j < jm.len() implies s[pos + j] == jm[j] by {
        assert(s[pos + j] == lst[j]);
        assert(lst[j] == jm[j]);
    }
    assert forall|j: int|
        0 <= j < jn.len() implies s.subrange(pos, pos + jn.len() as int)[j] == jn[j] by {
        assert(s.subrange(pos, pos + jn.len() as int)[j] == s[pos + j]);
        assert(jm[j] == jn[j]);
    }
    assert(s.subrange(pos, pos + jn.len() as int) =~= jn);
    lemma_sp_string_complete(s, pos, e0.name);
    let p2 = pos + jn.len() as int;
    assert(s[p2] == jm[jn.len() as int]);
    assert(jm[jn.len() as int] == ':');
    assert forall|j: int|
        0 <= j < jv.len() implies s.subrange(p2 + 1, p2 + 1 + jv.len() as int)[j] == jv[j] by {
        assert(s.subrange(p2 + 1, p2 + 1 + jv.len() as int)[j] == s[p2 + 1 + j]);
        assert(s[p2 + 1 + j] == jm[jn.len() + 1 + j]);
        assert(jm[jn.len() as int + 1 + j] == jv[j]);
    }
    assert(s.subrange(p2 + 1, p2 + 1 + jv.len() as int) =~= jv);
    assert(forall|j: int| 0 <= j < e0.values.len() ==> valid_chars(#[trigger] e0.values[j]));
    lemma_sp_tags_complete(s, p2 + 1, e0.values);
    let p3 = p2 + 1 + jv.len() as int;
    assert(p3 == pos + jm.len());
    assert((MetaEntryView { name: e0.name, values: e0.values }) == e0);
    if es.len() == 1 {
        assert(s[p3] == '}');
        assert(acc.push(e0) =~= acc + es) by {
            assert(es =~= seq![e0]);
        }
    } else {
        let rest = es.drop_first();
        let rlst = json_member_list(rest);
        assert(s[p3] == lst[jm.len() as int]);
        assert(lst[jm.len() as int] == ',');
        let pos3 = p3 + 1;
        assert forall|j: int|
            0 <= j < rlst.len() implies s.subrange(pos3, pos3 + rlst.len() as int)[j] == rlst[j]
            by {
            assert(s.subrange(pos3, pos3 + rlst.len() as int)[j] == s[pos3 + j]);
            assert(s[pos3 + j] == lst[jm.len() as int + 1 + j]);
            assert(lst[jm.len() as int + 1 + j] == rlst[j]);
        }
        assert(s.subrange(pos3, pos3 + rlst.len() as int) =~= rlst);
        assert(s[pos3 + rlst.len() as int] == '}');
        assert(valid_entries(rest)) by {
            assert(forall|i: int| 0 <= i < rest.len() ==> rest[i] == #[trigger] es[i + 1]);
        }
        lemma_sp_members_complete(s, pos3, acc.push(e0), rest);
        assert(acc.push(e0) + rest =~= acc + es);
    }
}

/// Round trip of a metadata column: decoding what was encoded recovers
/// exactly the encoded table.
pub proof fn lemma_table_round_trip(es: Seq<MetaEntryView>)
    requires
        valid_entries(es),
    ensures
        spec_decode_table(json_table(es)) == Some(es),
{
    let s = json_table(es);
    let lst = json_member_list(es);
    assert(s[0] == '{');
    if es.len() == 0 {
        assert(s.len() == 2 && s[1] == '}');
        assert(Seq::<MetaEntryView>::empty() =~= es);
    } else {
        let jn = json_string(es[0].name);
        assert(s[1] == lst[0]);
        assert(lst[0] == json_member(es[0])[0]) by {
            if es.len() >= 2 {
                lemma_json_members_first(es);
            }
        }
        assert(json_member(es[0])[0] == jn[0]);
        assert(jn[0] == '"');
        assert(s[1] != '}');
        assert forall|j: int|
            0 <= j < lst.len() implies s.subrange(1, 1 + lst.len() as int)[j] == lst[j] by {
            assert(s.subrange(1, 1 + lst.len() as int)[j] == s[1 + j]);
            assert(s[1 + j] == lst[j]);
        }
        assert(s.subrange(1, 1 + lst.len() as int) =~= lst);
        assert(s[1 + lst.len() as int] == '}');
        lemma_sp_members_complete(s, 1, Seq::empty(), es);
        assert(Seq::empty() + es =~= es);
        assert(sp_members(s, 1, Seq::empty()) == Some((es, s.len() as int)));
    }
}

/// Every string a record stores in a JSON column holds valid scalar
/// characters.
pub open spec fn link_valid_chars(l: crate::link::LinkView) -> bool {
    &&& forall|i: int| 0 <= i < l.tags.len() ==> valid_chars(#[trigger] l.tags[i])
    &&& match l.via {
        Some(ViaView::Friend(x)) => valid_chars(x),
        Some(ViaView::Link(x)) => valid_chars(x),
        Some(ViaView::Freeform(x)) => valid_chars(x),
        None => true,
    }
    &&& match l.meta {
        Some(m) => valid_entries(m),
        None => true,
    }
    &&& match l.http_headers {
        Some(h) => valid_entries(h),
        None => true,
    }
}

/// The persisted encoding loses nothing it stores: encoding a record and
/// decoding the row recovers every field — the large columns exactly when
/// their compression succeeded, which is itself a fixed function of the
/// bytes.
pub fn row_round_trip(link: &Link) -> (r: Link)
    requires
        link_valid_chars(link@),
    ensures
        r@.url == link@.url,
        r@.title == link@.title,
        r@.tags == link@.tags,
        r@.via == link@.via,
        r@.notes == link@.notes,
        r@.found_at == link@.found_at,
        r@.read_at == link@.read_at,
        r@.published_at == link@.published_at,
        r@.from_filename == link@.from_filename,
        r@.image == link@.image,
        r@.meta == link@.meta,
        r@.last_fetched == link@.last_fetched,
        r@.last_processed == link@.last_processed,
        r@.hidden == link@.hidden,
        match link@.src {
            Some(b) => r@.src == (if zstd_frame_of(b) is Some {
                Some(b)
            } else {
                None
            }),
            None => r@.src is None,
        },
        match link@.http_headers {
            Some(h) => r@.http_headers == (if zstd_frame_of(
                vstd::utf8::encode_utf8(json_table(h)),
            ) is Some {
                Some(h)
            } else {
                None
            }),
            None => r@.http_headers is None,
        },
{
    broadcast use vstd::utf8::encode_utf8_valid_utf8;
    broadcast use vstd::utf8::encode_utf8_decode_utf8;

    let row = encode_link_row(link);
    proof {
        lemma_tags_round_trip(link@.tags);
        lemma_via_round_trip(link@.via);
        match link@.meta {
            Some(m) => lemma_table_round_trip(m),
            None => {},
        }
        match link@.http_headers {
            Some(h) => lemma_table_round_trip(h),
            None => {},
        }
    }
    match decode_link_row(row) {
        Ok(l) => l,
        Err(_) => vstd::pervasive::unreached(),
    }
}

} // verus!
