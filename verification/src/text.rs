//! Character-level text utilities.
//!
//! All parsing in this crate works over `Vec<char>` buffers so that every
//! step can be stated over `Seq<char>` views. The functions here are the
//! small shared pieces: conversions between `String` and `Vec<char>`,
//! trimming, searching and splitting, each pinned to a spec-level twin.

use vstd::prelude::*;
use vstd::string::StrSliceExecFns;

verus! {

/// Relies on String::push: appends exactly one character to the string.
#[verifier::external_body]
pub(crate) fn push_char(s: &mut String, c: char)
    ensures
        final(s)@ == old(s)@.push(c),
{
    s.push(c);
}

/// All characters of `s`, in order.
pub fn chars_of(s: &str) -> (r: Vec<char>)
    ensures
        r@ == s@,
{
    let n: usize = s.unicode_len();
    let mut r: Vec<char> = Vec::new();
    let mut i: usize = 0;
    while i < n
        invariant
            n == s@.len(),
            i <= n,
            r@ == s@.take(i as int),
        decreases n - i,
    {
        r.push(s.get_char(i));
        i += 1;
        proof {
            assert(r@ =~= s@.take(i as int));
        }
    }
    proof {
        assert(s@.take(n as int) =~= s@);
    }
    r
}

/// A `String` holding exactly the characters of `v`.
pub fn string_from_chars(v: &[char]) -> (r: String)
    ensures
        r@ == v@,
{
    let mut r = String::new();
    let mut i: usize = 0;
    while i < v.len()
        invariant
            i <= v@.len(),
            r@ == v@.take(i as int),
        decreases v@.len() - i,
    {
        push_char(&mut r, v[i]);
        i += 1;
        proof {
            assert(r@ =~= v@.take(i as int));
        }
    }
    proof {
        assert(v@.take(v@.len() as int) =~= v@);
    }
    r
}

/// A `String` holding the characters `s[from..to]`.
pub fn string_from_range(s: &[char], from: usize, to: usize) -> (r: String)
    requires
        from <= to <= s@.len(),
    ensures
        r@ == s@.subrange(from as int, to as int),
{
    let mut r = String::new();
    let mut i: usize = from;
    while i < to
        invariant
            from <= i <= to <= s@.len(),
            r@ == s@.subrange(from as int, i as int),
        decreases to - i,
    {
        push_char(&mut r, s[i]);
        i += 1;
        proof {
            assert(r@ =~= s@.subrange(from as int, i as int));
        }
    }
    r
}

/// True exactly when the two strings hold the same characters.
pub fn str_eq(a: &str, b: &str) -> (r: bool)
    ensures
        r == (a@ == b@),
{
    let n: usize = a.unicode_len();
    let m: usize = b.unicode_len();
    if n != m {
        proof {
            assert(a@ != b@);
        }
        return false;
    }
    let mut i: usize = 0;
    while i < n
        invariant
            n == a@.len() == b@.len(),
            i <= n,
            forall|j: int| 0 <= j < i ==> a@[j] == b@[j],
        decreases n - i,
    {
        if a.get_char(i) != b.get_char(i) {
            return false;
        }
        i += 1;
    }
    proof {
        assert(a@ =~= b@);
    }
    true
}

/// True exactly when `v` holds the characters of `s`.
pub fn chars_eq_str(v: &[char], s: &str) -> (r: bool)
    ensures
        r == (v@ == s@),
{
    let n: usize = s.unicode_len();
    if v.len() != n {
        proof {
            assert(v@ != s@);
        }
        return false;
    }
    let mut i: usize = 0;
    while i < n
        invariant
            n == s@.len() == v@.len(),
            i <= n,
            forall|j: int| 0 <= j < i ==> v@[j] == s@[j],
        decreases n - i,
    {
        if v[i] != s.get_char(i) {
            return false;
        }
        i += 1;
    }
    proof {
        assert(v@ =~= s@);
    }
    true
}

/// The whitespace characters this crate's parsers recognise.
pub open spec fn is_ws(c: char) -> bool {
    c == ' ' || c == '\t' || c == '\r' || c == '\n'
}

/// Characters trimmed around a scanned title: dashes, colons, blanks.
pub open spec fn is_title_trim(c: char) -> bool {
    c == '-' || c == ':' || c == ' ' || c == '\t'
}

/// Index of the first character at or after `i` that fails `pred`.
pub open spec fn scan_while(s: Seq<char>, pred: spec_fn(char) -> bool, i: int) -> int
    decreases s.len() - i,
{
    if i < 0 {
        i
    } else if i < s.len() && pred(s[i]) {
        scan_while(s, pred, i + 1)
    } else {
        i
    }
}

pub proof fn lemma_scan_while_bounds(s: Seq<char>, pred: spec_fn(char) -> bool, i: int)
    requires
        0 <= i <= s.len(),
    ensures
        i <= scan_while(s, pred, i) <= s.len(),
        forall|j: int| i <= j < scan_while(s, pred, i) ==> pred(s[j]),
        scan_while(s, pred, i) < s.len() ==> !pred(s[scan_while(s, pred, i)]),
    decreases s.len() - i,
{
    if i < s.len() && pred(s[i]) {
        lemma_scan_while_bounds(s, pred, i + 1);
    }
}

/// Index of the last character before `i` (exclusive) that fails `pred`,
/// plus one; so `s[r..i]` all satisfy `pred` and either `r == 0` or
/// `s[r-1]` fails it.
pub open spec fn scan_back_while(s: Seq<char>, pred: spec_fn(char) -> bool, i: int) -> int
    decreases i,
{
    if i <= 0 {
        0
    } else if i <= s.len() && pred(s[i - 1]) {
        scan_back_while(s, pred, i - 1)
    } else {
        i
    }
}

pub proof fn lemma_scan_back_while_bounds(s: Seq<char>, pred: spec_fn(char) -> bool, i: int)
    requires
        0 <= i <= s.len(),
    ensures
        0 <= scan_back_while(s, pred, i) <= i,
        forall|j: int| scan_back_while(s, pred, i) <= j < i ==> pred(s[j]),
        scan_back_while(s, pred, i) > 0 ==> !pred(s[scan_back_while(s, pred, i) - 1]),
    decreases i,
{
    if i > 0 && pred(s[i - 1]) {
        lemma_scan_back_while_bounds(s, pred, i - 1);
    }
}

/// The slice of `s` with leading and trailing whitespace removed.
pub open spec fn spec_trim_ws(s: Seq<char>) -> Seq<char> {
    spec_trim_range(s, |c: char| is_ws(c)).0
}

/// The trimmed range `[lo, hi)` of `s` under `pred`, with the subrange.
pub open spec fn spec_trim_range(s: Seq<char>, pred: spec_fn(char) -> bool) -> (Seq<char>, int, int) {
    let lo = scan_while(s, pred, 0);
    if lo == s.len() {
        (Seq::empty(), lo, lo)
    } else {
        let hi = scan_back_while(s, pred, s.len() as int);
        (s.subrange(lo, hi), lo, hi)
    }
}

/// The bounds of `s[from..to]` trimmed under "is whitespace".
pub fn trim_ws_range(s: &[char], from: usize, to: usize) -> (r: (usize, usize))
    requires
        from <= to <= s@.len(),
    ensures
        from <= r.0 <= r.1 <= to,
        s@.subrange(r.0 as int, r.1 as int) == spec_trim_ws(s@.subrange(from as int, to as int)),
{
    trim_pred_range(s, from, to, TrimSet::Whitespace)
}

/// Which character class a trim call removes.
#[derive(Clone, Copy)]
pub enum TrimSet {
    Whitespace,
    TitleEdges,
}

impl TrimSet {
    pub open spec fn spec_pred(self) -> spec_fn(char) -> bool {
        match self {
            TrimSet::Whitespace => |c: char| is_ws(c),
            TrimSet::TitleEdges => |c: char| is_title_trim(c),
        }
    }

    pub fn test(self, c: char) -> (r: bool)
        ensures
            r == self.spec_pred()(c),
    {
        match self {
            TrimSet::Whitespace => c == ' ' || c == '\t' || c == '\r' || c == '\n',
            TrimSet::TitleEdges => c == '-' || c == ':' || c == ' ' || c == '\t',
        }
    }
}

/// The bounds of `s[from..to]` trimmed under `set`, as absolute indices.
pub fn trim_pred_range(s: &[char], from: usize, to: usize, set: TrimSet) -> (r: (usize, usize))
    requires
        from <= to <= s@.len(),
    ensures
        from <= r.0 <= r.1 <= to,
        s@.subrange(r.0 as int, r.1 as int) == spec_trim_range(
            s@.subrange(from as int, to as int),
            set.spec_pred(),
        ).0,
{
    let ghost sub = s@.subrange(from as int, to as int);
    let ghost pred = set.spec_pred();
    let mut lo: usize = from;
    while lo < to && set.test(s[lo])
        invariant
            from <= lo <= to <= s@.len(),
            sub == s@.subrange(from as int, to as int),
            pred == set.spec_pred(),
            scan_while(sub, pred, 0) == scan_while(sub, pred, lo - from),
            forall|j: int| 0 <= j < lo - from ==> pred(sub[j]),
        decreases to - lo,
    {
        proof {
            assert(sub[lo - from] == s@[lo as int]);
        }
        lo += 1;
    }
    proof {
        assert(scan_while(sub, pred, lo - from) == lo - from) by {
            if lo - from < sub.len() {
                assert(sub[lo - from] == s@[lo as int]);
            }
        }
    }
    if lo == to {
        proof {
            assert(spec_trim_range(sub, pred).0 =~= s@.subrange(lo as int, lo as int));
        }
        return (lo, lo);
    }
    let mut hi: usize = to;
    while hi > lo && set.test(s[hi - 1])
        invariant
            from <= lo <= hi <= to <= s@.len(),
            sub == s@.subrange(from as int, to as int),
            pred == set.spec_pred(),
            scan_back_while(sub, pred, sub.len() as int) == scan_back_while(sub, pred, hi - from),
            lo < to,
            scan_while(sub, pred, 0) == lo - from,
            !pred(sub[lo - from]),
            forall|j: int| hi - from <= j < to - from ==> pred(sub[j]),
        decreases hi,
    {
        proof {
            assert(sub[hi - from - 1] == s@[hi - 1 as int]);
            lemma_scan_while_bounds(sub, pred, 0);
            assert(hi - 1 > lo) by {
                if hi - 1 == lo {
                    assert(pred(sub[lo - from]));
                }
            }
        }
        hi -= 1;
    }
    proof {
        assert(scan_back_while(sub, pred, hi - from) == hi - from) by {
            if hi - from > 0 {
                assert(sub[hi - from - 1] == s@[hi - 1 as int]);
                lemma_scan_while_bounds(sub, pred, 0);
                if pred(sub[hi - from - 1]) {
                    assert(hi - 1 >= lo);
                    assert(hi - 1 == lo ==> !pred(sub[lo - from]));
                    assert(hi - 1 > lo ==> hi > lo && pred(sub[hi - from - 1]));
                }
            }
        }
        assert(spec_trim_range(sub, pred).0 =~= s@.subrange(lo as int, hi as int)) by {
            assert(sub.subrange(lo - from, hi - from) =~= s@.subrange(lo as int, hi as int));
        }
    }
    (lo, hi)
}

/// Appends every character of `t` to `s`.
pub fn append_chars(s: &mut String, t: &[char])
    ensures
        final(s)@ == old(s)@ + t@,
{
    let ghost orig = s@;
    let mut i: usize = 0;
    while i < t.len()
        invariant
            i <= t@.len(),
            s@ == orig + t@.take(i as int),
        decreases t@.len() - i,
    {
        push_char(s, t[i]);
        i += 1;
        proof {
            assert(orig + t@.take(i - 1) == s@.drop_last());
            assert(s@ =~= orig + t@.take(i as int));
        }
    }
    proof {
        assert(orig + t@.take(t@.len() as int) =~= orig + t@);
    }
}

/// The first occurrence of `c` at or after `i` is `k` exactly when `c`
/// stands at `k` and nowhere between.
pub proof fn lemma_spec_find_exact(s: Seq<char>, c: char, i: int, k: int)
    requires
        0 <= i <= k <= s.len(),
        forall|j: int| i <= j < k ==> s[j] != c,
        k < s.len() ==> s[k] == c,
    ensures
        spec_find(s, c, i) == if k < s.len() {
            k
        } else {
            s.len() as int
        },
    decreases k - i,
{
    if i < k {
        lemma_spec_find_exact(s, c, i + 1, k);
    }
}

/// A string trims to nothing exactly when it has no non-whitespace character.
pub proof fn lemma_trim_ws_nonempty(s: Seq<char>)
    ensures
        spec_trim_ws(s).len() > 0 <==> exists|i: int| 0 <= i < s.len() && !is_ws(s[i]),
{
    let pred = |c: char| is_ws(c);
    lemma_scan_while_bounds(s, pred, 0);
    let lo = scan_while(s, pred, 0);
    if lo == s.len() {
        assert(forall|i: int| 0 <= i < s.len() ==> is_ws(s[i]));
    } else {
        lemma_scan_back_while_bounds(s, pred, s.len() as int);
        let hi = scan_back_while(s, pred, s.len() as int);
        assert(!pred(s[lo]));
        assert(hi > lo) by {
            if hi <= lo {
                assert(pred(s[lo]));
            }
        }
        assert(!is_ws(s[lo]));
    }
}

/// Whether `s` holds any non-whitespace character.
pub fn has_visible_text(s: &str) -> (r: bool)
    ensures
        r == (spec_trim_ws(s@).len() > 0),
{
    let n: usize = s.unicode_len();
    let mut i: usize = 0;
    while i < n
        invariant
            n == s@.len(),
            i <= n,
            forall|j: int| 0 <= j < i ==> is_ws(s@[j]),
        decreases n - i,
    {
        let c = s.get_char(i);
        if !(c == ' ' || c == '\t' || c == '\r' || c == '\n') {
            proof {
                lemma_trim_ws_nonempty(s@);
            }
            return true;
        }
        i += 1;
    }
    proof {
        lemma_trim_ws_nonempty(s@);
    }
    false
}

/// Index of the first occurrence of `c` in `s` at or after `i`, or `s.len()`.
pub open spec fn spec_find(s: Seq<char>, c: char, i: int) -> int
    decreases s.len() - i,
{
    if i < 0 {
        i
    } else if i >= s.len() {
        s.len() as int
    } else if s[i] == c {
        i
    } else {
        spec_find(s, c, i + 1)
    }
}

pub proof fn lemma_spec_find_bounds(s: Seq<char>, c: char, i: int)
    requires
        0 <= i <= s.len(),
    ensures
        i <= spec_find(s, c, i) <= s.len(),
        forall|j: int| i <= j < spec_find(s, c, i) ==> s[j] != c,
        spec_find(s, c, i) < s.len() ==> s[spec_find(s, c, i)] == c,
    decreases s.len() - i,
{
    if i < s.len() && s[i] != c {
        lemma_spec_find_bounds(s, c, i + 1);
    }
}

/// First occurrence of `c` in `s[from..]`, or `s.len()` when absent.
pub fn find_char(s: &[char], from: usize, c: char) -> (r: usize)
    requires
        from <= s@.len(),
    ensures
        r == spec_find(s@, c, from as int),
        from <= r <= s@.len(),
        forall|j: int| from <= j < r ==> s@[j] != c,
        r < s@.len() ==> s@[r as int] == c,
{
    let mut i: usize = from;
    while i < s.len() && s[i] != c
        invariant
            from <= i <= s@.len(),
            spec_find(s@, c, from as int) == spec_find(s@, c, i as int),
            forall|j: int| from <= j < i ==> s@[j] != c,
        decreases s@.len() - i,
    {
        i += 1;
    }
    proof {
        lemma_spec_find_bounds(s@, c, from as int);
    }
    i
}

/// A copy of the characters `s[from..to]`.
pub fn copy_range(s: &[char], from: usize, to: usize) -> (r: Vec<char>)
    requires
        from <= to <= s@.len(),
    ensures
        r@ == s@.subrange(from as int, to as int),
{
    let mut r: Vec<char> = Vec::new();
    let mut i: usize = from;
    while i < to
        invariant
            from <= i <= to <= s@.len(),
            r@ == s@.subrange(from as int, i as int),
        decreases to - i,
    {
        r.push(s[i]);
        i += 1;
        proof {
            assert(r@ =~= s@.subrange(from as int, i as int));
        }
    }
    r
}

/// Whether `s[from..to]` holds exactly the characters of the literal `p`.
pub fn range_eq_str(s: &[char], from: usize, to: usize, p: &str) -> (r: bool)
    requires
        from <= to <= s@.len(),
    ensures
        r == (s@.subrange(from as int, to as int) == p@),
{
    let n: usize = p.unicode_len();
    if to - from != n {
        proof {
            assert(s@.subrange(from as int, to as int).len() != p@.len());
        }
        return false;
    }
    let mut i: usize = 0;
    while i < n
        invariant
            n == p@.len(),
            from + n <= to <= s@.len(),
            to - from == n,
            i <= n,
            forall|j: int| 0 <= j < i ==> s@[from + j] == p@[j],
        decreases n - i,
    {
        if s[from + i] != p.get_char(i) {
            proof {
                assert(s@.subrange(from as int, to as int)[i as int] != p@[i as int]);
            }
            return false;
        }
        i += 1;
    }
    proof {
        assert(s@.subrange(from as int, to as int) =~= p@);
    }
    true
}

/// True when `s[at..]` begins with the characters of `p`.
pub open spec fn spec_starts_with(s: Seq<char>, at: int, p: Seq<char>) -> bool {
    &&& 0 <= at
    &&& at + p.len() <= s.len()
    &&& s.subrange(at, at + p.len()) == p
}

/// Whether `s[at..]` begins with the literal `p`.
pub fn starts_with_at(s: &[char], at: usize, p: &str) -> (r: bool)
    requires
        at <= s@.len(),
    ensures
        r == spec_starts_with(s@, at as int, p@),
{
    let n: usize = p.unicode_len();
    if s.len() - at < n {
        proof {
            assert(!spec_starts_with(s@, at as int, p@));
        }
        return false;
    }
    let end: usize = at + n;
    let mut i: usize = 0;
    while i < n
        invariant
            n == p@.len(),
            end == at + n <= s@.len(),
            i <= n,
            forall|j: int| 0 <= j < i ==> s@[at + j] == p@[j],
        decreases n - i,
    {
        if s[at + i] != p.get_char(i) {
            proof {
                assert(s@.subrange(at as int, at + p@.len())[i as int] != p@[i as int]);
            }
            return false;
        }
        i += 1;
    }
    proof {
        assert(s@.subrange(at as int, at + p@.len()) =~= p@);
    }
    true
}

} // verus!
