//! Character and string helpers used throughout the library: Unicode
//! whitespace, trimming, ASCII case folding, substring search, splitting,
//! joining and decimal conversion, each stated over `Seq<char>`.
use vstd::prelude::*;

verus! {

broadcast use vstd::string::group_string_axioms;

// ---------------------------------------------------------------------------
// Whitespace and trimming
// ---------------------------------------------------------------------------

/// Unicode `White_Space`, the property that `char::is_whitespace` tests.
pub open spec fn is_ws(c: char) -> bool {
    let u = c as u32;
    ||| 0x09 <= u <= 0x0D
    ||| u == 0x20
    ||| u == 0x85
    ||| u == 0xA0
    ||| u == 0x1680
    ||| 0x2000 <= u <= 0x200A
    ||| u == 0x2028
    ||| u == 0x2029
    ||| u == 0x202F
    ||| u == 0x205F
    ||| u == 0x3000
}

pub fn is_whitespace(c: char) -> (b: bool)
    ensures
        b == is_ws(c),
{
    let u = c as u32;
    (0x09 <= u && u <= 0x0D) || u == 0x20 || u == 0x85 || u == 0xA0 || u == 0x1680 || (0x2000
        <= u && u <= 0x200A) || u == 0x2028 || u == 0x2029 || u == 0x202F || u == 0x205F || u
        == 0x3000
}

/// `s` without its leading whitespace.
pub open spec fn trim_start(s: Seq<char>) -> Seq<char>
    decreases s.len(),
{
    if s.len() > 0 && is_ws(s[0]) {
        trim_start(s.drop_first())
    } else {
        s
    }
}

/// `s` without its trailing whitespace.
pub open spec fn trim_end(s: Seq<char>) -> Seq<char>
    decreases s.len(),
{
    if s.len() > 0 && is_ws(s.last()) {
        trim_end(s.drop_last())
    } else {
        s
    }
}

/// `s` without leading or trailing whitespace (what `str::trim` returns).
pub open spec fn trim(s: Seq<char>) -> Seq<char> {
    trim_end(trim_start(s))
}

/// The bounds `(start, end)` of the trimmed part of `cs`.
pub fn trim_bounds(cs: &[char]) -> (r: (usize, usize))
    ensures
        r.0 <= r.1 <= cs@.len(),
        cs@.subrange(r.0 as int, r.1 as int) == trim(cs@),
{
    let n = cs.len();
    let mut i: usize = 0;
    assert(cs@.skip(0) =~= cs@);
    while i < n && is_whitespace(cs[i])
        invariant
            i <= n == cs@.len(),
            trim_start(cs@) == trim_start(cs@.skip(i as int)),
        decreases n - i,
    {
        assert(cs@.skip(i as int).drop_first() =~= cs@.skip(i + 1));
        i = i + 1;
    }
    let ghost t = cs@.skip(i as int);
    assert(trim_start(t) == t);
    let mut j: usize = n;
    assert(t.take((j - i) as int) =~= t);
    while j > i && is_whitespace(cs[j - 1])
        invariant
            i <= j <= n == cs@.len(),
            t == cs@.skip(i as int),
            trim_end(t) == trim_end(t.take((j - i) as int)),
        decreases j,
    {
        assert(t.take((j - i) as int).drop_last() =~= t.take((j - 1 - i) as int));
        j = j - 1;
    }
    assert(trim_end(t.take((j - i) as int)) == t.take((j - i) as int));
    assert(cs@.subrange(i as int, j as int) =~= t.take((j - i) as int));
    (i, j)
}

/// The length in bytes of the UTF-8 text of `s` (what `str::len` gives).
pub open spec fn byte_len(s: Seq<char>) -> usize {
    vstd::utf8::encode_utf8(s).len() as usize
}

// ---------------------------------------------------------------------------
// Building strings
// ---------------------------------------------------------------------------

/// Appends one char to a string (`String::push`).
#[verifier::external_body]
pub(crate) fn push_char(s: &mut String, c: char)
    ensures
        final(s)@ == old(s)@.push(c),
{
    s.push(c);
}

/// A `String` holding exactly the chars of `cs`.
pub fn string_from(cs: &[char]) -> (s: String)
    ensures
        s@ == cs@,
{
    let mut s = String::new();
    for i in 0..cs.len()
        invariant
            s@ == cs@.take(i as int),
    {
        push_char(&mut s, cs[i]);
        assert(cs@.take(i + 1) =~= cs@.take(i as int).push(cs@[i as int]));
    }
    assert(cs@.take(cs@.len() as int) =~= cs@);
    s
}

/// Appends the chars of `t` to `s`.
pub fn push_all(s: &mut String, t: &str)
    ensures
        final(s)@ == old(s)@ + t@,
{
    let cs = chars_of(t);
    let ghost start = s@;
    for i in 0..cs.len()
        invariant
            cs@ == t@,
            s@ == start + cs@.take(i as int),
    {
        push_char(s, cs[i]);
        assert(cs@.take(i + 1) =~= cs@.take(i as int).push(cs@[i as int]));
    }
    assert(cs@.take(cs@.len() as int) =~= cs@);
}

/// A copy of `s` as a `String`.
pub fn owned(s: &str) -> (r: String)
    ensures
        r@ == s@,
{
    let cs = chars_of(s);
    string_from(cs.as_slice())
}

/// The chars of a string slice, in order.
pub fn chars_of(s: &str) -> (v: Vec<char>)
    ensures
        v@ == s@,
{
    let mut v: Vec<char> = Vec::new();
    for c in it: s.chars()
        invariant
            v@ == it.seq().take(it.index() as int),
            it.seq() == s@,
    {
        v.push(c);
    }
    v
}

/// `s` trimmed of leading and trailing whitespace, as a new `String`.
pub fn trimmed(s: &str) -> (r: String)
    ensures
        r@ == trim(s@),
{
    let cs = chars_of(s);
    let (a, b) = trim_bounds(cs.as_slice());
    let mut out: Vec<char> = Vec::new();
    for k in a..b
        invariant
            a <= b <= cs@.len(),
            out@ == cs@.subrange(a as int, k as int),
    {
        out.push(cs[k]);
        assert(cs@.subrange(a as int, k + 1) =~= cs@.subrange(a as int, k as int).push(
            cs@[k as int],
        ));
    }
    string_from(out.as_slice())
}

// ---------------------------------------------------------------------------
// Case folding
// ---------------------------------------------------------------------------

/// The ASCII lowercase form of a char; other chars are unchanged.
pub open spec fn ascii_lower(c: char) -> char {
    if 'A' <= c <= 'Z' {
        ((c as u32) + 32) as char
    } else {
        c
    }
}

pub fn to_ascii_lower(c: char) -> (r: char)
    ensures
        r == ascii_lower(c),
{
    if 'A' <= c && c <= 'Z' {
        ((c as u8) + 32) as char
    } else {
        c
    }
}

/// Two strings are equal up to ASCII case.
pub open spec fn eq_ignore_ascii_case(a: Seq<char>, b: Seq<char>) -> bool {
    &&& a.len() == b.len()
    &&& forall|i: int| 0 <= i < a.len() ==> ascii_lower(#[trigger] a[i]) == ascii_lower(b[i])
}

pub fn equal_ignoring_ascii_case(a: &str, b: &str) -> (r: bool)
    ensures
        r == eq_ignore_ascii_case(a@, b@),
{
    let x = chars_of(a);
    let y = chars_of(b);
    if x.len() != y.len() {
        return false;
    }
    for i in 0..x.len()
        invariant
            x@ == a@,
            y@ == b@,
            x@.len() == y@.len(),
            forall|k: int| 0 <= k < i ==> ascii_lower(#[trigger] x@[k]) == ascii_lower(y@[k]),
    {
        if to_ascii_lower(x[i]) != to_ascii_lower(y[i]) {
            return false;
        }
    }
    true
}

/// The ASCII lowercase form of every char of `s`.
pub open spec fn ascii_lowercase(s: Seq<char>) -> Seq<char> {
    s.map_values(|c: char| ascii_lower(c))
}

pub fn to_ascii_lowercase(s: &str) -> (r: String)
    ensures
        r@ == ascii_lowercase(s@),
{
    let cs = chars_of(s);
    let mut out: Vec<char> = Vec::new();
    for i in 0..cs.len()
        invariant
            cs@ == s@,
            out@ == ascii_lowercase(cs@.take(i as int)),
    {
        out.push(to_ascii_lower(cs[i]));
        assert(ascii_lowercase(cs@.take(i + 1)) =~= ascii_lowercase(cs@.take(i as int)).push(
            ascii_lower(cs@[i as int]),
        ));
    }
    assert(cs@.take(cs@.len() as int) =~= cs@);
    string_from(out.as_slice())
}

/// The Unicode lowercase mapping of a string, as `str::to_lowercase` computes it.
pub uninterp spec fn unicode_lowercase(s: Seq<char>) -> Seq<char>;

/// Calls `str::to_lowercase`: the result is the Unicode lowercase mapping of `s`,
/// a function of `s` alone.
#[verifier::external_body]
pub(crate) fn to_lowercase(s: &str) -> (r: String)
    ensures
        r@ == unicode_lowercase(s@),
{
    s.to_lowercase()
}

/// Whether a char is Unicode alphabetic or numeric, as `char::is_alphanumeric` decides.
pub uninterp spec fn unicode_alphanumeric(c: char) -> bool;

/// Calls `char::is_alphanumeric`.
#[verifier::external_body]
pub(crate) fn is_alphanumeric(c: char) -> (r: bool)
    ensures
        r == unicode_alphanumeric(c),
{
    c.is_alphanumeric()
}

// ---------------------------------------------------------------------------
// Substring search
// ---------------------------------------------------------------------------

/// `needle` occurs in `hay` at position `i`.
pub open spec fn occurs_at(hay: Seq<char>, needle: Seq<char>, i: int) -> bool {
    0 <= i && i + needle.len() <= hay.len() && hay.subrange(i, i + needle.len()) == needle
}

/// `needle` occurs somewhere in `hay` (the empty needle occurs everywhere).
pub open spec fn contains(hay: Seq<char>, needle: Seq<char>) -> bool {
    exists|i: int| occurs_at(hay, needle, i)
}

fn matches_at(hay: &[char], needle: &[char], i: usize) -> (r: bool)
    requires
        i + needle@.len() <= hay@.len(),
    ensures
        r == occurs_at(hay@, needle@, i as int),
{
    let hn = hay.len();
    for k in 0..needle.len()
        invariant
            hn == hay@.len(),
            i + needle@.len() <= hay@.len(),
            forall|m: int| 0 <= m < k ==> hay@[i + m] == needle@[m],
    {
        if hay[i + k] != needle[k] {
            assert(hay@.subrange(i as int, i + needle@.len())[k as int] != needle@[k as int]);
            return false;
        }
    }
    assert(hay@.subrange(i as int, i + needle@.len()) =~= needle@);
    true
}

pub fn contains_chars(hay: &[char], needle: &[char]) -> (r: bool)
    ensures
        r == contains(hay@, needle@),
{
    if needle.len() > hay.len() {
        assert forall|i: int| !occurs_at(hay@, needle@, i) by {}
        return false;
    }
    let last = hay.len() - needle.len();
    let mut i: usize = 0;
    while i < last
        invariant
            i <= last,
            last + needle@.len() == hay@.len(),
            forall|m: int| 0 <= m < i ==> !occurs_at(hay@, needle@, m),
        decreases last - i,
    {
        if matches_at(hay, needle, i) {
            return true;
        }
        i = i + 1;
    }
    if matches_at(hay, needle, last) {
        return true;
    }
    assert forall|m: int| !occurs_at(hay@, needle@, m) by {
        if 0 <= m <= last {
        }
    }
    false
}

/// `str::contains` with a string pattern.
pub fn contains_str(hay: &str, needle: &str) -> (r: bool)
    ensures
        r == contains(hay@, needle@),
{
    let h = chars_of(hay);
    let n = chars_of(needle);
    contains_chars(h.as_slice(), n.as_slice())
}

// ---------------------------------------------------------------------------
// Splitting and joining
// ---------------------------------------------------------------------------

/// The separators that the library splits text on.
#[derive(Clone, Copy, Debug, PartialEq, Eq)]
pub enum Delim {
    Comma,
    CommaOrNewline,
    Semicolon,
    Whitespace,
}

impl Delim {
    pub open spec fn separates(self, c: char) -> bool {
        match self {
            Delim::Comma => c == ',',
            Delim::CommaOrNewline => c == ',' || c == '\n',
            Delim::Semicolon => c == ';',
            Delim::Whitespace => is_ws(c),
        }
    }

    pub fn is_separator(self, c: char) -> (r: bool)
        ensures
            r == self.separates(c),
    {
        match self {
            Delim::Comma => c == ',',
            Delim::CommaOrNewline => c == ',' || c == '\n',
            Delim::Semicolon => c == ';',
            Delim::Whitespace => is_whitespace(c),
        }
    }
}

/// The pieces of `s` between separators, as `str::split` yields them: `k`
/// separators give `k + 1` pieces, some of them possibly empty.
pub open spec fn split_on(s: Seq<char>, d: Delim) -> Seq<Seq<char>>
    decreases s.len(),
{
    if s.len() == 0 {
        seq![Seq::<char>::empty()]
    } else {
        let r = split_on(s.drop_last(), d);
        if d.separates(s.last()) {
            r.push(Seq::<char>::empty())
        } else {
            r.update(r.len() - 1, r.last().push(s.last()))
        }
    }
}

pub proof fn lemma_split_nonempty(s: Seq<char>, d: Delim)
    ensures
        split_on(s, d).len() >= 1,
    decreases s.len(),
{
    if s.len() > 0 {
        lemma_split_nonempty(s.drop_last(), d);
    }
}

/// The views of a sequence of char vectors.
pub open spec fn vec_views(v: Seq<Vec<char>>) -> Seq<Seq<char>> {
    v.map_values(|x: Vec<char>| x@)
}

/// The views of a sequence of strings.
pub open spec fn string_views(v: Seq<String>) -> Seq<Seq<char>> {
    v.map_values(|x: String| x@)
}

pub fn split_chars(cs: &[char], d: Delim) -> (parts: Vec<Vec<char>>)
    ensures
        vec_views(parts@) == split_on(cs@, d),
{
    let mut out: Vec<Vec<char>> = Vec::new();
    let mut cur: Vec<char> = Vec::new();
    assert(cs@.take(0) =~= Seq::<char>::empty());
    assert(vec_views(out@).push(cur@) =~= split_on(cs@.take(0), d));
    for i in 0..cs.len()
        invariant
            vec_views(out@).push(cur@) == split_on(cs@.take(i as int), d),
    {
        let c = cs[i];
        let ghost before = cs@.take(i as int);
        assert(cs@.take(i + 1).drop_last() =~= before);
        assert(cs@.take(i + 1).last() == c);
        proof { lemma_split_nonempty(before, d); }
        if d.is_separator(c) {
            out.push(cur);
            cur = Vec::new();
            assert(vec_views(out@).push(cur@) =~= split_on(before, d).push(Seq::<char>::empty()));
        } else {
            let ghost old_cur = cur@;
            cur.push(c);
            assert(vec_views(out@).push(cur@) =~= split_on(before, d).update(
                split_on(before, d).len() - 1,
                split_on(before, d).last().push(c),
            ));
        }
    }
    assert(cs@.take(cs@.len() as int) =~= cs@);
    out.push(cur);
    assert(vec_views(out@) =~= split_on(cs@, d));
    out
}

/// The pieces of `parts` trimmed, with the empty ones left out.
pub open spec fn trimmed_nonempty(parts: Seq<Seq<char>>) -> Seq<Seq<char>>
    decreases parts.len(),
{
    if parts.len() == 0 {
        Seq::<Seq<char>>::empty()
    } else {
        let r = trimmed_nonempty(parts.drop_last());
        let t = trim(parts.last());
        if t.len() > 0 {
            r.push(t)
        } else {
            r
        }
    }
}

/// `s.split(d).map(str::trim).filter(|p| !p.is_empty())`, as owned strings.
pub fn split_trimmed(s: &str, d: Delim) -> (r: Vec<String>)
    ensures
        string_views(r@) == trimmed_nonempty(split_on(s@, d)),
{
    let cs = chars_of(s);
    let parts = split_chars(cs.as_slice(), d);
    let mut out: Vec<String> = Vec::new();
    for i in 0..parts.len()
        invariant
            vec_views(parts@) == split_on(s@, d),
            string_views(out@) == trimmed_nonempty(vec_views(parts@).take(i as int)),
    {
        let ghost pre = vec_views(parts@).take(i as int);
        assert(vec_views(parts@).take(i + 1).drop_last() =~= pre);
        assert(vec_views(parts@).take(i + 1).last() == parts@[i as int]@);
        let p = &parts[i];
        let (a, b) = trim_bounds(p.as_slice());
        if a < b {
            let mut piece: Vec<char> = Vec::new();
            for k in a..b
                invariant
                    a <= b <= p@.len(),
                    piece@ == p@.subrange(a as int, k as int),
            {
                piece.push(p[k]);
                assert(p@.subrange(a as int, k + 1) =~= p@.subrange(a as int, k as int).push(
                    p@[k as int],
                ));
            }
            out.push(string_from(piece.as_slice()));
            assert(string_views(out@) =~= trimmed_nonempty(pre).push(trim(parts@[i as int]@)));
        }
    }
    assert(vec_views(parts@).take(parts@.len() as int) =~= vec_views(parts@));
    out
}

/// The pieces joined with `sep` between consecutive pieces.
pub open spec fn join(parts: Seq<Seq<char>>, sep: Seq<char>) -> Seq<char>
    decreases parts.len(),
{
    if parts.len() == 0 {
        Seq::<char>::empty()
    } else if parts.len() == 1 {
        parts[0]
    } else {
        join(parts.drop_last(), sep) + sep + parts.last()
    }
}

/// `parts.join(sep)`.
pub fn join_strings(parts: &Vec<String>, sep: &str) -> (r: String)
    ensures
        r@ == join(string_views(parts@), sep@),
{
    let mut out = String::new();
    for i in 0..parts.len()
        invariant
            out@ == join(string_views(parts@).take(i as int), sep@),
    {
        let ghost pre = string_views(parts@).take(i as int);
        assert(string_views(parts@).take(i + 1).drop_last() =~= pre);
        if i > 0 {
            push_all(&mut out, sep);
        }
        push_all(&mut out, parts[i].as_str());
        assert(string_views(parts@).take(i + 1)[0] == string_views(parts@)[0]);
    }
    assert(string_views(parts@).take(parts@.len() as int) =~= string_views(parts@));
    out
}

/// The position of the first `c` in `s`, or `s.len()` when there is none.
pub open spec fn first_index(s: Seq<char>, c: char) -> int
    decreases s.len(),
{
    if s.len() == 0 {
        0
    } else if s[0] == c {
        0
    } else {
        1 + first_index(s.drop_first(), c)
    }
}

/// The text before and after the first occurrence of `c`, as `str::split_once` gives it.
pub open spec fn split_once(s: Seq<char>, c: char) -> Option<(Seq<char>, Seq<char>)> {
    let k = first_index(s, c);
    if k < s.len() {
        Some((s.take(k), s.skip(k + 1)))
    } else {
        None
    }
}

/// `s.split_once(c)`, as owned strings.
pub fn split_once_at(s: &str, c: char) -> (r: Option<(String, String)>)
    ensures
        match r {
            Some((a, b)) => split_once(s@, c) == Some((a@, b@)),
            None => split_once(s@, c) is None,
        },
{
    let cs = chars_of(s);
    let n = cs.len();
    let mut i: usize = 0;
    assert(cs@.skip(0) =~= cs@);
    while i < n && cs[i] != c
        invariant
            i <= n == cs@.len(),
            cs@ == s@,
            first_index(s@, c) == i + first_index(cs@.skip(i as int), c),
        decreases n - i,
    {
        assert(cs@.skip(i as int).drop_first() =~= cs@.skip(i + 1));
        i = i + 1;
    }
    if i == n {
        return None;
    }
    let mut a: Vec<char> = Vec::new();
    for k in 0..i
        invariant
            i < n == cs@.len(),
            a@ == cs@.take(k as int),
    {
        a.push(cs[k]);
        assert(cs@.take(k + 1) =~= cs@.take(k as int).push(cs@[k as int]));
    }
    let mut b: Vec<char> = Vec::new();
    for k in i + 1..n
        invariant
            i < n == cs@.len(),
            b@ == cs@.subrange(i + 1, k as int),
    {
        b.push(cs[k]);
        assert(cs@.subrange(i + 1, k + 1) =~= cs@.subrange(i + 1, k as int).push(cs@[k as int]));
    }
    assert(b@ =~= cs@.skip(i + 1));
    Some((string_from(a.as_slice()), string_from(b.as_slice())))
}

// ---------------------------------------------------------------------------
// Slices of chars
// ---------------------------------------------------------------------------

/// A copy of `cs[a..b]`.
pub fn sub_chars(cs: &[char], a: usize, b: usize) -> (r: Vec<char>)
    requires
        a <= b <= cs@.len(),
    ensures
        r@ == cs@.subrange(a as int, b as int),
{
    let mut out: Vec<char> = Vec::new();
    for k in a..b
        invariant
            a <= b <= cs@.len(),
            out@ == cs@.subrange(a as int, k as int),
    {
        out.push(cs[k]);
        assert(cs@.subrange(a as int, k + 1) =~= cs@.subrange(a as int, k as int).push(
            cs@[k as int],
        ));
    }
    out
}

/// A copy of `cs` trimmed.
pub fn trim_chars(cs: &[char]) -> (r: Vec<char>)
    ensures
        r@ == trim(cs@),
{
    let (a, b) = trim_bounds(cs);
    sub_chars(cs, a, b)
}

/// Whether two char sequences are equal.
pub fn same_chars(a: &[char], b: &[char]) -> (r: bool)
    ensures
        r == (a@ == b@),
{
    if a.len() != b.len() {
        return false;
    }
    for i in 0..a.len()
        invariant
            a@.len() == b@.len(),
            forall|k: int| 0 <= k < i ==> a@[k] == b@[k],
    {
        if a[i] != b[i] {
            return false;
        }
    }
    assert(a@ =~= b@);
    true
}

/// Whether two strings hold the same text.
pub fn same_text(a: &str, b: &str) -> (r: bool)
    ensures
        r == (a@ == b@),
{
    let x = chars_of(a);
    let y = chars_of(b);
    same_chars(x.as_slice(), y.as_slice())
}

/// `s` without any leading `c` (`str::trim_start_matches` with a char).
pub open spec fn strip_leading(s: Seq<char>, c: char) -> Seq<char>
    decreases s.len(),
{
    if s.len() > 0 && s[0] == c {
        strip_leading(s.drop_first(), c)
    } else {
        s
    }
}

/// `s` without any trailing `c` (`str::trim_end_matches` with a char).
pub open spec fn strip_trailing(s: Seq<char>, c: char) -> Seq<char>
    decreases s.len(),
{
    if s.len() > 0 && s.last() == c {
        strip_trailing(s.drop_last(), c)
    } else {
        s
    }
}

pub fn strip_chars(cs: &[char], lead: char, trail: char) -> (r: Vec<char>)
    ensures
        r@ == strip_trailing(strip_leading(cs@, lead), trail),
{
    let n = cs.len();
    let mut i: usize = 0;
    assert(cs@.skip(0) =~= cs@);
    while i < n && cs[i] == lead
        invariant
            i <= n == cs@.len(),
            strip_leading(cs@, lead) == strip_leading(cs@.skip(i as int), lead),
        decreases n - i,
    {
        assert(cs@.skip(i as int).drop_first() =~= cs@.skip(i + 1));
        i = i + 1;
    }
    let ghost t = cs@.skip(i as int);
    let mut j: usize = n;
    assert(t.take((j - i) as int) =~= t);
    while j > i && cs[j - 1] == trail
        invariant
            i <= j <= n == cs@.len(),
            t == cs@.skip(i as int),
            strip_trailing(t, trail) == strip_trailing(t.take((j - i) as int), trail),
        decreases j,
    {
        assert(t.take((j - i) as int).drop_last() =~= t.take((j - 1 - i) as int));
        j = j - 1;
    }
    assert(cs@.subrange(i as int, j as int) =~= t.take((j - i) as int));
    sub_chars(cs, i, j)
}

proof fn lemma_first_index(s: Seq<char>, c: char)
    ensures
        0 <= first_index(s, c) <= s.len(),
        forall|i: int| 0 <= i < first_index(s, c) ==> #[trigger] s[i] != c,
        first_index(s, c) < s.len() ==> s[first_index(s, c)] == c,
    decreases s.len(),
{
    if s.len() > 0 && s[0] != c {
        lemma_first_index(s.drop_first(), c);
        assert forall|i: int| 0 <= i < first_index(s, c) implies #[trigger] s[i] != c by {
            if i > 0 {
                assert(s[i] == s.drop_first()[i - 1]);
            }
        }
    }
}

/// Splitting at the first `c`: there is a split exactly when `c` occurs; the
/// part before, `c` and the part after make the text again, and the part
/// before holds no `c`.
pub proof fn lemma_split_once_parts(s: Seq<char>, c: char)
    ensures
        split_once(s, c) is Some <==> s.contains(c),
        split_once(s, c) matches Some((a, b)) ==> a + seq![c] + b == s && !a.contains(c),
{
    lemma_first_index(s, c);
    let k = first_index(s, c);
    if k < s.len() {
        assert(s.take(k) + seq![c] + s.skip(k + 1) =~= s);
        if s.take(k).contains(c) {
            let j = choose|j: int| 0 <= j < k && s.take(k)[j] == c;
            assert(s[j] == c);
        }
    } else if s.contains(c) {
        let j = choose|j: int| 0 <= j < s.len() && s[j] == c;
        assert(s[j] != c);
    }
}

} // verus!
