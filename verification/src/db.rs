//! What the repository database decides in text: how topics are stored in
//! one column, how a search box query becomes a full-text query, and which
//! queries a search runs.
use vstd::prelude::*;
use crate::decimal::{decimal, format_usize};
use crate::text::{
    byte_len, chars_of, is_alphanumeric, is_ws, join, join_strings, owned, push_all, push_char,
    split_chars, split_on, split_trimmed, string_from, string_views, trim, trimmed, trimmed_nonempty,
    unicode_alphanumeric, vec_views, Delim,
};

verus! {

broadcast use vstd::string::group_string_axioms;

// ---------------------------------------------------------------------------
// Topics column
// ---------------------------------------------------------------------------

/// The topics as stored in their column: joined with `", "`.
pub fn topics_column(topics: &Vec<String>) -> (r: String)
    ensures
        r@ == join(string_views(topics@), ", "@),
{
    join_strings(topics, ", ")
}

/// The topics read back from their column: split on commas, trimmed, empty
/// pieces dropped.
pub fn topics_from_column(raw: &str) -> (r: Vec<String>)
    ensures
        string_views(r@) == trimmed_nonempty(split_on(raw@, Delim::Comma)),
{
    split_trimmed(raw, Delim::Comma)
}

/// A topic that its column keeps as it is: not empty, no comma, and no
/// whitespace at either end.
pub open spec fn storable_topic(t: Seq<char>) -> bool {
    &&& t.len() > 0
    &&& !is_ws(t[0])
    &&& !is_ws(t.last())
    &&& !t.contains(',')
}

proof fn lemma_split_append_plain(x: Seq<char>, y: Seq<char>, d: Delim)
    requires
        forall|i: int| 0 <= i < y.len() ==> !d.separates(#[trigger] y[i]),
    ensures
        split_on(x + y, d) == split_on(x, d).update(
            split_on(x, d).len() - 1,
            split_on(x, d).last() + y,
        ),
    decreases y.len(),
{
    crate::text::lemma_split_nonempty(x, d);
    if y.len() == 0 {
        assert(x + y =~= x);
        assert(split_on(x, d).last() + y =~= split_on(x, d).last());
        assert(split_on(x, d).update(split_on(x, d).len() - 1, split_on(x, d).last())
            =~= split_on(x, d));
    } else {
        let y0 = y.drop_last();
        assert forall|i: int| 0 <= i < y0.len() implies !d.separates(#[trigger] y0[i]) by {
            assert(y0[i] == y[i]);
        }
        lemma_split_append_plain(x, y0, d);
        assert((x + y).drop_last() =~= x + y0);
        assert((x + y).last() == y.last());
        crate::text::lemma_split_nonempty(x + y0, d);
        assert(split_on(x, d).last() + y =~= (split_on(x, d).last() + y0).push(y.last()));
        assert(split_on(x + y, d) =~= split_on(x, d).update(
            split_on(x, d).len() - 1,
            split_on(x, d).last() + y,
        ));
    }
}

proof fn lemma_split_joined(ts: Seq<Seq<char>>)
    requires
        ts.len() > 0,
        forall|i: int| 0 <= i < ts.len() ==> storable_topic(#[trigger] ts[i]),
    ensures
        split_on(join(ts, ", "@), Delim::Comma).len() == ts.len(),
        split_on(join(ts, ", "@), Delim::Comma)[0] == ts[0],
        forall|i: int|
            1 <= i < ts.len() ==> #[trigger] split_on(join(ts, ", "@), Delim::Comma)[i]
                == seq![' '] + ts[i],
    decreases ts.len(),
{
    reveal_strlit(", ");
    let d = Delim::Comma;
    if ts.len() == 1 {
        let t = ts[0];
        assert forall|i: int| 0 <= i < t.len() implies !d.separates(#[trigger] t[i]) by {
            assert(t.contains(t[i]));
        }
        lemma_split_append_plain(Seq::<char>::empty(), t, d);
        assert(Seq::<char>::empty() + t =~= t);
        assert(split_on(Seq::<char>::empty(), d) =~= seq![Seq::<char>::empty()]);
        assert(Seq::<char>::empty() + t =~= t);
    } else {
        let p = ts.drop_last();
        let t = ts.last();
        assert forall|i: int| 0 <= i < p.len() implies storable_topic(#[trigger] p[i]) by {
            assert(p[i] == ts[i]);
        }
        lemma_split_joined(p);
        let jp = join(p, ", "@);
        let tail = seq![' '] + t;
        assert forall|i: int| 0 <= i < tail.len() implies !d.separates(#[trigger] tail[i]) by {
            if i > 0 {
                assert(tail[i] == t[i - 1]);
                assert(t.contains(t[i - 1]));
            }
        }
        assert(join(ts, ", "@) =~= (jp + seq![',']) + tail);
        assert((jp + seq![',']).drop_last() =~= jp);
        crate::text::lemma_split_nonempty(jp, d);
        assert(split_on(jp + seq![','], d) == split_on(jp, d).push(Seq::<char>::empty()));
        lemma_split_append_plain(jp + seq![','], tail, d);
        assert(Seq::<char>::empty() + tail =~= tail);
        assert forall|i: int|
            1 <= i < ts.len() implies #[trigger] split_on(join(ts, ", "@), d)[i] == seq![' ']
            + ts[i] by {
            if i < ts.len() - 1 {
                assert(split_on(join(p, ", "@), d)[i] == seq![' '] + p[i]);
            }
        }
    }
}

proof fn lemma_trim_storable(t: Seq<char>)
    requires
        storable_topic(t),
    ensures
        trim(t) == t,
        trim(seq![' '] + t) == t,
{
    assert((seq![' '] + t).drop_first() =~= t);
    assert(crate::text::trim_start(seq![' '] + t) == crate::text::trim_start(t));
}

proof fn lemma_trimmed_nonempty_prefix(parts: Seq<Seq<char>>, ts: Seq<Seq<char>>, k: int)
    requires
        parts.len() == ts.len(),
        0 <= k <= ts.len(),
        forall|i: int| 0 <= i < ts.len() ==> storable_topic(#[trigger] ts[i]),
        forall|i: int| 0 <= i < ts.len() ==> trim(#[trigger] parts[i]) == ts[i],
    ensures
        trimmed_nonempty(parts.take(k)) == ts.take(k),
    decreases k,
{
    if k > 0 {
        lemma_trimmed_nonempty_prefix(parts, ts, k - 1);
        assert(parts.take(k).drop_last() =~= parts.take(k - 1));
        assert(ts.take(k) =~= ts.take(k - 1).push(ts[k - 1]));
        assert(trim(parts.take(k).last()) == ts[k - 1]);
    } else {
        assert(ts.take(0) =~= Seq::<Seq<char>>::empty());
        assert(parts.take(0) =~= Seq::<Seq<char>>::empty());
    }
}

/// Topics that are each storable are read back from their column exactly as
/// they were written.
pub proof fn lemma_topics_round_trip(ts: Seq<Seq<char>>)
    requires
        forall|i: int| 0 <= i < ts.len() ==> storable_topic(#[trigger] ts[i]),
    ensures
        trimmed_nonempty(split_on(join(ts, ", "@), Delim::Comma)) == ts,
{
    let d = Delim::Comma;
    if ts.len() == 0 {
        assert(split_on(Seq::<char>::empty(), d) =~= seq![Seq::<char>::empty()]);
        let e = seq![Seq::<char>::empty()];
        assert(e.drop_last() =~= Seq::<Seq<char>>::empty());
        assert(crate::text::trim_start(Seq::<char>::empty()) =~= Seq::<char>::empty());
        assert(crate::text::trim_end(Seq::<char>::empty()) =~= Seq::<char>::empty());
        assert(trim(Seq::<char>::empty()) =~= Seq::<char>::empty());
        assert(trimmed_nonempty(Seq::<Seq<char>>::empty()) =~= Seq::<Seq<char>>::empty());
        assert(trimmed_nonempty(e) =~= Seq::<Seq<char>>::empty());
    } else {
        let parts = split_on(join(ts, ", "@), d);
        lemma_split_joined(ts);
        assert forall|i: int| 0 <= i < ts.len() implies trim(#[trigger] parts[i]) == ts[i] by {
            lemma_trim_storable(ts[i]);
        }
        lemma_trimmed_nonempty_prefix(parts, ts, ts.len() as int);
        assert(parts.take(ts.len() as int) =~= parts);
        assert(ts.take(ts.len() as int) =~= ts);
    }
}

// ---------------------------------------------------------------------------
// Full-text queries
// ---------------------------------------------------------------------------

/// `w` without its double quotes.
pub open spec fn unquoted(w: Seq<char>) -> Seq<char>
    decreases w.len(),
{
    if w.len() == 0 {
        Seq::<char>::empty()
    } else if w.last() == '"' {
        unquoted(w.drop_last())
    } else {
        unquoted(w.drop_last()).push(w.last())
    }
}

/// A word long enough and made only of letters, digits and `_` is matched as
/// a prefix; any other is matched as a phrase.
pub open spec fn is_prefix_word(w: Seq<char>) -> bool {
    &&& byte_len(w) >= 3
    &&& forall|i: int| 0 <= i < w.len() ==> unicode_alphanumeric(#[trigger] w[i]) || w[i] == '_'
}

/// The quoted form of a cleaned word.
pub open spec fn fts_term(w: Seq<char>) -> Seq<char> {
    if is_prefix_word(w) {
        seq!['"'] + w + seq!['"', '*']
    } else {
        seq!['"'] + w + seq!['"']
    }
}

/// One term per piece that is not empty once its quotes are removed.
pub open spec fn fts_terms(pieces: Seq<Seq<char>>) -> Seq<Seq<char>>
    decreases pieces.len(),
{
    if pieces.len() == 0 {
        Seq::<Seq<char>>::empty()
    } else {
        let r = fts_terms(pieces.drop_last());
        let w = unquoted(pieces.last());
        if w.len() > 0 {
            r.push(fts_term(w))
        } else {
            r
        }
    }
}

/// The full-text query for a search text: its whitespace-separated words,
/// each stripped of quotes and quoted again, joined with spaces.
pub open spec fn sanitized(raw: Seq<char>) -> Seq<char> {
    join(fts_terms(split_on(raw, Delim::Whitespace)), seq![' '])
}

fn unquote(w: &[char]) -> (r: Vec<char>)
    ensures
        r@ == unquoted(w@),
{
    let mut out: Vec<char> = Vec::new();
    for i in 0..w.len()
        invariant
            out@ == unquoted(w@.take(i as int)),
    {
        assert(w@.take(i + 1).drop_last() =~= w@.take(i as int));
        if w[i] != '"' {
            out.push(w[i]);
        }
    }
    assert(w@.take(w@.len() as int) =~= w@);
    out
}

fn term_for(w: &[char]) -> (r: String)
    ensures
        r@ == fts_term(w@),
{
    let s = string_from(w);
    let mut word_chars = s.as_str().len() >= 3;
    if word_chars {
        for i in 0..w.len()
            invariant
                word_chars == forall|k: int|
                    0 <= k < i ==> unicode_alphanumeric(#[trigger] w@[k]) || w@[k] == '_',
        {
            let ok = is_alphanumeric(w[i]) || w[i] == '_';
            word_chars = word_chars && ok;
        }
    }
    let mut out = String::new();
    push_char(&mut out, '"');
    push_all(&mut out, s.as_str());
    push_char(&mut out, '"');
    if word_chars {
        push_char(&mut out, '*');
    }
    out
}

/// The full-text query for `raw`, safe against the query language's syntax.
pub fn sanitize_fts5_query(raw: &str) -> (r: String)
    ensures
        r@ == sanitized(raw@),
{
    let cs = chars_of(raw);
    let pieces = split_chars(cs.as_slice(), Delim::Whitespace);
    let mut terms: Vec<String> = Vec::new();
    for i in 0..pieces.len()
        invariant
            vec_views(pieces@) == split_on(raw@, Delim::Whitespace),
            string_views(terms@) == fts_terms(vec_views(pieces@).take(i as int)),
    {
        assert(vec_views(pieces@).take(i + 1).drop_last() =~= vec_views(pieces@).take(i as int));
        assert(vec_views(pieces@).take(i + 1).last() == pieces@[i as int]@);
        let w = unquote(pieces[i].as_slice());
        if w.len() > 0 {
            let t = term_for(w.as_slice());
            terms.push(t);
            assert(string_views(terms@) =~= fts_terms(vec_views(pieces@).take(i as int)).push(
                fts_term(w@),
            ));
        }
    }
    assert(vec_views(pieces@).take(pieces@.len() as int) =~= vec_views(pieces@));
    proof {
        reveal_strlit(" ");
        assert(" "@ =~= seq![' ']);
    }
    join_strings(&terms, " ")
}

/// A quoted word: a double quote, a word without double quotes, a double
/// quote, and possibly `*` after it.
pub open spec fn quoted_word(t: Seq<char>) -> bool {
    let close = if t.last() == '*' {
        t.len() - 2
    } else {
        t.len() - 1
    };
    &&& t.len() >= 3
    &&& t[0] == '"'
    &&& 2 <= close
    &&& t[close] == '"'
    &&& forall|i: int| 1 <= i < close ==> t[i] != '"'
}

proof fn lemma_unquoted_has_no_quote(w: Seq<char>)
    ensures
        forall|i: int| 0 <= i < unquoted(w).len() ==> unquoted(w)[i] != '"',
    decreases w.len(),
{
    if w.len() > 0 {
        let r = unquoted(w.drop_last());
        lemma_unquoted_has_no_quote(w.drop_last());
        if w.last() != '"' {
            assert(unquoted(w) == r.push(w.last()));
            assert forall|i: int| 0 <= i < unquoted(w).len() implies unquoted(w)[i] != '"' by {
                if i < r.len() {
                    assert(unquoted(w)[i] == r[i]);
                }
            }
        }
    }
}

proof fn lemma_terms_quoted(pieces: Seq<Seq<char>>)
    ensures
        forall|k: int| 0 <= k < fts_terms(pieces).len() ==> quoted_word(#[trigger] fts_terms(pieces)[k]),
    decreases pieces.len(),
{
    if pieces.len() > 0 {
        lemma_terms_quoted(pieces.drop_last());
        let r = fts_terms(pieces.drop_last());
        let w = unquoted(pieces.last());
        if w.len() > 0 {
            assert(fts_terms(pieces) == r.push(fts_term(w)));
            assert forall|k: int| 0 <= k < r.len() implies fts_terms(pieces)[k] == r[k] by {}
            lemma_unquoted_has_no_quote(pieces.last());
            let t = fts_term(w);
            if is_prefix_word(w) {
                assert(t.last() == '*');
                assert(forall|i: int| 1 <= i < w.len() + 1 ==> t[i] == w[i - 1]);
            } else {
                assert(t.last() == '"');
                assert(forall|i: int| 1 <= i < w.len() + 1 ==> t[i] == w[i - 1]);
            }
            assert(quoted_word(t));
        }
    }
}

/// Whatever the search text holds, every term of its full-text query is one
/// quoted word with no double quote inside, so the query language reads each
/// term as a plain phrase or prefix and never as an operator or column.
pub proof fn lemma_sanitized_terms_quoted(raw: Seq<char>)
    ensures
        forall|k: int|
            0 <= k < fts_terms(split_on(raw, Delim::Whitespace)).len() ==> quoted_word(
                #[trigger] fts_terms(split_on(raw, Delim::Whitespace))[k],
            ),
{
    lemma_terms_quoted(split_on(raw, Delim::Whitespace));
}

proof fn lemma_split_at_separator(x: Seq<char>, c: char, y: Seq<char>, d: Delim)
    requires
        d.separates(c),
    ensures
        split_on(x.push(c) + y, d) == split_on(x, d) + split_on(y, d),
    decreases y.len(),
{
    if y.len() == 0 {
        assert(x.push(c) + y =~= x.push(c));
        assert(x.push(c).drop_last() =~= x);
        assert(split_on(x, d).push(Seq::<char>::empty()) =~= split_on(x, d) + seq![
            Seq::<char>::empty(),
        ]);
    } else {
        let y0 = y.drop_last();
        let z = x.push(c) + y;
        assert(z.drop_last() =~= x.push(c) + y0);
        assert(z.last() == y.last());
        lemma_split_at_separator(x, c, y0, d);
        crate::text::lemma_split_nonempty(y0, d);
        let a = split_on(x, d);
        let b = split_on(y0, d);
        if d.separates(y.last()) {
            assert((a + b).push(Seq::<char>::empty()) =~= a + b.push(Seq::<char>::empty()));
        } else {
            assert((a + b).update((a + b).len() - 1, (a + b).last().push(y.last())) =~= a
                + b.update(b.len() - 1, b.last().push(y.last())));
        }
    }
}

proof fn lemma_terms_concat(a: Seq<Seq<char>>, b: Seq<Seq<char>>)
    ensures
        fts_terms(a + b) == fts_terms(a) + fts_terms(b),
    decreases b.len(),
{
    if b.len() == 0 {
        assert(a + b =~= a);
        assert(fts_terms(a) + fts_terms(b) =~= fts_terms(a));
    } else {
        lemma_terms_concat(a, b.drop_last());
        assert((a + b).drop_last() =~= a + b.drop_last());
        assert((a + b).last() == b.last());
        assert((fts_terms(a) + fts_terms(b.drop_last())).push(fts_term(unquoted(b.last())))
            =~= fts_terms(a) + fts_terms(b.drop_last()).push(fts_term(unquoted(b.last()))));
    }
}

proof fn lemma_terms_of_empty()
    ensures
        fts_terms(seq![Seq::<char>::empty()]) == Seq::<Seq<char>>::empty(),
{
    let p = seq![Seq::<char>::empty()];
    assert(p.drop_last() =~= Seq::<Seq<char>>::empty());
    assert(p.last().len() == 0);
    assert(unquoted(p.last()).len() == 0);
    assert(fts_terms(p.drop_last()) == Seq::<Seq<char>>::empty());
}

proof fn lemma_leading_separators(ws: Seq<char>, y: Seq<char>)
    requires
        forall|i: int| 0 <= i < ws.len() ==> is_ws(#[trigger] ws[i]),
    ensures
        fts_terms(split_on(ws + y, Delim::Whitespace)) == fts_terms(split_on(y, Delim::Whitespace)),
    decreases ws.len(),
{
    if ws.len() > 0 {
        let rest = ws.skip(1);
        assert forall|i: int| 0 <= i < rest.len() implies is_ws(#[trigger] rest[i]) by {
            assert(rest[i] == ws[i + 1]);
        }
        lemma_leading_separators(rest, y);
        let e = Seq::<char>::empty();
        assert(ws + y =~= e.push(ws[0]) + (rest + y));
        lemma_split_at_separator(e, ws[0], rest + y, Delim::Whitespace);
        lemma_terms_concat(split_on(e, Delim::Whitespace), split_on(rest + y, Delim::Whitespace));
        assert(split_on(e, Delim::Whitespace) =~= seq![e]);
        assert(unquoted(e) =~= e);
    lemma_terms_of_empty();
        assert(Seq::<Seq<char>>::empty() + fts_terms(split_on(rest + y, Delim::Whitespace))
            =~= fts_terms(split_on(rest + y, Delim::Whitespace)));
    }
}

proof fn lemma_join_concat(a: Seq<Seq<char>>, b: Seq<Seq<char>>, sep: Seq<char>)
    requires
        a.len() > 0,
        b.len() > 0,
    ensures
        join(a + b, sep) == join(a, sep) + sep + join(b, sep),
    decreases b.len(),
{
    if b.len() == 1 {
        assert((a + b).drop_last() =~= a);
        assert((a + b).last() == b[0]);
    } else {
        lemma_join_concat(a, b.drop_last(), sep);
        assert((a + b).drop_last() =~= a + b.drop_last());
        assert((a + b).last() == b.last());
    }
}

proof fn lemma_join_empty(ts: Seq<Seq<char>>, sep: Seq<char>)
    requires
        forall|k: int| 0 <= k < ts.len() ==> (#[trigger] ts[k]).len() > 0,
    ensures
        join(ts, sep).len() == 0 <==> ts.len() == 0,
    decreases ts.len(),
{
    if ts.len() > 1 {
        assert(ts.last() == ts[ts.len() - 1]);
    } else if ts.len() == 1 {
        assert(ts[0].len() > 0);
    }
}

proof fn lemma_sanitized_terms(x: Seq<char>)
    ensures
        sanitized(x).len() == 0 <==> fts_terms(split_on(x, Delim::Whitespace)).len() == 0,
{
    let ts = fts_terms(split_on(x, Delim::Whitespace));
    lemma_sanitized_terms_quoted(x);
    assert forall|k: int| 0 <= k < ts.len() implies (#[trigger] ts[k]).len() > 0 by {
        assert(quoted_word(ts[k]));
    }
    lemma_join_empty(ts, seq![' ']);
}

/// Words apart: the full-text query of two texts with whitespace between
/// them is the query of the first and of the second joined by a space (an
/// empty one left out); whitespace around a text changes nothing.
pub proof fn lemma_sanitized_join(x: Seq<char>, ws: Seq<char>, y: Seq<char>)
    requires
        ws.len() > 0,
        forall|i: int| 0 <= i < ws.len() ==> is_ws(#[trigger] ws[i]),
    ensures
        sanitized(x + ws + y) == if sanitized(x).len() == 0 {
            sanitized(y)
        } else if sanitized(y).len() == 0 {
            sanitized(x)
        } else {
            sanitized(x) + seq![' '] + sanitized(y)
        },
        sanitized(ws + x + ws) == sanitized(x),
{
    let d = Delim::Whitespace;
    let rest = ws.skip(1);
    assert forall|i: int| 0 <= i < rest.len() implies is_ws(#[trigger] rest[i]) by {
        assert(rest[i] == ws[i + 1]);
    }
    assert(x + ws + y =~= x.push(ws[0]) + (rest + y));
    lemma_split_at_separator(x, ws[0], rest + y, d);
    lemma_terms_concat(split_on(x, d), split_on(rest + y, d));
    lemma_leading_separators(rest, y);
    let tx = fts_terms(split_on(x, d));
    let ty = fts_terms(split_on(y, d));
    lemma_sanitized_terms(x);
    lemma_sanitized_terms(y);
    if tx.len() == 0 {
        assert(tx + ty =~= ty);
    } else if ty.len() == 0 {
        assert(tx + ty =~= tx);
    } else {
        lemma_join_concat(tx, ty, seq![' ']);
    }
    // around a text: first with nothing before it, then with nothing after
    let e = Seq::<char>::empty();
    lemma_sanitized_terms(e);
    assert(split_on(e, d) =~= seq![e]);
    assert(unquoted(e) =~= e);
    lemma_terms_of_empty();
    assert(e.push(ws[0]) + (rest + (x + ws)) =~= ws + x + ws);
    lemma_split_at_separator(e, ws[0], rest + (x + ws), d);
    lemma_terms_concat(split_on(e, d), split_on(rest + (x + ws), d));
    lemma_leading_separators(rest, x + ws);
    assert(Seq::<Seq<char>>::empty() + fts_terms(split_on(x + ws, d)) =~= fts_terms(
        split_on(x + ws, d),
    ));
    assert(x.push(ws[0]) + (rest + e) =~= x + ws);
    lemma_split_at_separator(x, ws[0], rest + e, d);
    lemma_terms_concat(split_on(x, d), split_on(rest + e, d));
    lemma_leading_separators(rest, e);
    assert(tx + Seq::<Seq<char>>::empty() =~= tx);
}

/// Which rows a search shows.
#[derive(Debug)]
pub enum SearchPlan {
    /// The newest repositories.
    Recent,
    /// A full-text match, with a substring match as fallback when the
    /// full-text query is refused.
    FullText { query: String, like_pattern: String },
}

/// The plan for a search text: the newest rows when it is blank or has no
/// searchable word, else the full-text query for the trimmed text and the
/// pattern `%text%`.
pub open spec fn search_plan(query: Seq<char>) -> Option<(Seq<char>, Seq<char>)> {
    let t = trim(query);
    if t.len() == 0 || sanitized(t).len() == 0 {
        None
    } else {
        Some((sanitized(t), seq!['%'] + t + seq!['%']))
    }
}

pub fn plan_search(query: &str) -> (p: SearchPlan)
    ensures
        match p {
            SearchPlan::Recent => search_plan(query@) is None,
            SearchPlan::FullText { query: q, like_pattern: l } => search_plan(query@) == Some(
                (q@, l@),
            ),
        },
{
    let t = trimmed(query);
    if t.as_str().is_empty() {
        return SearchPlan::Recent;
    }
    let q = sanitize_fts5_query(t.as_str());
    if q.as_str().is_empty() {
        return SearchPlan::Recent;
    }
    let mut like = String::new();
    push_char(&mut like, '%');
    push_all(&mut like, t.as_str());
    push_char(&mut like, '%');
    SearchPlan::FullText { query: q, like_pattern: like }
}

/// `n` comma-separated `?` placeholders.
pub open spec fn placeholders(n: nat) -> Seq<char>
    decreases n,
{
    if n == 0 {
        Seq::<char>::empty()
    } else if n == 1 {
        seq!['?']
    } else {
        placeholders((n - 1) as nat) + seq![',', '?']
    }
}

/// The query for which of `n` ids are stored.
pub fn existing_ids_sql(n: usize) -> (r: String)
    ensures
        r@ == "SELECT id FROM repos WHERE id IN ("@ + placeholders(n as nat) + ")"@,
{
    let mut s = owned("SELECT id FROM repos WHERE id IN (");
    let ghost start = s@;
    for i in 0..n
        invariant
            s@ == start + placeholders(i as nat),
    {
        if i > 0 {
            push_char(&mut s, ',');
        }
        push_char(&mut s, '?');
    }
    push_all(&mut s, ")");
    s
}

/// The `LIKE` pattern for rows found on the day `today` (`YYYY-MM-DD`).
pub fn discovered_on_pattern(today: &str) -> (r: String)
    ensures
        r@ == today@ + seq!['%'],
{
    let mut s = owned(today);
    push_char(&mut s, '%');
    s
}

} // verus!
