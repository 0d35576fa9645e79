//! What the notifier sends about new repositories: which repositories, to
//! which channels, and the text of each message, including the encoded
//! script that raises a desktop toast on Windows.
use vstd::prelude::*;
use crate::config::NotificationsConfig;
use crate::decimal::{decimal, format_i64, format_usize, signed_decimal};
use crate::engine::description_or;
use crate::models::{clone_opt, item_views, RepoItem, RepoView};
use crate::text::{chars_of, owned, push_all, push_char};
use vstd::utf8::encode_utf8;

verus! {

broadcast use vstd::string::group_string_axioms;

// ---------------------------------------------------------------------------
// Base64
// ---------------------------------------------------------------------------

/// The Base64 digit for `i` (`0 <= i < 64`).
pub open spec fn b64_char(i: int) -> char {
    if i < 26 {
        (65 + i) as char
    } else if i < 52 {
        (71 + i) as char
    } else if i < 62 {
        (i - 4) as char
    } else if i == 62 {
        '+'
    } else {
        '/'
    }
}

/// The four chars for a group of `n` bytes (`1 <= n <= 3`); missing bytes
/// count as zero and missing chars are `=`.
pub open spec fn b64_group(b0: u8, b1: u8, b2: u8, n: int) -> Seq<char> {
    seq![
        b64_char((b0 / 4) as int),
        b64_char((b0 % 4) * 16 + b1 / 16),
        if n > 1 {
            b64_char((b1 % 16) * 4 + b2 / 64)
        } else {
            '='
        },
        if n > 2 {
            b64_char((b2 % 64) as int)
        } else {
            '='
        },
    ]
}

/// Standard Base64 with padding.
pub open spec fn base64(data: Seq<u8>) -> Seq<char>
    decreases data.len(),
{
    if data.len() == 0 {
        Seq::<char>::empty()
    } else if data.len() <= 3 {
        b64_group(
            data[0],
            if data.len() > 1 {
                data[1]
            } else {
                0
            },
            if data.len() > 2 {
                data[2]
            } else {
                0
            },
            data.len() as int,
        )
    } else {
        b64_group(data[0], data[1], data[2], 3) + base64(data.skip(3))
    }
}

/// Base64 text has four chars for every started group of three bytes.
pub proof fn lemma_base64_len(data: Seq<u8>)
    ensures
        base64(data).len() == 4 * ((data.len() + 2) / 3),
    decreases data.len(),
{
    if data.len() > 3 {
        lemma_base64_len(data.skip(3));
    }
}

/// Base64 text of two pieces of data, the first a whole number of
/// three-byte groups, is the text of the first followed by that of the second.
pub proof fn lemma_base64_concat(a: Seq<u8>, b: Seq<u8>)
    requires
        a.len() % 3 == 0,
    ensures
        base64(a + b) == base64(a) + base64(b),
    decreases a.len(),
{
    if a.len() == 0 {
        assert(a + b =~= b);
    } else {
        lemma_base64_concat(a.skip(3), b);
        assert((a + b).skip(3) =~= a.skip(3) + b);
        assert((a + b)[0] == a[0] && (a + b)[1] == a[1] && (a + b)[2] == a[2]);
        if a.len() == 3 {
            assert(a.skip(3) =~= Seq::<u8>::empty());
            if b.len() == 0 {
                assert(a + b =~= a);
            }
        }
    }
}

/// The number a Base64 digit stands for (`0` for any other char).
pub open spec fn b64_value(c: char) -> int {
    if 'A' <= c <= 'Z' {
        c as int - 65
    } else if 'a' <= c <= 'z' {
        c as int - 71
    } else if '0' <= c <= '9' {
        c as int + 4
    } else if c == '+' {
        62
    } else if c == '/' {
        63
    } else {
        0
    }
}

/// The bytes of one group of four Base64 chars, `=` marking missing ones.
pub open spec fn b64_ungroup(c0: char, c1: char, c2: char, c3: char) -> Seq<u8> {
    let v0 = b64_value(c0);
    let v1 = b64_value(c1);
    let v2 = b64_value(c2);
    let v3 = b64_value(c3);
    let x0 = (v0 * 4 + v1 / 16) as u8;
    let x1 = ((v1 % 16) * 16 + v2 / 4) as u8;
    let x2 = ((v2 % 4) * 64 + v3) as u8;
    if c2 == '=' {
        seq![x0]
    } else if c3 == '=' {
        seq![x0, x1]
    } else {
        seq![x0, x1, x2]
    }
}

/// Standard Base64 decoding, group by group.
pub open spec fn b64_decode(s: Seq<char>) -> Seq<u8>
    decreases s.len(),
{
    if s.len() < 4 {
        Seq::<u8>::empty()
    } else {
        b64_ungroup(s[0], s[1], s[2], s[3]) + b64_decode(s.skip(4))
    }
}

proof fn lemma_b64_digit_value(i: int)
    requires
        0 <= i < 64,
    ensures
        b64_value(b64_char(i)) == i,
        b64_char(i) != '=',
{
}

proof fn lemma_b64_group_arith(b0: int, b1: int, b2: int)
    by (nonlinear_arith)
    requires
        0 <= b0 < 256,
        0 <= b1 < 256,
        0 <= b2 < 256,
    ensures
        (b0 / 4) * 4 + ((b0 % 4) * 16 + b1 / 16) / 16 == b0,
        (((b0 % 4) * 16 + b1 / 16) % 16) * 16 + ((b1 % 16) * 4 + b2 / 64) / 4 == b1,
        (((b1 % 16) * 4 + b2 / 64) % 4) * 64 + b2 % 64 == b2,
        0 <= b0 / 4 < 64,
        0 <= (b0 % 4) * 16 + b1 / 16 < 64,
        0 <= (b1 % 16) * 4 + b2 / 64 < 64,
        0 <= b2 % 64 < 64,
{
}

proof fn lemma_b64_group_decodes(b0: u8, b1: u8, b2: u8, n: int)
    requires
        1 <= n <= 3,
    ensures
        ({
            let g = b64_group(b0, b1, b2, n);
            b64_ungroup(g[0], g[1], g[2], g[3]) == if n == 1 {
                seq![b0]
            } else if n == 2 {
                seq![b0, b1]
            } else {
                seq![b0, b1, b2]
            }
        }),
{
    lemma_b64_group_arith(b0 as int, b1 as int, b2 as int);
    lemma_b64_digit_value((b0 / 4) as int);
    lemma_b64_digit_value((b0 % 4) * 16 + b1 / 16);
    lemma_b64_digit_value((b1 % 16) * 4 + b2 / 64);
    lemma_b64_digit_value((b2 % 64) as int);
    let g = b64_group(b0, b1, b2, n);
    let u = b64_ungroup(g[0], g[1], g[2], g[3]);
    if n == 1 {
        assert(u =~= seq![b0]);
    } else if n == 2 {
        assert(u =~= seq![b0, b1]);
    } else {
        assert(u =~= seq![b0, b1, b2]);
    }
}

/// Base64 text decodes back to the data: a standard decoder reads it.
pub proof fn lemma_base64_decodes(data: Seq<u8>)
    ensures
        b64_decode(base64(data)) == data,
    decreases data.len(),
{
    if data.len() == 0 {
    } else if data.len() <= 3 {
        let b1: u8 = if data.len() > 1 {
            data[1]
        } else {
            0
        };
        let b2: u8 = if data.len() > 2 {
            data[2]
        } else {
            0
        };
        lemma_b64_group_decodes(data[0], b1, b2, data.len() as int);
        let g = base64(data);
        assert(g == b64_group(data[0], b1, b2, data.len() as int));
        assert(g.skip(4) =~= Seq::<char>::empty());
        assert(b64_decode(g.skip(4)) == Seq::<u8>::empty());
        assert(b64_decode(g) == b64_ungroup(g[0], g[1], g[2], g[3]) + b64_decode(g.skip(4)));
        if data.len() == 1 {
            assert(seq![data[0]] =~= data);
        } else if data.len() == 2 {
            assert(seq![data[0], data[1]] =~= data);
        } else {
            assert(seq![data[0], data[1], data[2]] =~= data);
        }
    } else {
        lemma_base64_decodes(data.skip(3));
        lemma_b64_group_decodes(data[0], data[1], data[2], 3);
        let g = b64_group(data[0], data[1], data[2], 3);
        let t = base64(data);
        assert(t == g + base64(data.skip(3)));
        assert(t.skip(4) =~= base64(data.skip(3)));
        assert(t[0] == g[0] && t[1] == g[1] && t[2] == g[2] && t[3] == g[3]);
        lemma_base64_len(data.skip(3));
        assert(b64_decode(t) == b64_ungroup(t[0], t[1], t[2], t[3]) + b64_decode(t.skip(4)));
        assert(seq![data[0], data[1], data[2]] + data.skip(3) =~= data);
    }
}

fn b64_digit(i: u8) -> (c: char)
    requires
        i < 64,
    ensures
        c == b64_char(i as int),
{
    if i < 26 {
        (65 + i) as char
    } else if i < 52 {
        (71 + i) as char
    } else if i < 62 {
        (i - 4) as char
    } else if i == 62 {
        '+'
    } else {
        '/'
    }
}

/// Base64 text of `data`.
pub fn base64_encode(data: &[u8]) -> (r: String)
    ensures
        r@ == base64(data@),
{
    let n = data.len();
    let mut out = String::new();
    let mut i: usize = 0;
    assert(data@.skip(0) =~= data@);
    while i < n
        invariant
            i <= n == data@.len(),
            base64(data@) == out@ + base64(data@.skip(i as int)),
        decreases n - i,
    {
        let rest = n - i;
        let b0 = data[i];
        let b1 = if rest > 1 {
            data[i + 1]
        } else {
            0
        };
        let b2 = if rest > 2 {
            data[i + 2]
        } else {
            0
        };
        let ghost before = out@;
        let ghost tail = data@.skip(i as int);
        assert(tail[0] == b0);
        assert(rest > 1 ==> tail[1] == b1);
        assert(rest > 2 ==> tail[2] == b2);
        push_char(&mut out, b64_digit(b0 / 4));
        push_char(&mut out, b64_digit((b0 % 4) * 16 + b1 / 16));
        if rest > 1 {
            push_char(&mut out, b64_digit((b1 % 16) * 4 + b2 / 64));
        } else {
            push_char(&mut out, '=');
        }
        if rest > 2 {
            push_char(&mut out, b64_digit(b2 % 64));
        } else {
            push_char(&mut out, '=');
        }
        let take: usize = if rest > 3 {
            3
        } else {
            rest
        };
        assert(out@ =~= before + b64_group(b0, b1, b2, take as int));
        if rest > 3 {
            assert(tail.skip(3) =~= data@.skip(i + 3));
        } else {
            assert(data@.skip(i + take) =~= Seq::<u8>::empty());
        }
        i = i + take;
    }
    assert(data@.skip(n as int) =~= Seq::<u8>::empty());
    out
}

// ---------------------------------------------------------------------------
// The toast script
// ---------------------------------------------------------------------------

/// The UTF-16 code units of one char.
pub open spec fn char_units(c: char) -> Seq<u16> {
    let u = c as u32;
    if u < 0x10000 {
        seq![u as u16]
    } else {
        let v = u - 0x10000;
        seq![(0xD800 + v / 1024) as u16, (0xDC00 + v % 1024) as u16]
    }
}

/// The UTF-16 code units of a text.
pub open spec fn utf16_units(s: Seq<char>) -> Seq<u16>
    decreases s.len(),
{
    if s.len() == 0 {
        Seq::<u16>::empty()
    } else {
        utf16_units(s.drop_last()) + char_units(s.last())
    }
}

/// The code units as little-endian bytes.
pub open spec fn le_bytes(units: Seq<u16>) -> Seq<u8>
    decreases units.len(),
{
    if units.len() == 0 {
        Seq::<u8>::empty()
    } else {
        le_bytes(units.drop_last()) + seq![(units.last() % 256) as u8, (units.last() / 256) as u8]
    }
}

fn push_unit(bytes: &mut Vec<u8>, unit: u16)
    ensures
        final(bytes)@ == old(bytes)@ + seq![(unit % 256) as u8, (unit / 256) as u8],
{
    bytes.push((unit % 256) as u8);
    bytes.push((unit / 256) as u8);
}

/// The script in the form `powershell -EncodedCommand` takes: Base64 of
/// its UTF-16LE bytes.
pub fn encode_powershell_script(script: &str) -> (r: String)
    ensures
        r@ == base64(le_bytes(utf16_units(script@))),
{
    let cs = chars_of(script);
    let mut bytes: Vec<u8> = Vec::new();
    for i in 0..cs.len()
        invariant
            cs@ == script@,
            bytes@ == le_bytes(utf16_units(cs@.take(i as int))),
    {
        let c = cs[i];
        let u = c as u32;
        let ghost before = utf16_units(cs@.take(i as int));
        assert(cs@.take(i + 1).drop_last() =~= cs@.take(i as int));
        assert(cs@.take(i + 1).last() == c);
        if u < 0x10000 {
            push_unit(&mut bytes, u as u16);
            let ghost one = before + seq![u as u16];
            assert(one.drop_last() =~= before);
            assert(le_bytes(one) == le_bytes(before) + seq![((u as u16) % 256) as u8, ((u as u16) / 256) as u8]);
            assert(bytes@ =~= le_bytes(one));
        } else {
            let v = u - 0x10000;
            let hi = (0xD800 + v / 1024) as u16;
            let lo = (0xDC00 + v % 1024) as u16;
            push_unit(&mut bytes, hi);
            push_unit(&mut bytes, lo);
            let ghost one = before + seq![hi];
            let ghost two = before + seq![hi, lo];
            assert(two.drop_last() =~= one);
            assert(one.drop_last() =~= before);
            assert(le_bytes(two) == le_bytes(one) + seq![(lo % 256) as u8, (lo / 256) as u8]);
            assert(le_bytes(one) == le_bytes(before) + seq![(hi % 256) as u8, (hi / 256) as u8]);
            assert(bytes@ =~= le_bytes(two));
        }
    }
    assert(cs@.take(cs@.len() as int) =~= cs@);
    base64_encode(bytes.as_slice())
}

/// Single quotes doubled, as a PowerShell single-quoted string needs.
pub open spec fn ps_quoted(s: Seq<char>) -> Seq<char>
    decreases s.len(),
{
    if s.len() == 0 {
        Seq::<char>::empty()
    } else if s.last() == '\'' {
        ps_quoted(s.drop_last()) + seq!['\'', '\'']
    } else {
        ps_quoted(s.drop_last()).push(s.last())
    }
}

/// The number of single quotes in `s`.
pub open spec fn quote_count(s: Seq<char>) -> nat
    decreases s.len(),
{
    if s.len() == 0 {
        0
    } else {
        quote_count(s.drop_last()) + if s.last() == '\'' {
            1nat
        } else {
            0nat
        }
    }
}

/// The single quotes of `s` come in adjacent pairs (paired from the end), so
/// every run of quotes has even length and none ends a single-quoted
/// PowerShell string.
pub open spec fn quotes_paired(s: Seq<char>) -> bool
    decreases s.len(),
{
    if s.len() == 0 {
        true
    } else if s.last() == '\'' {
        s.len() >= 2 && s[s.len() - 2] == '\'' && quotes_paired(s.take(s.len() - 2))
    } else {
        quotes_paired(s.drop_last())
    }
}

/// `s` with each pair of adjacent single quotes (paired from the end) made
/// one, as PowerShell reads a single-quoted string.
pub open spec fn ps_unquoted(s: Seq<char>) -> Seq<char>
    decreases s.len(),
{
    if s.len() == 0 {
        Seq::<char>::empty()
    } else if s.len() >= 2 && s.last() == '\'' && s[s.len() - 2] == '\'' {
        ps_unquoted(s.take(s.len() - 2)).push('\'')
    } else {
        ps_unquoted(s.drop_last()).push(s.last())
    }
}

/// Quoting for PowerShell loses nothing: reading the quoted text back gives
/// the text, it is longer by one char per single quote, and its quotes all
/// come in pairs.
pub proof fn lemma_ps_quote_laws(v: Seq<char>)
    ensures
        ps_unquoted(ps_quoted(v)) == v,
        ps_quoted(v).len() == v.len() + quote_count(v),
        quotes_paired(ps_quoted(v)),
    decreases v.len(),
{
    if v.len() > 0 {
        lemma_ps_quote_laws(v.drop_last());
        let q = ps_quoted(v.drop_last());
        if v.last() == '\'' {
            let t = q + seq!['\'', '\''];
            assert(t.take(t.len() - 2) =~= q);
            assert(t == ps_quoted(v));
        } else {
            let t = q.push(v.last());
            assert(t.drop_last() =~= q);
            assert(t == ps_quoted(v));
        }
        assert(v.drop_last().push(v.last()) =~= v);
    }
}

/// `s` with each `''` made `'`, scanning from the start and never reusing a
/// quote, as `str::replace("''", "'")` does.
pub open spec fn pairs_replaced(s: Seq<char>) -> Seq<char>
    decreases s.len(),
{
    if s.len() == 0 {
        Seq::<char>::empty()
    } else if s.len() >= 2 && s[0] == '\'' && s[1] == '\'' {
        seq!['\''] + pairs_replaced(s.skip(2))
    } else {
        seq![s[0]] + pairs_replaced(s.skip(1))
    }
}

proof fn lemma_ps_quoted_concat(a: Seq<char>, b: Seq<char>)
    ensures
        ps_quoted(a + b) == ps_quoted(a) + ps_quoted(b),
    decreases b.len(),
{
    if b.len() == 0 {
        assert(a + b =~= a);
        assert(ps_quoted(a) + ps_quoted(b) =~= ps_quoted(a));
    } else {
        lemma_ps_quoted_concat(a, b.drop_last());
        assert((a + b).drop_last() =~= a + b.drop_last());
        assert((a + b).last() == b.last());
        if b.last() == '\'' {
            assert(ps_quoted(a) + ps_quoted(b.drop_last()) + seq!['\'', '\''] =~= ps_quoted(a) + (
            ps_quoted(b.drop_last()) + seq!['\'', '\'']));
        } else {
            assert((ps_quoted(a) + ps_quoted(b.drop_last())).push(b.last()) =~= ps_quoted(a) + (
            ps_quoted(b.drop_last()).push(b.last())));
        }
    }
}

proof fn lemma_encode_concat(a: Seq<char>, b: Seq<char>)
    ensures
        encode_utf8(a + b) == encode_utf8(a) + encode_utf8(b),
    decreases a.len(),
{
    if a.len() == 0 {
        assert(a + b =~= b);
        assert(encode_utf8(a) + encode_utf8(b) =~= encode_utf8(b));
    } else {
        lemma_encode_concat(a.drop_first(), b);
        assert((a + b).drop_first() =~= a.drop_first() + b);
        assert((a + b)[0] == a[0]);
    }
}

/// What `ps_quote` does, read as Rust reads strings: replacing each `''` of
/// the quoted text with `'` gives the text back, and its UTF-8 form is one
/// byte longer per single quote.
pub proof fn lemma_ps_quote_text_laws(v: Seq<char>)
    ensures
        pairs_replaced(ps_quoted(v)) == v,
        encode_utf8(ps_quoted(v)).len() == encode_utf8(v).len() + quote_count(v),
    decreases v.len(),
{
    if v.len() > 0 {
        let c = v[0];
        let rest = v.skip(1);
        lemma_ps_quote_text_laws(rest);
        assert(v =~= seq![c] + rest);
        lemma_ps_quoted_concat(seq![c], rest);
        let e = Seq::<char>::empty();
        assert(seq![c].drop_last() =~= e);
        assert(seq![c].last() == c);
        let q = ps_quoted(v);
        if c == '\'' {
            assert(ps_quoted(seq![c]) == ps_quoted(e) + seq!['\'', '\'']);
            assert(ps_quoted(seq![c]) =~= seq!['\'', '\'']);
            assert(q.skip(2) =~= ps_quoted(rest));
            assert(pairs_replaced(q) == seq!['\''] + pairs_replaced(q.skip(2)));
        } else {
            assert(ps_quoted(seq![c]) == ps_quoted(e).push(c));
            assert(ps_quoted(seq![c]) =~= seq![c]);
            assert(q.skip(1) =~= ps_quoted(rest));
            assert(pairs_replaced(q) == seq![c] + pairs_replaced(q.skip(1)));
        }
        lemma_encode_concat(ps_quoted(seq![c]), ps_quoted(rest));
        lemma_encode_concat(seq![c], rest);
        lemma_quote_count_front(v);
        assert(seq![c].drop_first() =~= e);
        if c == '\'' {
            let qq = seq!['\'', '\''];
            assert(qq.drop_first() =~= seq!['\'']);
            assert(seq!['\''].drop_first() =~= e);
            assert(vstd::utf8::is_ascii_chars(qq));
            assert(vstd::utf8::is_ascii_chars(seq![c]));
            vstd::utf8::is_ascii_chars_encode_utf8(qq);
            vstd::utf8::is_ascii_chars_encode_utf8(seq![c]);
            assert(encode_utf8(qq).len() == 2);
            assert(encode_utf8(seq![c]).len() == 1);
        }
    }
}

proof fn lemma_quote_count_front(v: Seq<char>)
    requires
        v.len() > 0,
    ensures
        quote_count(v) == quote_count(v.skip(1)) + if v[0] == '\'' {
            1nat
        } else {
            0nat
        },
    decreases v.len(),
{
    if v.len() > 1 {
        lemma_quote_count_front(v.drop_last());
        assert(v.drop_last().skip(1) =~= v.skip(1).drop_last());
        assert(v.skip(1).last() == v.last());
        assert(v.drop_last()[0] == v[0]);
    } else {
        assert(v.skip(1) =~= Seq::<char>::empty());
        assert(v.drop_last() =~= Seq::<char>::empty());
    }
}

/// `s[i..j]` is a maximal run of single quotes.
pub open spec fn quote_run(s: Seq<char>, i: int, j: int) -> bool {
    &&& 0 <= i < j <= s.len()
    &&& forall|k: int| i <= k < j ==> s[k] == '\''
    &&& (i == 0 || s[i - 1] != '\'')
    &&& (j == s.len() || s[j] != '\'')
}

proof fn lemma_paired_runs_even(s: Seq<char>, i: int, j: int)
    requires
        quotes_paired(s),
        quote_run(s, i, j),
    ensures
        (j - i) % 2 == 0,
    decreases s.len(),
{
    let n = s.len();
    if s.last() != '\'' {
        let t = s.drop_last();
        if j == n {
            assert(s[n - 1] == '\'');
        }
        assert(quote_run(t, i, j));
        lemma_paired_runs_even(t, i, j);
    } else {
        let t = s.take(n - 2);
        if j <= n - 2 {
            if j == n - 2 {
                assert(s[j] == '\'');
            }
            assert(quote_run(t, i, j));
            lemma_paired_runs_even(t, i, j);
        } else {
            if j == n - 1 {
                assert(s[j] == '\'');
            }
            assert(j == n);
            if i >= n - 2 {
                if i == n - 1 {
                    assert(s[i - 1] == '\'');
                }
            } else {
                assert(quote_run(t, i, n - 2));
                lemma_paired_runs_even(t, i, n - 2);
            }
        }
    }
}

/// Every maximal run of single quotes in the quoted text has even length, so
/// none ends a single-quoted PowerShell string.
pub proof fn lemma_ps_quote_runs_even(v: Seq<char>, i: int, j: int)
    requires
        quote_run(ps_quoted(v), i, j),
    ensures
        (j - i) % 2 == 0,
{
    lemma_ps_quote_laws(v);
    lemma_paired_runs_even(ps_quoted(v), i, j);
}

pub fn ps_quote(value: &str) -> (r: String)
    ensures
        r@ == ps_quoted(value@),
{
    let cs = chars_of(value);
    let mut out = String::new();
    for i in 0..cs.len()
        invariant
            cs@ == value@,
            out@ == ps_quoted(cs@.take(i as int)),
    {
        assert(cs@.take(i + 1).drop_last() =~= cs@.take(i as int));
        if cs[i] == '\'' {
            push_char(&mut out, '\'');
            push_char(&mut out, '\'');
        } else {
            push_char(&mut out, cs[i]);
        }
    }
    assert(cs@.take(cs@.len() as int) =~= cs@);
    out
}

/// The toast's title: the repository for one, the count for more.
pub open spec fn toast_title(repos: Seq<RepoView>) -> Seq<char> {
    if repos.len() == 1 {
        "GitHub: "@ + repos[0].full_name
    } else {
        "GitHub: "@ + decimal(repos.len()) + " new repositories"@
    }
}

/// The toast's text: the description for one repository, the first name and
/// the count of the others for more.
pub open spec fn toast_body(repos: Seq<RepoView>) -> Seq<char> {
    if repos.len() == 1 {
        description_or(repos[0], "No description"@)
    } else {
        repos[0].full_name + " + "@ + decimal((repos.len() - 1) as nat) + " more"@
    }
}

pub fn toast_text(repos: &Vec<RepoItem>) -> (r: (String, String))
    requires
        repos@.len() > 0,
    ensures
        r.0@ == toast_title(item_views(repos@)),
        r.1@ == toast_body(item_views(repos@)),
{
    let n = repos.len();
    assert(item_views(repos@)[0] == repos@[0]@);
    let mut title = owned("GitHub: ");
    let body;
    if n == 1 {
        push_all(&mut title, repos[0].full_name.as_str());
        body = match &repos[0].description {
            Some(d) => d.clone(),
            None => owned("No description"),
        };
    } else {
        push_all(&mut title, format_usize(n).as_str());
        push_all(&mut title, " new repositories");
        let mut b = repos[0].full_name.clone();
        push_all(&mut b, " + ");
        push_all(&mut b, format_usize(n - 1).as_str());
        push_all(&mut b, " more");
        body = b;
    }
    (title, body)
}

/// The PowerShell script that shows a toast with this title and text.
pub open spec fn toast_script_text(title: Seq<char>, body: Seq<char>) -> Seq<char> {
    "[Windows.UI.Notifications.ToastNotificationManager, Windows.UI.Notifications, ContentType=WindowsRuntime] | Out-Null; $t = [Windows.UI.Notifications.ToastNotificationManager]::GetTemplateContent([Windows.UI.Notifications.ToastTemplateType]::ToastText02); $n = $t.GetElementsByTagName('text'); $n[0].AppendChild($t.CreateTextNode('"@
        + ps_quoted(title)
        + "')) | Out-Null; $n[1].AppendChild($t.CreateTextNode('"@ + ps_quoted(body)
        + "')) | Out-Null; $x = New-Object Windows.UI.Notifications.ToastNotification $t; [Windows.UI.Notifications.ToastNotificationManager]::CreateToastNotifier('BloomRepo').Show($x)"@
}

pub fn toast_script(title: &str, body: &str) -> (r: String)
    ensures
        r@ == toast_script_text(title@, body@),
{
    let mut s = owned(
        "[Windows.UI.Notifications.ToastNotificationManager, Windows.UI.Notifications, ContentType=WindowsRuntime] | Out-Null; $t = [Windows.UI.Notifications.ToastNotificationManager]::GetTemplateContent([Windows.UI.Notifications.ToastTemplateType]::ToastText02); $n = $t.GetElementsByTagName('text'); $n[0].AppendChild($t.CreateTextNode('",
    );
    push_all(&mut s, ps_quote(title).as_str());
    push_all(&mut s, "')) | Out-Null; $n[1].AppendChild($t.CreateTextNode('");
    push_all(&mut s, ps_quote(body).as_str());
    push_all(
        &mut s,
        "')) | Out-Null; $x = New-Object Windows.UI.Notifications.ToastNotification $t; [Windows.UI.Notifications.ToastNotificationManager]::CreateToastNotifier('BloomRepo').Show($x)",
    );
    s
}

// ---------------------------------------------------------------------------
// Messages
// ---------------------------------------------------------------------------

/// The repositories a notification is about: all of them, or only the
/// priority ones.
pub open spec fn notified(repos: Seq<RepoView>, priority_only: bool) -> Seq<RepoView>
    decreases repos.len(),
{
    if repos.len() == 0 {
        Seq::<RepoView>::empty()
    } else {
        let r = notified(repos.drop_last(), priority_only);
        if !priority_only || repos.last().is_priority {
            r.push(repos.last())
        } else {
            r
        }
    }
}

pub fn select_for_notification(repos: &Vec<RepoItem>, priority_only: bool) -> (r: Vec<RepoItem>)
    ensures
        item_views(r@) == notified(item_views(repos@), priority_only),
{
    let ghost all = item_views(repos@);
    let mut out: Vec<RepoItem> = Vec::new();
    for i in 0..repos.len()
        invariant
            all == item_views(repos@),
            item_views(out@) == notified(all.take(i as int), priority_only),
    {
        assert(all.take(i + 1).drop_last() =~= all.take(i as int));
        assert(all.take(i + 1).last() == repos@[i as int]@);
        if !priority_only || repos[i].is_priority {
            let ghost before = item_views(out@);
            out.push(repos[i].clone());
            assert(item_views(out@) =~= before.push(repos@[i as int]@));
        }
    }
    assert(all.take(repos@.len() as int) =~= all);
    out
}

/// A notification is about the given repositories only, in their order, and
/// about priority ones only when only those are wanted; with that switch off
/// it is about all of them.
pub proof fn lemma_notified(repos: Seq<RepoView>, priority_only: bool)
    ensures
        forall|k: int|
            0 <= k < notified(repos, priority_only).len() ==> repos.contains(
                #[trigger] notified(repos, priority_only)[k],
            ) && (priority_only ==> notified(repos, priority_only)[k].is_priority),
        notified(repos, priority_only).len() <= repos.len(),
        !priority_only ==> notified(repos, priority_only) == repos,
    decreases repos.len(),
{
    if repos.len() > 0 {
        let t = repos.drop_last();
        lemma_notified(t, priority_only);
        let r = notified(t, priority_only);
        assert(repos[repos.len() - 1] == repos.last());
        assert forall|k: int| 0 <= k < r.len() implies repos.contains(#[trigger] r[k]) by {
            let j = choose|j: int| 0 <= j < t.len() && t[j] == r[k];
            assert(repos[j] == t[j]);
        }
        if !priority_only {
            assert(repos =~= t.push(repos.last()));
        }
    }
}

/// With only priority repositories wanted, a notification is about exactly
/// the priority repositories, in their order: every priority repository is
/// among them. Otherwise it is about all of them.
pub proof fn lemma_notified_are_the_priority_ones(repos: Seq<RepoView>)
    ensures
        notified(repos, true) == repos.filter(|r: RepoView| r.is_priority),
        forall|i: int| 0 <= i < repos.len() && (#[trigger] repos[i]).is_priority ==> notified(repos, true).contains(
            repos[i],
        ),
        notified(repos, false) == repos,
    decreases repos.len(),
{
    reveal(Seq::filter);
    lemma_notified(repos, false);
    if repos.len() > 0 {
        let t = repos.drop_last();
        lemma_notified_are_the_priority_ones(t);
        let r = notified(t, true);
        assert(repos[repos.len() - 1] == repos.last());
        assert forall|i: int| 0 <= i < repos.len() && (#[trigger] repos[i]).is_priority implies notified(
            repos,
            true,
        ).contains(repos[i]) by {
            if i < repos.len() - 1 {
                assert(repos[i] == t[i]);
                assert(r.contains(t[i]));
                let k = choose|k: int| 0 <= k < r.len() && r[k] == t[i];
                assert(notified(repos, true)[k] == r[k]);
            } else {
                assert(notified(repos, true) == r.push(repos.last()));
                assert(notified(repos, true)[r.len() as int] == repos[i]);
            }
        }
    }
}

/// The lines of the chat message for one repository.
pub open spec fn telegram_entry(r: RepoView) -> Seq<char> {
    "- "@ + r.full_name + "\n  "@ + description_or(r, "No description"@) + "\n  "@ + r.html_url
        + "\n\n"@
}

/// The entries of the first `k` repositories.
pub open spec fn telegram_entries(repos: Seq<RepoView>, k: int) -> Seq<char>
    decreases k,
{
    if k <= 0 {
        Seq::<char>::empty()
    } else {
        telegram_entries(repos, k - 1) + telegram_entry(repos[k - 1])
    }
}

/// The chat message: the count of repositories, then an entry for each of
/// the first `max_items`.
pub open spec fn telegram_text(repos: Seq<RepoView>, max_items: usize) -> Seq<char> {
    let k = if max_items < repos.len() {
        max_items as int
    } else {
        repos.len() as int
    };
    "Discovered "@ + decimal(repos.len()) + " new GitHub repositories:\n\n"@ + telegram_entries(
        repos,
        k,
    )
}

pub fn telegram_message(repos: &Vec<RepoItem>, max_items: usize) -> (r: String)
    ensures
        r@ == telegram_text(item_views(repos@), max_items),
{
    let ghost all = item_views(repos@);
    let mut s = owned("Discovered ");
    push_all(&mut s, format_usize(repos.len()).as_str());
    push_all(&mut s, " new GitHub repositories:\n\n");
    let ghost head = s@;
    let k = if max_items < repos.len() {
        max_items
    } else {
        repos.len()
    };
    for i in 0..k
        invariant
            k <= repos@.len(),
            all == item_views(repos@),
            s@ == head + telegram_entries(all, i as int),
    {
        let r = &repos[i];
        assert(all[i as int] == r@);
        push_all(&mut s, "- ");
        push_all(&mut s, r.full_name.as_str());
        push_all(&mut s, "\n  ");
        match &r.description {
            Some(d) => push_all(&mut s, d.as_str()),
            None => push_all(&mut s, "No description"),
        }
        push_all(&mut s, "\n  ");
        push_all(&mut s, r.html_url.as_str());
        push_all(&mut s, "\n\n");
        assert(telegram_entries(all, i + 1) == telegram_entries(all, i as int) + telegram_entry(
            all[i as int],
        ));
    }
    s
}

/// The text of a Discord message.
pub fn discord_content(count: usize) -> (r: String)
    ensures
        r@ == "Discovered "@ + decimal(count as nat) + " new GitHub repositories"@,
{
    let mut s = owned("Discovered ");
    push_all(&mut s, format_usize(count).as_str());
    push_all(&mut s, " new GitHub repositories");
    s
}

/// One embed of a Discord message.
pub struct DiscordEmbed {
    pub title: String,
    pub url: String,
    pub description: String,
    pub color: u32,
    pub language: String,
    pub stars: String,
    pub discovered: String,
}

/// The embed for a repository: orange for priority, blue otherwise.
pub open spec fn embed_for(e: DiscordEmbed, r: RepoView) -> bool {
    &&& e.title@ == r.full_name
    &&& e.url@ == r.html_url
    &&& e.description@ == description_or(r, "No description provided"@)
    &&& e.color == if r.is_priority {
        0xFF5722u32
    } else {
        0x2196F3u32
    }
    &&& e.language@ == match r.language {
        Some(l) => l,
        None => "Unknown"@,
    }
    &&& e.stars@ == signed_decimal(r.stars as int)
    &&& e.discovered@ == r.discovered_at
}

/// The embeds of a Discord message: one for each of the first `max_items`.
pub fn discord_embeds(repos: &Vec<RepoItem>, max_items: usize) -> (r: Vec<DiscordEmbed>)
    ensures
        r@.len() == if max_items < repos@.len() {
            max_items as int
        } else {
            repos@.len() as int
        },
        forall|k: int| 0 <= k < r@.len() ==> embed_for(#[trigger] r@[k], repos@[k]@),
{
    let k = if max_items < repos.len() {
        max_items
    } else {
        repos.len()
    };
    let mut out: Vec<DiscordEmbed> = Vec::new();
    for i in 0..k
        invariant
            k <= repos@.len(),
            out@.len() == i,
            forall|m: int| 0 <= m < i ==> embed_for(#[trigger] out@[m], repos@[m]@),
    {
        let r = &repos[i];
        let e = DiscordEmbed {
            title: r.full_name.clone(),
            url: r.html_url.clone(),
            description: match &r.description {
                Some(d) => d.clone(),
                None => owned("No description provided"),
            },
            color: if r.is_priority {
                0xFF5722
            } else {
                0x2196F3
            },
            language: match &r.language {
                Some(l) => l.clone(),
                None => owned("Unknown"),
            },
            stars: format_i64(r.stars),
            discovered: r.discovered_at.clone(),
        };
        out.push(e);
    }
    out
}

/// A place a notification goes.
#[derive(Debug)]
pub enum NotifyChannel {
    /// A desktop toast (shown on Windows only).
    Toast,
    Discord { url: String },
    Telegram { token: String, chat_id: String },
    Webhook { url: String },
}

/// The channels in the order notifications go out: a toast when enabled,
/// Discord when its webhook is set, Telegram when both its token and chat are
/// set, and the webhook when set; each at most once.
pub open spec fn planned_channels(c: NotificationsConfig) -> Seq<NotifyChannel> {
    (if c.enable_windows_toast {
        seq![NotifyChannel::Toast]
    } else {
        Seq::<NotifyChannel>::empty()
    }) + match c.discord_webhook_url {
        Some(url) => seq![NotifyChannel::Discord { url }],
        None => Seq::<NotifyChannel>::empty(),
    } + match (c.telegram_bot_token, c.telegram_chat_id) {
        (Some(token), Some(chat_id)) => seq![NotifyChannel::Telegram { token, chat_id }],
        _ => Seq::<NotifyChannel>::empty(),
    } + match c.webhook_url {
        Some(url) => seq![NotifyChannel::Webhook { url }],
        None => Seq::<NotifyChannel>::empty(),
    }
}

pub fn channels(config: &NotificationsConfig) -> (r: Vec<NotifyChannel>)
    ensures
        r@ == planned_channels(*config),
{
    let mut out: Vec<NotifyChannel> = Vec::new();
    if config.enable_windows_toast {
        out.push(NotifyChannel::Toast);
    }
    if let Some(url) = &config.discord_webhook_url {
        out.push(NotifyChannel::Discord { url: url.clone() });
    }
    if let (Some(token), Some(chat_id)) = (&config.telegram_bot_token, &config.telegram_chat_id) {
        out.push(NotifyChannel::Telegram { token: token.clone(), chat_id: chat_id.clone() });
    }
    if let Some(url) = &config.webhook_url {
        out.push(NotifyChannel::Webhook { url: url.clone() });
    }
    out
}

/// What a notification about `repos` does: the repositories it is about
/// (see `notified`) and the channels it goes to, none when it is about no
/// repository.
pub fn notification_plan(repos: &Vec<RepoItem>, config: &NotificationsConfig) -> (r: (
    Vec<RepoItem>,
    Vec<NotifyChannel>,
))
    ensures
        item_views(r.0@) == notified(item_views(repos@), config.toast_priority_only),
        r.1@ == if r.0@.len() == 0 {
            Seq::<NotifyChannel>::empty()
        } else {
            planned_channels(*config)
        },
{
    let selected = select_for_notification(repos, config.toast_priority_only);
    if selected.len() == 0 {
        (selected, Vec::new())
    } else {
        let to = channels(config);
        (selected, to)
    }
}

/// The line reported when a channel failed.
pub fn channel_failure(channel: &NotifyChannel, error: &str) -> (r: String)
    ensures
        r@ == match channel {
            NotifyChannel::Toast => "toast: "@,
            NotifyChannel::Discord { .. } => "discord: "@,
            NotifyChannel::Telegram { .. } => "telegram: "@,
            NotifyChannel::Webhook { .. } => "webhook: "@,
        } + error@,
{
    let mut s = match channel {
        NotifyChannel::Toast => owned("toast: "),
        NotifyChannel::Discord { .. } => owned("discord: "),
        NotifyChannel::Telegram { .. } => owned("telegram: "),
        NotifyChannel::Webhook { .. } => owned("webhook: "),
    };
    push_all(&mut s, error);
    s
}

} // verus!
