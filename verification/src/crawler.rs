//! What the crawler decides around each request to GitHub's REST API: the
//! URLs it asks for, how it reads a response's status and headers, and how
//! repository-creation events become repository records.
use vstd::prelude::*;
use vstd::utf8::encode_utf8;
use crate::clock::{clock_text, now_text};
use crate::decimal::{format_i64, parse_u64, parsed_u64, signed_decimal};
use crate::models::{opt_view, clone_opt, GithubEventRaw, GithubRepositoryRaw, GithubSearchResponse, RepoItem, RepoView};
use crate::text::{
    chars_of, owned, push_all, push_char, same_chars, same_text, split_chars, split_on,
    split_once, split_once_at, string_from, strip_chars, strip_leading, strip_trailing,
    trim, trim_chars, vec_views, Delim,
};

verus! {

broadcast use vstd::string::group_string_axioms;

/// Why a request to GitHub failed.
#[derive(Debug)]
pub enum CrawlerError {
    /// The request could not be made or its body could not be read.
    Http(String),
    /// GitHub refused for rate limits; retry after this many seconds.
    RateLimited(u64),
    /// The body was not the JSON expected.
    Json(String),
    /// GitHub answered with another non-success status.
    Api { status: u16, body: String },
}

/// One page of results and what the response said about the next request.
pub struct Page<T> {
    pub items: Vec<T>,
    pub next_url: Option<String>,
    pub etag: Option<String>,
    pub poll_interval: Option<u64>,
}

/// The response headers that the crawler reads, each as its text when it is
/// present and readable as text.
pub struct ResponseHeaders {
    /// `Link`
    pub link: Option<String>,
    /// `ETag`
    pub etag: Option<String>,
    /// `Retry-After`
    pub retry_after: Option<String>,
    /// `X-Poll-Interval`
    pub poll_interval: Option<String>,
    /// `X-RateLimit-Remaining`
    pub ratelimit_remaining: Option<String>,
    /// `X-RateLimit-Reset`
    pub ratelimit_reset: Option<String>,
}

// ---------------------------------------------------------------------------
// URLs
// ---------------------------------------------------------------------------

/// The bytes that a query keeps as they are.
pub open spec fn url_unreserved(b: u8) -> bool {
    ||| 97 <= b <= 122
    ||| 65 <= b <= 90
    ||| 48 <= b <= 57
    ||| b == 45
    ||| b == 95
    ||| b == 46
    ||| b == 126
    ||| b == 58
    ||| b == 62
    ||| b == 60
}

/// The uppercase hexadecimal digit of `n` (`0 <= n < 16`).
pub open spec fn hex_digit(n: int) -> char {
    if n < 10 {
        (48 + n) as char
    } else {
        (55 + n) as char
    }
}

/// How one byte of a query is written: kept, `+` for a space, else `%XX`.
pub open spec fn encode_byte(b: u8) -> Seq<char> {
    if url_unreserved(b) {
        seq![b as char]
    } else if b == 32 {
        seq!['+']
    } else {
        seq!['%', hex_digit((b / 16) as int), hex_digit((b % 16) as int)]
    }
}

/// The encoding of a byte string, byte by byte.
pub open spec fn url_encoded(bs: Seq<u8>) -> Seq<char>
    decreases bs.len(),
{
    if bs.len() == 0 {
        Seq::<char>::empty()
    } else {
        url_encoded(bs.drop_last()) + encode_byte(bs.last())
    }
}

/// The number a hexadecimal digit stands for (`0` for any other char).
pub open spec fn hex_value(c: char) -> int {
    if '0' <= c <= '9' {
        c as int - 48
    } else if 'A' <= c <= 'F' {
        c as int - 55
    } else if 'a' <= c <= 'f' {
        c as int - 87
    } else {
        0
    }
}

/// Form decoding of query text: `+` is a space, `%XX` the byte `XX`, and
/// any other char its own code as a byte.
pub open spec fn form_decoded(s: Seq<char>) -> Seq<u8>
    decreases s.len(),
{
    if s.len() == 0 {
        Seq::<u8>::empty()
    } else if s[0] == '+' {
        seq![32u8] + form_decoded(s.skip(1))
    } else if s[0] == '%' && s.len() >= 3 {
        seq![(hex_value(s[1]) * 16 + hex_value(s[2])) as u8] + form_decoded(s.skip(3))
    } else {
        seq![s[0] as u8] + form_decoded(s.skip(1))
    }
}

proof fn lemma_byte_decodes(b: u8, rest: Seq<char>)
    ensures
        form_decoded(encode_byte(b) + rest) == seq![b] + form_decoded(rest),
{
    let e = encode_byte(b);
    if url_unreserved(b) {
        assert((e + rest).skip(1) =~= rest);
    } else if b == 32 {
        assert((e + rest).skip(1) =~= rest);
    } else {
        let hi = (b / 16) as int;
        let lo = (b % 16) as int;
        assert(hex_value(hex_digit(hi)) == hi);
        assert(hex_value(hex_digit(lo)) == lo);
        assert(hi * 16 + lo == b);
        assert((e + rest).skip(3) =~= rest);
    }
}

proof fn lemma_url_decodes_prefix(bs: Seq<u8>, rest: Seq<char>)
    ensures
        form_decoded(url_encoded(bs) + rest) == bs + form_decoded(rest),
    decreases bs.len(),
{
    if bs.len() == 0 {
        assert(url_encoded(bs) + rest =~= rest);
        assert(bs + form_decoded(rest) =~= form_decoded(rest));
    } else {
        let a = bs.drop_last();
        let b = bs.last();
        lemma_byte_decodes(b, rest);
        lemma_url_decodes_prefix(a, encode_byte(b) + rest);
        assert(url_encoded(bs) + rest =~= url_encoded(a) + (encode_byte(b) + rest));
        assert(a + (seq![b] + form_decoded(rest)) =~= bs + form_decoded(rest));
    }
}

/// Form decoding gives back the bytes that were encoded, so no two byte
/// strings share an encoding.
pub proof fn lemma_url_encoding_decodes(bs: Seq<u8>)
    ensures
        form_decoded(url_encoded(bs)) == bs,
{
    lemma_url_decodes_prefix(bs, Seq::<char>::empty());
    assert(url_encoded(bs) + Seq::<char>::empty() =~= url_encoded(bs));
    assert(bs + form_decoded(Seq::<char>::empty()) =~= bs);
}

fn hex_char(n: u8) -> (c: char)
    requires
        n < 16,
    ensures
        c == hex_digit(n as int),
{
    if n < 10 {
        (48 + n) as char
    } else {
        (55 + n) as char
    }
}

/// The query text encoded for a URL, byte by byte of its UTF-8 form.
pub fn url_encode(value: &str) -> (r: String)
    ensures
        r@ == url_encoded(encode_utf8(value@)),
{
    let bytes = value.as_bytes();
    let mut out = String::new();
    for i in 0..bytes.len()
        invariant
            bytes@ == encode_utf8(value@),
            out@ == url_encoded(bytes@.take(i as int)),
    {
        let b = bytes[i];
        assert(bytes@.take(i + 1).drop_last() =~= bytes@.take(i as int));
        if (97 <= b && b <= 122) || (65 <= b && b <= 90) || (48 <= b && b <= 57) || b == 45 || b
            == 95 || b == 46 || b == 126 || b == 58 || b == 62 || b == 60 {
            push_char(&mut out, b as char);
        } else if b == 32 {
            push_char(&mut out, '+');
        } else {
            push_char(&mut out, '%');
            push_char(&mut out, hex_char(b / 16));
            push_char(&mut out, hex_char(b % 16));
        }
        assert(out@ =~= url_encoded(bytes@.take(i as int)) + encode_byte(b));
    }
    assert(bytes@.take(bytes@.len() as int) =~= bytes@);
    out
}

/// The first page of the repository listing after the id `since`.
pub fn repositories_url(since: i64) -> (r: String)
    ensures
        r@ == "https://api.github.com/repositories?since="@ + signed_decimal(since as int)
            + "&per_page=100"@,
{
    let mut url = owned("https://api.github.com/repositories?since=");
    let n = format_i64(since);
    push_all(&mut url, n.as_str());
    push_all(&mut url, "&per_page=100");
    url
}

/// The search for the newest repositories matching `query`.
pub fn search_url(query: &str) -> (r: String)
    ensures
        r@ == "https://api.github.com/search/repositories?q="@ + url_encoded(encode_utf8(query@))
            + "&sort=created&order=desc&per_page=100"@,
{
    let mut url = owned("https://api.github.com/search/repositories?q=");
    let q = url_encode(query);
    push_all(&mut url, q.as_str());
    push_all(&mut url, "&sort=created&order=desc&per_page=100");
    url
}

/// The public events feed.
pub fn events_url() -> (r: String)
    ensures
        r@ == "https://api.github.com/events?per_page=100"@,
{
    owned("https://api.github.com/events?per_page=100")
}

/// The search that yields the single newest repository.
pub fn latest_repo_url() -> (r: String)
    ensures
        r@
            == "https://api.github.com/search/repositories?q=stars:%3E=0&sort=created&order=desc&per_page=1"@,
{
    owned(
        "https://api.github.com/search/repositories?q=stars:%3E=0&sort=created&order=desc&per_page=1",
    )
}

// ---------------------------------------------------------------------------
// Headers
// ---------------------------------------------------------------------------

/// The part of a `Link` entry before its parameters, without angle brackets.
pub open spec fn link_target(part: Seq<char>) -> Seq<char> {
    let pieces = split_on(trim(part), Delim::Semicolon);
    strip_trailing(strip_leading(trim(pieces[0]), '<'), '>')
}

/// One of the entry's parameters is `rel="next"`.
pub open spec fn is_next_link(part: Seq<char>) -> bool {
    let pieces = split_on(trim(part), Delim::Semicolon);
    exists|j: int| 1 <= j < pieces.len() && trim(#[trigger] pieces[j]) == "rel=\"next\""@
}

/// The target of the first entry marked `rel="next"`.
pub open spec fn first_next(parts: Seq<Seq<char>>) -> Option<Seq<char>>
    decreases parts.len(),
{
    if parts.len() == 0 {
        None
    } else if is_next_link(parts[0]) {
        Some(link_target(parts[0]))
    } else {
        first_next(parts.drop_first())
    }
}

/// The URL of the next page that a `Link` header names, if any.
pub open spec fn next_link(link: Option<Seq<char>>) -> Option<Seq<char>> {
    match link {
        Some(l) => first_next(split_on(l, Delim::Comma)),
        None => None,
    }
}

fn link_entry(part: &[char]) -> (r: Option<Vec<char>>)
    ensures
        match r {
            Some(t) => is_next_link(part@) && t@ == link_target(part@),
            None => !is_next_link(part@),
        },
{
    let t = trim_chars(part);
    let pieces = split_chars(t.as_slice(), Delim::Semicolon);
    proof {
        crate::text::lemma_split_nonempty(t@, Delim::Semicolon);
    }
    let rel: Vec<char> = chars_of("rel=\"next\"");
    let mut is_next = false;
    for j in 1..pieces.len()
        invariant
            vec_views(pieces@) == split_on(trim(part@), Delim::Semicolon),
            rel@ == "rel=\"next\""@,
            is_next == exists|m: int|
                1 <= m < j && trim(#[trigger] split_on(trim(part@), Delim::Semicolon)[m])
                    == "rel=\"next\""@,
    {
        let p = trim_chars(pieces[j].as_slice());
        let same = same_chars(p.as_slice(), rel.as_slice());
        assert(split_on(trim(part@), Delim::Semicolon)[j as int] == pieces@[j as int]@);
        is_next = is_next || same;
    }
    if !is_next {
        return None;
    }
    let first = trim_chars(pieces[0].as_slice());
    assert(split_on(trim(part@), Delim::Semicolon)[0] == pieces@[0]@);
    Some(strip_chars(first.as_slice(), '<', '>'))
}

/// The URL of the next page, from the text of a `Link` header.
pub fn parse_next_link(link: Option<&str>) -> (r: Option<String>)
    ensures
        match r {
            Some(u) => next_link(link_view(link)) == Some(u@),
            None => next_link(link_view(link)) is None,
        },
{
    let l = match link {
        Some(l) => l,
        None => {
            return None;
        },
    };
    let cs = chars_of(l);
    let parts = split_chars(cs.as_slice(), Delim::Comma);
    let ghost all = vec_views(parts@);
    assert(all.skip(0) =~= all);
    for i in 0..parts.len()
        invariant
            all == vec_views(parts@),
            all == split_on(l@, Delim::Comma),
            link == Some(l),
            first_next(all) == first_next(all.skip(i as int)),
    {
        assert(all.skip(i as int)[0] == parts@[i as int]@);
        assert(all.skip(i as int).drop_first() =~= all.skip(i + 1));
        if let Some(t) = link_entry(parts[i].as_slice()) {
            assert(first_next(all.skip(i as int)) == Some(link_target(parts@[i as int]@)));
            assert(link_view(link) == Some(l@));
            return Some(string_from(t.as_slice()));
        }
    }
    assert(all.skip(all.len() as int) =~= Seq::<Seq<char>>::empty());
    None
}

/// The number that a header's text gives, if it has one.
pub open spec fn header_u64(value: Option<String>) -> Option<u64> {
    match value {
        Some(v) => parsed_u64(v@),
        None => None,
    }
}

/// The number that a header's text gives, if it has one.
pub fn parse_header_u64(value: &Option<String>) -> (r: Option<u64>)
    ensures
        r == header_u64(*value),
{
    match value {
        Some(v) => parse_u64(v.as_str()),
        None => None,
    }
}

/// The wait in seconds that a rate-limited response asks for: its
/// `Retry-After` value, else `fallback`, clamped to 1..=900.
pub open spec fn retry_wait(retry_after: Option<String>, fallback: u64) -> u64 {
    let w = match header_u64(retry_after) {
        Some(v) => v,
        None => fallback,
    };
    if w < 1 {
        1
    } else if w > 900 {
        900
    } else {
        w
    }
}

pub fn retry_seconds(headers: &ResponseHeaders, fallback: u64) -> (r: u64)
    ensures
        r == retry_wait(headers.retry_after, fallback),
        1 <= r <= 900,
{
    let w = match parse_header_u64(&headers.retry_after) {
        Some(v) => v,
        None => fallback,
    };
    if w < 1 {
        1
    } else if w > 900 {
        900
    } else {
        w
    }
}

// ---------------------------------------------------------------------------
// Responses
// ---------------------------------------------------------------------------

/// What a response's status tells the crawler to do next.
#[derive(Debug, PartialEq, Eq)]
pub enum ResponseStep {
    /// 304: the events feed has not changed since the given ETag.
    NotModified,
    /// 403 or 429: stop and wait this many seconds.
    RateLimited(u64),
    /// Another non-2xx status: read the body and report it.
    Failed,
    /// 2xx: read and decode the body.
    Succeeded,
}

/// The step for a response with this status. `not_modified_allowed` is set
/// for conditional requests, where 304 means "unchanged".
pub open spec fn step_for(status: u16, not_modified_allowed: bool, headers: ResponseHeaders) -> ResponseStep {
    if not_modified_allowed && status == 304 {
        ResponseStep::NotModified
    } else if status == 403 || status == 429 {
        ResponseStep::RateLimited(retry_wait(headers.retry_after, 60))
    } else if 200 <= status <= 299 {
        ResponseStep::Succeeded
    } else {
        ResponseStep::Failed
    }
}

pub fn response_step(status: u16, not_modified_allowed: bool, headers: &ResponseHeaders) -> (r:
    ResponseStep)
    ensures
        r == step_for(status, not_modified_allowed, *headers),
{
    if not_modified_allowed && status == 304 {
        ResponseStep::NotModified
    } else if status == 403 || status == 429 {
        ResponseStep::RateLimited(retry_seconds(headers, 60))
    } else if 200 <= status && status <= 299 {
        ResponseStep::Succeeded
    } else {
        ResponseStep::Failed
    }
}

/// A page of the repository listing: its `Link` header gives the next URL.
pub fn repositories_page(items: Vec<GithubRepositoryRaw>, headers: &ResponseHeaders) -> (p: Page<
    GithubRepositoryRaw,
>)
    ensures
        p.items == items,
        opt_view(p.next_url) == next_link(opt_view(headers.link)),
        p.etag == headers.etag,
        p.poll_interval is None,
{
    let next = match &headers.link {
        Some(l) => parse_next_link(Some(l.as_str())),
        None => None,
    };
    Page { items, next_url: next, etag: clone_opt(&headers.etag), poll_interval: None }
}

/// A page of search results.
pub fn search_page(result: GithubSearchResponse, headers: &ResponseHeaders) -> (p: Page<
    GithubRepositoryRaw,
>)
    ensures
        p.items == result.items,
        p.next_url is None,
        p.etag == headers.etag,
        p.poll_interval is None,
{
    Page { items: result.items, next_url: None, etag: clone_opt(&headers.etag), poll_interval: None }
}

/// The id of the first (newest) search result.
pub fn latest_repo_id(result: &GithubSearchResponse) -> (r: Option<i64>)
    ensures
        r == if result.items@.len() > 0 {
            Some(result.items@[0].id)
        } else {
            None
        },
{
    if result.items.len() > 0 {
        Some(result.items[0].id)
    } else {
        None
    }
}

/// The events feed has not changed: no items, the same ETag, and the poll
/// interval GitHub asks for.
pub fn unchanged_events_page(etag: Option<&str>, headers: &ResponseHeaders) -> (p: Page<RepoItem>)
    ensures
        p.items@.len() == 0,
        p.next_url is None,
        opt_view(p.etag) == link_view(etag),
        p.poll_interval == header_u64(headers.poll_interval),
{
    let e = match etag {
        Some(t) => Some(owned(t)),
        None => None,
    };
    Page {
        items: Vec::new(),
        next_url: None,
        etag: e,
        poll_interval: parse_header_u64(&headers.poll_interval),
    }
}

/// The view of an optional string slice.
pub open spec fn link_view(s: Option<&str>) -> Option<Seq<char>> {
    match s {
        Some(v) => Some(v@),
        None => None,
    }
}

// ---------------------------------------------------------------------------
// Events
// ---------------------------------------------------------------------------

/// The event reports that a repository was created.
pub open spec fn is_repo_creation(e: GithubEventRaw) -> bool {
    &&& e.payload is Some
    &&& e.event_type@ == "CreateEvent"@
    &&& opt_view(e.payload->0.ref_type) == Some("repository"@)
}

/// The owner and the name in `owner/name`; a name without a slash has the
/// owner `unknown` and is its own name.
pub open spec fn owner_and_name(full_name: Seq<char>, fallback_name: Seq<char>) -> (Seq<char>, Seq<char>) {
    match split_once(full_name, '/') {
        Some((a, b)) => (a, b),
        None => ("unknown"@, fallback_name),
    }
}

/// The record made from a repository-creation event, found at `discovered_at`.
pub open spec fn event_item(e: GithubEventRaw, discovered_at: Seq<char>) -> RepoView {
    let full = e.repo.name@;
    let (owner, name) = owner_and_name(full, full);
    RepoView {
        id: e.repo.id,
        name: name,
        full_name: full,
        owner: owner,
        owner_type: None,
        html_url: "https://github.com/"@ + full,
        description: opt_view(e.payload->0.description),
        fork: false,
        stars: 0,
        forks_count: 0,
        language: None,
        license: None,
        topics: Seq::<Seq<char>>::empty(),
        created_at: opt_view(e.created_at),
        discovered_at: discovered_at,
        is_priority: false,
    }
}

/// Splits `owner/name`, falling back to `unknown` and `fallback`.
pub fn split_owner(full_name: &str, fallback: &String) -> (r: (String, String))
    ensures
        (r.0@, r.1@) == owner_and_name(full_name@, fallback@),
{
    match split_once_at(full_name, '/') {
        Some((a, b)) => (a, b),
        None => (owned("unknown"), fallback.clone()),
    }
}

/// The record for a repository-creation event, found at `discovered_at`;
/// `None` for any other event.
pub fn event_to_repo_at(event: &GithubEventRaw, discovered_at: String) -> (r: Option<RepoItem>)
    ensures
        match r {
            Some(item) => is_repo_creation(*event) && item@ == event_item(*event, discovered_at@),
            None => !is_repo_creation(*event),
        },
{
    let payload = match &event.payload {
        Some(p) => p,
        None => {
            return None;
        },
    };
    if !same_text(event.event_type.as_str(), "CreateEvent") {
        return None;
    }
    let is_repo = match &payload.ref_type {
        Some(t) => same_text(t.as_str(), "repository"),
        None => false,
    };
    if !is_repo {
        return None;
    }
    let full_name = event.repo.name.clone();
    let (owner, name) = split_owner(full_name.as_str(), &full_name);
    let mut html_url = owned("https://github.com/");
    push_all(&mut html_url, full_name.as_str());
    let item = RepoItem {
        id: event.repo.id,
        name,
        full_name,
        owner,
        owner_type: None,
        html_url,
        description: clone_opt(&payload.description),
        fork: false,
        stars: 0,
        forks_count: 0,
        language: None,
        license: None,
        topics: Vec::new(),
        created_at: clone_opt(&event.created_at),
        discovered_at,
        is_priority: false,
    };
    assert(item@.topics =~= Seq::<Seq<char>>::empty());
    Some(item)
}

/// The record for a repository-creation event, stamped with the current time.
pub fn event_to_repo(event: &GithubEventRaw) -> (r: Option<RepoItem>)
    ensures
        match r {
            Some(item) => is_repo_creation(*event) && item@ == event_item(
                *event,
                item.discovered_at@,
            ) && clock_text(item.discovered_at@),
            None => !is_repo_creation(*event),
        },
{
    event_to_repo_at(event, now_text())
}

/// The repository-creation events among `events`, in order.
pub open spec fn creation_events(events: Seq<GithubEventRaw>) -> Seq<GithubEventRaw>
    decreases events.len(),
{
    if events.len() == 0 {
        Seq::<GithubEventRaw>::empty()
    } else {
        let r = creation_events(events.drop_last());
        if is_repo_creation(events.last()) {
            r.push(events.last())
        } else {
            r
        }
    }
}

/// A page of the events feed: one record per repository-creation event, in
/// order, and the ETag and poll interval that the response gave.
pub fn events_page(events: Vec<GithubEventRaw>, headers: &ResponseHeaders) -> (p: Page<RepoItem>)
    ensures
        p.items@.len() == creation_events(events@).len(),
        forall|k: int|
            0 <= k < p.items@.len() ==> (#[trigger] p.items@[k])@ == event_item(
                creation_events(events@)[k],
                p.items@[k].discovered_at@,
            ),
        forall|k: int| 0 <= k < p.items@.len() ==> clock_text(#[trigger] p.items@[k].discovered_at@),
        p.next_url is None,
        p.etag == headers.etag,
        p.poll_interval == header_u64(headers.poll_interval),
{
    let mut items: Vec<RepoItem> = Vec::new();
    for i in 0..events.len()
        invariant
            items@.len() == creation_events(events@.take(i as int)).len(),
            forall|k: int|
                0 <= k < items@.len() ==> (#[trigger] items@[k])@ == event_item(
                    creation_events(events@.take(i as int))[k],
                    items@[k].discovered_at@,
                ),
            forall|k: int| 0 <= k < items@.len() ==> clock_text(#[trigger] items@[k].discovered_at@),
    {
        assert(events@.take(i + 1).drop_last() =~= events@.take(i as int));
        assert(events@.take(i + 1).last() == events@[i as int]);
        match event_to_repo(&events[i]) {
            Some(item) => {
                items.push(item);
            },
            None => {},
        }
    }
    assert(events@.take(events@.len() as int) =~= events@);
    Page {
        items,
        next_url: None,
        etag: clone_opt(&headers.etag),
        poll_interval: parse_header_u64(&headers.poll_interval),
    }
}

/// A record made from a creation event holds what the event says: the
/// repository's id and full name, its GitHub page, the event's description
/// and time; it is no fork, has no stars, forks, language, licence or
/// topics yet, and is not marked priority.
pub proof fn lemma_event_item_fields(e: GithubEventRaw, discovered_at: Seq<char>)
    ensures
        event_item(e, discovered_at).id == e.repo.id,
        event_item(e, discovered_at).full_name == e.repo.name@,
        event_item(e, discovered_at).html_url == "https://github.com/"@ + e.repo.name@,
        event_item(e, discovered_at).description == opt_view(e.payload->0.description),
        event_item(e, discovered_at).created_at == opt_view(e.created_at),
        !event_item(e, discovered_at).fork,
        event_item(e, discovered_at).stars == 0,
        event_item(e, discovered_at).forks_count == 0,
        event_item(e, discovered_at).language is None,
        event_item(e, discovered_at).license is None,
        event_item(e, discovered_at).topics.len() == 0,
        event_item(e, discovered_at).discovered_at == discovered_at,
        !event_item(e, discovered_at).is_priority,
{
}

/// The events a page takes are exactly the repository creations, in order.
pub proof fn lemma_creation_events_filter(events: Seq<GithubEventRaw>)
    ensures
        creation_events(events) == events.filter(|e: GithubEventRaw| is_repo_creation(e)),
    decreases events.len(),
{
    reveal(Seq::filter);
    if events.len() > 0 {
        lemma_creation_events_filter(events.drop_last());
    }
}

/// A wait that GitHub asks for is kept within 1 and 900 seconds: the
/// `Retry-After` number when it is one within that range, the nearer bound
/// when it lies outside, and the fallback (so bounded) when there is no number.
pub proof fn lemma_retry_wait_bounded(retry_after: Option<String>, fallback: u64)
    ensures
        1 <= retry_wait(retry_after, fallback) <= 900,
        header_u64(retry_after) matches Some(v) ==> (1 <= v <= 900 ==> retry_wait(retry_after, fallback) == v),
        header_u64(retry_after) is None && 1 <= fallback <= 900 ==> retry_wait(retry_after, fallback)
            == fallback,
{
}

} // verus!
