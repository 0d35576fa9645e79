//! The pool of API tokens and what GitHub's rate-limit headers say of each:
//! which token to use for the next request, how the limits change after a
//! response, and how long to wait when every token is spent.
use vstd::prelude::*;
use crate::crawler::ResponseHeaders;
use crate::decimal::{parse_i64, parse_u32, parsed_i64, parsed_u32};
use crate::models::{clone_opt, opt_view};
use crate::text::{owned, push_all, string_views};

verus! {

broadcast use vstd::string::group_string_axioms;

/// The two rate-limited parts of GitHub's API.
#[derive(Debug, Clone, Copy, PartialEq, Eq, Hash, Structural)]
pub enum RateResource {
    Core,
    Search,
}

/// What is known of one token's limit for one resource.
#[derive(Debug, Clone, Copy, PartialEq, Eq, Structural)]
pub struct Bucket {
    pub remaining: u32,
    pub reset_timestamp: i64,
    pub exhausted: bool,
}

/// One token (or the anonymous client, `None`) and its two buckets.
pub struct TokenStatus {
    pub token: Option<String>,
    pub core: Bucket,
    pub search: Bucket,
}

/// The view of a token's status.
pub struct StatusView {
    pub token: Option<Seq<char>>,
    pub core: Bucket,
    pub search: Bucket,
}

impl StatusView {
    pub open spec fn bucket(self, r: RateResource) -> Bucket {
        match r {
            RateResource::Core => self.core,
            RateResource::Search => self.search,
        }
    }

    pub open spec fn with_bucket(self, r: RateResource, b: Bucket) -> StatusView {
        match r {
            RateResource::Core => StatusView { core: b, ..self },
            RateResource::Search => StatusView { search: b, ..self },
        }
    }
}

impl View for TokenStatus {
    type V = StatusView;

    open spec fn view(&self) -> StatusView {
        StatusView { token: opt_view(self.token), core: self.core, search: self.search }
    }
}

/// The view of the pool: the statuses in order, the round-robin counter and
/// the user agent sent with every request.
pub struct PoolView {
    pub statuses: Seq<StatusView>,
    pub counter: usize,
    pub user_agent: Seq<char>,
}

pub struct TokenPool {
    statuses: Vec<TokenStatus>,
    counter: usize,
    user_agent: String,
}

/// The status of a token that has not been used yet: 60 core and 10 search
/// requests, never exhausted.
pub open spec fn fresh_status(token: Option<Seq<char>>) -> StatusView {
    StatusView {
        token: token,
        core: Bucket { remaining: 60, reset_timestamp: 0, exhausted: false },
        search: Bucket { remaining: 10, reset_timestamp: 0, exhausted: false },
    }
}

/// One fresh status per token, or a single anonymous one when there is no token.
pub open spec fn initial_statuses(tokens: Seq<Seq<char>>) -> Seq<StatusView> {
    if tokens.len() == 0 {
        seq![fresh_status(None)]
    } else {
        tokens.map_values(|t: Seq<char>| fresh_status(Some(t)))
    }
}

/// The bucket may be used at time `now`: not exhausted, or past its reset.
pub open spec fn usable(b: Bucket, now: i64) -> bool {
    !b.exhausted || b.reset_timestamp <= now
}

/// The choice among `s`: the first usable bucket with the most requests left,
/// when one has any left; else `default`. Paired with the requests left.
pub open spec fn best_choice(s: Seq<StatusView>, r: RateResource, now: i64, default: int) -> (int, u32)
    decreases s.len(),
{
    if s.len() == 0 {
        (default, 0)
    } else {
        let prev = best_choice(s.drop_last(), r, now, default);
        let b = s.last().bucket(r);
        if usable(b, now) && b.remaining > prev.1 {
            ((s.len() - 1) as int, b.remaining)
        } else {
            prev
        }
    }
}

/// The token chosen for the next request: round-robin start at the counter,
/// overridden by the usable bucket with the most requests left.
pub open spec fn chosen_index(p: PoolView, r: RateResource, now: i64) -> int {
    best_choice(p.statuses, r, now, (p.counter as int) % (p.statuses.len() as int)).0
}

/// The counter after one more request.
pub open spec fn next_counter(c: usize) -> usize {
    if c == usize::MAX {
        0
    } else {
        (c + 1) as usize
    }
}

/// The first status whose token is `token`, or the number of statuses.
pub open spec fn index_of_token(s: Seq<StatusView>, token: Option<Seq<char>>) -> int
    decreases s.len(),
{
    if s.len() == 0 {
        0
    } else if s[0].token == token {
        0
    } else {
        1 + index_of_token(s.drop_first(), token)
    }
}

/// The pool after a response: when both rate-limit headers read as numbers,
/// the first status with the request's token gets the new bucket, spent when
/// one request or none is left; otherwise nothing changes.
pub open spec fn after_update(
    p: PoolView,
    token: Option<Seq<char>>,
    r: RateResource,
    remaining: Option<u32>,
    reset: Option<i64>,
) -> PoolView {
    match (remaining, reset) {
        (Some(rem), Some(rs)) => {
            let k = index_of_token(p.statuses, token);
            if k < p.statuses.len() {
                PoolView {
                    statuses: p.statuses.update(
                        k,
                        p.statuses[k].with_bucket(
                            r,
                            Bucket { remaining: rem, reset_timestamp: rs, exhausted: rem <= 1 },
                        ),
                    ),
                    ..p
                }
            } else {
                p
            }
        },
        _ => p,
    }
}

/// A bucket can serve a request now: usable and with more than one request left.
pub open spec fn available(b: Bucket, now: i64) -> bool {
    usable(b, now) && b.remaining > 1
}

pub open spec fn some_available(s: Seq<StatusView>, r: RateResource, now: i64) -> bool {
    exists|i: int| 0 <= i < s.len() && available(#[trigger] s[i].bucket(r), now)
}

/// `reset - now`, saturated to the range of `i64`.
pub open spec fn saturating_diff(reset: i64, now: i64) -> int {
    let d = reset - now;
    if d > i64::MAX {
        i64::MAX as int
    } else if d < i64::MIN {
        i64::MIN as int
    } else {
        d
    }
}

/// Seconds until the bucket resets, at least one.
pub open spec fn seconds_to_reset(b: Bucket, now: i64) -> int {
    let d = saturating_diff(b.reset_timestamp, now);
    if d < 1 {
        1
    } else {
        d
    }
}

/// The shortest wait among the statuses, and at most 60 seconds.
pub open spec fn shortest_wait(s: Seq<StatusView>, r: RateResource, now: i64) -> int
    decreases s.len(),
{
    if s.len() == 0 {
        60
    } else {
        let w = shortest_wait(s.drop_last(), r, now);
        let x = seconds_to_reset(s.last().bucket(r), now);
        if x < w {
            x
        } else {
            w
        }
    }
}

/// How long to wait before a request: none when some token is available,
/// else until the earliest reset, capped at 60 seconds.
pub open spec fn wait_needed(p: PoolView, r: RateResource, now: i64) -> Option<u64> {
    if some_available(p.statuses, r, now) {
        None
    } else {
        Some(shortest_wait(p.statuses, r, now) as u64)
    }
}

impl View for TokenPool {
    type V = PoolView;

    closed spec fn view(&self) -> PoolView {
        PoolView {
            statuses: self.statuses@.map_values(|s: TokenStatus| s@),
            counter: self.counter,
            user_agent: self.user_agent@,
        }
    }
}

impl TokenStatus {
    fn bucket_of(&self, r: RateResource) -> (b: Bucket)
        ensures
            b == self@.bucket(r),
    {
        match r {
            RateResource::Core => self.core,
            RateResource::Search => self.search,
        }
    }
}

fn fresh(token: Option<String>) -> (s: TokenStatus)
    ensures
        s@ == fresh_status(opt_view(token)),
{
    TokenStatus {
        token,
        core: Bucket { remaining: 60, reset_timestamp: 0, exhausted: false },
        search: Bucket { remaining: 10, reset_timestamp: 0, exhausted: false },
    }
}

/// The `Authorization` header value for a token.
pub fn authorization_value(token: &str) -> (r: String)
    ensures
        r@ == "Bearer "@ + token@,
{
    let mut s = owned("Bearer ");
    push_all(&mut s, token);
    s
}

impl TokenPool {
    #[verifier::type_invariant]
    spec fn has_status(self) -> bool {
        self.statuses@.len() > 0
    }

    /// A pool with one fresh status per token, or one anonymous status when
    /// no token is configured.
    pub fn new(tokens: Vec<String>, user_agent: String) -> (p: Self)
        ensures
            p@.statuses == initial_statuses(string_views(tokens@)),
            p@.counter == 0,
            p@.user_agent == user_agent@,
    {
        let mut statuses: Vec<TokenStatus> = Vec::new();
        if tokens.len() == 0 {
            statuses.push(fresh(None));
            let p = TokenPool { statuses, counter: 0, user_agent };
            assert(p@.statuses =~= initial_statuses(string_views(tokens@)));
            return p;
        }
        for i in 0..tokens.len()
            invariant
                tokens@.len() > 0,
                statuses@.len() == i,
                forall|j: int|
                    0 <= j < i ==> (#[trigger] statuses@[j])@ == fresh_status(Some(tokens@[j]@)),
        {
            statuses.push(fresh(Some(tokens[i].clone())));
        }
        let p = TokenPool { statuses, counter: 0, user_agent };
        assert(p@.statuses =~= initial_statuses(string_views(tokens@)));
        p
    }

    /// The user agent sent with every request.
    pub fn user_agent(&self) -> (r: &String)
        ensures
            r@ == self@.user_agent,
    {
        &self.user_agent
    }

    /// Picks the token for the next request on `resource` at time `now` and
    /// advances the round-robin counter. Returns the token (`None` for the
    /// anonymous client).
    pub fn select_token(&mut self, resource: RateResource, now: i64) -> (token: Option<String>)
        ensures
            final(self)@.statuses == old(self)@.statuses,
            final(self)@.user_agent == old(self)@.user_agent,
            final(self)@.counter == next_counter(old(self)@.counter),
            0 <= chosen_index(old(self)@, resource, now) < old(self)@.statuses.len(),
            opt_view(token) == old(self)@.statuses[chosen_index(old(self)@, resource, now)].token,
    {
        proof {
            use_type_invariant(&*self);
        }
        let n = self.statuses.len();
        let start = self.counter;
        self.counter = if start == usize::MAX {
            0
        } else {
            start + 1
        };
        let ghost s = self@.statuses;
        let mut best: usize = start % n;
        let mut best_remaining: u32 = 0;
        for i in 0..n
            invariant
                n == self.statuses@.len(),
                s == self@.statuses,
                best < n,
                (best as int, best_remaining) == best_choice(s.take(i as int), resource, now, (start % n) as int),
        {
            let b = self.statuses[i].bucket_of(resource);
            assert(s.take(i + 1).drop_last() =~= s.take(i as int));
            assert(s.take(i + 1).last() == self.statuses@[i as int]@);
            if (!b.exhausted || b.reset_timestamp <= now) && b.remaining > best_remaining {
                best = i;
                best_remaining = b.remaining;
            }
        }
        assert(s.take(n as int) =~= s);
        clone_opt(&self.statuses[best].token)
    }

    /// Records the rate-limit headers of a response to a request made with
    /// `token` (see `after_update`).
    pub fn update_limits(&mut self, token: Option<&str>, resource: RateResource, headers: &ResponseHeaders)
        ensures
            final(self)@ == after_update(
                old(self)@,
                crate::crawler::link_view(token),
                resource,
                match headers.ratelimit_remaining {
                    Some(v) => parsed_u32(v@),
                    None => None,
                },
                match headers.ratelimit_reset {
                    Some(v) => parsed_i64(v@),
                    None => None,
                },
            ),
    {
        proof {
            use_type_invariant(&*self);
        }
        let remaining = match &headers.ratelimit_remaining {
            Some(v) => parse_u32(v.as_str()),
            None => None,
        };
        let reset = match &headers.ratelimit_reset {
            Some(v) => parse_i64(v.as_str()),
            None => None,
        };
        let (rem, rs) = match (remaining, reset) {
            (Some(a), Some(b)) => (a, b),
            _ => {
                return;
            },
        };
        let ghost t = crate::crawler::link_view(token);
        let ghost s = self@.statuses;
        let ghost post = after_update(self@, t, resource, Some(rem), Some(rs));
        assert(Some(rem) == match headers.ratelimit_remaining {
            Some(v) => parsed_u32(v@),
            None => None,
        });
        assert(Some(rs) == match headers.ratelimit_reset {
            Some(v) => parsed_i64(v@),
            None => None,
        });
        let n = self.statuses.len();
        let mut k: usize = 0;
        assert(s.skip(0) =~= s);
        while k < n
            invariant
                n == self.statuses@.len(),
                s == self@.statuses,
                t == crate::crawler::link_view(token),
                self@ == old(self)@,
                post == after_update(self@, t, resource, Some(rem), Some(rs)),
                Some(rem) == match headers.ratelimit_remaining {
                    Some(v) => parsed_u32(v@),
                    None => None,
                },
                Some(rs) == match headers.ratelimit_reset {
                    Some(v) => parsed_i64(v@),
                    None => None,
                },
                0 <= k <= n,
                index_of_token(s, t) == k + index_of_token(s.skip(k as int), t),
            decreases n - k,
        {
            let same = match (&self.statuses[k].token, token) {
                (Some(a), Some(b)) => crate::text::same_text(a.as_str(), b),
                (None, None) => true,
                _ => false,
            };
            assert(s[k as int] == self.statuses@[k as int]@);
            assert(s.skip(k as int)[0] == s[k as int]);
            if same {
                assert(index_of_token(s, t) == k);
                let fresh_bucket = Bucket { remaining: rem, reset_timestamp: rs, exhausted: rem <= 1 };
                let ghost before = self@;
                let ghost target = before.statuses.update(
                    k as int,
                    before.statuses[k as int].with_bucket(resource, fresh_bucket),
                );
                let mut v: Vec<TokenStatus> = Vec::new();
                for j in 0..n
                    invariant
                        n == self.statuses@.len(),
                        k < n,
                        before == self@,
                        post.statuses == target,
                        target.len() == n,
                        target == before.statuses.update(
                            k as int,
                            before.statuses[k as int].with_bucket(resource, fresh_bucket),
                        ),
                        v@.len() == j,
                        forall|m: int| 0 <= m < j ==> (#[trigger] v@[m])@ == target[m],
                {
                    let cur = &self.statuses[j];
                    assert(before.statuses[j as int] == cur@);
                    let next = if j == k {
                        match resource {
                            RateResource::Core => TokenStatus {
                                token: clone_opt(&cur.token),
                                core: fresh_bucket,
                                search: cur.search,
                            },
                            RateResource::Search => TokenStatus {
                                token: clone_opt(&cur.token),
                                core: cur.core,
                                search: fresh_bucket,
                            },
                        }
                    } else {
                        TokenStatus { token: clone_opt(&cur.token), core: cur.core, search: cur.search }
                    };
                    v.push(next);
                }
                self.statuses = v;
                assert(self@.statuses =~= target);
                assert(self@ == post);
                return;
            }
            assert(s.skip(k as int).drop_first() =~= s.skip(k + 1));
            k = k + 1;
        }
        assert(s.skip(n as int) =~= Seq::<StatusView>::empty());
    }

    /// The wait in seconds before a request on `resource` at time `now`
    /// (see `wait_needed`).
    pub fn wait_if_exhausted(&self, resource: RateResource, now: i64) -> (r: Option<u64>)
        ensures
            r == wait_needed(self@, resource, now),
    {
        proof {
            use_type_invariant(self);
        }
        let ghost s = self@.statuses;
        let n = self.statuses.len();
        let mut wait: u64 = 60;
        for i in 0..n
            invariant
                n == self.statuses@.len(),
                s == self@.statuses,
                !some_available(s.take(i as int), resource, now),
                wait == shortest_wait(s.take(i as int), resource, now),
        {
            let b = self.statuses[i].bucket_of(resource);
            assert(s.take(i + 1).drop_last() =~= s.take(i as int));
            assert(s.take(i + 1).last() == self.statuses@[i as int]@);
            if (!b.exhausted || b.reset_timestamp <= now) && b.remaining > 1 {
                assert(s[i as int].bucket(resource) == b);
                return None;
            }
            let d: i64 = if now >= 0 {
                if b.reset_timestamp < i64::MIN + now {
                    i64::MIN
                } else {
                    b.reset_timestamp - now
                }
            } else {
                if b.reset_timestamp > i64::MAX + now {
                    i64::MAX
                } else {
                    b.reset_timestamp - now
                }
            };
            let x: u64 = if d < 1 {
                1
            } else {
                d as u64
            };
            if x < wait {
                wait = x;
            }
            assert(!some_available(s.take(i + 1), resource, now)) by {
                if some_available(s.take(i + 1), resource, now) {
                    let j = choose|j: int|
                        0 <= j < s.take(i + 1).len() && available(
                            #[trigger] s.take(i + 1)[j].bucket(resource),
                            now,
                        );
                    if j < i {
                        assert(s.take(i as int)[j] == s.take(i + 1)[j]);
                    }
                }
            }
        }
        assert(s.take(n as int) =~= s);
        Some(wait)
    }
}

// ---------------------------------------------------------------------------
// Laws
// ---------------------------------------------------------------------------

proof fn lemma_best_choice_keeps(s: Seq<StatusView>, r: RateResource, now: i64, default: int)
    ensures
        best_choice(s, r, now, default).0 == default || 0 <= best_choice(s, r, now, default).0
            < s.len(),
    decreases s.len(),
{
    if s.len() > 0 {
        lemma_best_choice_keeps(s.drop_last(), r, now, default);
    }
}

proof fn lemma_best_choice_is_best(s: Seq<StatusView>, r: RateResource, now: i64, default: int)
    ensures
        best_choice(s, r, now, default).1 > 0 ==> {
            let b = best_choice(s, r, now, default).0;
            &&& 0 <= b < s.len()
            &&& usable(s[b].bucket(r), now)
            &&& s[b].bucket(r).remaining == best_choice(s, r, now, default).1
        },
        forall|i: int|
            0 <= i < s.len() && usable(#[trigger] s[i].bucket(r), now) ==> s[i].bucket(r).remaining
                <= best_choice(s, r, now, default).1,
        best_choice(s, r, now, default).1 == 0 ==> best_choice(s, r, now, default).0 == default,
    decreases s.len(),
{
    if s.len() > 0 {
        let t = s.drop_last();
        lemma_best_choice_is_best(t, r, now, default);
        let prev = best_choice(t, r, now, default);
        let cur = best_choice(s, r, now, default);
        assert(cur.1 >= prev.1);
        assert forall|i: int| 0 <= i < t.len() implies #[trigger] t[i] == s[i] by {}
        assert forall|i: int|
            0 <= i < s.len() && usable(#[trigger] s[i].bucket(r), now) implies s[i].bucket(
                r,
            ).remaining <= cur.1 by {
            if i < t.len() {
                assert(t[i] == s[i]);
            }
        }
    }
}

/// The token chosen for a request is one of the pool's; when some token can
/// still be used and has requests left, the chosen one can be used and has
/// as many requests left as any usable token.
pub proof fn lemma_choice_prefers_most_remaining(p: PoolView, r: RateResource, now: i64)
    requires
        p.statuses.len() > 0,
    ensures
        0 <= chosen_index(p, r, now) < p.statuses.len(),
        (exists|i: int|
            0 <= i < p.statuses.len() && usable(#[trigger] p.statuses[i].bucket(r), now)
                && p.statuses[i].bucket(r).remaining > 0) ==> {
            let c = chosen_index(p, r, now);
            &&& usable(p.statuses[c].bucket(r), now)
            &&& forall|i: int|
                0 <= i < p.statuses.len() && usable(#[trigger] p.statuses[i].bucket(r), now)
                    ==> p.statuses[i].bucket(r).remaining <= p.statuses[c].bucket(r).remaining
        },
{
    let d = (p.counter as int) % (p.statuses.len() as int);
    lemma_best_choice_keeps(p.statuses, r, now, d);
    lemma_best_choice_is_best(p.statuses, r, now, d);
}

proof fn lemma_shortest_wait_range(s: Seq<StatusView>, r: RateResource, now: i64)
    ensures
        1 <= shortest_wait(s, r, now) <= 60,
    decreases s.len(),
{
    if s.len() > 0 {
        lemma_shortest_wait_range(s.drop_last(), r, now);
    }
}

/// A wait, when one is needed, lasts between 1 and 60 seconds.
pub proof fn lemma_wait_bounded(p: PoolView, r: RateResource, now: i64)
    ensures
        wait_needed(p, r, now) matches Some(w) ==> 1 <= w <= 60,
{
    lemma_shortest_wait_range(p.statuses, r, now);
}

proof fn lemma_single_wait(s: Seq<StatusView>, r: RateResource, now: i64)
    requires
        s.len() == 1,
    ensures
        shortest_wait(s, r, now) == if seconds_to_reset(s[0].bucket(r), now) < 60 {
            seconds_to_reset(s[0].bucket(r), now)
        } else {
            60
        },
{
    assert(s.drop_last().len() == 0);
    assert(shortest_wait(s.drop_last(), r, now) == 60);
}

/// With a single token, a response that leaves one request or none makes the
/// next request on that resource wait until the reset time the response gave
/// (at most 60 seconds, at least 1), as long as that time has not come.
pub proof fn lemma_spent_token_waits_for_reset(
    p: PoolView,
    r: RateResource,
    rem: u32,
    reset: i64,
    now: i64,
)
    requires
        p.statuses.len() == 1,
        rem <= 1,
        now < reset,
    ensures
        ({
            let q = after_update(p, p.statuses[0].token, r, Some(rem), Some(reset));
            let w = if reset - now < 60 {
                reset - now
            } else {
                60
            };
            wait_needed(q, r, now) == Some(w as u64)
        }),
{
    let q = after_update(p, p.statuses[0].token, r, Some(rem), Some(reset));
    assert(index_of_token(p.statuses, p.statuses[0].token) == 0);
    let b = Bucket { remaining: rem, reset_timestamp: reset, exhausted: rem <= 1 };
    assert(q.statuses[0].bucket(r) == b);
    assert(!some_available(q.statuses, r, now));
    lemma_single_wait(q.statuses, r, now);
}

/// Seconds from `now` to the bucket's reset, and at least one.
pub open spec fn time_to_reset(b: Bucket, now: i64) -> int {
    if b.reset_timestamp - now < 1 {
        1
    } else {
        b.reset_timestamp - now
    }
}

proof fn lemma_shortest_wait_is_least(s: Seq<StatusView>, r: RateResource, now: i64)
    ensures
        forall|i: int|
            0 <= i < s.len() ==> shortest_wait(s, r, now) <= seconds_to_reset(#[trigger] s[i].bucket(r), now),
        shortest_wait(s, r, now) == 60 || exists|i: int|
            0 <= i < s.len() && shortest_wait(s, r, now) == seconds_to_reset(s[i].bucket(r), now),
    decreases s.len(),
{
    if s.len() > 0 {
        let t = s.drop_last();
        lemma_shortest_wait_is_least(t, r, now);
        assert(s[s.len() - 1] == s.last());
        assert forall|i: int| 0 <= i < t.len() implies #[trigger] s[i] == t[i] by {}
        if shortest_wait(t, r, now) != 60 && shortest_wait(s, r, now) == shortest_wait(t, r, now) {
            let j = choose|j: int|
                0 <= j < t.len() && shortest_wait(t, r, now) == seconds_to_reset(t[j].bucket(r), now);
            assert(s[j] == t[j]);
        }
    }
}

/// When every token is spent, the wait is until the earliest reset, capped
/// at a minute: no longer than 60 seconds nor than any token's time to its
/// reset, and either the cap or one of those times.
pub proof fn lemma_wait_until_earliest_reset(p: PoolView, r: RateResource, now: i64)
    ensures
        wait_needed(p, r, now) matches Some(w) ==> {
            &&& w <= 60
            &&& forall|i: int|
                0 <= i < p.statuses.len() ==> w <= time_to_reset(#[trigger] p.statuses[i].bucket(r), now)
            &&& w == 60 || exists|i: int|
                0 <= i < p.statuses.len() && w == time_to_reset(p.statuses[i].bucket(r), now)
        },
        wait_needed(p, r, now) is None <==> exists|i: int|
            0 <= i < p.statuses.len() && {
                let b = #[trigger] p.statuses[i].bucket(r);
                (!b.exhausted || b.reset_timestamp <= now) && b.remaining > 1
            },
{
    let s = p.statuses;
    lemma_shortest_wait_range(s, r, now);
    lemma_shortest_wait_is_least(s, r, now);
    let w = shortest_wait(s, r, now);
    assert forall|i: int| 0 <= i < s.len() implies w <= time_to_reset(#[trigger] s[i].bucket(r), now) by {
        let b = s[i].bucket(r);
        assert(w <= seconds_to_reset(b, now));
    }
    if w != 60 {
        let j = choose|j: int| 0 <= j < s.len() && w == seconds_to_reset(s[j].bucket(r), now);
        assert(w == time_to_reset(s[j].bucket(r), now));
    }
    if wait_needed(p, r, now) is None {
        let i = choose|i: int| 0 <= i < s.len() && available(#[trigger] s[i].bucket(r), now);
        assert(available(s[i].bucket(r), now));
    }
}

proof fn lemma_best_choice_first(s: Seq<StatusView>, r: RateResource, now: i64, default: int)
    ensures
        best_choice(s, r, now, default).1 > 0 ==> forall|i: int|
            0 <= i < best_choice(s, r, now, default).0 && usable(#[trigger] s[i].bucket(r), now)
                ==> s[i].bucket(r).remaining < best_choice(s, r, now, default).1,
    decreases s.len(),
{
    if s.len() > 0 {
        let t = s.drop_last();
        lemma_best_choice_first(t, r, now, default);
        lemma_best_choice_is_best(t, r, now, default);
        lemma_best_choice_keeps(t, r, now, default);
        lemma_best_choice_is_best(s, r, now, default);
        let prev = best_choice(t, r, now, default);
        let cur = best_choice(s, r, now, default);
        if cur.1 > 0 {
            assert forall|i: int|
                0 <= i < cur.0 && usable(#[trigger] s[i].bucket(r), now) implies s[i].bucket(
                r,
            ).remaining < cur.1 by {
                if cur == prev {
                    assert(prev.0 < t.len());
                    assert(t[i] == s[i]);
                } else {
                    assert(t[i] == s[i]);
                    assert(t[i].bucket(r).remaining <= prev.1);
                }
            }
        }
    }
}

/// The choice of token: the first usable token with the most requests left
/// (an earlier usable token has fewer left); when no usable token has any
/// left, the round-robin turn `counter % tokens`.
pub proof fn lemma_choice_is_first_best_or_round_robin(p: PoolView, r: RateResource, now: i64)
    requires
        p.statuses.len() > 0,
    ensures
        (exists|i: int|
            0 <= i < p.statuses.len() && usable(#[trigger] p.statuses[i].bucket(r), now)
                && p.statuses[i].bucket(r).remaining > 0) ==> forall|i: int|
            0 <= i < chosen_index(p, r, now) && usable(#[trigger] p.statuses[i].bucket(r), now)
                ==> p.statuses[i].bucket(r).remaining < p.statuses[chosen_index(
                p,
                r,
                now,
            )].bucket(r).remaining,
        !(exists|i: int|
            0 <= i < p.statuses.len() && usable(#[trigger] p.statuses[i].bucket(r), now)
                && p.statuses[i].bucket(r).remaining > 0) ==> chosen_index(p, r, now) == (
        p.counter as int) % (p.statuses.len() as int),
{
    let d = (p.counter as int) % (p.statuses.len() as int);
    lemma_best_choice_is_best(p.statuses, r, now, d);
    lemma_best_choice_first(p.statuses, r, now, d);
    let b = best_choice(p.statuses, r, now, d);
    if b.1 > 0 {
        assert(usable(p.statuses[b.0].bucket(r), now) && p.statuses[b.0].bucket(r).remaining > 0);
    }
    if exists|i: int|
        0 <= i < p.statuses.len() && usable(#[trigger] p.statuses[i].bucket(r), now)
            && p.statuses[i].bucket(r).remaining > 0 {
        let i = choose|i: int|
            0 <= i < p.statuses.len() && usable(#[trigger] p.statuses[i].bucket(r), now)
                && p.statuses[i].bucket(r).remaining > 0;
        assert(p.statuses[i].bucket(r).remaining <= b.1);
    }
}

proof fn lemma_index_of_token(s: Seq<StatusView>, token: Option<Seq<char>>)
    ensures
        0 <= index_of_token(s, token) <= s.len(),
        forall|j: int| 0 <= j < index_of_token(s, token) ==> (#[trigger] s[j]).token != token,
        index_of_token(s, token) < s.len() ==> s[index_of_token(s, token)].token == token,
    decreases s.len(),
{
    if s.len() > 0 && s[0].token != token {
        lemma_index_of_token(s.drop_first(), token);
        assert forall|j: int| 0 <= j < index_of_token(s, token) implies (#[trigger] s[j]).token != token by {
            if j > 0 {
                assert(s[j] == s.drop_first()[j - 1]);
            }
        }
    }
}

/// A response's limits go to one token only: with both headers read, the
/// first status holding the request's token gets the new bucket for the
/// resource (spent when one request or none is left) and keeps its token and
/// other bucket; every other status, the counter and the user agent stay.
/// Without both headers, or without such a token, nothing changes.
pub proof fn lemma_update_touches_one_token(
    p: PoolView,
    token: Option<Seq<char>>,
    r: RateResource,
    remaining: Option<u32>,
    reset: Option<i64>,
)
    ensures
        after_update(p, token, r, remaining, reset).counter == p.counter,
        after_update(p, token, r, remaining, reset).user_agent == p.user_agent,
        after_update(p, token, r, remaining, reset).statuses.len() == p.statuses.len(),
        (remaining is None || reset is None) ==> after_update(p, token, r, remaining, reset) == p,
        (forall|j: int| 0 <= j < p.statuses.len() ==> (#[trigger] p.statuses[j]).token != token)
            ==> after_update(p, token, r, remaining, reset) == p,
        forall|i: int|
            0 <= i < p.statuses.len() ==> {
                let q = #[trigger] after_update(p, token, r, remaining, reset).statuses[i];
                if remaining is Some && reset is Some && p.statuses[i].token == token && forall|j: int|
                    0 <= j < i ==> p.statuses[j].token != token {
                    &&& q.token == p.statuses[i].token
                    &&& q.bucket(r) == (Bucket {
                        remaining: remaining->0,
                        reset_timestamp: reset->0,
                        exhausted: remaining->0 <= 1,
                    })
                    &&& q.bucket(other_resource(r)) == p.statuses[i].bucket(other_resource(r))
                } else {
                    q == p.statuses[i]
                }
            },
{
    lemma_index_of_token(p.statuses, token);
    let k = index_of_token(p.statuses, token);
    if k < p.statuses.len() {
        assert(p.statuses[k].token == token);
    }
    assert forall|i: int| 0 <= i < p.statuses.len() && p.statuses[i].token == token implies i >= k by {
        if i < k {
            assert(p.statuses[i].token != token);
        }
    }
    assert forall|i: int|
        0 <= i < p.statuses.len() && p.statuses[i].token == token && (forall|j: int|
            0 <= j < i ==> p.statuses[j].token != token) implies i == k by {
        if k < i {
            assert(p.statuses[k].token != token);
        }
    }
}

/// The other of the two resources.
pub open spec fn other_resource(r: RateResource) -> RateResource {
    match r {
        RateResource::Core => RateResource::Search,
        RateResource::Search => RateResource::Core,
    }
}

} // verus!
