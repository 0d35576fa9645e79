//! The decisions of one crawl cycle: how raw results become records, how the
//! candidates of all streams are merged and filtered, which of them are new,
//! and how the cursors of the streams move.
use vstd::prelude::*;
use std::collections::HashSet;
use crate::clock::{clock_text, last_chrono_second, now_moment, now_text, rfc3339_moment, rfc3339_of, rfc3339_to_search_stamp, search_stamp, utc_stamp, utc_stamp_of};
use crate::crawler::{owner_and_name, repositories_url, split_owner, CrawlerError, Page};
use crate::decimal::{decimal, format_i64, format_u64, signed_decimal};
use crate::config::FilteringConfig;
use crate::filter::{marked, rejected_as_spam, RepoFilter};
use crate::models::{clone_opt, clone_strings, item_ids, item_views, opt_view, GithubRepositoryRaw, RepoItem, RepoView};
use crate::state::AppState;
use crate::text::{owned, push_all, string_views};

verus! {

broadcast use vstd::string::group_string_axioms, vstd::std_specs::hash::group_hash_axioms,
    vstd::seq_lib::group_to_multiset_ensures;

/// What one crawl cycle produced.
pub struct CycleResult {
    pub cycle: u64,
    pub items: Vec<RepoItem>,
    pub spam_count: usize,
    pub priority_count: usize,
    pub duration_ms: u128,
    pub db_total: usize,
    pub status: String,
}

// ---------------------------------------------------------------------------
// Raw results
// ---------------------------------------------------------------------------

/// The license of a raw result: its SPDX id, else its name.
pub open spec fn raw_license(raw: GithubRepositoryRaw) -> Option<Seq<char>> {
    match raw.license {
        Some(l) => match l.spdx_id {
            Some(id) => Some(id@),
            None => opt_view(l.name),
        },
        None => None,
    }
}

/// The owner's account type of a raw result, when it has an owner.
pub open spec fn raw_owner_type(raw: GithubRepositoryRaw) -> Option<Seq<char>> {
    match raw.owner {
        Some(o) => opt_view(o.owner_type),
        None => None,
    }
}

/// The record made from a raw result, found at `discovered_at`.
pub open spec fn raw_item(raw: GithubRepositoryRaw, discovered_at: Seq<char>) -> RepoView {
    let (owner, name) = owner_and_name(raw.full_name@, raw.name@);
    RepoView {
        id: raw.id,
        name: name,
        full_name: raw.full_name@,
        owner: owner,
        owner_type: raw_owner_type(raw),
        html_url: raw.html_url@,
        description: opt_view(raw.description),
        fork: raw.fork,
        stars: raw.stargazers_count,
        forks_count: raw.forks_count,
        language: opt_view(raw.language),
        license: raw_license(raw),
        topics: string_views(raw.topics@),
        created_at: opt_view(raw.created_at),
        discovered_at: discovered_at,
        is_priority: false,
    }
}

/// The record for a raw result, found at `discovered_at`.
pub fn raw_to_item_at(raw: &GithubRepositoryRaw, discovered_at: String) -> (r: RepoItem)
    ensures
        r@ == raw_item(*raw, discovered_at@),
{
    let (owner, name) = split_owner(raw.full_name.as_str(), &raw.name);
    let license = match &raw.license {
        Some(l) => match &l.spdx_id {
            Some(id) => Some(id.clone()),
            None => clone_opt(&l.name),
        },
        None => None,
    };
    let owner_type = match &raw.owner {
        Some(o) => clone_opt(&o.owner_type),
        None => None,
    };
    RepoItem {
        id: raw.id,
        name,
        full_name: raw.full_name.clone(),
        owner,
        owner_type,
        html_url: raw.html_url.clone(),
        description: clone_opt(&raw.description),
        fork: raw.fork,
        stars: raw.stargazers_count,
        forks_count: raw.forks_count,
        language: clone_opt(&raw.language),
        license,
        topics: clone_strings(&raw.topics),
        created_at: clone_opt(&raw.created_at),
        discovered_at,
        is_priority: false,
    }
}

/// The record for a raw result, stamped with the current time.
pub fn raw_to_item(raw: &GithubRepositoryRaw) -> (r: RepoItem)
    ensures
        r@ == raw_item(*raw, r.discovered_at@),
        clock_text(r.discovered_at@),
{
    raw_to_item_at(raw, now_text())
}

// ---------------------------------------------------------------------------
// Merging the streams
// ---------------------------------------------------------------------------

pub open spec fn raw_ids(raw: Seq<GithubRepositoryRaw>) -> Seq<i64> {
    raw.map_values(|r: GithubRepositoryRaw| r.id)
}

/// The ids of all candidates: the raw results first, then the event records.
pub open spec fn candidate_ids(raw: Seq<GithubRepositoryRaw>, events: Seq<RepoItem>) -> Seq<i64> {
    raw_ids(raw) + item_ids(events)
}

/// The positions in `ids` of the first occurrence of each id, in order.
pub open spec fn first_occurrences(ids: Seq<i64>) -> Seq<int>
    decreases ids.len(),
{
    if ids.len() == 0 {
        Seq::<int>::empty()
    } else {
        let r = first_occurrences(ids.drop_last());
        if ids.drop_last().contains(ids.last()) {
            r
        } else {
            r.push(ids.len() - 1)
        }
    }
}

/// `out` holds one record per distinct candidate id, for its first
/// candidate, in candidate order: a raw result is converted, an event record
/// kept as it is.
pub open spec fn merged_from(
    raw: Seq<GithubRepositoryRaw>,
    events: Seq<RepoItem>,
    out: Seq<RepoItem>,
) -> bool {
    let pos = first_occurrences(candidate_ids(raw, events));
    &&& out.len() == pos.len()
    &&& forall|k: int|
        0 <= k < out.len() ==> if pos[k] < raw.len() {
            (#[trigger] out[k])@ == raw_item(raw[pos[k]], out[k].discovered_at@) && clock_text(
                out[k].discovered_at@,
            )
        } else {
            out[k]@ == events[pos[k] - raw.len()]@
        }
}

/// Merges the raw results and the event records, dropping every record
/// whose id came earlier.
pub fn merge_candidates(raw: &Vec<GithubRepositoryRaw>, events: &Vec<RepoItem>) -> (out: Vec<
    RepoItem,
>)
    ensures
        merged_from(raw@, events@, out@),
{
    let ghost ids = candidate_ids(raw@, events@);
    let n = raw.len();
    let mut seen: HashSet<i64> = HashSet::new();
    let mut out: Vec<RepoItem> = Vec::new();
    assert(ids.take(0) =~= Seq::<i64>::empty());
    for i in 0..n
        invariant
            n == raw@.len(),
            ids == candidate_ids(raw@, events@),
            forall|x: i64| seen@.contains(x) <==> ids.take(i as int).contains(x),
            out@.len() == first_occurrences(ids.take(i as int)).len(),
            forall|k: int|
                0 <= k < out@.len() ==> {
                    let p = first_occurrences(ids.take(i as int))[k];
                    &&& 0 <= p < i
                    &&& (#[trigger] out@[k])@ == raw_item(raw@[p], out@[k].discovered_at@)
                    &&& clock_text(out@[k].discovered_at@)
                },
    {
        let id = raw[i].id;
        assert(ids[i as int] == id);
        assert(ids.take(i + 1).drop_last() =~= ids.take(i as int));
        assert(ids.take(i + 1).last() == id);
        let ghost before = first_occurrences(ids.take(i as int));
        if seen.insert(id) {
            out.push(raw_to_item(&raw[i]));
            assert(first_occurrences(ids.take(i + 1)) == before.push(i as int));
        }
        assert forall|x: i64| seen@.contains(x) <==> ids.take(i + 1).contains(x) by {
            if ids.take(i as int).contains(x) {
                let j = choose|j: int| 0 <= j < i && #[trigger] ids.take(i as int)[j] == x;
                assert(ids.take(i + 1)[j] == x);
            }
            if ids.take(i + 1).contains(x) && x != id {
                let j = choose|j: int| 0 <= j < i + 1 && #[trigger] ids.take(i + 1)[j] == x;
                assert(ids.take(i as int)[j] == x);
            }
        }
    }
    let m = events.len();
    for j in 0..m
        invariant
            n == raw@.len(),
            m == events@.len(),
            ids == candidate_ids(raw@, events@),
            ids.len() == n + m,
            forall|x: i64| seen@.contains(x) <==> ids.take(n + j).contains(x),
            out@.len() == first_occurrences(ids.take(n + j)).len(),
            forall|k: int|
                0 <= k < out@.len() ==> {
                    let p = first_occurrences(ids.take(n + j))[k];
                    &&& 0 <= p < n + j
                    &&& if p < n {
                        (#[trigger] out@[k])@ == raw_item(raw@[p], out@[k].discovered_at@)
                            && clock_text(out@[k].discovered_at@)
                    } else {
                        out@[k]@ == events@[p - n]@
                    }
                },
    {
        let id = events[j].id;
        let ghost i: int = n + j;
        assert(ids[i] == id);
        assert(ids.take(i + 1).drop_last() =~= ids.take(i));
        assert(ids.take(i + 1).last() == id);
        let ghost before = first_occurrences(ids.take(i));
        if seen.insert(id) {
            out.push(events[j].clone());
            assert(first_occurrences(ids.take(i + 1)) == before.push(i));
        }
        assert forall|x: i64| seen@.contains(x) <==> ids.take(i + 1).contains(x) by {
            if ids.take(i).contains(x) {
                let w = choose|w: int| 0 <= w < i && #[trigger] ids.take(i)[w] == x;
                assert(ids.take(i + 1)[w] == x);
            }
            if ids.take(i + 1).contains(x) && x != id {
                let w = choose|w: int| 0 <= w < i + 1 && #[trigger] ids.take(i + 1)[w] == x;
                assert(ids.take(i)[w] == x);
            }
        }
    }
    assert(ids.take(n + m) =~= ids);
    out
}

proof fn lemma_first_occurrences(ids: Seq<i64>)
    ensures
        forall|k: int|
            0 <= k < first_occurrences(ids).len() ==> 0 <= #[trigger] first_occurrences(ids)[k]
                < ids.len(),
        forall|k: int, l: int|
            0 <= k < l < first_occurrences(ids).len() ==> ids[first_occurrences(ids)[k]]
                != ids[first_occurrences(ids)[l]],
        forall|x: i64|
            ids.contains(x) ==> exists|k: int|
                0 <= k < first_occurrences(ids).len() && ids[#[trigger] first_occurrences(
                    ids,
                )[k]] == x,
    decreases ids.len(),
{
    if ids.len() > 0 {
        let t = ids.drop_last();
        lemma_first_occurrences(t);
        let r = first_occurrences(t);
        assert forall|k: int| 0 <= k < r.len() implies #[trigger] ids[r[k]] == t[r[k]] by {}
        assert forall|x: i64| ids.contains(x) implies exists|k: int|
            0 <= k < first_occurrences(ids).len() && ids[#[trigger] first_occurrences(ids)[k]]
                == x by {
            let j = choose|j: int| 0 <= j < ids.len() && #[trigger] ids[j] == x;
            if j < ids.len() - 1 {
                assert(t[j] == x);
                assert(t.contains(x));
                let k = choose|k: int| 0 <= k < r.len() && t[#[trigger] r[k]] == x;
                assert(first_occurrences(ids)[k] == r[k]);
            } else if t.contains(x) {
                let k = choose|k: int| 0 <= k < r.len() && t[#[trigger] r[k]] == x;
                assert(first_occurrences(ids)[k] == r[k]);
            } else {
                assert(first_occurrences(ids)[r.len() as int] == ids.len() - 1);
            }
        }
        if !t.contains(ids.last()) {
            assert forall|k: int| 0 <= k < r.len() implies ids[r[k]] != ids.last() by {
                assert(t[r[k]] == ids[r[k]]);
            }
        }
    }
}

/// The merged candidates have distinct ids, and every candidate id is among them.
pub proof fn lemma_merged_ids_distinct(
    raw: Seq<GithubRepositoryRaw>,
    events: Seq<RepoItem>,
    out: Seq<RepoItem>,
)
    requires
        merged_from(raw, events, out),
    ensures
        forall|k: int, l: int| 0 <= k < l < out.len() ==> out[k].id != out[l].id,
        forall|x: i64|
            candidate_ids(raw, events).contains(x) ==> exists|k: int|
                0 <= k < out.len() && (#[trigger] out[k]).id == x,
{
    let ids = candidate_ids(raw, events);
    let pos = first_occurrences(ids);
    lemma_first_occurrences(ids);
    assert forall|k: int| 0 <= k < out.len() implies (#[trigger] out[k]).id == ids[pos[k]] by {
        if pos[k] < raw.len() {
            assert(ids[pos[k]] == raw[pos[k]].id);
        } else {
            assert(ids[pos[k]] == events[pos[k] - raw.len()].id);
        }
    }
    assert forall|x: i64| ids.contains(x) implies exists|k: int|
        0 <= k < out.len() && (#[trigger] out[k]).id == x by {
        let k = choose|k: int| 0 <= k < pos.len() && ids[#[trigger] pos[k]] == x;
        assert(out[k].id == x);
    }
}

// ---------------------------------------------------------------------------
// Filtering
// ---------------------------------------------------------------------------

/// The candidates that the filter keeps, as processing leaves them, in order.
pub open spec fn kept_items(f: RepoFilter, items: Seq<RepoView>) -> Seq<RepoView>
    decreases items.len(),
{
    if items.len() == 0 {
        Seq::<RepoView>::empty()
    } else {
        let r = kept_items(f, items.drop_last());
        if rejected_as_spam(f.config(), f.patterns(), items.last()) {
            r
        } else {
            r.push(marked(f.config(), items.last()))
        }
    }
}

/// How many candidates the filter drops as spam.
pub open spec fn spam_total(f: RepoFilter, items: Seq<RepoView>) -> nat
    decreases items.len(),
{
    if items.len() == 0 {
        0
    } else {
        spam_total(f, items.drop_last()) + if rejected_as_spam(
            f.config(),
            f.patterns(),
            items.last(),
        ) {
            1nat
        } else {
            0nat
        }
    }
}

/// How many of the items are marked as priority.
pub open spec fn priority_total(items: Seq<RepoView>) -> nat
    decreases items.len(),
{
    if items.len() == 0 {
        0
    } else {
        priority_total(items.drop_last()) + if items.last().is_priority {
            1nat
        } else {
            0nat
        }
    }
}

/// The items are in ascending order of id.
pub open spec fn sorted_by_id(s: Seq<RepoView>) -> bool {
    forall|i: int, j: int| 0 <= i < j < s.len() ==> s[i].id <= s[j].id
}

/// The outcome of filtering the candidates.
pub struct Triage {
    /// The kept candidates in ascending order of id.
    pub accepted: Vec<RepoItem>,
    pub spam_count: usize,
    pub priority_count: usize,
}

/// The items of `s` with id `x`, in their order in `s`.
pub open spec fn with_id(s: Seq<RepoView>, x: i64) -> Seq<RepoView>
    decreases s.len(),
{
    if s.len() == 0 {
        Seq::<RepoView>::empty()
    } else if s.last().id == x {
        with_id(s.drop_last(), x).push(s.last())
    } else {
        with_id(s.drop_last(), x)
    }
}

proof fn lemma_with_id_insert(s: Seq<RepoView>, p: int, e: RepoView, x: i64)
    requires
        0 <= p <= s.len(),
        forall|q: int| p <= q < s.len() ==> #[trigger] s[q].id > e.id,
    ensures
        with_id(s.insert(p, e), x) == if e.id == x {
            with_id(s, x).push(e)
        } else {
            with_id(s, x)
        },
    decreases s.len(),
{
    if p == s.len() {
        assert(s.insert(p, e) =~= s.push(e));
        assert(s.push(e).drop_last() =~= s);
    } else {
        let t = s.drop_last();
        assert forall|q: int| p <= q < t.len() implies #[trigger] t[q].id > e.id by {
            assert(t[q] == s[q]);
        }
        lemma_with_id_insert(t, p, e, x);
        assert(s[s.len() - 1] == s.last());
        assert(s.insert(p, e) =~= t.insert(p, e).push(s.last()));
        assert(s.insert(p, e).drop_last() =~= t.insert(p, e));
    }
}

/// The items in ascending order of id; items with equal ids keep their order.
pub fn sort_by_id(items: &Vec<RepoItem>) -> (r: Vec<RepoItem>)
    ensures
        item_views(r@).to_multiset() == item_views(items@).to_multiset(),
        sorted_by_id(item_views(r@)),
        forall|x: i64| #[trigger] with_id(item_views(r@), x) == with_id(item_views(items@), x),
{
    let mut out: Vec<RepoItem> = Vec::new();
    for i in 0..items.len()
        invariant
            item_views(out@).to_multiset() == item_views(items@.take(i as int)).to_multiset(),
            sorted_by_id(item_views(out@)),
            forall|x: i64|
                #[trigger] with_id(item_views(out@), x) == with_id(
                    item_views(items@.take(i as int)),
                    x,
                ),
    {
        let x = items[i].clone();
        let mut p: usize = 0;
        while p < out.len() && out[p].id <= x.id
            invariant
                p <= out@.len(),
                forall|q: int| 0 <= q < p ==> out@[q].id <= x.id,
            decreases out@.len() - p,
        {
            p = p + 1;
        }
        let ghost old_views = item_views(out@);
        assert(forall|q: int| 0 <= q < old_views.len() ==> #[trigger] old_views[q].id == out@[q].id);
        out.insert(p, x);
        assert(item_views(out@) =~= old_views.insert(p as int, x@));
        assert(item_views(items@.take(i + 1)) =~= item_views(items@.take(i as int)).push(
            items@[i as int]@,
        ));
        assert forall|x_id: i64| #[trigger] with_id(item_views(out@), x_id) == with_id(
            item_views(items@.take(i + 1)),
            x_id,
        ) by {
            assert forall|q: int| p <= q < old_views.len() implies #[trigger] old_views[q].id
                > x@.id by {
                if p < old_views.len() {
                    assert(old_views[p as int].id > x.id);
                    assert(old_views[p as int].id <= old_views[q].id);
                }
            }
            lemma_with_id_insert(old_views, p as int, x@, x_id);
            let pre = item_views(items@.take(i as int));
            assert(item_views(items@.take(i + 1)).drop_last() =~= pre);
        }
        assert(sorted_by_id(item_views(out@))) by {
            let v = item_views(out@);
            assert forall|a: int, b: int| 0 <= a < b < v.len() implies v[a].id <= v[b].id by {
                if p < old_views.len() {
                    assert(old_views[p as int].id > x.id);
                }
                if a < p && b > p {
                    assert(v[a] == old_views[a]);
                    assert(v[b] == old_views[b - 1]);
                } else if a < p && b == p {
                    assert(v[a] == old_views[a]);
                } else if a == p {
                    assert(v[b] == old_views[b - 1]);
                    assert(old_views[p as int].id <= old_views[b - 1].id);
                } else if a > p {
                    assert(v[a] == old_views[a - 1]);
                    assert(v[b] == old_views[b - 1]);
                } else {
                    assert(v[a] == old_views[a]);
                    assert(v[b] == old_views[b]);
                }
            }
        }
    }
    assert(items@.take(items@.len() as int) =~= items@);
    out
}

proof fn lemma_priority_total_bound(items: Seq<RepoView>)
    ensures
        priority_total(items) <= items.len(),
    decreases items.len(),
{
    if items.len() > 0 {
        lemma_priority_total_bound(items.drop_last());
    }
}

proof fn lemma_kept_len(f: RepoFilter, items: Seq<RepoView>)
    ensures
        kept_items(f, items).len() + spam_total(f, items) == items.len(),
    decreases items.len(),
{
    if items.len() > 0 {
        lemma_kept_len(f, items.drop_last());
    }
}

/// Runs every candidate through the filter: the kept ones, sorted by id,
/// and the numbers of dropped and of priority items.
pub fn triage(filter: &RepoFilter, candidates: &Vec<RepoItem>) -> (t: Triage)
    ensures
        item_views(t.accepted@).to_multiset() == kept_items(
            *filter,
            item_views(candidates@),
        ).to_multiset(),
        sorted_by_id(item_views(t.accepted@)),
        forall|x: i64|
            #[trigger] with_id(item_views(t.accepted@), x) == with_id(
                kept_items(*filter, item_views(candidates@)),
                x,
            ),
        t.spam_count == spam_total(*filter, item_views(candidates@)),
        t.priority_count == priority_total(kept_items(*filter, item_views(candidates@))),
        t.accepted@.len() + t.spam_count == candidates@.len(),
{
    let ghost all = item_views(candidates@);
    let mut kept: Vec<RepoItem> = Vec::new();
    let mut spam: usize = 0;
    let mut priority: usize = 0;
    for i in 0..candidates.len()
        invariant
            all == item_views(candidates@),
            item_views(kept@) == kept_items(*filter, all.take(i as int)),
            spam == spam_total(*filter, all.take(i as int)),
            priority == priority_total(kept_items(*filter, all.take(i as int))),
            kept@.len() + spam == i,
            priority <= kept@.len(),
    {
        assert(all.take(i + 1).drop_last() =~= all.take(i as int));
        assert(all.take(i + 1).last() == candidates@[i as int]@);
        let mut item = candidates[i].clone();
        if filter.process(&mut item) {
            let ghost before = item_views(kept@);
            if item.is_priority {
                priority = priority + 1;
            }
            kept.push(item);
            assert(item_views(kept@) =~= before.push(kept@.last()@));
            assert(item_views(kept@).drop_last() =~= before);
        } else {
            spam = spam + 1;
        }
    }
    assert(all.take(candidates@.len() as int) =~= all);
    let accepted = sort_by_id(&kept);
    proof {
        lemma_kept_len(*filter, all);
        vstd::seq_lib::to_multiset_len(item_views(accepted@));
        vstd::seq_lib::to_multiset_len(item_views(kept@));
    }
    Triage { accepted, spam_count: spam, priority_count: priority }
}

/// Every kept candidate is counted once: kept plus dropped is all of them,
/// and no more are marked priority than are kept.
pub proof fn lemma_triage_counts(f: RepoFilter, items: Seq<RepoView>)
    ensures
        kept_items(f, items).len() + spam_total(f, items) == items.len(),
        priority_total(kept_items(f, items)) <= kept_items(f, items).len(),
{
    lemma_kept_len(f, items);
    lemma_priority_total_bound(kept_items(f, items));
}

// ---------------------------------------------------------------------------
// New items
// ---------------------------------------------------------------------------

/// The items whose ids are not stored yet, in order.
pub open spec fn fresh_items(items: Seq<RepoView>, stored: Set<i64>) -> Seq<RepoView>
    decreases items.len(),
{
    if items.len() == 0 {
        Seq::<RepoView>::empty()
    } else {
        let r = fresh_items(items.drop_last(), stored);
        if stored.contains(items.last().id) {
            r
        } else {
            r.push(items.last())
        }
    }
}

/// The accepted items that were not stored before this cycle; stored ones
/// are enriched in the database but not reported again.
pub fn select_new(accepted: &Vec<RepoItem>, existing: &HashSet<i64>) -> (r: Vec<RepoItem>)
    ensures
        item_views(r@) == fresh_items(item_views(accepted@), existing@),
{
    let ghost all = item_views(accepted@);
    let mut out: Vec<RepoItem> = Vec::new();
    for i in 0..accepted.len()
        invariant
            all == item_views(accepted@),
            item_views(out@) == fresh_items(all.take(i as int), existing@),
    {
        assert(all.take(i + 1).drop_last() =~= all.take(i as int));
        assert(all.take(i + 1).last() == accepted@[i as int]@);
        let id = accepted[i].id;
        if !existing.contains(&id) {
            let ghost before = item_views(out@);
            out.push(accepted[i].clone());
            assert(item_views(out@) =~= before.push(accepted@[i as int]@));
        }
    }
    assert(all.take(accepted@.len() as int) =~= all);
    out
}

/// What is reported as new holds nothing that was stored before, and nothing
/// that was not accepted.
pub proof fn lemma_fresh_items_sound(items: Seq<RepoView>, stored: Set<i64>)
    ensures
        forall|k: int|
            0 <= k < fresh_items(items, stored).len() ==> !stored.contains(
                (#[trigger] fresh_items(items, stored)[k]).id,
            ) && items.contains(fresh_items(items, stored)[k]),
        fresh_items(items, stored).len() <= items.len(),
    decreases items.len(),
{
    if items.len() > 0 {
        let t = items.drop_last();
        lemma_fresh_items_sound(t, stored);
        assert forall|k: int| 0 <= k < fresh_items(t, stored).len() implies items.contains(
            #[trigger] fresh_items(t, stored)[k],
        ) by {
            let j = choose|j: int| 0 <= j < t.len() && #[trigger] t[j] == fresh_items(t, stored)[k];
            assert(items[j] == t[j]);
        }
        assert(items[items.len() - 1] == items.last());
    }
}

/// No two items share an id.
pub open spec fn distinct_ids(s: Seq<RepoView>) -> bool {
    forall|k: int, l: int| 0 <= k < l < s.len() ==> s[k].id != s[l].id
}

proof fn lemma_kept_ids(f: RepoFilter, items: Seq<RepoView>)
    ensures
        forall|k: int|
            0 <= k < kept_items(f, items).len() ==> exists|j: int|
                0 <= j < items.len() && (#[trigger] items[j]).id == (#[trigger] kept_items(
                    f,
                    items,
                )[k]).id,
        distinct_ids(items) ==> distinct_ids(kept_items(f, items)),
    decreases items.len(),
{
    if items.len() > 0 {
        let t = items.drop_last();
        lemma_kept_ids(f, t);
        let r = kept_items(f, t);
        assert forall|k: int| 0 <= k < r.len() implies exists|j: int|
            0 <= j < items.len() && (#[trigger] items[j]).id == (#[trigger] r[k]).id by {
            let j = choose|j: int| #![auto] 0 <= j < t.len() && t[j].id == r[k].id;
            assert(items[j] == t[j]);
        }
        assert(marked(f.config(), items.last()).id == items.last().id);
        assert(items[items.len() - 1] == items.last());
        if distinct_ids(items) {
            assert forall|k: int, l: int| 0 <= k < l < t.len() implies t[k].id != t[l].id by {
                assert(t[k] == items[k] && t[l] == items[l]);
            }
            assert forall|k: int| 0 <= k < r.len() implies r[k].id != items.last().id by {
                let j = choose|j: int| #![auto] 0 <= j < t.len() && t[j].id == r[k].id;
                assert(items[j] == t[j]);
            }
        }
    }
}

proof fn lemma_fresh_ids(items: Seq<RepoView>, stored: Set<i64>)
    requires
        distinct_ids(items),
    ensures
        distinct_ids(fresh_items(items, stored)),
    decreases items.len(),
{
    if items.len() > 0 {
        let t = items.drop_last();
        assert forall|k: int, l: int| 0 <= k < l < t.len() implies t[k].id != t[l].id by {
            assert(t[k] == items[k] && t[l] == items[l]);
        }
        lemma_fresh_ids(t, stored);
        lemma_fresh_items_sound(t, stored);
        let r = fresh_items(t, stored);
        assert(items[items.len() - 1] == items.last());
        assert forall|k: int| 0 <= k < r.len() implies r[k].id != items.last().id by {
            assert(t.contains(r[k]));
            let j = choose|j: int| 0 <= j < t.len() && t[j] == r[k];
            assert(items[j] == t[j]);
        }
    }
}

/// A cycle reports each repository at most once: the new items drawn from
/// the kept part of the merged candidates have distinct ids.
pub proof fn lemma_cycle_reports_once(
    f: RepoFilter,
    raw: Seq<GithubRepositoryRaw>,
    events: Seq<RepoItem>,
    candidates: Seq<RepoItem>,
    accepted: Seq<RepoView>,
    stored: Set<i64>,
)
    requires
        merged_from(raw, events, candidates),
        accepted.to_multiset() == kept_items(f, item_views(candidates)).to_multiset(),
    ensures
        distinct_ids(fresh_items(accepted, stored)),
{
    lemma_merged_ids_distinct(raw, events, candidates);
    let views = item_views(candidates);
    assert forall|k: int, l: int| 0 <= k < l < views.len() implies views[k].id != views[l].id by {
        assert(views[k].id == candidates[k].id && views[l].id == candidates[l].id);
    }
    lemma_kept_ids(f, views);
    let kept = kept_items(f, views);
    assert(kept.no_duplicates());
    kept.lemma_multiset_has_no_duplicates();
    accepted.lemma_multiset_has_no_duplicates_conv();
    assert forall|k: int, l: int| 0 <= k < l < accepted.len() implies accepted[k].id
        != accepted[l].id by {
        if accepted[k] != accepted[l] {
            assert(accepted.contains(accepted[k]));
            assert(accepted.contains(accepted[l]));
            assert(accepted.to_multiset().count(accepted[k]) > 0);
            assert(accepted.to_multiset().count(accepted[l]) > 0);
            assert(kept.contains(accepted[k]));
            assert(kept.contains(accepted[l]));
            let i = choose|i: int| 0 <= i < kept.len() && kept[i] == accepted[k];
            let j = choose|j: int| 0 <= j < kept.len() && kept[j] == accepted[l];
            assert(i != j);
        }
    }
    lemma_fresh_ids(accepted, stored);
}

// ---------------------------------------------------------------------------
// Cursors
// ---------------------------------------------------------------------------

/// The largest id, when there is one.
pub open spec fn max_id(ids: Seq<i64>) -> Option<i64>
    decreases ids.len(),
{
    if ids.len() == 0 {
        None
    } else {
        match max_id(ids.drop_last()) {
            Some(m) => Some(
                if ids.last() > m {
                    ids.last()
                } else {
                    m
                },
            ),
            None => Some(ids.last()),
        }
    }
}

fn largest_id(ids: &Vec<i64>) -> (r: Option<i64>)
    ensures
        r == max_id(ids@),
{
    let mut best: Option<i64> = None;
    for i in 0..ids.len()
        invariant
            best == max_id(ids@.take(i as int)),
    {
        assert(ids@.take(i + 1).drop_last() =~= ids@.take(i as int));
        let x = ids[i];
        best = match best {
            Some(m) => Some(
                if x > m {
                    x
                } else {
                    m
                },
            ),
            None => Some(x),
        };
    }
    assert(ids@.take(ids@.len() as int) =~= ids@);
    best
}

/// The sequential cursor after a cycle whose sequential stream did not set
/// it: the largest raw id, else the largest event id, else unchanged.
pub open spec fn cursor_after(since: i64, raw: Seq<i64>, events: Seq<i64>) -> i64 {
    if since != 0 {
        since
    } else {
        match max_id(raw) {
            Some(m) => m,
            None => match max_id(events) {
                Some(m) => m,
                None => since,
            },
        }
    }
}

pub fn cursor_from_candidates(
    since: i64,
    raw: &Vec<GithubRepositoryRaw>,
    events: &Vec<RepoItem>,
) -> (r: i64)
    ensures
        r == cursor_after(since, raw_ids(raw@), item_ids(events@)),
{
    if since != 0 {
        return since;
    }
    let mut a: Vec<i64> = Vec::new();
    for i in 0..raw.len()
        invariant
            a@ == raw_ids(raw@).take(i as int),
    {
        a.push(raw[i].id);
        assert(a@ =~= raw_ids(raw@).take(i + 1));
    }
    let mut b: Vec<i64> = Vec::new();
    for i in 0..events.len()
        invariant
            b@ == item_ids(events@).take(i as int),
    {
        b.push(events[i].id);
        assert(b@ =~= item_ids(events@).take(i + 1));
    }
    assert(a@ =~= raw_ids(raw@));
    assert(b@ =~= item_ids(events@));
    match largest_id(&a) {
        Some(m) => m,
        None => match largest_id(&b) {
            Some(m) => m,
            None => since,
        },
    }
}

/// What the cycle does about an unset sequential cursor.
#[derive(Debug, PartialEq, Eq)]
pub enum CursorAnchor {
    /// The cursor is set, or the sequential stream is off.
    Keep,
    /// Start after the largest stored id.
    FromDatabase(i64),
    /// Ask GitHub for the newest repository id.
    FromGithub,
}

pub fn anchor_cursor(since: i64, sequential_enabled: bool, stored_max: i64) -> (r: CursorAnchor)
    ensures
        r == if since != 0 || !sequential_enabled {
            CursorAnchor::Keep
        } else if stored_max > 0 {
            CursorAnchor::FromDatabase(stored_max)
        } else {
            CursorAnchor::FromGithub
        },
{
    if since != 0 || !sequential_enabled {
        CursorAnchor::Keep
    } else if stored_max > 0 {
        CursorAnchor::FromDatabase(stored_max)
    } else {
        CursorAnchor::FromGithub
    }
}

/// The search stream is due when its interval has passed since the last search.
pub fn search_is_due(now: i64, last_search_at: i64, interval_seconds: u64) -> (r: bool)
    requires
        i64::MIN <= now - last_search_at <= i64::MAX,
    ensures
        r == (now - last_search_at >= interval_seconds as i64),
{
    now - last_search_at >= interval_seconds as i64
}

/// The stamp of the instant `secs` (see `utc_stamp`), or nothing where chrono
/// has no such instant.
pub open spec fn stamp_text(secs: i64) -> Seq<char> {
    match utc_stamp(secs) {
        Some(stamp) => stamp,
        None => Seq::<char>::empty(),
    }
}

/// The query for repositories created after the search watermark; when the
/// watermark is not RFC 3339 the lookback window before now is used instead:
/// the stamp of the instant `lookback_hours` before a reading of the clock
/// (left out where chrono cannot shift the reading by the lookback). The
/// lookback is within the hours that a chrono time delta holds.
pub fn search_query(watermark: &str, lookback_hours: i64) -> (r: String)
    requires
        -2_562_047_788_015 <= lookback_hours <= 2_562_047_788_015,
    ensures
        match search_stamp(watermark@) {
            Some(stamp) => r@ == "created:>"@ + stamp,
            None => exists|at: i64|
                0 <= at + 3600 * lookback_hours <= last_chrono_second() && r@ == "created:>"@
                    + #[trigger] stamp_text(at),
        },
{
    let mut q = owned("created:>");
    proof {
        reveal_strlit("created:>");
    }
    match rfc3339_to_search_stamp(watermark) {
        Some(stamp) => push_all(&mut q, stamp.as_str()),
        None => {
            let (now, _) = now_moment();
            let at = now - 3600 * lookback_hours;
            if let Some(stamp) = utc_stamp_of(at) {
                push_all(&mut q, stamp.as_str());
            }
            assert(q@ == "created:>"@ + stamp_text(at));
        },
    }
    q
}

/// The RFC 3339 text of the instant `secs`, `nanos`, or `kept` where chrono
/// has no such instant.
pub open spec fn moment_text(secs: i64, nanos: u32, kept: Seq<char>) -> Seq<char> {
    match rfc3339_moment(secs, nanos) {
        Some(text) => text,
        None => kept,
    }
}

/// A reading of the clock: seconds since the epoch up to the last second
/// chrono can hold, and nanoseconds below one second.
pub open spec fn clock_reading(secs: int, nanos: u32) -> bool {
    0 <= secs <= last_chrono_second() && nanos < 1_000_000_000
}

/// The state the engine starts from: when no search has run yet, the search
/// watermark moves to the lookback window before now, written as RFC 3339
/// (where chrono cannot shift the clock's reading by the lookback, the
/// watermark stays). The lookback is within the hours that a chrono time
/// delta holds.
pub fn initial_state(state: AppState, lookback_hours: i64) -> (s: AppState)
    requires
        -2_562_047_788_015 <= lookback_hours <= 2_562_047_788_015,
    ensures
        state.last_search_at != 0 ==> s == state,
        state.last_search_at == 0 ==> s == (AppState { search_watermark: s.search_watermark, ..state }),
        state.last_search_at == 0 ==> exists|at: i64, nanos: u32|
            clock_reading(at + 3600 * lookback_hours, nanos) && s.search_watermark@
                == #[trigger] moment_text(at, nanos, state.search_watermark@),
{
    let mut s = state;
    if s.last_search_at == 0 {
        let (now, nanos) = now_moment();
        let at = now - 3600 * lookback_hours;
        if let Some(watermark) = rfc3339_of(at, nanos) {
            s.search_watermark = watermark;
        }
        assert(s.search_watermark@ == moment_text(at, nanos, state.search_watermark@));
    }
    s
}

/// The RFC 3339 text of the instant two minutes before `secs`, `nanos`.
pub open spec fn two_minutes_before(secs: i64, nanos: u32) -> Option<Seq<char>> {
    rfc3339_moment((secs - 120) as i64, nanos)
}

/// After a successful search: the search time moves to now (seconds since
/// the epoch), and the watermark to two minutes before that same reading of
/// the clock, written as RFC 3339. Nothing else changes.
pub fn record_search(state: &mut AppState)
    ensures
        *final(state) == (AppState {
            search_watermark: final(state).search_watermark,
            last_search_at: final(state).last_search_at,
            ..*old(state)
        }),
        exists|nanos: u32|
            clock_reading(final(state).last_search_at as int, nanos) && #[trigger] two_minutes_before(
                final(state).last_search_at,
                nanos,
            ) == Some(final(state).search_watermark@),
{
    let (now, nanos) = now_moment();
    if let Some(watermark) = rfc3339_of(now - 120, nanos) {
        state.search_watermark = watermark;
    }
    state.last_search_at = now;
    assert(two_minutes_before(state.last_search_at, nanos) == Some(state.search_watermark@));
}

/// After the events feed answered: its ETag is kept for the next request
/// and the poll time is now, a reading of the clock in seconds since the epoch.
pub fn record_events(state: &mut AppState, etag: Option<String>)
    ensures
        *final(state) == (AppState {
            events_etag: etag,
            last_events_at: final(state).last_events_at,
            ..*old(state)
        }),
        0 <= final(state).last_events_at <= last_chrono_second(),
{
    state.events_etag = etag;
    let (now, _) = now_moment();
    state.last_events_at = now;
}

/// The end of a cycle: the check time is now, written as RFC 3339.
pub fn record_check(state: &mut AppState)
    ensures
        *final(state) == (AppState { checked: final(state).checked, ..*old(state) }),
        exists|secs: i64, nanos: u32|
            clock_reading(secs as int, nanos) && #[trigger] rfc3339_moment(secs, nanos) == Some(
                final(state).checked@,
            ),
{
    let (now, nanos) = now_moment();
    if let Some(checked) = rfc3339_of(now, nanos) {
        state.checked = checked;
    }
    assert(rfc3339_moment(now, nanos) == Some(state.checked@));
}

// ---------------------------------------------------------------------------
// The sequential stream
// ---------------------------------------------------------------------------

/// A walk through the repository listing within one cycle.
pub struct SequentialScan {
    /// The page to fetch next.
    pub url: String,
    /// The largest id seen, starting from the cursor.
    pub max_id: i64,
    pub pages: usize,
    pub reached_end: bool,
    pub max_pages: usize,
}

/// The first URL of a walk: the unfinished walk's next page, else the
/// listing after the cursor.
pub open spec fn scan_start_url(state: AppState) -> Seq<char> {
    match state.sequential_next_url {
        Some(u) => u@,
        None => "https://api.github.com/repositories?since="@ + signed_decimal(
            state.sequential_since as int,
        ) + "&per_page=100"@,
    }
}

/// The state after a walk: when a page was read, a finished walk moves the
/// cursor to the largest id and clears the next page; an unfinished one
/// keeps its next page for the next cycle.
pub open spec fn after_scan(state: AppState, scan: SequentialScan) -> AppState {
    if scan.pages > 0 {
        if scan.reached_end {
            AppState { sequential_since: scan.max_id, sequential_next_url: None, ..state }
        } else {
            AppState { sequential_next_url: Some(scan.url), ..state }
        }
    } else {
        state
    }
}

/// The walk after a page: one more page read, the page's ids raise the
/// largest id, and its next link continues the walk; a page without one
/// ends it.
pub open spec fn after_page(scan: SequentialScan, ids: Seq<i64>, next_url: Option<String>) -> SequentialScan {
    let max = match max_id(ids) {
        Some(m) => if m > scan.max_id {
            m
        } else {
            scan.max_id
        },
        None => scan.max_id,
    };
    match next_url {
        Some(n) => SequentialScan { url: n, max_id: max, pages: (scan.pages + 1) as usize, ..scan },
        None => SequentialScan { max_id: max, pages: (scan.pages + 1) as usize, reached_end: true, ..scan },
    }
}

impl SequentialScan {
    pub fn start(state: &AppState, max_pages: usize) -> (s: Self)
        ensures
            s.url@ == scan_start_url(*state),
            s.max_id == state.sequential_since,
            s.pages == 0,
            !s.reached_end,
            s.max_pages == max_pages,
    {
        let url = match &state.sequential_next_url {
            Some(u) => u.clone(),
            None => repositories_url(state.sequential_since),
        };
        SequentialScan {
            url,
            max_id: state.sequential_since,
            pages: 0,
            reached_end: false,
            max_pages,
        }
    }

    /// The page to fetch next, while the walk goes on.
    pub fn next_request(&self) -> (r: Option<String>)
        ensures
            r is Some <==> self.pages < self.max_pages && !self.reached_end,
            r matches Some(u) ==> u@ == self.url@,
    {
        if self.pages < self.max_pages && !self.reached_end {
            Some(self.url.clone())
        } else {
            None
        }
    }

    /// Records a fetched page (see `after_page`).
    pub fn record_page(&mut self, items: &Vec<GithubRepositoryRaw>, next_url: Option<String>)
        requires
            old(self).pages < old(self).max_pages,
        ensures
            *final(self) == after_page(*old(self), raw_ids(items@), next_url),
    {
        self.pages = self.pages + 1;
        let mut ids: Vec<i64> = Vec::new();
        for i in 0..items.len()
            invariant
                ids@ == raw_ids(items@).take(i as int),
        {
            ids.push(items[i].id);
            assert(ids@ =~= raw_ids(items@).take(i + 1));
        }
        assert(ids@ =~= raw_ids(items@));
        if let Some(m) = largest_id(&ids) {
            if m > self.max_id {
                self.max_id = m;
            }
        }
        match next_url {
            Some(n) => {
                self.url = n;
            },
            None => {
                self.reached_end = true;
            },
        }
    }

    /// Applies the walk to the state (see `after_scan`).
    pub fn finish(self, state: &mut AppState)
        ensures
            *final(state) == after_scan(*old(state), self),
    {
        if self.pages > 0 {
            if self.reached_end {
                state.sequential_since = self.max_id;
                state.sequential_next_url = None;
            } else {
                state.sequential_next_url = Some(self.url);
            }
        }
    }
}

/// A record made from a raw result keeps what GitHub said of the
/// repository: its id, full name, URL, description, fork flag, counts and
/// language; it is stamped `discovered_at` and not yet marked priority. So a
/// forked result is dropped by a spam filter that ignores forks.
pub proof fn lemma_raw_item_keeps_fields(
    raw: GithubRepositoryRaw,
    discovered_at: Seq<char>,
    cfg: FilteringConfig,
    patterns: Seq<Seq<char>>,
)
    ensures
        raw_item(raw, discovered_at).id == raw.id,
        raw_item(raw, discovered_at).full_name == raw.full_name@,
        raw_item(raw, discovered_at).html_url == raw.html_url@,
        raw_item(raw, discovered_at).description == opt_view(raw.description),
        raw_item(raw, discovered_at).fork == raw.fork,
        raw_item(raw, discovered_at).stars == raw.stargazers_count,
        raw_item(raw, discovered_at).forks_count == raw.forks_count,
        raw_item(raw, discovered_at).language == opt_view(raw.language),
        raw_item(raw, discovered_at).discovered_at == discovered_at,
        !raw_item(raw, discovered_at).is_priority,
        cfg.enable_spam_filter && cfg.ignore_forks && raw.fork ==> rejected_as_spam(
            cfg,
            patterns,
            raw_item(raw, discovered_at),
        ),
{
}

/// The largest of some ids is one of them and no smaller than any; there is
/// none exactly when there are no ids.
pub proof fn lemma_max_id_is_largest(ids: Seq<i64>)
    ensures
        max_id(ids) is None <==> ids.len() == 0,
        max_id(ids) matches Some(m) ==> (forall|i: int| 0 <= i < ids.len() ==> #[trigger] ids[i]
            <= m) && exists|i: int| 0 <= i < ids.len() && ids[i] == m,
    decreases ids.len(),
{
    if ids.len() > 0 {
        let t = ids.drop_last();
        lemma_max_id_is_largest(t);
        assert(ids[ids.len() - 1] == ids.last());
        assert forall|i: int| 0 <= i < t.len() implies #[trigger] ids[i] == t[i] by {}
        if let Some(m) = max_id(t) {
            let j = choose|j: int| 0 <= j < t.len() && t[j] == m;
            assert(ids[j] == m);
        }
    }
}

/// A page raises the walk's largest id to the largest id on it: afterwards
/// the largest id is no smaller than the old one nor than any id of the
/// page, and it is the old one or one of the page's ids.
pub proof fn lemma_page_takes_largest_id(scan: SequentialScan, ids: Seq<i64>, next_url: Option<String>)
    ensures
        after_page(scan, ids, next_url).max_id >= scan.max_id,
        forall|i: int| 0 <= i < ids.len() ==> after_page(scan, ids, next_url).max_id >= #[trigger] ids[i],
        after_page(scan, ids, next_url).max_id == scan.max_id || exists|i: int|
            0 <= i < ids.len() && after_page(scan, ids, next_url).max_id == ids[i],
{
    lemma_max_id_is_largest(ids);
}

/// A page never lowers the largest id of a walk, and counts one page more.
pub proof fn lemma_page_keeps_max(scan: SequentialScan, ids: Seq<i64>, next_url: Option<String>)
    requires
        scan.pages < scan.max_pages,
    ensures
        after_page(scan, ids, next_url).max_id >= scan.max_id,
        after_page(scan, ids, next_url).pages == scan.pages + 1,
{
}

/// A walk that started from the state's cursor never moves the cursor back:
/// it starts with the cursor as its largest id, pages only raise that (see
/// `lemma_page_keeps_max`), and finishing moves the cursor to it.
pub proof fn lemma_scan_cursor_monotone(state: AppState, scan: SequentialScan)
    requires
        scan.max_id >= state.sequential_since,
    ensures
        after_scan(state, scan).sequential_since >= state.sequential_since,
{
}

proof fn lemma_max_id_positive(ids: Seq<i64>)
    requires
        forall|i: int| 0 <= i < ids.len() ==> #[trigger] ids[i] > 0,
    ensures
        max_id(ids) matches Some(m) ==> m > 0,
    decreases ids.len(),
{
    if ids.len() > 0 {
        lemma_max_id_positive(ids.drop_last());
        assert(ids.last() == ids[ids.len() - 1]);
    }
}

/// Over a cycle the cursor never moves back, when GitHub's ids are positive.
/// The cycle anchors an unset cursor (to an id, or leaves it), walks the
/// listing from the anchored cursor (see `after_scan`; no walk is a scan of
/// no page), leaves the cursor through the events and the search, and
/// collects (see `cursor_after`); a failed cycle keeps its old state.
pub proof fn lemma_cycle_cursor_monotone(
    state: AppState,
    anchored: i64,
    scan: SequentialScan,
    raw: Seq<GithubRepositoryRaw>,
    events: Seq<RepoItem>,
)
    requires
        state.sequential_since != 0 ==> anchored == state.sequential_since,
        state.sequential_since == 0 ==> anchored >= 0,
        scan.max_id >= anchored,
        forall|i: int| 0 <= i < raw.len() ==> (#[trigger] raw[i]).id > 0,
        forall|i: int| 0 <= i < events.len() ==> (#[trigger] events[i]).id > 0,
    ensures
        cursor_after(
            after_scan(AppState { sequential_since: anchored, ..state }, scan).sequential_since,
            raw_ids(raw),
            item_ids(events),
        ) >= state.sequential_since,
{
    let walked = after_scan(AppState { sequential_since: anchored, ..state }, scan).sequential_since;
    assert(walked >= anchored);
    assert forall|i: int| 0 <= i < raw_ids(raw).len() implies #[trigger] raw_ids(raw)[i] > 0 by {
        assert(raw_ids(raw)[i] == raw[i].id);
    }
    assert forall|i: int| 0 <= i < item_ids(events).len() implies #[trigger] item_ids(events)[i]
        > 0 by {
        assert(item_ids(events)[i] == events[i].id);
    }
    lemma_max_id_positive(raw_ids(raw));
    lemma_max_id_positive(item_ids(events));
}

// ---------------------------------------------------------------------------
// The work of one cycle
// ---------------------------------------------------------------------------

/// What a cycle has gathered: the state it works on, which is kept only
/// when the whole cycle succeeds; the raw repositories of the listing and
/// the search; the repositories of the events feed; and the status notes.
pub struct CycleWork {
    pub state: AppState,
    pub raw: Vec<GithubRepositoryRaw>,
    pub events: Vec<RepoItem>,
    pub status: String,
}

impl CycleWork {
    /// The start of a cycle from the state the last one left.
    pub fn new(state: AppState) -> (w: Self)
        ensures
            w.state == state,
            w.raw@ == Seq::<GithubRepositoryRaw>::empty(),
            w.events@ == Seq::<RepoItem>::empty(),
            w.status@ == Seq::<char>::empty(),
    {
        CycleWork { state, raw: Vec::new(), events: Vec::new(), status: String::new() }
    }

    /// The cursor is unset and the sequential stream is on, so the largest
    /// stored id is read to anchor it (see `anchor_cursor`).
    pub fn anchor_wanted(&self, sequential_enabled: bool) -> (r: bool)
        ensures
            r == (sequential_enabled && self.state.sequential_since == 0),
    {
        sequential_enabled && self.state.sequential_since == 0
    }

    /// The sequential stream walks the listing: it is on and the cursor is set.
    pub fn walk_wanted(&self, sequential_enabled: bool) -> (r: bool)
        ensures
            r == (sequential_enabled && self.state.sequential_since > 0),
    {
        sequential_enabled && self.state.sequential_since > 0
    }

    /// The search stream runs: it is on and due at `now` (see `search_is_due`).
    pub fn search_wanted(&self, search_enabled: bool, now: i64, interval_seconds: u64) -> (r: bool)
        requires
            search_enabled ==> i64::MIN <= now - self.state.last_search_at <= i64::MAX,
        ensures
            r == (search_enabled && now - self.state.last_search_at >= interval_seconds as i64),
    {
        search_enabled && search_is_due(now, self.state.last_search_at, interval_seconds)
    }

    /// The unset cursor starts after the largest stored id.
    pub fn anchor_from_database(&mut self, id: i64)
        ensures
            *final(self) == (CycleWork {
                state: AppState { sequential_since: id, ..old(self).state },
                ..*old(self)
            }),
    {
        self.state.sequential_since = id;
    }

    /// The unset cursor starts after the newest repository GitHub reported,
    /// which the status notes; without an answer nothing changes.
    pub fn anchor_from_github(&mut self, latest: Option<i64>)
        ensures
            match latest {
                Some(id) => {
                    &&& final(self).state == AppState { sequential_since: id, ..old(self).state }
                    &&& final(self).status@ == old(self).status@ + " Initialized cursor at #"@
                        + signed_decimal(id as int) + "."@
                    &&& final(self).raw == old(self).raw
                    &&& final(self).events == old(self).events
                },
                None => *final(self) == *old(self),
            },
    {
        if let Some(id) = latest {
            self.state.sequential_since = id;
            let note = cursor_initialized_message(id);
            push_all(&mut self.status, note.as_str());
        }
    }

    /// A page of the listing: the walk goes on (see `after_page`) and the
    /// page's repositories join the candidates.
    pub fn take_page(&mut self, scan: &mut SequentialScan, page: Page<GithubRepositoryRaw>)
        requires
            old(scan).pages < old(scan).max_pages,
        ensures
            *final(scan) == after_page(*old(scan), raw_ids(page.items@), page.next_url),
            final(self).raw@ == old(self).raw@ + page.items@,
            final(self).state == old(self).state,
            final(self).events == old(self).events,
            final(self).status == old(self).status,
    {
        let Page { items, next_url, .. } = page;
        scan.record_page(&items, next_url);
        let mut items = items;
        self.raw.append(&mut items);
    }

    /// The end of the walk through the listing, stopped by `stop` or not.
    /// A walk that ran its course moves the cursor (see `after_scan`); one
    /// stopped by rate limits leaves the state and notes the wait; any other
    /// failure fails the cycle, which is what a `false` answer means.
    pub fn end_scan(&mut self, scan: SequentialScan, stop: Option<CrawlerError>) -> (go_on: bool)
        ensures
            go_on == match stop {
                Some(CrawlerError::RateLimited(_)) => true,
                Some(_) => false,
                None => true,
            },
            match stop {
                None => {
                    &&& final(self).state == after_scan(old(self).state, scan)
                    &&& final(self).status == old(self).status
                },
                Some(CrawlerError::RateLimited(wait)) => {
                    &&& final(self).state == old(self).state
                    &&& final(self).status@ == old(self).status@ + " Sequential rate limited for "@
                        + decimal(wait as nat) + "s."@
                },
                Some(_) => *final(self) == *old(self),
            },
            final(self).raw == old(self).raw,
            final(self).events == old(self).events,
    {
        match stop {
            None => {
                scan.finish(&mut self.state);
                true
            },
            Some(CrawlerError::RateLimited(wait)) => {
                let note = sequential_rate_limited_message(wait);
                push_all(&mut self.status, note.as_str());
                true
            },
            Some(_) => false,
        }
    }

    /// The answer of the events feed. On success its ETag and poll time are
    /// kept, its repositories join the candidates, and a poll interval is
    /// noted; on failure nothing changes.
    pub fn take_events(&mut self, outcome: Result<Page<RepoItem>, CrawlerError>)
        ensures
            match outcome {
                Ok(page) => {
                    &&& final(self).state == (AppState {
                        events_etag: page.etag,
                        last_events_at: final(self).state.last_events_at,
                        ..old(self).state
                    })
                    &&& 0 <= final(self).state.last_events_at <= last_chrono_second()
                    &&& final(self).events@ == old(self).events@ + page.items@
                    &&& final(self).raw == old(self).raw
                    &&& final(self).status@ == old(self).status@ + match page.poll_interval {
                        Some(poll) => " Events poll="@ + decimal(poll as nat) + "s."@,
                        None => Seq::<char>::empty(),
                    }
                },
                Err(_) => *final(self) == *old(self),
            },
    {
        if let Ok(page) = outcome {
            let Page { items, etag, poll_interval, .. } = page;
            record_events(&mut self.state, etag);
            let mut items = items;
            self.events.append(&mut items);
            if let Some(poll) = poll_interval {
                let note = events_poll_message(poll);
                push_all(&mut self.status, note.as_str());
            }
        }
    }

    /// The answer of the search. On success its repositories join the
    /// candidates and the watermark and search time move (see
    /// `record_search`); rate limits are noted; on any failure the state stays.
    pub fn take_search(&mut self, outcome: Result<Page<GithubRepositoryRaw>, CrawlerError>)
        ensures
            match outcome {
                Ok(page) => {
                    &&& final(self).state == (AppState {
                        search_watermark: final(self).state.search_watermark,
                        last_search_at: final(self).state.last_search_at,
                        ..old(self).state
                    })
                    &&& exists|nanos: u32|
                        clock_reading(final(self).state.last_search_at as int, nanos)
                            && #[trigger] two_minutes_before(final(self).state.last_search_at, nanos)
                            == Some(final(self).state.search_watermark@)
                    &&& final(self).raw@ == old(self).raw@ + page.items@
                    &&& final(self).events == old(self).events
                    &&& final(self).status == old(self).status
                },
                Err(CrawlerError::RateLimited(wait)) => {
                    &&& final(self).state == old(self).state
                    &&& final(self).raw == old(self).raw
                    &&& final(self).events == old(self).events
                    &&& final(self).status@ == old(self).status@ + " Search rate limited for "@
                        + decimal(wait as nat) + "s."@
                },
                Err(_) => *final(self) == *old(self),
            },
    {
        match outcome {
            Ok(page) => {
                let mut items = page.items;
                self.raw.append(&mut items);
                record_search(&mut self.state);
            },
            Err(CrawlerError::RateLimited(wait)) => {
                let note = search_rate_limited_message(wait);
                push_all(&mut self.status, note.as_str());
            },
            Err(_) => {},
        }
    }

    /// All streams answered: an unset cursor moves to the largest candidate
    /// id (see `cursor_after`), and the candidates, each id once with the
    /// listing and search first, go through the filter (see `triage`).
    pub fn collect(&mut self, filter: &RepoFilter) -> (t: Triage)
        ensures
            final(self).state == (AppState {
                sequential_since: cursor_after(
                    old(self).state.sequential_since,
                    raw_ids(old(self).raw@),
                    item_ids(old(self).events@),
                ),
                ..old(self).state
            }),
            final(self).raw == old(self).raw,
            final(self).events == old(self).events,
            final(self).status == old(self).status,
            exists|candidates: Seq<RepoItem>|
                {
                    &&& merged_from(old(self).raw@, old(self).events@, candidates)
                    &&& item_views(t.accepted@).to_multiset() == kept_items(
                        *filter,
                        item_views(candidates),
                    ).to_multiset()
                    &&& t.spam_count == spam_total(*filter, item_views(candidates))
                    &&& t.priority_count == priority_total(
                        kept_items(*filter, item_views(candidates)),
                    )
                    &&& t.accepted@.len() + t.spam_count == candidates.len()
                    &&& forall|x: i64|
                        #[trigger] with_id(item_views(t.accepted@), x) == with_id(
                            kept_items(*filter, item_views(candidates)),
                            x,
                        )
                },
            sorted_by_id(item_views(t.accepted@)),
    {
        self.state.sequential_since = cursor_from_candidates(
            self.state.sequential_since,
            &self.raw,
            &self.events,
        );
        let candidates = merge_candidates(&self.raw, &self.events);
        let t = triage(filter, &candidates);
        assert(merged_from(self.raw@, self.events@, candidates@));
        t
    }
}

// ---------------------------------------------------------------------------
// Messages
// ---------------------------------------------------------------------------

pub fn cursor_initialized_message(id: i64) -> (r: String)
    ensures
        r@ == " Initialized cursor at #"@ + signed_decimal(id as int) + "."@,
{
    let mut s = owned(" Initialized cursor at #");
    push_all(&mut s, format_i64(id).as_str());
    push_all(&mut s, ".");
    s
}

pub fn events_poll_message(poll: u64) -> (r: String)
    ensures
        r@ == " Events poll="@ + decimal(poll as nat) + "s."@,
{
    let mut s = owned(" Events poll=");
    push_all(&mut s, format_u64(poll).as_str());
    push_all(&mut s, "s.");
    s
}

pub fn search_rate_limited_message(wait: u64) -> (r: String)
    ensures
        r@ == " Search rate limited for "@ + decimal(wait as nat) + "s."@,
{
    let mut s = owned(" Search rate limited for ");
    push_all(&mut s, format_u64(wait).as_str());
    push_all(&mut s, "s.");
    s
}

pub fn sequential_rate_limited_message(wait: u64) -> (r: String)
    ensures
        r@ == " Sequential rate limited for "@ + decimal(wait as nat) + "s."@,
{
    let mut s = owned(" Sequential rate limited for ");
    push_all(&mut s, format_u64(wait).as_str());
    push_all(&mut s, "s.");
    s
}

/// The description, or `fallback` when there is none.
pub open spec fn description_or(item: RepoView, fallback: Seq<char>) -> Seq<char> {
    match item.description {
        Some(d) => d,
        None => fallback,
    }
}

/// The lines that the log of new repositories gets for one repository.
pub fn log_entry(repo: &RepoItem) -> (r: String)
    ensures
        r@ == repo@.full_name + " | "@ + description_or(repo@, "no description"@) + "\n  "@
            + repo@.html_url + "\n"@,
{
    let mut s = repo.full_name.clone();
    push_all(&mut s, " | ");
    match &repo.description {
        Some(d) => push_all(&mut s, d.as_str()),
        None => push_all(&mut s, "no description"),
    }
    push_all(&mut s, "\n  ");
    push_all(&mut s, repo.html_url.as_str());
    push_all(&mut s, "\n");
    s
}

/// The counts of a triage count: the dropped items are those the filter
/// rejects, the priority count is the number of priority items, and the kept
/// items are the ones not rejected, each as processing marks it, in order.
pub proof fn lemma_triage_counts_what_it_says(f: RepoFilter, items: Seq<RepoView>)
    ensures
        spam_total(f, items) == items.filter(|r: RepoView| rejected_as_spam(f.config(), f.patterns(), r)).len(),
        priority_total(items) == items.filter(|r: RepoView| r.is_priority).len(),
        kept_items(f, items) == items.filter(
            |r: RepoView| !rejected_as_spam(f.config(), f.patterns(), r),
        ).map_values(|r: RepoView| marked(f.config(), r)),
    decreases items.len(),
{
    reveal(Seq::filter);
    if items.len() > 0 {
        lemma_triage_counts_what_it_says(f, items.drop_last());
        let keep = |r: RepoView| !rejected_as_spam(f.config(), f.patterns(), r);
        let mark = |r: RepoView| marked(f.config(), r);
        let prev = items.drop_last().filter(keep);
        if keep(items.last()) {
            assert(prev.push(items.last()).map_values(mark) =~= prev.map_values(mark).push(
                mark(items.last()),
            ));
        }
    }
}

/// What is reported as new is exactly the accepted items whose ids were not
/// stored, in order; every such item is reported.
pub proof fn lemma_fresh_items_are_the_unstored(items: Seq<RepoView>, stored: Set<i64>)
    ensures
        fresh_items(items, stored) == items.filter(|r: RepoView| !stored.contains(r.id)),
        forall|i: int|
            0 <= i < items.len() && !stored.contains((#[trigger] items[i]).id) ==> fresh_items(
                items,
                stored,
            ).contains(items[i]),
    decreases items.len(),
{
    reveal(Seq::filter);
    if items.len() > 0 {
        let t = items.drop_last();
        lemma_fresh_items_are_the_unstored(t, stored);
        let r = fresh_items(t, stored);
        assert(items[items.len() - 1] == items.last());
        assert forall|i: int|
            0 <= i < items.len() && !stored.contains((#[trigger] items[i]).id) implies fresh_items(
            items,
            stored,
        ).contains(items[i]) by {
            if i < items.len() - 1 {
                assert(items[i] == t[i]);
                let k = choose|k: int| 0 <= k < r.len() && r[k] == t[i];
                assert(fresh_items(items, stored)[k] == r[k]);
            } else {
                assert(fresh_items(items, stored)[r.len() as int] == items[i]);
            }
        }
    }
}

/// A set cursor stays; an unset one moves to the largest listing or search
/// id when there is one (no smaller than any of them, and one of them),
/// else to the largest event id, else it stays unset.
pub proof fn lemma_cursor_after_takes_largest(since: i64, raw: Seq<i64>, events: Seq<i64>)
    ensures
        since != 0 ==> cursor_after(since, raw, events) == since,
        since == 0 && raw.len() > 0 ==> (forall|i: int|
            0 <= i < raw.len() ==> cursor_after(since, raw, events) >= #[trigger] raw[i]) && exists|i: int|
            0 <= i < raw.len() && cursor_after(since, raw, events) == raw[i],
        since == 0 && raw.len() == 0 && events.len() > 0 ==> (forall|i: int|
            0 <= i < events.len() ==> cursor_after(since, raw, events) >= #[trigger] events[i]) && exists|i: int|
            0 <= i < events.len() && cursor_after(since, raw, events) == events[i],
        since == 0 && raw.len() == 0 && events.len() == 0 ==> cursor_after(since, raw, events) == 0,
{
    lemma_max_id_is_largest(raw);
    lemma_max_id_is_largest(events);
}

/// The owner and name of a raw result come from its full name: split at
/// the first `/`, the owner holding no `/`; without a `/` the owner is
/// `unknown` and the name is the result's own name.
pub proof fn lemma_raw_item_owner(raw: GithubRepositoryRaw, discovered_at: Seq<char>)
    ensures
        raw.full_name@.contains('/') ==> raw_item(raw, discovered_at).owner + seq!['/'] + raw_item(
            raw,
            discovered_at,
        ).name == raw.full_name@ && !raw_item(raw, discovered_at).owner.contains('/'),
        !raw.full_name@.contains('/') ==> raw_item(raw, discovered_at).owner == "unknown"@
            && raw_item(raw, discovered_at).name == raw.name@,
{
    crate::text::lemma_split_once_parts(raw.full_name@, '/');
}

} // verus!
