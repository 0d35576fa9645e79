//! Repository records: the library's own record of a repository, and the
//! shapes in which GitHub's REST API reports repositories and events.
use vstd::prelude::*;

verus! {

/// A discovered repository, as the library stores, filters and reports it.
#[derive(Debug)]
pub struct RepoItem {
    pub id: i64,
    pub name: String,
    pub full_name: String,
    pub owner: String,
    pub owner_type: Option<String>,
    pub html_url: String,
    pub description: Option<String>,
    pub fork: bool,
    pub stars: i64,
    pub forks_count: i64,
    pub language: Option<String>,
    pub license: Option<String>,
    pub topics: Vec<String>,
    pub created_at: Option<String>,
    pub discovered_at: String,
    pub is_priority: bool,
}

/// The mathematical value of a `RepoItem`: its text fields as char sequences.
pub struct RepoView {
    pub id: i64,
    pub name: Seq<char>,
    pub full_name: Seq<char>,
    pub owner: Seq<char>,
    pub owner_type: Option<Seq<char>>,
    pub html_url: Seq<char>,
    pub description: Option<Seq<char>>,
    pub fork: bool,
    pub stars: i64,
    pub forks_count: i64,
    pub language: Option<Seq<char>>,
    pub license: Option<Seq<char>>,
    pub topics: Seq<Seq<char>>,
    pub created_at: Option<Seq<char>>,
    pub discovered_at: Seq<char>,
    pub is_priority: bool,
}

/// The view of an optional string.
pub open spec fn opt_view(s: Option<String>) -> Option<Seq<char>> {
    match s {
        Some(v) => Some(v@),
        None => None,
    }
}

impl View for RepoItem {
    type V = RepoView;

    open spec fn view(&self) -> RepoView {
        RepoView {
            id: self.id,
            name: self.name@,
            full_name: self.full_name@,
            owner: self.owner@,
            owner_type: opt_view(self.owner_type),
            html_url: self.html_url@,
            description: opt_view(self.description),
            fork: self.fork,
            stars: self.stars,
            forks_count: self.forks_count,
            language: opt_view(self.language),
            license: opt_view(self.license),
            topics: crate::text::string_views(self.topics@),
            created_at: opt_view(self.created_at),
            discovered_at: self.discovered_at@,
            is_priority: self.is_priority,
        }
    }
}

/// The views of a sequence of items.
pub open spec fn item_views(items: Seq<RepoItem>) -> Seq<RepoView> {
    items.map_values(|r: RepoItem| r@)
}

/// A copy of an optional string.
pub fn clone_opt(s: &Option<String>) -> (r: Option<String>)
    ensures
        r == *s,
{
    match s {
        Some(v) => Some(v.clone()),
        None => None,
    }
}

/// A copy of a list of strings.
pub fn clone_strings(v: &Vec<String>) -> (r: Vec<String>)
    ensures
        r@ == v@,
{
    let r = v.clone();
    assert(r@ =~= v@);
    r
}

impl Clone for RepoItem {
    fn clone(&self) -> (r: Self)
        ensures
            r@ == self@,
    {
        RepoItem {
            id: self.id,
            name: self.name.clone(),
            full_name: self.full_name.clone(),
            owner: self.owner.clone(),
            owner_type: clone_opt(&self.owner_type),
            html_url: self.html_url.clone(),
            description: clone_opt(&self.description),
            fork: self.fork,
            stars: self.stars,
            forks_count: self.forks_count,
            language: clone_opt(&self.language),
            license: clone_opt(&self.license),
            topics: clone_strings(&self.topics),
            created_at: clone_opt(&self.created_at),
            discovered_at: self.discovered_at.clone(),
            is_priority: self.is_priority,
        }
    }
}

/// An item of GitHub's `/repositories` listing (and of search results).
#[derive(Clone, Debug)]
pub struct GithubRepositoryRaw {
    pub id: i64,
    pub name: String,
    pub full_name: String,
    pub owner: Option<GithubOwnerRaw>,
    pub html_url: String,
    pub description: Option<String>,
    pub fork: bool,
    pub stargazers_count: i64,
    pub forks_count: i64,
    pub language: Option<String>,
    pub license: Option<GithubLicenseRaw>,
    pub topics: Vec<String>,
    pub created_at: Option<String>,
}

#[derive(Clone, Debug)]
pub struct GithubOwnerRaw {
    pub login: String,
    pub owner_type: Option<String>,
}

#[derive(Clone, Debug)]
pub struct GithubLicenseRaw {
    pub key: Option<String>,
    pub name: Option<String>,
    pub spdx_id: Option<String>,
}

/// The body of GitHub's `/search/repositories` answer.
#[derive(Clone, Debug)]
pub struct GithubSearchResponse {
    pub total_count: Option<i64>,
    pub items: Vec<GithubRepositoryRaw>,
}

/// An item of GitHub's public `/events` feed.
#[derive(Clone, Debug)]
pub struct GithubEventRaw {
    pub id: String,
    pub event_type: String,
    pub repo: GithubEventRepo,
    pub payload: Option<GithubEventPayload>,
    pub created_at: Option<String>,
}

#[derive(Clone, Debug)]
pub struct GithubEventRepo {
    pub id: i64,
    pub name: String,
    pub url: String,
}

#[derive(Clone, Debug)]
pub struct GithubEventPayload {
    pub ref_type: Option<String>,
    pub master_branch: Option<String>,
    pub description: Option<String>,
}

/// The ids of a sequence of items, in order.
pub open spec fn item_ids(items: Seq<RepoItem>) -> Seq<i64> {
    items.map_values(|r: RepoItem| r.id)
}

} // verus!
