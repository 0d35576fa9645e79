//! What the console and the window show for a repository.
use vstd::prelude::*;
use crate::models::{RepoItem, RepoView};
use crate::text::{chars_of, owned, string_from};

verus! {

broadcast use vstd::string::group_string_axioms;

/// The label a repository is shown with.
#[derive(Debug, Clone, Copy, PartialEq, Eq, Structural)]
pub enum RepoBadge {
    Priority,
    Fork,
    New,
}

/// Priority first, then fork, else new.
pub open spec fn badge_for(r: RepoView) -> RepoBadge {
    if r.is_priority {
        RepoBadge::Priority
    } else if r.fork {
        RepoBadge::Fork
    } else {
        RepoBadge::New
    }
}

pub fn badge_of(repo: &RepoItem) -> (b: RepoBadge)
    ensures
        b == badge_for(repo@),
{
    if repo.is_priority {
        RepoBadge::Priority
    } else if repo.fork {
        RepoBadge::Fork
    } else {
        RepoBadge::New
    }
}

/// The first 80 chars of the description, or `No description`.
pub open spec fn short_description_text(description: Option<Seq<char>>) -> Seq<char> {
    match description {
        Some(d) => if d.len() > 80 {
            d.take(80)
        } else {
            d
        },
        None => "No description"@,
    }
}

pub fn short_description(repo: &RepoItem) -> (r: String)
    ensures
        r@ == short_description_text(repo@.description),
{
    let cs = match &repo.description {
        Some(d) => chars_of(d.as_str()),
        None => {
            proof {
                reveal_strlit("No description");
            }
            chars_of("No description")
        },
    };
    let k: usize = if cs.len() > 80 {
        80
    } else {
        cs.len()
    };
    let mut out: Vec<char> = Vec::new();
    for i in 0..k
        invariant
            k <= cs@.len(),
            out@ == cs@.take(i as int),
    {
        out.push(cs[i]);
        assert(cs@.take(i + 1) =~= cs@.take(i as int).push(cs@[i as int]));
    }
    assert(cs@.len() <= 80 ==> cs@.take(k as int) =~= cs@);
    string_from(out.as_slice())
}

/// The language, or `General`.
pub fn language_label(repo: &RepoItem) -> (r: String)
    ensures
        r@ == match repo@.language {
            Some(l) => l,
            None => "General"@,
        },
{
    match &repo.language {
        Some(l) => l.clone(),
        None => owned("General"),
    }
}

} // verus!
