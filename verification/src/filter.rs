//! The spam filter and priority marking applied to every discovered repository.
use vstd::prelude::*;
use crate::config::FilteringConfig;
use crate::models::{RepoItem, RepoView};
use crate::pattern::{is_match, pattern_error, regex_error, regex_matches};
use crate::text::{
    byte_len,
    contains, contains_str, eq_ignore_ascii_case, equal_ignoring_ascii_case, string_views,
    to_lowercase, trim, trimmed, unicode_lowercase,
};

verus! {

broadcast use vstd::string::group_string_axioms;

/// The patterns of `ps` that compile, in order.
pub open spec fn compiling(ps: Seq<Seq<char>>) -> Seq<Seq<char>>
    decreases ps.len(),
{
    if ps.len() == 0 {
        Seq::<Seq<char>>::empty()
    } else {
        let r = compiling(ps.drop_last());
        if regex_error(ps.last()) is None {
            r.push(ps.last())
        } else {
            r
        }
    }
}

proof fn lemma_compiling_compile(ps: Seq<Seq<char>>)
    ensures
        forall|i: int|
            0 <= i < compiling(ps).len() ==> regex_error(#[trigger] compiling(ps)[i]) is None,
    decreases ps.len(),
{
    if ps.len() > 0 {
        lemma_compiling_compile(ps.drop_last());
    }
}

/// The byte length of the trimmed description, 0 when there is none.
pub open spec fn description_length(item: RepoView) -> usize {
    match item.description {
        Some(d) => byte_len(trim(d)),
        None => 0,
    }
}

/// The description, or the empty text when there is none.
pub open spec fn description_text(item: RepoView) -> Seq<char> {
    match item.description {
        Some(d) => d,
        None => Seq::<char>::empty(),
    }
}

/// The repository's language equals one of `allowed`, ignoring ASCII case.
pub open spec fn language_allowed(allowed: Seq<Seq<char>>, language: Option<Seq<char>>) -> bool {
    match language {
        Some(lang) => exists|i: int|
            0 <= i < allowed.len() && eq_ignore_ascii_case(#[trigger] allowed[i], lang),
        None => false,
    }
}

/// The spam filter, when enabled, rejects the item: a fork while forks are
/// ignored, a name that an ignore pattern matches, a description shorter
/// than the minimum, or a language outside a non-empty allow-list.
pub open spec fn rejected_as_spam(
    cfg: FilteringConfig,
    patterns: Seq<Seq<char>>,
    item: RepoView,
) -> bool {
    &&& cfg.enable_spam_filter
    &&& {
        ||| cfg.ignore_forks && item.fork
        ||| exists|i: int| 0 <= i < patterns.len() && regex_matches(#[trigger] patterns[i], item.name)
        ||| description_length(item) < cfg.min_description_length
        ||| cfg.allowed_languages@.len() > 0 && !language_allowed(
            string_views(cfg.allowed_languages@),
            item.language,
        )
    }
}

/// The keyword, lowercased, occurs in the lowercased name, description or one of the topics.
pub open spec fn keyword_hits(item: RepoView, keyword: Seq<char>) -> bool {
    let k = unicode_lowercase(keyword);
    ||| contains(unicode_lowercase(item.name), k)
    ||| contains(unicode_lowercase(description_text(item)), k)
    ||| exists|j: int|
        0 <= j < item.topics.len() && contains(unicode_lowercase(#[trigger] item.topics[j]), k)
}

/// One of the keywords hits the item.
pub open spec fn is_priority_match(keywords: Seq<Seq<char>>, item: RepoView) -> bool {
    exists|i: int| 0 <= i < keywords.len() && keyword_hits(item, #[trigger] keywords[i])
}

/// What processing makes of an accepted item: when priority keywords are
/// configured, its priority mark is recomputed from them; else it is unchanged.
pub open spec fn marked(cfg: FilteringConfig, item: RepoView) -> RepoView {
    if cfg.priority_keywords@.len() > 0 {
        RepoView {
            is_priority: is_priority_match(string_views(cfg.priority_keywords@), item),
            ..item
        }
    } else {
        item
    }
}

pub struct RepoFilter {
    config: FilteringConfig,
    compiled_patterns: Vec<String>,
}

impl RepoFilter {
    #[verifier::type_invariant]
    spec fn patterns_compile(self) -> bool {
        forall|i: int|
            0 <= i < self.compiled_patterns@.len() ==> regex_error(
                #[trigger] self.compiled_patterns@[i]@,
            ) is None
    }

    /// The filtering configuration the filter was made with.
    pub closed spec fn config(self) -> FilteringConfig {
        self.config
    }

    /// The ignore patterns in use: the configured ones that compile.
    pub closed spec fn patterns(self) -> Seq<Seq<char>> {
        string_views(self.compiled_patterns@)
    }

    /// A filter for `config`; ignore patterns that do not compile are left out.
    pub fn new(config: FilteringConfig) -> (f: Self)
        ensures
            f.config() == config,
            f.patterns() == compiling(string_views(config.ignore_name_patterns@)),
    {
        let ghost all = string_views(config.ignore_name_patterns@);
        let mut kept: Vec<String> = Vec::new();
        for i in 0..config.ignore_name_patterns.len()
            invariant
                all == string_views(config.ignore_name_patterns@),
                string_views(kept@) == compiling(all.take(i as int)),
                forall|j: int| 0 <= j < kept@.len() ==> regex_error(#[trigger] kept@[j]@) is None,
        {
            let p = &config.ignore_name_patterns[i];
            assert(all.take(i + 1).drop_last() =~= all.take(i as int));
            assert(all.take(i + 1).last() == p@);
            if pattern_error(p.as_str()).is_none() {
                kept.push(p.clone());
                assert(string_views(kept@) =~= compiling(all.take(i as int)).push(p@));
            }
        }
        assert(all.take(all.len() as int) =~= all);
        RepoFilter { config, compiled_patterns: kept }
    }

    /// Decides whether the item is kept (`true`) or dropped as spam, and for a
    /// kept item recomputes its priority mark. A dropped item is left unchanged.
    pub fn process(&self, item: &mut RepoItem) -> (keep: bool)
        ensures
            keep == !rejected_as_spam(self.config(), self.patterns(), old(item)@),
            final(item)@ == if keep {
                marked(self.config(), old(item)@)
            } else {
                old(item)@
            },
    {
        proof {
            use_type_invariant(self);
        }
        let cfg = &self.config;
        if cfg.enable_spam_filter {
            if cfg.ignore_forks && item.fork {
                return false;
            }
            let mut matched = false;
            for i in 0..self.compiled_patterns.len()
                invariant
                    forall|j: int|
                        0 <= j < self.compiled_patterns@.len() ==> regex_error(
                            #[trigger] self.compiled_patterns@[j]@,
                        ) is None,
                    matched == exists|j: int|
                        0 <= j < i && regex_matches(
                            #[trigger] string_views(self.compiled_patterns@)[j],
                            item.name@,
                        ),
            {
                let hit = is_match(self.compiled_patterns[i].as_str(), item.name.as_str());
                matched = matched || hit;
                assert(string_views(self.compiled_patterns@)[i as int]
                    == self.compiled_patterns@[i as int]@);
            }
            if matched {
                return false;
            }
            let description_length: usize = match &item.description {
                Some(d) => trimmed(d.as_str()).as_str().len(),
                None => 0,
            };
            if description_length < cfg.min_description_length {
                return false;
            }
            if cfg.allowed_languages.len() > 0 {
                let mut allowed = false;
                if let Some(lang) = &item.language {
                    let ghost langs = string_views(cfg.allowed_languages@);
                    for i in 0..cfg.allowed_languages.len()
                        invariant
                            langs == string_views(cfg.allowed_languages@),
                            allowed == exists|j: int|
                                0 <= j < i && eq_ignore_ascii_case(#[trigger] langs[j], lang@),
                    {
                        let same = equal_ignoring_ascii_case(
                            cfg.allowed_languages[i].as_str(),
                            lang.as_str(),
                        );
                        assert(langs[i as int] == cfg.allowed_languages@[i as int]@);
                        allowed = allowed || same;
                    }
                }
                if !allowed {
                    return false;
                }
            }
        }
        if cfg.priority_keywords.len() > 0 {
            let name = to_lowercase(item.name.as_str());
            let description = match &item.description {
                Some(d) => to_lowercase(d.as_str()),
                None => {
                    proof {
                        reveal_strlit("");
                        assert(""@ =~= Seq::<char>::empty());
                    }
                    to_lowercase("")
                },
            };
            let ghost kws = string_views(cfg.priority_keywords@);
            let ghost view = item@;
            let mut hit = false;
            for i in 0..cfg.priority_keywords.len()
                invariant
                    kws == string_views(cfg.priority_keywords@),
                    view == item@,
                    name@ == unicode_lowercase(view.name),
                    description@ == unicode_lowercase(description_text(view)),
                    hit == exists|j: int| 0 <= j < i && keyword_hits(view, #[trigger] kws[j]),
            {
                assert(kws[i as int] == cfg.priority_keywords@[i as int]@);
                let here = self.keyword_matches(
                    &item.topics,
                    name.as_str(),
                    description.as_str(),
                    cfg.priority_keywords[i].as_str(),
                );
                assert(view.topics == string_views(item.topics@));
                assert(here == keyword_hits(view, kws[i as int]));
                hit = hit || here;
            }
            item.is_priority = hit;
        }
        true
    }

    fn keyword_matches(
        &self,
        topics: &Vec<String>,
        name_lower: &str,
        description_lower: &str,
        keyword: &str,
    ) -> (r: bool)
        ensures
            r == ({
                let k = unicode_lowercase(keyword@);
                ||| contains(name_lower@, k)
                ||| contains(description_lower@, k)
                ||| exists|j: int|
                    0 <= j < topics@.len() && contains(
                        unicode_lowercase(#[trigger] string_views(topics@)[j]),
                        k,
                    )
            }),
    {
        let k = to_lowercase(keyword);
        if contains_str(name_lower, k.as_str()) {
            return true;
        }
        if contains_str(description_lower, k.as_str()) {
            return true;
        }
        let mut found = false;
        for j in 0..topics.len()
            invariant
                k@ == unicode_lowercase(keyword@),
                found == exists|m: int|
                    0 <= m < j && contains(
                        unicode_lowercase(#[trigger] string_views(topics@)[m]),
                        k@,
                    ),
        {
            let t = to_lowercase(topics[j].as_str());
            let here = contains_str(t.as_str(), k.as_str());
            assert(string_views(topics@)[j as int] == topics@[j as int]@);
            found = found || here;
        }
        found
    }
}

/// With the spam filter switched off, every item is kept.
pub proof fn lemma_disabled_filter_keeps_all(f: RepoFilter, item: RepoView)
    requires
        !f.config().enable_spam_filter,
    ensures
        !rejected_as_spam(f.config(), f.patterns(), item),
{
}

/// Processing is idempotent: the mark it sets on a kept item is the one it
/// would set again, so a second pass keeps the item and changes nothing.
pub proof fn lemma_process_idempotent(f: RepoFilter, item: RepoView)
    requires
        !rejected_as_spam(f.config(), f.patterns(), item),
    ensures
        !rejected_as_spam(f.config(), f.patterns(), marked(f.config(), item)),
        marked(f.config(), marked(f.config(), item)) == marked(f.config(), item),
{
    let m = marked(f.config(), item);
    assert(m.name == item.name && m.topics == item.topics && m.description == item.description);
    assert(description_text(m) == description_text(item));
    let kws = string_views(f.config().priority_keywords@);
    assert forall|i: int| 0 <= i < kws.len() implies keyword_hits(m, kws[i]) == keyword_hits(
        item,
        kws[i],
    ) by {}
}

/// Priority marks follow the keywords: with keywords configured, an item
/// whose lowercased name, description or one of its topics contains a
/// lowercased keyword is marked priority. Marking changes nothing else, and
/// without keywords it leaves the item as it was.
pub proof fn lemma_keyword_marks_priority(cfg: FilteringConfig, item: RepoView, k: int)
    requires
        0 <= k < cfg.priority_keywords@.len(),
    ensures
        ({
            let kw = unicode_lowercase(cfg.priority_keywords@[k]@);
            &&& contains(unicode_lowercase(item.name), kw) ==> marked(cfg, item).is_priority
            &&& (item.description matches Some(d) && contains(unicode_lowercase(d), kw))
                ==> marked(cfg, item).is_priority
            &&& (exists|j: int|
                0 <= j < item.topics.len() && contains(unicode_lowercase(#[trigger] item.topics[j]), kw))
                ==> marked(cfg, item).is_priority
        }),
        marked(cfg, item) == (RepoView { is_priority: marked(cfg, item).is_priority, ..item }),
{
    let kws = string_views(cfg.priority_keywords@);
    assert(kws[k] == cfg.priority_keywords@[k]@);
}

/// Nothing else marks an item priority: with keywords configured, an item
/// in whose lowercased name, description and topics no lowercased keyword
/// occurs is not marked priority; without keywords the item is unchanged.
pub proof fn lemma_priority_needs_keyword(cfg: FilteringConfig, item: RepoView)
    requires
        forall|k: int|
            0 <= k < cfg.priority_keywords@.len() ==> {
                let kw = unicode_lowercase(#[trigger] cfg.priority_keywords@[k]@);
                &&& !contains(unicode_lowercase(item.name), kw)
                &&& !contains(
                    unicode_lowercase(
                        match item.description {
                            Some(d) => d,
                            None => Seq::<char>::empty(),
                        },
                    ),
                    kw,
                )
                &&& forall|j: int|
                    0 <= j < item.topics.len() ==> !contains(
                        unicode_lowercase(#[trigger] item.topics[j]),
                        kw,
                    )
            },
    ensures
        cfg.priority_keywords@.len() > 0 ==> !marked(cfg, item).is_priority,
        cfg.priority_keywords@.len() == 0 ==> marked(cfg, item) == item,
{
    let kws = string_views(cfg.priority_keywords@);
    assert forall|i: int| 0 <= i < kws.len() implies !keyword_hits(item, #[trigger] kws[i]) by {
        assert(kws[i] == cfg.priority_keywords@[i]@);
    }
}

} // verus!
