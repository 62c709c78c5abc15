//! Shared models for taz.de sections, discovered articles and fetched articles.

use vstd::prelude::*;

verus! {

/// A taz.de section that can be browsed.
#[derive(Debug, Clone, Copy)]
pub struct Section {
    pub id: &'static str,
    pub label: &'static str,
    pub url: &'static str,
}

/// An article candidate found while browsing or searching.
#[derive(Debug, Clone)]
pub struct ArticleSummary {
    pub article_key: String,
    pub url: String,
    pub title: String,
    pub teaser: String,
    pub section: String,
    pub source_kind: DiscoverySourceKind,
    pub source_label: String,
}

/// Where an article candidate was found.
#[derive(Debug, Clone, Copy, PartialEq, Eq, Structural)]
pub enum DiscoverySourceKind {
    Section,
    Subsection,
    Topic,
    Search,
}

/// The name of a source kind.
pub open spec fn source_kind_name(kind: DiscoverySourceKind) -> Seq<char> {
    match kind {
        DiscoverySourceKind::Section => seq!['s', 'e', 'c', 't', 'i', 'o', 'n'],
        DiscoverySourceKind::Subsection => seq!['s', 'u', 'b', 's', 'e', 'c', 't', 'i', 'o', 'n'],
        DiscoverySourceKind::Topic => seq!['t', 'o', 'p', 'i', 'c'],
        DiscoverySourceKind::Search => seq!['s', 'e', 'a', 'r', 'c', 'h'],
    }
}

impl DiscoverySourceKind {
    /// The lower-case name of the source kind; different kinds have different names.
    pub fn as_str(self) -> (r: &'static str)
        ensures
            r@ == source_kind_name(self),
    {
        match self {
            DiscoverySourceKind::Section => {
                proof {
                    reveal_strlit("section");
                }
                "section"
            },
            DiscoverySourceKind::Subsection => {
                proof {
                    reveal_strlit("subsection");
                }
                "subsection"
            },
            DiscoverySourceKind::Topic => {
                proof {
                    reveal_strlit("topic");
                }
                "topic"
            },
            DiscoverySourceKind::Search => {
                proof {
                    reveal_strlit("search");
                }
                "search"
            },
        }
    }
}

/// Different source kinds have different names.
pub proof fn lemma_source_kind_names_distinct(a: DiscoverySourceKind, b: DiscoverySourceKind)
    requires
        a != b,
    ensures
        source_kind_name(a) != source_kind_name(b),
{
    let na = source_kind_name(a);
    let nb = source_kind_name(b);
    if na.len() == nb.len() {
        assert(na[0] != nb[0] || na[1] != nb[1] || na[2] != nb[2]);
    }
}

/// Counts of the pages visited and articles found while discovering a section.
#[derive(Debug, Clone)]
pub struct DiscoveryReport {
    pub source_pages_visited: usize,
    pub section_pages_visited: usize,
    pub subsection_pages_visited: usize,
    pub topic_pages_visited: usize,
    pub section_articles: usize,
    pub subsection_articles: usize,
    pub topic_articles: usize,
    pub deduped_articles: usize,
}

impl DiscoveryReport {
    /// The visits per kind add up to at most the visited pages.
    pub open spec fn visits_consistent(&self) -> bool {
        self.section_pages_visited + self.subsection_pages_visited + self.topic_pages_visited
            <= self.source_pages_visited
    }

    /// Counts a visited source page: every visit counts as a page, and
    /// section, subsection and topic pages also count by their kind.
    pub fn record_source_visit(&mut self, source_kind: DiscoverySourceKind)
        requires
            old(self).source_pages_visited < usize::MAX,
            old(self).section_pages_visited < usize::MAX,
            old(self).subsection_pages_visited < usize::MAX,
            old(self).topic_pages_visited < usize::MAX,
        ensures
            final(self).source_pages_visited == old(self).source_pages_visited + 1,
            final(self).section_pages_visited == old(self).section_pages_visited + if source_kind
                == DiscoverySourceKind::Section {
                1int
            } else {
                0
            },
            final(self).subsection_pages_visited == old(self).subsection_pages_visited + if source_kind
                == DiscoverySourceKind::Subsection {
                1int
            } else {
                0
            },
            final(self).topic_pages_visited == old(self).topic_pages_visited + if source_kind
                == DiscoverySourceKind::Topic {
                1int
            } else {
                0
            },
            final(self).section_articles == old(self).section_articles,
            final(self).subsection_articles == old(self).subsection_articles,
            final(self).topic_articles == old(self).topic_articles,
            final(self).deduped_articles == old(self).deduped_articles,
            old(self).visits_consistent() ==> final(self).visits_consistent(),
    {
        self.source_pages_visited += 1;
        match source_kind {
            DiscoverySourceKind::Section => self.section_pages_visited += 1,
            DiscoverySourceKind::Subsection => self.subsection_pages_visited += 1,
            DiscoverySourceKind::Topic => self.topic_pages_visited += 1,
            DiscoverySourceKind::Search => {},
        }
    }

    /// Counts an article found on a source page of the given kind; search
    /// results are not counted.
    pub fn record_article(&mut self, source_kind: DiscoverySourceKind)
        requires
            old(self).section_articles < usize::MAX,
            old(self).subsection_articles < usize::MAX,
            old(self).topic_articles < usize::MAX,
        ensures
            final(self).section_articles == old(self).section_articles + if source_kind
                == DiscoverySourceKind::Section {
                1int
            } else {
                0
            },
            final(self).subsection_articles == old(self).subsection_articles + if source_kind
                == DiscoverySourceKind::Subsection {
                1int
            } else {
                0
            },
            final(self).topic_articles == old(self).topic_articles + if source_kind
                == DiscoverySourceKind::Topic {
                1int
            } else {
                0
            },
            final(self).source_pages_visited == old(self).source_pages_visited,
            final(self).section_pages_visited == old(self).section_pages_visited,
            final(self).subsection_pages_visited == old(self).subsection_pages_visited,
            final(self).topic_pages_visited == old(self).topic_pages_visited,
            final(self).deduped_articles == old(self).deduped_articles,
    {
        match source_kind {
            DiscoverySourceKind::Section => self.section_articles += 1,
            DiscoverySourceKind::Subsection => self.subsection_articles += 1,
            DiscoverySourceKind::Topic => self.topic_articles += 1,
            DiscoverySourceKind::Search => {},
        }
    }
}

/// The article candidates of a section with the discovery counts.
#[derive(Debug, Clone)]
pub struct BrowseSectionResult {
    pub articles: Vec<ArticleSummary>,
    pub report: DiscoveryReport,
}

/// A fetched article with its cleaned text.
#[derive(Debug, Clone)]
pub struct Article {
    pub article_key: String,
    pub url: String,
    pub title: String,
    pub subtitle: String,
    pub author: String,
    pub date: String,
    pub section: String,
    pub body_text: String,
    pub clean_text: String,
    pub word_count: usize,
    pub difficulty: i64,
    pub fetched_at: String,
    /// True if paywall markers were detected — content may be truncated.
    pub paywalled: bool,
}

/// The metadata of an article, without its text.
#[derive(Debug, Clone)]
pub struct ArticleMetadata {
    pub article_key: String,
    pub url: String,
    pub title: String,
    pub date: String,
    pub section: String,
}

} // verus!
