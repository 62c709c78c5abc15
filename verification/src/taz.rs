//! taz.de articles: the shared models, text cleanup and the section list.

pub mod models;
pub mod normalize;
pub mod sections;

pub use models::{
    Article, ArticleMetadata, ArticleSummary, BrowseSectionResult, DiscoveryReport,
    DiscoverySourceKind, Section,
};
pub use normalize::estimate_difficulty;
pub use sections::sections;
