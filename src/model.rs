//! The values that the library hands to its callers.
use vstd::prelude::*;

verus! {

/// Tags as key and value, keys unique.
pub type Tags = Vec<(String, String)>;

/// What an overview of many titles shows of one.
#[derive(PartialEq, Eq, Debug, Clone)]
pub struct TitleShort {
    pub title: String,
    pub poster_url: String,
}

/// Everything shown for a single title.
#[derive(PartialEq, Eq, Debug, Clone)]
pub struct TitleLong {
    pub title: String,
    pub poster_url: String,
    pub banner_url: String,
    /// Title-level tags (genre, year, ...); none are read yet.
    pub metadata: Tags,
    /// The episodes, ordered by video URL.
    pub content: Vec<VideoContent>,
}

/// One episode.
#[derive(PartialEq, Eq, Debug, Clone)]
pub struct VideoContent {
    pub title: String,
    pub video_url: String,
    pub thumbnail_url: String,
    pub description: String,
    pub source: Option<String>,
    /// `episode` and `season` numbers, where the sidecar gives them.
    pub metadata: Tags,
}

} // verus!
