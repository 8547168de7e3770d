//! The two-level chapter document of older exports: top-level chapters whose
//! sub-chapters have no children of their own.
use vstd::prelude::*;

verus! {

#[derive(Debug, Clone, PartialEq)]
pub struct AudibleChapters {
    pub content_metadata: ContentMetadata,
    pub response_groups: Vec<String>,
}

#[derive(Debug, Clone, PartialEq)]
pub struct ContentMetadata {
    pub chapter_info: ChapterInfo,
    pub content_reference: ContentReference,
    pub last_position_heard: LastPositionHeard,
}

#[derive(Debug, Clone, PartialEq)]
pub struct ChapterInfo {
    pub brand_intro_duration_ms: i64,
    pub brand_outro_duration_ms: i64,
    pub chapters: Vec<Chapter>,
    pub is_accurate: bool,
    pub runtime_length_ms: i64,
    pub runtime_length_sec: i64,
}

#[derive(Debug, Clone, PartialEq)]
/// A top-level chapter.
pub struct Chapter {
    pub length_ms: i64,
    pub start_offset_ms: i64,
    pub start_offset_sec: i64,
    pub title: String,
    pub chapters: Vec<Chapter2>,
}

#[derive(Debug, Clone, PartialEq)]
/// A sub-chapter.
pub struct Chapter2 {
    pub length_ms: i64,
    pub start_offset_ms: i64,
    pub start_offset_sec: i64,
    pub title: String,
}

#[derive(Debug, Clone, PartialEq)]
pub struct ContentReference {
    pub acr: String,
    pub asin: String,
    pub codec: String,
    pub content_format: String,
    pub content_size_in_bytes: i64,
    pub file_version: String,
    pub marketplace: String,
    pub sku: String,
    pub tempo: String,
    pub version: String,
}

#[derive(Debug, Clone, PartialEq)]
pub struct LastPositionHeard {
    pub last_updated: String,
    pub position_ms: i64,
    pub status: String,
}

} // verus!
