//! The documents the converter reads: the chapter table and the prober's report.
pub mod chapters;
pub mod ffprobe_format;
pub mod voucher;

pub use chapters::{
    AudibleChapters, ChapterInfo, ChapterNamingFormat, ChapterNode, ContentMetadata,
    ContentReference, FlattenedChapter, LastPositionHeard, MergedChapter,
};
pub use ffprobe_format::{FFProbeFormat, Format, Tags};
pub use voucher::{AudibleCliVoucher, ContentLicense, LicenseResponse};
