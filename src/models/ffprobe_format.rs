//! The prober's report on the source file.
use crate::text::{fail, blank, is_blank, prefixed, reports, with_prefix};
use vstd::prelude::*;

verus! {

#[derive(Debug, Clone, PartialEq)]
/// The prober's report: the container format of the source file.
pub struct FFProbeFormat {
    pub format: Format,
}

#[derive(Debug, Clone, PartialEq)]
pub struct Format {
    pub filename: String,
    pub nb_streams: i64,
    pub nb_programs: i64,
    pub nb_stream_groups: i64,
    pub format_name: String,
    pub format_long_name: String,
    pub start_time: String,
    /// The total duration, as `HH:MM:SS.micros`.
    pub duration: String,
    pub size: String,
    pub bit_rate: String,
    pub probe_score: i64,
    pub tags: Tags,
}

#[derive(Debug, Clone, PartialEq)]
pub struct Tags {
    pub major_brand: String,
    pub minor_version: String,
    pub compatible_brands: String,
    pub creation_time: String,
    pub genre: String,
    pub title: String,
    pub artist: String,
    pub album_artist: String,
    pub album: String,
    pub comment: String,
    pub copyright: String,
    pub date: String,
}

pub open spec fn tags_error(t: Tags) -> Option<Seq<char>> {
    if is_blank(t.major_brand@) {
        Some("major_brand is empty"@)
    } else if is_blank(t.minor_version@) {
        Some("minor_version is empty"@)
    } else if is_blank(t.compatible_brands@) {
        Some("compatible_brands is empty"@)
    } else if is_blank(t.creation_time@) {
        Some("creation_time is empty"@)
    } else if is_blank(t.genre@) {
        Some("genre is empty"@)
    } else if is_blank(t.title@) {
        Some("title is empty"@)
    } else if is_blank(t.artist@) {
        Some("artist is empty"@)
    } else if is_blank(t.album_artist@) {
        Some("album_artist is empty"@)
    } else if is_blank(t.album@) {
        Some("album is empty"@)
    } else if is_blank(t.comment@) {
        Some("comment is empty"@)
    } else if is_blank(t.copyright@) {
        Some("copyright is empty"@)
    } else if is_blank(t.date@) {
        Some("date is empty"@)
    } else {
        None
    }
}

pub open spec fn format_error(f: Format) -> Option<Seq<char>> {
    if is_blank(f.filename@) {
        Some("filename is empty"@)
    } else if f.nb_streams <= 0 {
        Some("nb_streams is not positive"@)
    } else if is_blank(f.format_name@) {
        Some("format_name is empty"@)
    } else if is_blank(f.format_long_name@) {
        Some("format_long_name is empty"@)
    } else if is_blank(f.start_time@) {
        Some("start_time is empty"@)
    } else if is_blank(f.duration@) {
        Some("duration is empty"@)
    } else if is_blank(f.size@) {
        Some("size is empty"@)
    } else if is_blank(f.bit_rate@) {
        Some("bit_rate is empty"@)
    } else if f.probe_score < 0 {
        Some("probe_score is negative"@)
    } else {
        prefixed("tags: "@, tags_error(f.tags))
    }
}

impl FFProbeFormat {
    /// Checks the format section.
    pub fn validate(&self) -> (r: Result<(), String>)
        ensures
            reports(r, prefixed("format: "@, format_error(self.format))),
    {
        with_prefix("format: ", self.format.validate())
    }
}

impl Format {
    /// Checks that the text fields are non-blank, the stream count positive and the
    /// probe score not negative, then the tags.
    pub fn validate(&self) -> (r: Result<(), String>)
        ensures
            reports(r, format_error(*self)),
    {
        if blank(self.filename.as_str()) {
            return fail("filename is empty");
        }
        if self.nb_streams <= 0 {
            return fail("nb_streams is not positive");
        }
        if blank(self.format_name.as_str()) {
            return fail("format_name is empty");
        }
        if blank(self.format_long_name.as_str()) {
            return fail("format_long_name is empty");
        }
        if blank(self.start_time.as_str()) {
            return fail("start_time is empty");
        }
        if blank(self.duration.as_str()) {
            return fail("duration is empty");
        }
        if blank(self.size.as_str()) {
            return fail("size is empty");
        }
        if blank(self.bit_rate.as_str()) {
            return fail("bit_rate is empty");
        }
        if self.probe_score < 0 {
            return fail("probe_score is negative");
        }
        with_prefix("tags: ", self.tags.validate())
    }
}

impl Tags {
    /// Checks that every tag is non-blank.
    pub fn validate(&self) -> (r: Result<(), String>)
        ensures
            reports(r, tags_error(*self)),
    {
        if blank(self.major_brand.as_str()) {
            return fail("major_brand is empty");
        }
        if blank(self.minor_version.as_str()) {
            return fail("minor_version is empty");
        }
        if blank(self.compatible_brands.as_str()) {
            return fail("compatible_brands is empty");
        }
        if blank(self.creation_time.as_str()) {
            return fail("creation_time is empty");
        }
        if blank(self.genre.as_str()) {
            return fail("genre is empty");
        }
        if blank(self.title.as_str()) {
            return fail("title is empty");
        }
        if blank(self.artist.as_str()) {
            return fail("artist is empty");
        }
        if blank(self.album_artist.as_str()) {
            return fail("album_artist is empty");
        }
        if blank(self.album.as_str()) {
            return fail("album is empty");
        }
        if blank(self.comment.as_str()) {
            return fail("comment is empty");
        }
        if blank(self.copyright.as_str()) {
            return fail("copyright is empty");
        }
        if blank(self.date.as_str()) {
            return fail("date is empty");
        }
        Ok(())
    }
}

} // verus!
