//! The options of a conversion run and the output formats it can produce.
use crate::models::ChapterNamingFormat;
use vstd::prelude::*;

verus! {

#[derive(Debug, Clone, PartialEq)]
/// The options of a conversion run.
pub struct Cli {
    /// The encrypted input file.
    pub aaxc_path: String,
    /// The voucher with the decryption key; inferred from the input's name when absent.
    pub voucher_path: Option<String>,
    /// The output file or directory.
    pub output_path: Option<String>,
    /// Split the output by chapters.
    pub split: bool,
    /// The minimum chapter duration, in seconds.
    pub min_chapter_duration: Option<u64>,
    pub chapter_naming_format: ChapterNamingFormat,
    pub split_structure: SplitStructure,
    /// Merge short chapters into the next one instead of dropping them.
    pub merge_short_chapters: bool,
    pub output_type: OutputType,
    /// Report more progress details.
    pub verbose_progress: bool,
    /// Report progress as one JSON object per line.
    pub machine_readable: bool,
    /// The encoder's thread count, passed on as given.
    pub threads: String,
}

impl Cli {
    /// The minimum chapter duration in milliseconds (zero when none is given), or
    /// `None` when it does not fit in an `i64`.
    pub fn min_chapter_duration_ms(&self) -> (r: Option<i64>)
        ensures
            match self.min_chapter_duration {
                None => r == Some(0i64),
                Some(s) => if s * 1000 <= i64::MAX {
                    r == Some((s * 1000) as i64)
                } else {
                    r is None
                },
            },
    {
        match self.min_chapter_duration {
            None => Some(0),
            Some(s) => {
                if s > (i64::MAX as u64) / 1000 {
                    None
                } else {
                    Some((s * 1000) as i64)
                }
            },
        }
    }
}

/// An audio format: the encoder's codec and the file extension.
pub trait OutputFormat {
    fn codec(&self) -> &'static str;

    fn extension(&self) -> &'static str;
}

#[derive(Debug, Clone, PartialEq)]
pub struct Mp3Format;

#[derive(Debug, Clone, PartialEq)]
pub struct WavFormat;

#[derive(Debug, Clone, PartialEq)]
pub struct FlacFormat;

#[derive(Debug, Clone, PartialEq)]
pub struct AacFormat;

#[derive(Debug, Clone, PartialEq)]
pub struct OggFormat;

impl OutputFormat for Mp3Format {
    fn codec(&self) -> &'static str {
        "mp3"
    }

    fn extension(&self) -> &'static str {
        "mp3"
    }
}

impl OutputFormat for WavFormat {
    fn codec(&self) -> &'static str {
        "pcm_s16le"
    }

    fn extension(&self) -> &'static str {
        "wav"
    }
}

impl OutputFormat for FlacFormat {
    fn codec(&self) -> &'static str {
        "flac"
    }

    fn extension(&self) -> &'static str {
        "flac"
    }
}

impl OutputFormat for AacFormat {
    fn codec(&self) -> &'static str {
        "aac"
    }

    fn extension(&self) -> &'static str {
        "m4a"
    }
}

impl OutputFormat for OggFormat {
    fn codec(&self) -> &'static str {
        "vorbis"
    }

    fn extension(&self) -> &'static str {
        "ogg"
    }
}

#[derive(Debug, Clone, PartialEq)]
/// A codec and extension pair, as [`OutputType::get_format`] gives it.
pub struct AudioFormat {
    pub codec: &'static str,
    pub extension: &'static str,
}

impl OutputFormat for AudioFormat {
    fn codec(&self) -> &'static str {
        self.codec
    }

    fn extension(&self) -> &'static str {
        self.extension
    }
}

/// The output file type.
#[derive(Debug, Clone, Copy, PartialEq, Eq, Structural)]
pub enum OutputType {
    /// MPEG Layer 3 Audio (.mp3)
    Mp3,
    /// Waveform Audio File Format (.wav)
    Wav,
    /// Free Lossless Audio Codec (.flac)
    Flac,
    /// Advanced Audio Coding (.m4a)
    M4a,
    /// Ogg Vorbis Audio (.ogg)
    Ogg,
}

/// How split chapter files are laid out.
#[derive(Debug, Clone, Copy, PartialEq, Eq, Structural)]
pub enum SplitStructure {
    /// All chapters in a single directory.
    Flat,
    /// Directories that mirror the chapter hierarchy.
    Hierarchical,
}

/// The codec that the encoder is given for `t`.
pub open spec fn codec_of(t: OutputType) -> Seq<char> {
    match t {
        OutputType::Mp3 => "mp3"@,
        OutputType::Wav => "pcm_s16le"@,
        OutputType::Flac => "flac"@,
        OutputType::M4a => "aac"@,
        OutputType::Ogg => "vorbis"@,
    }
}

/// The extension of the files written for `t`.
pub open spec fn extension_of(t: OutputType) -> Seq<char> {
    match t {
        OutputType::Mp3 => "mp3"@,
        OutputType::Wav => "wav"@,
        OutputType::Flac => "flac"@,
        OutputType::M4a => "m4a"@,
        OutputType::Ogg => "ogg"@,
    }
}

impl OutputType {
    /// The codec and extension of this type.
    pub fn get_format(&self) -> (r: AudioFormat)
        ensures
            r.codec@ == codec_of(*self),
            r.extension@ == extension_of(*self),
    {
        match self {
            OutputType::Mp3 => AudioFormat { codec: "mp3", extension: "mp3" },
            OutputType::Wav => AudioFormat { codec: "pcm_s16le", extension: "wav" },
            OutputType::Flac => AudioFormat { codec: "flac", extension: "flac" },
            OutputType::M4a => AudioFormat { codec: "aac", extension: "m4a" },
            OutputType::Ogg => AudioFormat { codec: "vorbis", extension: "ogg" },
        }
    }
}

/// The prefix that selects a custom naming pattern.
pub open spec fn custom_prefix() -> Seq<char> {
    seq!['c', 'u', 's', 't', 'o', 'm', ':']
}

/// The naming format that a command-line value selects, if any.
pub open spec fn naming_format_of(input: Seq<char>) -> Option<ChapterNamingFormat> {
    if input == "chapter-number-title"@ {
        Some(ChapterNamingFormat::ChapterNumberTitle)
    } else if input == "number-title"@ {
        Some(ChapterNamingFormat::NumberTitle)
    } else if input == "title-only"@ {
        Some(ChapterNamingFormat::TitleOnly)
    } else {
        None
    }
}

impl ChapterNamingFormat {
    /// Reads a naming format from its command-line value: one of the three named
    /// formats, or `custom:` followed by a pattern.
    pub fn from_str(input: &str, _ignore_case: bool) -> (r: Result<ChapterNamingFormat, String>)
        ensures
            naming_format_of(input@) is Some ==> r == Ok::<ChapterNamingFormat, String>(
                naming_format_of(input@)->Some_0,
            ),
            naming_format_of(input@) is None && input@.len() >= 7 && input@.take(7) == custom_prefix()
                ==> (r is Ok && r->Ok_0 is Custom && r->Ok_0->Custom_0@ == input@.skip(7)),
            naming_format_of(input@) is None && !(input@.len() >= 7 && input@.take(7) == custom_prefix())
                ==> r is Err && r->Err_0@ == "Invalid chapter naming format: "@
                + input@ + ". Valid options: chapter-number-title, number-title, title-only, custom:pattern"@,
    {
        let v = crate::text::chars_of(input);
        if crate::text::str_eq(input, "chapter-number-title") {
            return Ok(ChapterNamingFormat::ChapterNumberTitle);
        }
        if crate::text::str_eq(input, "number-title") {
            return Ok(ChapterNamingFormat::NumberTitle);
        }
        if crate::text::str_eq(input, "title-only") {
            return Ok(ChapterNamingFormat::TitleOnly);
        }
        let p = crate::text::chars_of("custom:");
        proof {
            reveal_strlit("custom:");
        }
        assert(p@ =~= custom_prefix());
        if v.len() >= 7 && crate::text::matches_at(&v, &p, 0) {
            assert(v@.subrange(0, 7) =~= v@.take(7));
            let rest = input.substring_char(7, v.len());
            return Ok(ChapterNamingFormat::Custom(String::from_str(rest)));
        }
        assert(v@.len() >= 7 ==> v@.subrange(0, 7) =~= v@.take(7));
        let mut m = String::from_str("Invalid chapter naming format: ");
        m.append(input);
        m.append(". Valid options: chapter-number-title, number-title, title-only, custom:pattern");
        Err(m)
    }
}

} // verus!
