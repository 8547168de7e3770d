use audible_util::models::chapters::{
    AudibleChapters, ChapterInfo, ChapterNode, ContentMetadata, ContentReference,
    LastPositionHeard,
};
use audible_util::models::ffprobe_format::{FFProbeFormat, Format, Tags};
use audible_util::models::voucher::{AudibleCliVoucher, ContentLicense, LicenseResponse};

fn leaf(title: &str, len: i64) -> ChapterNode {
    ChapterNode { length_ms: len, start_offset_ms: 0, start_offset_sec: 0, title: title.to_string(), chapters: vec![] }
}

fn group(title: &str, len: i64, children: Vec<ChapterNode>) -> ChapterNode {
    ChapterNode { length_ms: len, start_offset_ms: 0, start_offset_sec: 0, title: title.to_string(), chapters: children }
}

fn chapter_info(chapters: Vec<ChapterNode>) -> ChapterInfo {
    ChapterInfo {
        brand_intro_duration_ms: 2000,
        brand_outro_duration_ms: 3000,
        chapters,
        is_accurate: true,
        runtime_length_ms: 60_000,
        runtime_length_sec: 60,
    }
}

fn reference() -> ContentReference {
    ContentReference {
        acr: "acr".to_string(),
        asin: "B000".to_string(),
        codec: "mp4a".to_string(),
        content_format: "AAX".to_string(),
        content_size_in_bytes: 1000,
        file_version: "1".to_string(),
        marketplace: "US".to_string(),
        sku: "SKU".to_string(),
        tempo: "1.0".to_string(),
        version: "2".to_string(),
    }
}

fn position() -> LastPositionHeard {
    LastPositionHeard { last_updated: Some("2024-01-01".to_string()), position_ms: Some(5), status: "Exists".to_string() }
}

fn document(chapters: Vec<ChapterNode>) -> AudibleChapters {
    AudibleChapters {
        content_metadata: ContentMetadata {
            chapter_info: chapter_info(chapters),
            content_reference: reference(),
            last_position_heard: position(),
        },
        response_groups: vec!["chapter_info".to_string()],
    }
}

#[test]
fn valid_tree_passes() {
    let tree = group("Part", 0, vec![leaf("One", 10), group("Two", 5, vec![leaf("Sub", 3)])]);
    assert_eq!(tree.validate(), Ok(()));
    assert_eq!(document(vec![tree]).validate(), Ok(()));
}

#[test]
fn tree_violations_name_their_place() {
    let bad = chapter_info(vec![
        leaf("a", 1),
        leaf("b", 1),
        group("c", 0, vec![leaf("  ", 4)]),
    ]);
    assert_eq!(bad.validate(), Err("chapters[2].chapters[0]: title is empty".to_string()));
    let node = group("c", 0, vec![leaf("ok", 1), leaf("zero", 0)]);
    assert_eq!(node.validate(), Err("chapters[1]: length_ms is not positive".to_string()));
    assert_eq!(leaf("", 5).validate(), Err("title is empty".to_string()));
    assert_eq!(group("g", -1, vec![leaf("x", 1)]).validate(), Err("length_ms is negative".to_string()));
    let mut neg = leaf("n", 5);
    neg.start_offset_ms = -1;
    assert_eq!(neg.validate(), Err("start_offset_ms is negative".to_string()));
    neg.start_offset_ms = 0;
    neg.start_offset_sec = -1;
    assert_eq!(neg.validate(), Err("start_offset_sec is negative".to_string()));
}

#[test]
fn chapter_info_durations() {
    let mut c = chapter_info(vec![]);
    c.brand_intro_duration_ms = -1;
    assert_eq!(c.validate(), Err("brand_intro_duration_ms is negative".to_string()));
    let mut c = chapter_info(vec![]);
    c.brand_outro_duration_ms = -1;
    assert_eq!(c.validate(), Err("brand_outro_duration_ms is negative".to_string()));
    let mut c = chapter_info(vec![]);
    c.runtime_length_ms = 0;
    assert_eq!(c.validate(), Err("runtime_length_ms is not positive".to_string()));
    let mut c = chapter_info(vec![]);
    c.runtime_length_sec = 0;
    assert_eq!(c.validate(), Err("runtime_length_sec is not positive".to_string()));
}

#[test]
fn document_errors_are_prefixed() {
    let d = document(vec![leaf("", 1)]);
    assert_eq!(d.validate(), Err("content_metadata: chapter_info: chapters[0]: title is empty".to_string()));
    let mut d = document(vec![]);
    d.response_groups.clear();
    assert_eq!(d.validate(), Err("response_groups is empty".to_string()));
    let mut d = document(vec![]);
    d.content_metadata.content_reference.sku = " ".to_string();
    assert_eq!(d.validate(), Err("content_metadata: content_reference: sku is empty".to_string()));
    let mut d = document(vec![]);
    d.content_metadata.last_position_heard.status = String::new();
    assert_eq!(d.validate(), Err("content_metadata: last_position_heard: status is empty".to_string()));
}

#[test]
fn content_reference_checks() {
    assert_eq!(reference().validate(), Ok(()));
    let mut r = reference();
    r.content_size_in_bytes = 0;
    assert_eq!(r.validate(), Err("content_size_in_bytes is not positive".to_string()));
    let mut r = reference();
    r.acr = "\t".to_string();
    assert_eq!(r.validate(), Err("acr is empty".to_string()));
}

#[test]
fn last_position_checks() {
    assert_eq!(position().validate(), Ok(()));
    let p = LastPositionHeard { last_updated: None, position_ms: None, status: "x".to_string() };
    assert_eq!(p.validate(), Ok(()));
    let p = LastPositionHeard { last_updated: Some(" ".to_string()), position_ms: None, status: "x".to_string() };
    assert_eq!(p.validate(), Err("last_updated is empty".to_string()));
    let p = LastPositionHeard { last_updated: None, position_ms: Some(-3), status: "x".to_string() };
    assert_eq!(p.validate(), Err("position_ms is negative".to_string()));
}

fn tags() -> Tags {
    let s = |v: &str| v.to_string();
    Tags {
        major_brand: s("aax"),
        minor_version: s("1"),
        compatible_brands: s("aax M4A"),
        creation_time: s("2020"),
        genre: s("Audiobook"),
        title: s("Oathbringer"),
        artist: s("Brandon Sanderson"),
        album_artist: s("Kate Reading"),
        album: s("Oathbringer"),
        comment: s("c"),
        copyright: s("(c)"),
        date: s("2017"),
    }
}

fn format() -> Format {
    let s = |v: &str| v.to_string();
    Format {
        filename: s("book.aaxc"),
        nb_streams: 2,
        nb_programs: 0,
        nb_stream_groups: 0,
        format_name: s("mov,mp4"),
        format_long_name: s("QuickTime / MOV"),
        start_time: s("0:00:00.000000"),
        duration: s("55:04:50.123000"),
        size: s("12345"),
        bit_rate: s("64000"),
        probe_score: 100,
        tags: tags(),
    }
}

#[test]
fn probe_report_checks() {
    assert_eq!(FFProbeFormat { format: format() }.validate(), Ok(()));
    let mut f = format();
    f.nb_streams = 0;
    assert_eq!(f.validate(), Err("nb_streams is not positive".to_string()));
    let mut f = format();
    f.probe_score = -1;
    assert_eq!(f.validate(), Err("probe_score is negative".to_string()));
    let mut f = format();
    f.tags.album = String::new();
    assert_eq!(FFProbeFormat { format: f }.validate(), Err("format: tags: album is empty".to_string()));
    let mut t = tags();
    t.date = " ".to_string();
    assert_eq!(t.validate(), Err("date is empty".to_string()));
}

#[test]
fn voucher_checks() {
    let v = |key: &str, iv: &str| AudibleCliVoucher {
        content_license: ContentLicense {
            license_response: LicenseResponse { key: key.to_string(), iv: iv.to_string() },
        },
    };
    assert_eq!(v("k", "i").validate(), Ok(()));
    assert_eq!(v("", "i").validate(), Err("content_license: license_response: key is empty".to_string()));
    assert_eq!(v("k", " ").validate(), Err("content_license: license_response: iv is empty".to_string()));
}
