use audible_util::cli::SplitStructure;
use audible_util::models::chapters::{ChapterNamingFormat, FlattenedChapter, MergedChapter};
use audible_util::naming::{render_filename, split_on_separator};
use audible_util::orchestrator::plan_chapter;

fn merged(title: &str, path: &str, number: usize) -> MergedChapter {
    MergedChapter {
        title: title.to_string(),
        full_path: path.to_string(),
        start_offset_ms: 3_723_004,
        length_ms: 61_500,
        start_offset_sec: 3723,
        level: 0,
        chapter_number: number,
        merged_chapters: vec![title.to_string()],
    }
}

#[test]
fn chapter_number_title_scenario() {
    let m = merged("The Alleyway: Part One", "The Alleyway: Part One", 3);
    assert_eq!(
        m.generate_filename(&ChapterNamingFormat::ChapterNumberTitle, "mp3"),
        "Chapter03_The_Alleyway_Part_One.mp3"
    );
}

#[test]
fn custom_pattern_scenario() {
    let m = merged("Intro", "Intro", 7);
    let f = ChapterNamingFormat::Custom("{number:02} - {title}.{extension}".to_string());
    assert_eq!(m.generate_filename(&f, "flac"), "07 - Intro.flac");
}

#[test]
fn custom_pattern_chapter_placeholders() {
    let f = ChapterNamingFormat::Custom("{chapter:02}_{chapter}_{number}_{title}.{extension}".to_string());
    assert_eq!(render_filename(&f, 5, "A b", "ogg"), "05_5_5_A_b.ogg");
    let wide = ChapterNamingFormat::Custom("{number:02}".to_string());
    assert_eq!(render_filename(&wide, 123, "x", "mp3"), "123");
}

#[test]
fn other_templates() {
    assert_eq!(render_filename(&ChapterNamingFormat::NumberTitle, 12, "Hello World", "wav"), "12_Hello_World.wav");
    assert_eq!(render_filename(&ChapterNamingFormat::TitleOnly, 12, "Hello/World?", "wav"), "HelloWorld.wav");
}

#[test]
fn numbered_names_differ_by_number() {
    for f in [ChapterNamingFormat::ChapterNumberTitle, ChapterNamingFormat::NumberTitle] {
        let a = render_filename(&f, 1, "Same", "mp3");
        let b = render_filename(&f, 2, "Same", "mp3");
        let c = render_filename(&f, 10, "Same", "mp3");
        assert_ne!(a, b);
        assert_ne!(a, c);
        assert_ne!(b, c);
    }
}

#[test]
fn split_on_separator_components() {
    assert_eq!(split_on_separator("A > B > C"), vec!["A", "B", "C"]);
    assert_eq!(split_on_separator("Solo"), vec!["Solo"]);
    assert_eq!(split_on_separator(""), vec![""]);
}

#[test]
fn hierarchical_path_nests_under_ancestors() {
    let m = merged("Part_One_Chapter_1", "Part One: Empire > Chapter 1", 1);
    let p = m.get_hierarchical_output_path("out", &ChapterNamingFormat::NumberTitle, "mp3");
    assert_eq!(p.base, "out");
    assert_eq!(p.dirs, vec!["Part_One_Empire"]);
    assert_eq!(p.file_name, "01_Part_One_Chapter_1.mp3");
}

#[test]
fn hierarchical_path_of_content_parent() {
    let m = merged("Part_Two", "Part Two", 3);
    let p = m.get_hierarchical_output_path("out", &ChapterNamingFormat::ChapterNumberTitle, "mp3");
    assert_eq!(p.dirs, vec!["Part_Two"]);
    assert_eq!(p.file_name, "Chapter03_Part_Two.mp3");
    let q = m.get_hierarchical_output_path("out", &ChapterNamingFormat::NumberTitle, "mp3");
    assert!(q.dirs.is_empty());
}

#[test]
fn flattened_paths() {
    let f = FlattenedChapter {
        title: "X Y".to_string(),
        full_path: "A > B > X Y".to_string(),
        start_offset_ms: 0,
        length_ms: 10,
        start_offset_sec: 0,
        level: 2,
        chapter_number: 4,
    };
    let flat = f.get_output_path("base", &ChapterNamingFormat::TitleOnly, "m4a");
    assert!(flat.dirs.is_empty());
    assert_eq!(flat.file_name, "X_Y.m4a");
    let h = f.get_hierarchical_output_path("base", &ChapterNamingFormat::TitleOnly, "m4a");
    assert_eq!(h.dirs, vec!["A", "B"]);
    assert_eq!(f.generate_filename(&ChapterNamingFormat::ChapterNumberTitle, "mp3"), "Chapter04_X_Y.mp3");
}

#[test]
fn plan_chapter_window_and_path() {
    let m = merged("Intro", "Part > Intro", 2);
    let job = plan_chapter(&m, &ChapterNamingFormat::NumberTitle, SplitStructure::Hierarchical, "o", "mp3");
    assert_eq!(job.start_time, "01:02:03.004");
    assert_eq!(job.duration, "00:01:01.500");
    assert_eq!(job.duration_ms, 61_500);
    assert_eq!(job.output.dirs, vec!["Part"]);
    let flat = plan_chapter(&m, &ChapterNamingFormat::NumberTitle, SplitStructure::Flat, "o", "mp3");
    assert!(flat.output.dirs.is_empty());
    assert_eq!(flat.output.file_name, "02_Intro.mp3");
}
