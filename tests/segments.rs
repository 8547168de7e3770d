use audible_util::models::chapters::{
    ChapterInfo, ChapterNamingFormat, ChapterNode, FlattenedChapter, MergedChapter,
};
use audible_util::policy::{
    apply_duration_policy, filter_short_chapters, merge_short_chapters, PolicyError,
};
use audible_util::text::sanitize;

fn node(title: &str, start: i64, len: i64, children: Vec<ChapterNode>) -> ChapterNode {
    ChapterNode {
        length_ms: len,
        start_offset_ms: start,
        start_offset_sec: start / 1000,
        title: title.to_string(),
        chapters: children,
    }
}

fn info(chapters: Vec<ChapterNode>) -> ChapterInfo {
    ChapterInfo {
        brand_intro_duration_ms: 0,
        brand_outro_duration_ms: 0,
        chapters,
        is_accurate: true,
        runtime_length_ms: 100_000,
        runtime_length_sec: 100,
    }
}

fn seg(title: &str, start: i64, len: i64, number: usize) -> FlattenedChapter {
    FlattenedChapter {
        title: title.to_string(),
        full_path: title.to_string(),
        start_offset_ms: start,
        length_ms: len,
        start_offset_sec: start / 1000,
        level: 0,
        chapter_number: number,
    }
}

fn nested_book() -> ChapterInfo {
    info(vec![
        node(
            "Part One",
            0,
            0,
            vec![node("Chapter 1", 0, 1000, vec![]), node("Chapter 2", 1000, 2000, vec![])],
        ),
        node("Part Two", 3000, 500, vec![node("Chapter 3", 3500, 4000, vec![])]),
        node("Epilogue", 7500, 800, vec![]),
    ])
}

#[test]
fn flatten_numbers_consecutively_across_branches() {
    let flat = nested_book().flatten().unwrap();
    let numbers: Vec<usize> = flat.iter().map(|c| c.chapter_number).collect();
    assert_eq!(numbers, vec![1, 2, 3, 4, 5]);
    for w in flat.windows(2) {
        assert_eq!(w[1].chapter_number, w[0].chapter_number + 1);
    }
}

#[test]
fn flatten_builds_paths_and_titles() {
    let flat = nested_book().flatten().unwrap();
    assert_eq!(flat.len(), 5);
    assert_eq!(flat[0].full_path, "Part One > Chapter 1");
    assert_eq!(flat[0].title, "Part_One_Chapter_1");
    assert_eq!(flat[0].level, 1);
    assert_eq!(flat[1].title, "Part_One_Chapter_2");
    // A content parent is rooted in its own title.
    assert_eq!(flat[2].full_path, "Part Two");
    assert_eq!(flat[2].title, "Part_Two");
    assert_eq!(flat[2].level, 0);
    assert_eq!(flat[2].length_ms, 500);
    assert_eq!(flat[3].full_path, "Part Two > Chapter 3");
    assert_eq!(flat[3].title, "Part_Two_Chapter_3");
    assert_eq!(flat[4].full_path, "Epilogue");
    assert_eq!(flat[4].title, "Epilogue");
}

#[test]
fn flatten_single_node_counts_from_one() {
    let root = node("Book", 0, 0, vec![node("A", 0, 10, vec![]), node("B", 10, 10, vec![])]);
    let flat = root.flatten();
    assert_eq!(flat.len(), 2);
    assert_eq!(flat[0].chapter_number, 1);
    assert_eq!(flat[1].full_path, "Book > B");
}

#[test]
fn flatten_recursive_continues_the_counter() {
    let mut out = Vec::new();
    let mut counter: usize = 7;
    node("X", 0, 5, vec![]).flatten_recursive(&mut out, &mut counter, "Top".to_string(), 2);
    assert_eq!(counter, 8);
    assert_eq!(out[0].chapter_number, 7);
    assert_eq!(out[0].full_path, "Top > X");
    assert_eq!(out[0].level, 2);
}

#[test]
fn flatten_leaves_keeps_input_order() {
    let book = info(vec![
        node("Opening Credits", 0, 100, vec![]),
        node("Chapter: One", 100, 200, vec![]),
        node("End", 300, 300, vec![]),
    ]);
    let flat = book.flatten().unwrap();
    assert_eq!(flat.len(), 3);
    let paths: Vec<&str> = flat.iter().map(|c| c.full_path.as_str()).collect();
    assert_eq!(paths, vec!["Opening Credits", "Chapter: One", "End"]);
    assert_eq!(flat[1].title, "Chapter_One");
    assert_eq!(flat[2].start_offset_ms, 300);
}

#[test]
fn flatten_empty_tree() {
    assert!(info(vec![]).flatten().unwrap().is_empty());
}

#[test]
fn merge_scenario_short_then_long() {
    let input = vec![seg("A", 0, 500, 1), seg("B", 500, 5000, 2)];
    let out = merge_short_chapters(&input, 1000);
    assert_eq!(out.len(), 1);
    assert_eq!(out[0].title, "B (includes: A)");
    assert_eq!(out[0].merged_chapters, vec!["B".to_string(), "A".to_string()]);
    assert!(out[0].length_ms >= 5000);
    assert_eq!(out[0].chapter_number, 2);
    assert_eq!(out[0].start_offset_ms, 500);
}

#[test]
fn filter_scenario_short_then_long() {
    let input = vec![seg("A", 0, 500, 1), seg("B", 500, 5000, 2)];
    let out = filter_short_chapters(&input, 1000).unwrap();
    assert_eq!(out.dropped, 1);
    assert_eq!(out.chapters.len(), 1);
    assert_eq!(out.chapters[0].title, "B");
    assert_eq!(out.chapters[0].length_ms, 5000);
    assert_eq!(out.chapters[0].merged_chapters, vec!["B".to_string()]);
}

#[test]
fn filter_with_zero_minimum_keeps_everything() {
    let input = vec![seg("A", 0, 0, 1), seg("B", 0, 10, 2), seg("C", 10, 3, 3)];
    let out = filter_short_chapters(&input, 0).unwrap();
    assert_eq!(out.dropped, 0);
    assert_eq!(out.chapters.len(), 3);
    for (m, f) in out.chapters.iter().zip(input.iter()) {
        assert_eq!(m, &MergedChapter::from_flattened(f));
    }
}

#[test]
fn filter_removing_everything_fails() {
    let input = vec![seg("A", 0, 5, 1), seg("B", 5, 6, 2)];
    assert_eq!(
        filter_short_chapters(&input, 100).unwrap_err(),
        PolicyError::NothingSurvived { dropped: 2 }
    );
}

#[test]
fn merge_keeps_short_last_segment_and_skips_empty() {
    let input = vec![seg("Empty", 0, 0, 1), seg("Long", 0, 5000, 2), seg("Tail", 5000, 200, 3)];
    let out = merge_short_chapters(&input, 1000);
    assert_eq!(out.len(), 2);
    assert_eq!(out[0].title, "Long");
    assert_eq!(out[1].title, "Tail");
    assert_eq!(out[1].length_ms, 200);
}

#[test]
fn merge_total_covers_absorbed_audio_after_base() {
    // The absorbed segment lies after the end of the one that absorbs it.
    let input = vec![seg("Late", 10_000, 500, 1), seg("Base", 0, 5000, 2)];
    let out = merge_short_chapters(&input, 1000);
    let total: i64 = out.iter().map(|c| c.length_ms).sum();
    assert_eq!(total, 10_500);
    assert!(total >= 5500);
}

#[test]
fn merge_with_extends_and_lists_titles() {
    let mut m = MergedChapter::from_flattened(&seg("Base", 1000, 3000, 4));
    m.merge_with(&seg("One", 4000, 2000, 5));
    assert_eq!(m.length_ms, 5000);
    m.merge_with(&seg("Two", 0, 10, 6));
    assert_eq!(m.length_ms, 5000);
    assert_eq!(m.title, "Base (includes: One, Two)");
    assert_eq!(m.merged_chapters.len(), 3);
}

#[test]
fn duration_policy_modes() {
    let input = vec![seg("A", 0, 500, 1), seg("B", 500, 5000, 2)];
    let merged = apply_duration_policy(&input, 1000, true).unwrap();
    assert_eq!(merged.chapters.len(), 1);
    assert_eq!(merged.dropped, 0);
    let filtered = apply_duration_policy(&input, 1000, false).unwrap();
    assert_eq!(filtered.dropped, 1);
    let empty = vec![seg("Z", 0, 0, 1)];
    assert_eq!(apply_duration_policy(&empty, 10, true).unwrap_err(), PolicyError::NothingLeft);
    let huge = vec![seg("S", i64::MAX - 1, 1, 1), seg("T", -10, 5000, 2)];
    assert_eq!(apply_duration_policy(&huge, 1000, true).unwrap_err(), PolicyError::OutOfRange);
}

#[test]
fn should_include_and_merge_predicates() {
    let s = seg("A", 0, 500, 1);
    assert!(s.should_include(500));
    assert!(!s.should_include(501));
    assert!(s.should_merge_with_next(501));
    assert!(!seg("Z", 0, 0, 1).should_merge_with_next(10));
}

#[test]
fn sanitize_twice_is_sanitize_once() {
    for t in ["Part One: The / Beginning?", "a b\\c*d\"e<f>g|h", "Ünïcödé  title", ""] {
        let once = sanitize(t);
        assert_eq!(sanitize(&once), once);
    }
    assert_eq!(sanitize("Part One: The / Beginning?"), "Part_One_The__Beginning");
}

#[test]
fn naming_format_from_str() {
    assert_eq!(
        ChapterNamingFormat::from_str("number-title", false).unwrap(),
        ChapterNamingFormat::NumberTitle
    );
    assert_eq!(
        ChapterNamingFormat::from_str("custom:{number}-{title}", false).unwrap(),
        ChapterNamingFormat::Custom("{number}-{title}".to_string())
    );
    assert!(ChapterNamingFormat::from_str("bogus", false).is_err());
}
