use audible_util::cli::{Cli, OutputFormat, OutputType, SplitStructure};
use audible_util::files::{chapter_file_name, default_output_name, is_aaxc_extension, voucher_file_name};
use audible_util::models::chapters::ChapterNamingFormat;
use audible_util::orchestrator::{Orchestrator, RunAction, RunEvent, RunPhase};
use audible_util::progress::{
    format_size, format_time, format_time_from_ms, parse_ffmpeg_progress_line, parse_milli,
    ConversionProgress,
};

#[test]
fn progress_lines_set_fields() {
    let mut p = ConversionProgress::new(125_000);
    parse_ffmpeg_progress_line("time=00:01:02.500000", &mut p);
    assert_eq!(p.current_time_ms, 62_500);
    parse_ffmpeg_progress_line("speed=1.5x", &mut p);
    assert_eq!(p.speed_milli, 1500);
    parse_ffmpeg_progress_line("bitrate= 128.0", &mut p);
    assert_eq!(p.bitrate_milli, 128_000);
    parse_ffmpeg_progress_line("size=2048", &mut p);
    assert_eq!(p.size, 2048);
    parse_ffmpeg_progress_line("fps=30", &mut p);
    assert_eq!(p.fps_milli, 30_000);
    assert_eq!(p.percentage(), 50);
    assert_eq!(p.eta(), Some(41));
}

#[test]
fn progress_lines_that_do_not_read_change_nothing() {
    let mut p = ConversionProgress::new(1000);
    let before = p;
    for line in ["out_time=00:00:01.0", "time=garbage", "speed=N/A", "speed=2", "size=12kB", "progress=end", ""] {
        parse_ffmpeg_progress_line(line, &mut p);
    }
    assert_eq!(p, before);
    parse_ffmpeg_progress_line("time=12.25", &mut p);
    assert_eq!(p.current_time_ms, 12_250);
}

#[test]
fn percentage_and_eta_edges() {
    let mut p = ConversionProgress::new(0);
    assert_eq!(p.percentage(), 0);
    assert_eq!(p.eta(), None);
    p.total_duration_ms = 1000;
    p.current_time_ms = 5000;
    p.speed_milli = 1000;
    assert_eq!(p.percentage(), 100);
    assert_eq!(p.eta(), None);
    p.current_time_ms = 0;
    p.speed_milli = 0;
    assert_eq!(p.eta(), None);
}

#[test]
fn decimal_reading() {
    assert_eq!(parse_milli("1.5"), Some(1500));
    assert_eq!(parse_milli("0.0456"), Some(45));
    assert_eq!(parse_milli("7"), Some(7000));
    assert_eq!(parse_milli(".5"), Some(500));
    assert_eq!(parse_milli("."), None);
    assert_eq!(parse_milli(""), None);
    assert_eq!(parse_milli("1.2.3"), None);
    assert_eq!(parse_milli("99999999999999999999"), None);
}

#[test]
fn time_texts() {
    assert_eq!(format_time_from_ms(3_723_004), "01:02:03.004");
    assert_eq!(format_time_from_ms(0), "00:00:00.000");
    assert_eq!(format_time_from_ms(360_000_000), "100:00:00.000");
    assert_eq!(format_time(3661), "01:01:01");
}

#[test]
fn size_texts() {
    assert_eq!(format_size(500), "500.0 B");
    assert_eq!(format_size(1536), "1.5 KB");
    assert_eq!(format_size(5 * 1024 * 1024), "5.0 MB");
    assert_eq!(format_size(3 * 1024 * 1024 * 1024), "3.0 GB");
}

#[test]
fn run_that_succeeds() {
    let mut o = Orchestrator::new(2);
    assert_eq!(o.step(RunEvent::Begin), RunAction::AnnounceStart { total: 2 });
    assert_eq!(o.step(RunEvent::NextSegment), RunAction::StartSegment { number: 1 });
    assert_eq!(o.step(RunEvent::OutputLine), RunAction::ReportProgress { number: 1 });
    assert_eq!(o.step(RunEvent::ProcessExited { success: true }), RunAction::CompleteSegment { number: 1 });
    assert_eq!(o.step(RunEvent::NextSegment), RunAction::StartSegment { number: 2 });
    assert_eq!(o.step(RunEvent::ProcessExited { success: true }), RunAction::CompleteSegment { number: 2 });
    assert!(!o.is_finished());
    assert_eq!(o.step(RunEvent::NextSegment), RunAction::CompleteAll { total: 2 });
    assert!(o.is_finished());
    assert_eq!(o.phase, RunPhase::AllCompleted);
}

#[test]
fn run_that_fails_stops() {
    let mut o = Orchestrator::new(3);
    o.step(RunEvent::Begin);
    o.step(RunEvent::NextSegment);
    assert_eq!(o.step(RunEvent::ProcessExited { success: false }), RunAction::Abort { number: 1 });
    assert_eq!(o.phase, RunPhase::AllFailed);
    assert_eq!(o.step(RunEvent::NextSegment), RunAction::Ignore);
    assert!(o.is_finished());
}

#[test]
fn file_names() {
    assert_eq!(chapter_file_name("Book-AAX_44_128"), "Book-chapters.json");
    assert_eq!(chapter_file_name("Book"), "Book-chapters.json");
    assert_eq!(voucher_file_name("Book-AAX_44_128"), "Book-AAX_44_128.voucher");
    assert_eq!(default_output_name("The Way of Kings", "mp3"), "the_way_of_kings.mp3");
    assert!(is_aaxc_extension("AaXc"));
    assert!(!is_aaxc_extension("aax"));
}

#[test]
fn output_formats() {
    let f = OutputType::M4a.get_format();
    assert_eq!((f.codec(), f.extension()), ("aac", "m4a"));
    let w = OutputType::Wav.get_format();
    assert_eq!((w.codec, w.extension), ("pcm_s16le", "wav"));
    assert_eq!(OutputType::Ogg.get_format().codec, "vorbis");
}

#[test]
fn minimum_duration_in_milliseconds() {
    let mut cli = Cli {
        aaxc_path: "a.aaxc".to_string(),
        voucher_path: None,
        output_path: None,
        split: true,
        min_chapter_duration: Some(5),
        chapter_naming_format: ChapterNamingFormat::ChapterNumberTitle,
        split_structure: SplitStructure::Flat,
        merge_short_chapters: false,
        output_type: OutputType::Mp3,
        verbose_progress: false,
        machine_readable: false,
        threads: "0".to_string(),
    };
    assert_eq!(cli.min_chapter_duration_ms(), Some(5000));
    cli.min_chapter_duration = None;
    assert_eq!(cli.min_chapter_duration_ms(), Some(0));
    cli.min_chapter_duration = Some(u64::MAX);
    assert_eq!(cli.min_chapter_duration_ms(), None);
}

#[test]
fn probe_duration() {
    assert_eq!(audible_util::progress::parse_duration_ms("1:00:00.5"), 3_600_500);
    assert_eq!(audible_util::progress::parse_duration_ms("90"), 90_000);
    assert_eq!(audible_util::progress::parse_duration_ms("N/A"), 0);
}
