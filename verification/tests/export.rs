use meetily_speakers::double::Double;
use meetily_speakers::export::{
    can_cut_stem, can_name, format_timestamp, format_txt, format_vtt, plan_export, render_export,
    sanitize_filename_stem, speaker_display_label,
};
use meetily_speakers::models::{MeetingDetails, MeetingTranscript};

fn double(x: f64) -> Double {
    Double { bits: x.to_bits() }
}

fn seg(text: &str, start: Option<f64>, end: Option<f64>, dur: Option<f64>) -> MeetingTranscript {
    MeetingTranscript {
        id: "t".to_string(),
        text: text.to_string(),
        timestamp: "00:00:00".to_string(),
        audio_start_time: start.map(double),
        audio_end_time: end.map(double),
        duration: dur.map(double),
        speaker_profile_id: None,
        speaker_label: None,
        speaker_confidence: None,
        speaker_confirmed: None,
    }
}

fn labelled(text: &str, start: f64, end: Option<f64>, label: &str) -> MeetingTranscript {
    let mut s = seg(text, Some(start), end, None);
    s.speaker_label = Some(label.to_string());
    s
}

fn meeting(title: &str, created_at: &str, transcripts: Vec<MeetingTranscript>) -> MeetingDetails {
    MeetingDetails {
        id: "m".to_string(),
        title: title.to_string(),
        created_at: created_at.to_string(),
        transcripts,
    }
}

#[test]
fn test_txt_happy_path() {
    let segs = vec![
        seg("Hello world", Some(10.0), None, None),
        seg("Second line", Some(15.0), None, None),
    ];
    let result = format_txt(&segs);
    assert!(result.contains("[00:00:10.00] Hello world"));
    assert!(result.contains("[00:00:15.00] Second line"));
}

#[test]
fn test_txt_null_timestamp() {
    let segs = vec![seg("No timestamp", None, None, None)];
    let result = format_txt(&segs);
    assert_eq!(result, "No timestamp\n");
}

#[test]
fn test_txt_newline_collapse() {
    let segs = vec![seg("Line1\nLine2", Some(1.0), None, None)];
    let result = format_txt(&segs);
    assert_eq!(result, "[00:00:01.00] Line1 Line2\n");
}

#[test]
fn test_txt_ordering() {
    let segs = vec![
        seg("Second", Some(5.0), None, None),
        seg("First", Some(1.0), None, None),
    ];
    let result = format_txt(&segs);
    assert!(result.starts_with("[00:00:01.00] First"));
}

#[test]
fn test_txt_hour_rollover() {
    let segs = vec![seg("Late", Some(3720.0), None, None)];
    let result = format_txt(&segs);
    assert!(result.contains("[01:02:00.00] Late"));
}

#[test]
fn test_txt_empty() {
    assert_eq!(format_txt(&[]), "");
}

#[test]
fn test_vtt_happy_path() {
    let segs = vec![seg("Hello", Some(1.0), Some(3.0), None)];
    let (result, skipped) = format_vtt(&segs);
    assert_eq!(skipped, 0);
    assert!(result.starts_with("WEBVTT"));
    assert!(result.contains("00:00:01.00 --> 00:00:03.00"));
    assert!(result.contains("Hello"));
}

#[test]
fn test_vtt_duration_fallback() {
    let segs = vec![seg("Dur", Some(1.0), None, Some(2.5))];
    let (result, _) = format_vtt(&segs);
    assert!(result.contains("00:00:01.00 --> 00:00:03.50"));
}

#[test]
fn test_vtt_default_fallback() {
    let segs = vec![seg("Only start", Some(1.0), None, None)];
    let (result, _) = format_vtt(&segs);
    assert!(result.contains("00:00:01.00 --> 00:00:06.00"));
}

#[test]
fn test_vtt_null_start_skipped() {
    let segs = vec![
        seg("Skip", None, None, None),
        seg("Keep", Some(5.0), Some(7.0), None),
    ];
    let (result, skipped) = format_vtt(&segs);
    assert_eq!(skipped, 1);
    assert!(!result.contains("Skip"));
    assert!(result.contains("Keep"));
}

#[test]
fn test_vtt_escaping() {
    let segs = vec![seg("A & B < C > D", Some(1.0), Some(2.0), None)];
    let (result, _) = format_vtt(&segs);
    assert!(result.contains("A &amp; B &lt; C &gt; D"));
}

#[test]
fn test_vtt_overlapping_cues() {
    let segs = vec![
        seg("First", Some(1.0), Some(3.0), None),
        seg("Second", Some(2.0), Some(4.0), None),
    ];
    let (result, _) = format_vtt(&segs);
    assert!(result.contains("First"));
    assert!(result.contains("Second"));
}

#[test]
fn test_vtt_empty() {
    let (result, skipped) = format_vtt(&[]);
    assert_eq!(skipped, 0);
    assert_eq!(result, "WEBVTT\n\n");
}

#[test]
fn test_timestamp_minute_boundary_never_emits_sixty() {
    assert_eq!(format_timestamp(&double(59.996)), "00:01:00.00");
    assert_eq!(format_timestamp(&double(119.998)), "00:02:00.00");
    assert_eq!(format_timestamp(&double(3599.999)), "01:00:00.00");
    assert_eq!(format_timestamp(&double(10.0)), "00:00:10.00");
    assert_eq!(format_timestamp(&double(59.99)), "00:00:59.99");
    assert_eq!(format_timestamp(&double(0.0)), "00:00:00.00");
}

#[test]
fn test_txt_speaker_label_prefixed() {
    let mut s = seg("Hello world", Some(1.0), None, None);
    s.speaker_label = Some("Alice".to_string());
    let result = format_txt(&[s]);
    assert_eq!(result, "[00:00:01.00] Alice: Hello world\n");
}

#[test]
fn test_txt_blank_speaker_label_ignored() {
    let mut s = seg("Hi", Some(1.0), None, None);
    s.speaker_label = Some("   ".to_string());
    let result = format_txt(&[s]);
    assert_eq!(result, "[00:00:01.00] Hi\n");
}

#[test]
fn test_vtt_speaker_voice_tag() {
    let mut s = seg("Hello", Some(1.0), Some(3.0), None);
    s.speaker_label = Some("Alice".to_string());
    let (result, _) = format_vtt(&[s]);
    assert!(result.contains("00:00:01.00 --> 00:00:03.00\n<v Alice>Hello"));
}

#[test]
fn test_vtt_cue_newlines_collapsed() {
    let s = seg("Line1\n\nLine2", Some(1.0), Some(2.0), None);
    let (result, _) = format_vtt(&[s]);
    assert!(!result.contains("Line1\n\nLine2"));
    assert!(result.contains("Line1  Line2") || result.contains("Line1 Line2"));
}

#[test]
fn test_sanitize_banned_chars() {
    let result = sanitize_filename_stem("a/b:c*d?e");
    assert!(!result.contains('/'));
    assert!(!result.contains(':'));
    assert!(!result.contains('*'));
}

#[test]
fn test_sanitize_whitespace_collapse() {
    let result = sanitize_filename_stem("a   b\t\tc");
    assert_eq!(result, "a b c");
}

#[test]
fn test_sanitize_empty_fallback() {
    let result = sanitize_filename_stem("");
    assert_eq!(result, "meeting");
}

#[test]
fn test_sanitize_whitespace_only() {
    let result = sanitize_filename_stem("   ");
    assert_eq!(result, "meeting");
}

#[test]
fn test_sanitize_truncation() {
    let long = "a".repeat(100);
    let result = sanitize_filename_stem(&long);
    assert_eq!(result.len(), 80);
}

#[test]
fn timestamps_match_the_formula() {
    let times = [
        -3.0, -0.0, 0.004, 0.005, 0.015, 1.005, 59.994999, 86_399.995, 123_456.789, 1e9, 1e300,
        f64::INFINITY, f64::NEG_INFINITY, f64::NAN,
    ];
    for t in times {
        let cs = (t.max(0.0) * 100.0).round() as u64;
        let expected = format!(
            "{:02}:{:02}:{:05.2}",
            cs / 360_000,
            (cs % 360_000) / 6_000,
            (cs % 6_000) as f64 / 100.0
        );
        assert_eq!(format_timestamp(&double(t)), expected);
    }
}

#[test]
fn segments_without_a_start_come_first_and_equal_starts_keep_their_order() {
    let segs = vec![
        seg("b", Some(2.0), None, None),
        seg("c", Some(2.0), None, None),
        seg("a", None, None, None),
        seg("0", Some(-1.0), None, None),
    ];
    assert_eq!(
        format_txt(&segs),
        "a\n[00:00:00.00] 0\n[00:00:02.00] b\n[00:00:02.00] c\n"
    );
}

#[test]
fn captions_are_written_exactly() {
    let segs = vec![
        labelled("x < y\r\nnext", 1.0, Some(2.0), " Ann & <Bo> "),
        seg("late", Some(0.5), None, Some(0.25)),
    ];
    let (result, skipped) = format_vtt(&segs);
    assert_eq!(skipped, 0);
    assert_eq!(
        result,
        "WEBVTT\n\n00:00:00.50 --> 00:00:00.75\nlate\n\n\
         00:00:01.00 --> 00:00:02.00\n<v Ann &amp; &lt;Bo&gt;>x &lt; y next\n\n"
    );
}

#[test]
fn a_blank_label_is_no_label() {
    assert_eq!(speaker_display_label(&labelled("t", 0.0, None, " \u{2003} ")), None);
    assert_eq!(speaker_display_label(&labelled("t", 0.0, None, " Ann ")), Some("Ann"));
    assert_eq!(speaker_display_label(&seg("t", None, None, None)), None);
}

#[test]
fn stems_are_safe() {
    assert_eq!(sanitize_filename_stem("..a\u{0}b|\"c\"..."), "abc");
    assert_eq!(sanitize_filename_stem("..."), "meeting");
    assert_eq!(sanitize_filename_stem(" .a. "), "a");
    assert_eq!(sanitize_filename_stem("a\u{b}b\u{c}c\u{1f}d"), "a b cd");
    let wide = "\u{e9}".repeat(60);
    assert_eq!(sanitize_filename_stem(&wide).len(), 80);
}

#[test]
fn a_title_that_cannot_be_cut_is_known() {
    let odd = format!("a{}", "\u{e9}".repeat(60));
    assert!(!can_cut_stem(&odd));
    assert!(can_cut_stem(&"\u{e9}".repeat(60)));
    assert!(can_cut_stem(&odd[..41]));
    assert!(!can_name(&meeting(&odd, "2026-06-03T10:00:00Z", vec![])));
    assert!(!can_name(&meeting("Title", "2026", vec![])));
    assert!(can_name(&meeting("Title", "2026-06-03T10:00:00Z", vec![])));
}

#[test]
fn exports_are_planned_by_title_and_date() {
    let segs = vec![seg("Hello", Some(1.0), None, None)];
    let m = meeting("Plan: A/B", "2026-06-03T10:00:00Z", segs);
    let plan = plan_export(Some(&m), "vtt").ok().unwrap();
    assert_eq!(plan.extension, "vtt");
    assert_eq!(plan.default_name, "Plan AB - 2026-06-03.vtt");
    let plan = plan_export(Some(&m), "anything").ok().unwrap();
    assert_eq!(plan.extension, "txt");
    assert_eq!(plan.default_name, "Plan AB - 2026-06-03.txt");
}

#[test]
fn exports_need_a_meeting_with_transcripts() {
    assert_eq!(plan_export(None, "txt").err().unwrap(), "Meeting not found");
    let empty = meeting("Title", "2026-06-03T10:00:00Z", vec![]);
    assert_eq!(
        plan_export(Some(&empty), "txt").err().unwrap(),
        "No transcripts to export"
    );
}

#[test]
fn exports_render_the_chosen_format() {
    let segs = vec![
        seg("Hello", Some(1.0), Some(2.0), None),
        seg("Untimed", None, None, None),
    ];
    let file = render_export(Some("/tmp/x.vtt".to_string()), &segs, "vtt").ok().unwrap();
    assert_eq!(file.path, "/tmp/x.vtt");
    assert_eq!(file.content, "WEBVTT\n\n00:00:01.00 --> 00:00:02.00\nHello\n\n");
    assert!(file.result.saved);
    assert_eq!(file.result.path.as_deref(), Some("/tmp/x.vtt"));
    assert_eq!(file.result.segment_count, 2);
    assert_eq!(file.result.skipped_count, Some(1));
    let file = render_export(Some("/tmp/x.txt".to_string()), &segs, "txt").ok().unwrap();
    assert_eq!(file.content, "Untimed\n[00:00:01.00] Hello\n");
    assert_eq!(file.result.skipped_count, None);
}

#[test]
fn a_cancelled_save_exports_nothing() {
    assert_eq!(render_export(None, &[], "txt").err().unwrap(), "Save cancelled");
}

#[test]
fn joined_transcripts_have_joined_texts() {
    let first = || vec![seg("b", Some(2.0), None, None), seg("a", None, None, None)];
    let second = || vec![seg("d", Some(3.0), None, None), seg("c", Some(2.0), None, None)];
    let both: Vec<MeetingTranscript> = first().into_iter().chain(second()).collect();
    assert_eq!(format_txt(&both), format_txt(&first()) + &format_txt(&second()));
    assert_eq!(
        format_txt(&both),
        "a\n[00:00:02.00] b\n[00:00:02.00] c\n[00:00:03.00] d\n"
    );
}
