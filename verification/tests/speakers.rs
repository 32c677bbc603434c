use meetily_speakers::bytes::{bytes_to_f32_vec, f32_vec_to_bytes};
use meetily_speakers::double::Double;
use meetily_speakers::identification::{Identification, IdentificationAction, IdentificationEvent};
use meetily_speakers::labels::{can_show_cluster, display_cluster_label, reconciled_speaker_label};
use meetily_speakers::models::{SpeakerProfile, SpeakerTurn, SpeakerVoiceprint};
use meetily_speakers::prefixes::PathStyle;
use meetily_speakers::propagation::{
    plan_propagation, should_propagate_to_meeting, PropagationCandidate, SpeakerPropagationSummary,
};
use meetily_speakers::recording::{
    audio_candidates, audio_path_from_metadata, metadata_path, recording_folder,
    resolve_audio_file, resolve_meeting_audio_path,
};
use meetily_speakers::speaker::SpeakerRepository;
use meetily_speakers::speaker_turn::{
    best_turn_for_segment, turn_row, SegmentRow, SpeakerTurnAssignment, SpeakerTurnRepository,
};
use meetily_speakers::speakers::{
    assign_clusters, assign_transcript_speaker, assignment_result, assignment_to_dto, can_call,
    can_identify, checked_name, clusters_with_label, current_assignments, diarize_request,
    embed_cluster_request, find_profile, follow_up, identification_result, identify_request, identify_turns,
    learned_voice, nobody_speaks, profile_to_dto, profiles_to_dtos, reconcile_profile_assignments,
    sidecar_profiles, turn_to_assignment, FollowUp, LabelRow, SidecarClusterMatch,
    SidecarEmbedClusterResponse, SidecarTurn,
};

fn double(x: f64) -> Double {
    Double { bits: x.to_bits() }
}

fn number(d: &Double) -> f64 {
    f64::from_bits(d.bits)
}

fn profile(id: &str, display_name: &str) -> SpeakerProfile {
    SpeakerProfile {
        id: id.to_string(),
        display_name: display_name.to_string(),
        color: None,
        created_at: "2026-06-03T00:00:00Z".to_string(),
        updated_at: "2026-06-03T00:00:00Z".to_string(),
        archived_at: None,
    }
}

fn stored(id: &str, cluster: &str, profile_id: Option<&str>, source: &str, start: f64, end: f64) -> SpeakerTurn {
    SpeakerTurn {
        id: id.to_string(),
        meeting_id: "meeting-1".to_string(),
        cluster_label: cluster.to_string(),
        speaker_profile_id: profile_id.map(|p| p.to_string()),
        start_time: double(start),
        end_time: double(end),
        confidence: None,
        assignment_source: source.to_string(),
        confirmed: 0,
        created_at: "2026-06-03T00:00:00Z".to_string(),
        updated_at: "2026-06-03T00:00:00Z".to_string(),
    }
}

fn turn(label: &str, start: f64, end: f64) -> SpeakerTurnAssignment {
    SpeakerTurnAssignment {
        cluster_label: label.to_string(),
        speaker_profile_id: None,
        speaker_label: label.to_string(),
        start_time: double(start),
        end_time: double(end),
        confidence: None,
        confirmed: false,
        assignment_source: "test".to_string(),
    }
}

fn segment(id: &str, start: f64, end: f64, confirmed: i64) -> SegmentRow {
    SegmentRow {
        id: id.to_string(),
        audio_start_time: Some(double(start)),
        audio_end_time: Some(double(end)),
        speaker_confirmed: Some(confirmed),
    }
}

fn heard(cluster: &str, start: f64, end: f64) -> SidecarTurn {
    SidecarTurn {
        cluster_label: cluster.to_string(),
        start: double(start),
        end: double(end),
    }
}

fn found(cluster: &str, id: Option<&str>, name: Option<&str>, ambiguous: bool) -> SidecarClusterMatch {
    SidecarClusterMatch {
        cluster_label: cluster.to_string(),
        profile_id: id.map(|s| s.to_string()),
        display_name: name.map(|s| s.to_string()),
        confidence: Some(double(0.74)),
        ambiguous,
    }
}

fn candidate(id: &str, folder: Option<&str>, confirmed: i64) -> PropagationCandidate {
    PropagationCandidate {
        meeting_id: id.to_string(),
        folder_path: folder.map(|f| f.to_string()),
        confirmed_turn_count: confirmed,
    }
}

#[test]
fn display_cluster_label_formats_pyannote_labels() {
    assert_eq!(display_cluster_label("SPEAKER_00"), "Speaker 1");
    assert_eq!(display_cluster_label("SPEAKER_12"), "Speaker 13");
    assert_eq!(display_cluster_label("UNKNOWN"), "UNKNOWN");
}

#[test]
fn renamed_profile_label_preserves_ambiguous_prefix() {
    assert_eq!(
        reconciled_speaker_label("Maybe Alice", "Francesco"),
        "Maybe Francesco"
    );
}

#[test]
fn renamed_profile_label_replaces_confirmed_name() {
    assert_eq!(reconciled_speaker_label("Alice", "Francesco"), "Francesco");
}

#[test]
fn renamed_profile_label_replaces_empty_cached_label() {
    assert_eq!(reconciled_speaker_label("", "Francesco"), "Francesco");
}

#[test]
fn f32_bytes_round_trip() {
    let values = vec![0.1_f32, -0.25, 1.5];
    let bits: Vec<u32> = values.iter().map(|v| v.to_bits()).collect();
    let bytes = f32_vec_to_bytes(&bits);

    let expected: Vec<u8> = values.iter().flat_map(|v| v.to_le_bytes()).collect();
    assert_eq!(bytes, expected);
    let back: Vec<f32> = bytes_to_f32_vec(&bytes).iter().map(|b| f32::from_bits(*b)).collect();
    assert_eq!(back, values);
}

#[test]
fn propagation_candidate_requires_other_unconfirmed_meeting_with_audio_folder() {
    assert!(should_propagate_to_meeting(
        "meeting-old",
        "meeting-current",
        Some("/tmp/recording"),
        0
    ));
    assert!(!should_propagate_to_meeting(
        "meeting-current",
        "meeting-current",
        Some("/tmp/recording"),
        0
    ));
    assert!(!should_propagate_to_meeting(
        "meeting-old",
        "meeting-current",
        Some("   "),
        0
    ));
    assert!(!should_propagate_to_meeting(
        "meeting-old",
        "meeting-current",
        Some("/tmp/recording"),
        1
    ));
}

#[test]
fn turn_to_assignment_preserves_ambiguous_profile_label() {
    let profiles = vec![profile("profile-1", "Alice")];
    let turn = SpeakerTurn {
        id: "turn-1".to_string(),
        meeting_id: "meeting-1".to_string(),
        cluster_label: "SPEAKER_00".to_string(),
        speaker_profile_id: Some("profile-1".to_string()),
        start_time: double(0.0),
        end_time: double(2.0),
        confidence: Some(double(0.74)),
        assignment_source: "ambiguous_recognition".to_string(),
        confirmed: 0,
        created_at: "2026-06-03T00:00:00Z".to_string(),
        updated_at: "2026-06-03T00:00:00Z".to_string(),
    };

    let assignment = turn_to_assignment(turn, &profiles);

    assert_eq!(assignment.speaker_label, "Maybe Alice");
}

#[test]
fn profile_rename_reconciles_english_and_italian_transcript_labels_without_repointing_ids() {
    let rows = vec![LabelRow {
        transcript_id: "transcript-english".to_string(),
        speaker_label: Some("Alice".to_string()),
    }];
    let english = reconcile_profile_assignments(&rows, "Alicia");
    let rows = vec![LabelRow {
        transcript_id: "transcript-italian-ambiguous".to_string(),
        speaker_label: Some("Maybe Luca".to_string()),
    }];
    let italian = reconcile_profile_assignments(&rows, "Marco");

    assert_eq!(english.len(), 1);
    assert_eq!(italian.len(), 1);
    assert_eq!(english[0].transcript_id, "transcript-english");
    assert_eq!(english[0].speaker_label, "Alicia");
    assert_eq!(italian[0].transcript_id, "transcript-italian-ambiguous");
    assert_eq!(italian[0].speaker_label, "Maybe Marco");
}

#[test]
fn assigning_cluster_to_different_profile_repoints_id_and_label_for_overlapping_transcripts() {
    let profiles = vec![profile("profile-english", "Alice"), profile("profile-italian", "Luca")];
    let mut rows = vec![stored(
        "turn-english",
        "SPEAKER_00",
        Some("profile-english"),
        "recognition",
        0.0,
        5.0,
    )];

    let updated_turns = SpeakerTurnRepository::assign_cluster(
        &mut rows,
        "meeting-1",
        "SPEAKER_00",
        "profile-italian",
        Some(double(1.0)),
        true,
        "user",
    );
    let listed = SpeakerTurnRepository::list_meeting_turns(&rows, "meeting-1");
    let assignments = current_assignments(listed, &SpeakerRepository::list_profiles(&profiles));
    let updated_transcripts = SpeakerTurnRepository::assign_transcripts_by_overlap(
        &[segment("transcript-overlap", 1.0, 3.0, 0)],
        &assignments,
    );

    assert_eq!(updated_turns, 1);
    assert_eq!(updated_transcripts.len(), 1);
    assert_eq!(updated_transcripts[0].transcript_id, "transcript-overlap");
    assert_eq!(updated_transcripts[0].speaker_profile_id.as_deref(), Some("profile-italian"));
    assert_eq!(updated_transcripts[0].speaker_label, "Luca");
    assert_eq!(updated_transcripts[0].speaker_confirmed, 1);
}

#[test]
fn overlap_assignment_never_overwrites_user_confirmed_transcript() {
    let assignments = vec![SpeakerTurnAssignment {
        cluster_label: "SPEAKER_00".to_string(),
        speaker_profile_id: Some("profile-auto".to_string()),
        speaker_label: "Alice".to_string(),
        start_time: double(0.0),
        end_time: double(5.0),
        confidence: Some(double(0.9)),
        confirmed: false,
        assignment_source: "recognition".to_string(),
    }];

    let updated = SpeakerTurnRepository::assign_transcripts_by_overlap(
        &[segment("transcript-confirmed", 1.0, 3.0, 1)],
        &assignments,
    );

    assert_eq!(updated.len(), 0, "confirmed transcript must not be overwritten");
}

#[test]
fn best_turn_for_segment_picks_containing_turn() {
    let turns = vec![turn("SPEAKER_00", 0.0, 10.0), turn("SPEAKER_01", 11.0, 20.0)];

    let result = best_turn_for_segment(&double(2.0), &double(4.0), &turns).unwrap();

    assert_eq!(result.cluster_label, "SPEAKER_00");
}

#[test]
fn best_turn_for_segment_picks_largest_overlap() {
    let turns = vec![turn("SPEAKER_00", 0.0, 5.0), turn("SPEAKER_01", 4.0, 10.0)];

    let result = best_turn_for_segment(&double(3.0), &double(9.0), &turns).unwrap();

    assert_eq!(result.cluster_label, "SPEAKER_01");
}

#[test]
fn best_turn_for_segment_returns_none_without_overlap() {
    let turns = vec![turn("SPEAKER_00", 0.0, 5.0), turn("SPEAKER_01", 10.0, 15.0)];

    let result = best_turn_for_segment(&double(6.0), &double(9.0), &turns);

    assert!(result.is_none());
}

#[test]
fn best_turn_for_segment_rejects_zero_duration_segment() {
    let turns = vec![turn("SPEAKER_00", 0.0, 5.0)];

    let result = best_turn_for_segment(&double(2.0), &double(2.0), &turns);

    assert!(result.is_none());
}

#[test]
fn of_equal_overlaps_the_last_turn_wins() {
    let turns = vec![turn("A", 0.0, 2.0), turn("B", 2.0, 4.0), turn("C", 3.5, 3.6)];
    let result = best_turn_for_segment(&double(1.0), &double(3.0), &turns).unwrap();
    assert_eq!(result.cluster_label, "B");
    assert!(best_turn_for_segment(&double(f64::NAN), &double(3.0), &turns).is_some());
    assert!(best_turn_for_segment(&double(3.0), &double(1.0), &turns).is_none());
}

#[test]
fn segments_without_times_get_no_speaker() {
    let rows = vec![
        SegmentRow {
            id: "a".to_string(),
            audio_start_time: None,
            audio_end_time: Some(double(1.0)),
            speaker_confirmed: None,
        },
        SegmentRow {
            id: "b".to_string(),
            audio_start_time: Some(double(0.0)),
            audio_end_time: Some(double(1.0)),
            speaker_confirmed: None,
        },
    ];
    let updates = SpeakerTurnRepository::assign_transcripts_by_overlap(&rows, &[turn("A", 0.0, 9.0)]);
    assert_eq!(updates.len(), 1);
    assert_eq!(updates[0].transcript_id, "b");
    assert_eq!(updates[0].speaker_confirmed, 0);
}

#[test]
fn replaced_turns_get_identifiers_and_one_time() {
    let mut rows = vec![stored("kept", "A", None, "s", 0.0, 1.0), stored("old", "A", None, "s", 0.0, 1.0)];
    rows[1].meeting_id = "m".to_string();
    SpeakerTurnRepository::replace_meeting_turns(&mut rows, "m", &[turn("A", 0.0, 1.0), turn("B", 1.0, 2.0)]);
    assert_eq!(rows.len(), 3);
    assert_eq!(rows.remove(0).id, "kept");
    assert!(rows[0].id.starts_with("speaker-turn-"));
    assert_eq!(rows[0].id.len(), "speaker-turn-".len() + 36);
    assert_ne!(rows[0].id, rows[1].id);
    assert_eq!(rows[0].created_at, rows[1].updated_at);
    assert!(rows[0].created_at.ends_with("+00:00"));
    assert!(matches!(rows[0].created_at.len(), 25 | 29 | 32 | 35));
    let marks: Vec<u8> = [4, 7, 10, 13, 16].iter().map(|i| rows[0].created_at.as_bytes()[*i]).collect();
    assert_eq!(marks, b"--T::");
    assert_eq!(rows[1].meeting_id, "m");
    assert_eq!(rows[1].cluster_label, "B");
    assert_eq!(rows[1].confirmed, 0);
    let row = turn_row("id".to_string(), "m", &turn("A", 0.0, 1.0), "now");
    assert_eq!((row.id.as_str(), row.created_at.as_str()), ("id", "now"));
}

#[test]
fn replaced_turns_are_listed_under_their_identifiers() {
    let mut rows = vec![stored("old", "A", None, "s", 0.0, 1.0)];
    let ids = vec!["first".to_string(), "second".to_string()];
    SpeakerTurnRepository::replace_meeting_turns_under(
        &mut rows,
        "meeting-1",
        &[turn("A", 3.0, 4.0), turn("B", 1.0, 2.0)],
        ids,
        "now",
    );
    let listed = SpeakerTurnRepository::list_meeting_turns(&rows, "meeting-1");
    let found: Vec<(&str, &str)> =
        listed.iter().map(|t| (t.id.as_str(), t.cluster_label.as_str())).collect();
    assert_eq!(found, vec![("second", "B"), ("first", "A")]);
    assert_eq!(listed[0].updated_at, "now");
}

#[test]
fn turns_are_listed_by_meeting_and_start() {
    let mut other = stored("x", "A", None, "s", 0.0, 1.0);
    other.meeting_id = "meeting-2".to_string();
    let rows = vec![
        stored("late", "A", None, "s", 5.0, 6.0),
        other,
        stored("early", "B", None, "s", -1.0, 0.0),
        stored("also-late", "B", None, "s", 5.0, 6.0),
    ];
    let ids: Vec<String> = SpeakerTurnRepository::list_meeting_turns(&rows, "meeting-1")
        .into_iter()
        .map(|t| t.id)
        .collect();
    assert_eq!(ids, vec!["early", "late", "also-late"]);
}

#[test]
fn cluster_numbers_are_read_like_indices() {
    assert_eq!(display_cluster_label("SPEAKER_+7"), "Speaker 8");
    assert_eq!(display_cluster_label("SPEAKER_"), "SPEAKER_");
    assert_eq!(display_cluster_label("SPEAKER_1x"), "SPEAKER_1x");
    let largest = format!("SPEAKER_{}", usize::MAX);
    assert!(!can_show_cluster(&largest));
    assert!(can_show_cluster(&format!("{}0", largest)));
    assert_eq!(display_cluster_label(&format!("{}0", largest)), format!("{}0", largest));
}

#[test]
fn doubt_outlasts_renaming() {
    assert_eq!(reconciled_speaker_label("  Maybe Alice", "Bo"), "Maybe Bo");
    assert_eq!(reconciled_speaker_label("Maybe", "Bo"), "Bo");
    assert_eq!(
        reconciled_speaker_label(&reconciled_speaker_label("Maybe A", "B"), "C"),
        "Maybe C"
    );
}

#[test]
fn names_are_trimmed_and_never_blank() {
    assert_eq!(checked_name("  Alice "), Ok("Alice"));
    assert_eq!(checked_name(" \t "), Err("Speaker name cannot be empty".to_string()));
}

#[test]
fn profiles_are_found_by_identifier() {
    let profiles = vec![profile("a", "Ann"), profile("b", "Bo"), profile("b", "Other")];
    assert_eq!(find_profile(&profiles, "b").ok().unwrap().display_name, "Bo");
    assert_eq!(find_profile(&profiles, "c").err().unwrap(), "Speaker profile not found");
    let dto = profile_to_dto(profile("a", "Ann"));
    assert_eq!((dto.id.as_str(), dto.display_name.as_str(), dto.color), ("a", "Ann", None));
    assert_eq!(profiles_to_dtos(profiles).len(), 3);
}

#[test]
fn only_voices_of_known_speakers_are_told() {
    let voiceprint = |profile_id: &str, embedding: Vec<u8>| SpeakerVoiceprint {
        id: "v".to_string(),
        speaker_profile_id: profile_id.to_string(),
        embedding_model: "ecapa".to_string(),
        embedding,
        sample_count: 1,
        total_duration: double(1.0),
        source_meeting_id: None,
        source_cluster_label: None,
        created_at: String::new(),
        updated_at: String::new(),
    };
    let profiles = vec![profile("a", "Ann")];
    let bytes = f32_vec_to_bytes(&[1.5_f32.to_bits(), 0.25_f32.to_bits()]);
    let told = sidecar_profiles(&profiles, &[voiceprint("x", vec![]), voiceprint("a", bytes)]);
    assert_eq!(told.len(), 1);
    assert_eq!(told[0].profile_id, "a");
    assert_eq!(told[0].display_name, "Ann");
    assert_eq!(told[0].embedding, vec![1.5_f32.to_bits(), 0.25_f32.to_bits()]);
    let request = identify_request("/a.mp4", &[heard("A", 0.0, 1.0)], told).unwrap();
    assert_eq!(request.audio_path, "/a.mp4");
    assert_eq!(request.turns.len(), 1);
    assert_eq!(number(&request.threshold), 0.5);
    assert_eq!(number(&request.ambiguity_margin), 0.05);
    assert!(identify_request("/a.mp4", &[], vec![]).is_none());
    let request = diarize_request("/a.mp4");
    assert_eq!(request.audio_path, "/a.mp4");
    assert!(request.num_speakers.is_none() && request.min_speakers.is_none());
}

#[test]
fn turns_are_labelled_by_what_was_recognized() {
    let turns = vec![
        heard("SPEAKER_00", 0.0, 1.0),
        heard("SPEAKER_01", 1.0, 2.0),
        heard("SPEAKER_02", 2.0, 3.0),
        heard("SPEAKER_03", 3.0, 4.0),
        heard("SPEAKER_04", 4.0, 5.0),
    ];
    let matches = vec![
        found("SPEAKER_00", Some("a"), Some("Wrong"), false),
        found("SPEAKER_00", Some("a"), Some("Ann"), false),
        found("SPEAKER_01", Some("b"), Some("Bo"), true),
        found("SPEAKER_02", None, Some("Cy"), false),
        found("SPEAKER_04", Some("d"), None, false),
    ];
    assert!(can_identify(&turns, &matches));
    let assignments = identify_turns(&turns, &matches);
    let seen: Vec<(&str, &str, Option<&str>)> = assignments
        .iter()
        .map(|a| (a.speaker_label.as_str(), a.assignment_source.as_str(), a.speaker_profile_id.as_deref()))
        .collect();
    assert_eq!(
        seen,
        vec![
            ("Ann", "recognition", Some("a")),
            ("Maybe Bo", "ambiguous_recognition", Some("b")),
            ("Speaker 3", "diarization", None),
            ("Speaker 4", "diarization", None),
            ("Speaker 5", "recognition", Some("d")),
        ]
    );
    assert_eq!(assignments[0].confidence, Some(double(0.74)));
    assert_eq!(assignments[3].confidence, None);
    assert!(!assignments[0].confirmed);
    let result = identification_result(4, assignments);
    assert_eq!(result.updated_transcript_count, 4);
    assert_eq!(result.speaker_turn_count, 5);
    assert_eq!(result.speakers[1].speaker_label, "Maybe Bo");
    let largest = format!("SPEAKER_{}", usize::MAX);
    assert!(!can_identify(&[heard(&largest, 0.0, 1.0)], &matches));
    assert!(can_identify(&[heard(&largest, 0.0, 1.0)], &[found(&largest, Some("a"), Some("Ann"), false)]));
}

#[test]
fn a_meeting_in_which_nobody_speaks_is_done_at_once() {
    let result = nobody_speaks(&[]).unwrap();
    assert_eq!((result.updated_transcript_count, result.speaker_turn_count), (0, 0));
    assert!(result.speakers.is_empty());
    assert!(nobody_speaks(&[heard("A", 0.0, 1.0)]).is_none());
}

#[test]
fn recognized_labels_survive_storage() {
    let profiles = vec![profile("b", "Bo")];
    let assignments = identify_turns(
        &[heard("SPEAKER_01", 1.0, 2.0)],
        &[found("SPEAKER_01", Some("b"), Some("Bo"), true)],
    );
    let mut rows = Vec::new();
    SpeakerTurnRepository::replace_meeting_turns(&mut rows, "meeting-1", &assignments);
    assert!(can_call(&rows[0], &profiles));
    let again = current_assignments(rows, &profiles);
    assert_eq!(again[0].speaker_label, assignments[0].speaker_label);
    let dto = assignment_to_dto(turn("A", 0.0, 1.0));
    assert_eq!((dto.cluster_label.as_str(), dto.confirmed), ("A", false));
}

#[test]
fn clusters_are_found_by_the_label_that_they_show() {
    let profiles = vec![profile("a", "Ann")];
    let turns = vec![
        stored("1", "SPEAKER_02", Some("a"), "recognition", 0.0, 1.0),
        stored("2", "SPEAKER_00", Some("a"), "user", 1.0, 2.0),
        stored("3", "SPEAKER_02", Some("a"), "recognition", 2.0, 3.0),
        stored("4", "SPEAKER_01", Some("a"), "ambiguous_recognition", 3.0, 4.0),
        stored("5", "SPEAKER_03", Some("gone"), "recognition", 3.0, 4.0),
    ];
    assert_eq!(
        clusters_with_label(&turns, &profiles, "Ann"),
        Ok(vec!["SPEAKER_00".to_string(), "SPEAKER_02".to_string()])
    );
    assert_eq!(
        clusters_with_label(&turns, &profiles, "Maybe Ann"),
        Ok(vec!["SPEAKER_01".to_string()])
    );
    assert_eq!(
        clusters_with_label(&turns, &profiles, "Speaker 4"),
        Ok(vec!["SPEAKER_03".to_string()])
    );
    assert_eq!(
        clusters_with_label(&turns, &profiles, "Nobody"),
        Err("Speaker label was not found in this meeting. Run Identify Speakers first.".to_string())
    );
}

#[test]
fn the_user_gives_whole_clusters_to_a_speaker() {
    let profiles = vec![profile("a", "Ann"), profile("b", "Bo")];
    let mut other = stored("4", "SPEAKER_00", None, "diarization", 0.0, 1.0);
    other.meeting_id = "meeting-2".to_string();
    let mut rows = vec![
        stored("1", "SPEAKER_00", Some("a"), "ambiguous_recognition", 0.0, 1.0),
        stored("2", "SPEAKER_01", None, "diarization", 1.0, 2.0),
        stored("3", "SPEAKER_02", None, "diarization", 2.0, 3.0),
        other,
    ];
    let clusters = vec!["SPEAKER_00".to_string(), "SPEAKER_02".to_string()];
    assert_eq!(assign_clusters(&mut rows, "meeting-1", &clusters, "b"), 2);
    assert_eq!(rows[0].speaker_profile_id.as_deref(), Some("b"));
    assert_eq!(rows[0].assignment_source, "user");
    assert_eq!(rows[0].confirmed, 1);
    assert_eq!(rows[0].confidence, Some(double(1.0)));
    assert_ne!(rows[0].updated_at, rows[0].created_at);
    assert_eq!(rows[1].speaker_profile_id, None);
    assert_eq!(rows[2].speaker_profile_id.as_deref(), Some("b"));
    assert_eq!(rows[3].speaker_profile_id, None);
    let labels: Vec<String> = current_assignments(rows, &profiles)
        .into_iter()
        .map(|a| a.speaker_label)
        .collect();
    assert_eq!(labels, vec!["Bo", "Speaker 2", "Bo", "Speaker 1"]);
}

#[test]
fn single_segments_are_assigned_without_learning() {
    let update = assign_transcript_speaker("t", &profile("a", "Ann"), false).ok().unwrap();
    assert_eq!(update.transcript_id, "t");
    assert_eq!(update.speaker_profile_id.as_deref(), Some("a"));
    assert_eq!(update.speaker_label, "Ann");
    assert_eq!(update.speaker_confidence, Some(double(1.0)));
    assert_eq!(update.speaker_confirmed, 1);
    assert_eq!(
        assign_transcript_speaker("t", &profile("a", "Ann"), true).err().unwrap(),
        "Learning from a single transcript segment is not available yet. Assign the full speaker cluster instead."
    );
}

#[test]
fn voices_are_learned_cluster_by_cluster_and_then_propagated() {
    assert_eq!(follow_up(false, 2, 0, false), FollowUp::Nothing);
    assert_eq!(follow_up(true, 2, 0, false), FollowUp::Learn { cluster: 0 });
    assert_eq!(follow_up(true, 2, 1, false), FollowUp::Learn { cluster: 1 });
    assert_eq!(follow_up(true, 2, 2, false), FollowUp::Propagate);
    assert_eq!(follow_up(true, 2, 2, true), FollowUp::Nothing);
}

#[test]
fn failures_to_learn_are_counted() {
    let summary = SpeakerPropagationSummary {
        meeting_count: 2,
        transcript_count: 9,
        error_count: 1,
    };
    let result = assignment_result(3, 4, &[true, false, false], summary, profile("a", "Ann"));
    assert_eq!(result.updated_transcript_count, 3);
    assert_eq!(result.updated_turn_count, 4);
    assert_eq!(result.propagated_meeting_count, 2);
    assert_eq!(result.propagated_transcript_count, 9);
    assert_eq!(result.propagation_error_count, 3);
    assert_eq!(result.profile.display_name, "Ann");
}

#[test]
fn voices_are_learned_from_the_turns_of_a_cluster() {
    let turns = vec![
        stored("1", "A", None, "s", 0.0, 1.0),
        stored("2", "B", None, "s", 1.0, 2.0),
        stored("3", "A", None, "s", 2.0, 3.0),
    ];
    let request = embed_cluster_request("/a.mp4", &turns, "A").ok().unwrap();
    assert_eq!(request.turns.len(), 2);
    assert_eq!(number(&request.turns[1].start), 2.0);
    assert_eq!(request.max_turns, 8);
    assert_eq!(number(&request.min_turn_duration), 1.5);
    assert_eq!(
        embed_cluster_request("/a.mp4", &turns, "C").err().unwrap(),
        "No speaker turns found for that cluster"
    );
    let voice = learned_voice(
        SidecarEmbedClusterResponse {
            embedding_model: "ecapa".to_string(),
            embedding: vec![0.5_f32.to_bits()],
            sample_count: 2,
            total_duration: double(3.5),
        },
        "m",
        "A",
    );
    assert_eq!(voice.embedding, 0.5_f32.to_le_bytes().to_vec());
    assert_eq!(voice.source_meeting_id.as_deref(), Some("m"));
    assert_eq!(voice.source_cluster_label.as_deref(), Some("A"));
}

#[test]
fn propagation_is_capped() {
    let mut candidates = vec![
        candidate("source", Some("/r"), 0),
        candidate("confirmed", Some("/r"), 2),
        candidate("unrecorded", None, 0),
    ];
    for i in 0..25 {
        candidates.push(candidate(&format!("m{}", i), Some("/r"), 0));
    }
    let plan = plan_propagation(&candidates, "source");
    assert_eq!(plan.meeting_ids.len(), 25);
    assert_eq!(plan.meeting_ids[0], "m0");
    assert!(!plan.capped);
    candidates.push(candidate("m25", Some("/r"), 0));
    let plan = plan_propagation(&candidates, "source");
    assert_eq!(plan.meeting_ids.len(), 25);
    assert_eq!(plan.meeting_ids[24], "m24");
    assert!(plan.capped);
}

#[test]
fn every_tried_meeting_is_counted() {
    let mut summary = SpeakerPropagationSummary::new();
    summary.record(Some(4));
    summary.record(None);
    summary.record(Some(0));
    assert_eq!(
        summary,
        SpeakerPropagationSummary {
            meeting_count: 2,
            transcript_count: 4,
            error_count: 1
        }
    );
    assert_eq!(SpeakerPropagationSummary::failed().error_count, 1);
}

#[test]
fn recordings_need_a_folder() {
    assert_eq!(recording_folder(Some("/r".to_string())), Ok("/r".to_string()));
    for folder in [None, Some("  ".to_string())] {
        assert_eq!(
            recording_folder(folder),
            Err("Meeting has no recording folder path".to_string())
        );
    }
    assert_eq!(metadata_path(PathStyle::Posix, "/r"), "/r/metadata.json");
}

#[test]
fn metadata_name_the_recording() {
    let named = |contents: &str| audio_path_from_metadata(PathStyle::Posix, "/r", contents);
    assert_eq!(named("{\"audio_file\": \"a.mp4\"}"), Ok(Some("/r/a.mp4".to_string())));
    assert_eq!(named("{\"audio_file\": \"/x/a.mp4\"}"), Ok(Some("/x/a.mp4".to_string())));
    assert_eq!(named("{\"audio_file\": \" \"}"), Ok(None));
    assert_eq!(named("{\"audio_file\": 3}"), Ok(None));
    assert_eq!(named("[1]"), Ok(None));
    assert!(named("{").unwrap_err().starts_with("Failed to parse metadata.json: EOF"));
    assert_eq!(resolve_audio_file(PathStyle::Posix, "/r/", Some("a".to_string())), Some("/r/a".to_string()));
    assert_eq!(resolve_audio_file(PathStyle::Posix, "/r", None), None);
}

#[test]
fn the_first_recording_that_exists_is_taken() {
    let places = audio_candidates(PathStyle::Posix, "/r", Some("/x/a.mp4".to_string()));
    assert_eq!(
        places,
        vec!["/x/a.mp4", "/r/audio.mp4", "/r/audio.m4a", "/r/audio.wav", "/r/audio.mp3"]
    );
    assert_eq!(
        resolve_meeting_audio_path("/r", &places, &[false, false, true, true, false]),
        Ok("/r/audio.m4a".to_string())
    );
    let places = audio_candidates(PathStyle::Posix, "/r", None);
    assert_eq!(places.len(), 4);
    assert_eq!(
        resolve_meeting_audio_path("/r", &places, &[false; 4]),
        Err("No supported audio file found in /r".to_string())
    );
}

#[test]
fn a_silent_meeting_is_identified_at_once() {
    let (state, action) = Identification::new("/a.mp4".to_string());
    match action {
        IdentificationAction::Diarize(request) => assert_eq!(request.audio_path, "/a.mp4"),
        _ => panic!(),
    }
    match state.step(IdentificationEvent::Diarized { turns: vec![] }) {
        (Identification::Finished, IdentificationAction::Finish(result)) => {
            assert_eq!(result.speaker_turn_count, 0);
        }
        _ => panic!(),
    }
}

#[test]
fn without_known_voices_nobody_is_recognized() {
    let (state, _) = Identification::new("/a.mp4".to_string());
    let turns = vec![heard("SPEAKER_00", 0.0, 1.0)];
    let (state, action) = state.step(IdentificationEvent::Diarized { turns });
    assert!(matches!(action, IdentificationAction::Load));
    assert!(!state.can_step(&IdentificationEvent::Stored { updated_transcript_count: 0 }));
    let event = IdentificationEvent::Loaded {
        profiles: vec![profile("a", "Ann")],
        voiceprints: vec![],
    };
    assert!(state.can_step(&event));
    let (state, action) = state.step(event);
    assert!(matches!(action, IdentificationAction::Store));
    assert_eq!(state.to_store().unwrap()[0].speaker_label, "Speaker 1");
    match state.step(IdentificationEvent::Stored { updated_transcript_count: 7 }) {
        (Identification::Finished, IdentificationAction::Finish(result)) => {
            assert_eq!(result.updated_transcript_count, 7);
            assert_eq!(result.speaker_turn_count, 1);
            assert_eq!(result.speakers[0].speaker_label, "Speaker 1");
        }
        _ => panic!(),
    }
}

#[test]
fn known_voices_are_recognized() {
    let (state, _) = Identification::new("/a.mp4".to_string());
    let turns = vec![heard("SPEAKER_00", 0.0, 1.0)];
    let (state, _) = state.step(IdentificationEvent::Diarized { turns });
    let voiceprint = SpeakerVoiceprint {
        id: "v".to_string(),
        speaker_profile_id: "a".to_string(),
        embedding_model: "ecapa".to_string(),
        embedding: vec![0; 8],
        sample_count: 1,
        total_duration: double(1.0),
        source_meeting_id: None,
        source_cluster_label: None,
        created_at: String::new(),
        updated_at: String::new(),
    };
    let (state, action) = state.step(IdentificationEvent::Loaded {
        profiles: vec![profile("a", "Ann")],
        voiceprints: vec![voiceprint],
    });
    match action {
        IdentificationAction::Recognize(request) => {
            assert_eq!(request.audio_path, "/a.mp4");
            assert_eq!(request.profiles[0].embedding, vec![0, 0]);
        }
        _ => panic!(),
    }
    let event = IdentificationEvent::Recognized {
        matches: vec![found("SPEAKER_00", Some("a"), Some("Ann"), false)],
    };
    assert!(state.can_step(&event));
    let (state, action) = state.step(event);
    assert!(matches!(action, IdentificationAction::Store));
    assert_eq!(state.to_store().unwrap()[0].speaker_label, "Ann");
    assert!(!state.to_store().unwrap()[0].confirmed);
}
