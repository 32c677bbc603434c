use meetily_speakers::double::Double;
use meetily_speakers::models::{SpeakerProfile, SpeakerVoiceprint};
use meetily_speakers::speaker::{LearnedVoice, SpeakerRepository, VoiceprintWrite};

fn double(x: f64) -> Double {
    Double { bits: x.to_bits() }
}

fn voice(model: &str, embedding: Vec<u8>, samples: i64, duration: f64, source: Option<(&str, &str)>) -> LearnedVoice {
    LearnedVoice {
        embedding_model: model.to_string(),
        embedding,
        sample_count: samples,
        total_duration: double(duration),
        source_meeting_id: source.map(|s| s.0.to_string()),
        source_cluster_label: source.map(|s| s.1.to_string()),
    }
}

fn upsert(rows: &mut Vec<SpeakerVoiceprint>, profile_id: &str, voice: LearnedVoice) -> String {
    match SpeakerRepository::upsert_voiceprint(rows, profile_id, voice) {
        VoiceprintWrite::Update(v) => {
            let id = v.id.clone();
            let at = rows.iter().position(|row| row.id == id).unwrap();
            rows[at] = v;
            id
        }
        VoiceprintWrite::Insert(v) => {
            let id = v.id.clone();
            rows.push(v);
            id
        }
    }
}

#[test]
fn create_profile_trims_name_and_is_listed() {
    let created = SpeakerRepository::create_profile("  Alice  ", Some("#ff0000"));
    assert_eq!(created.display_name, "Alice");
    assert_eq!(created.color.as_deref(), Some("#ff0000"));
    assert!(created.id.starts_with("speaker-profile-"));
    assert!(created.archived_at.is_none());

    let all = SpeakerRepository::list_profiles(&[created]);
    assert_eq!(all.len(), 1);
    assert_eq!(all[0].display_name, "Alice");
}

#[test]
fn list_profiles_excludes_archived_and_sorts_by_name() {
    let bob = SpeakerRepository::create_profile("Bob", None);
    let alice = SpeakerRepository::create_profile("Alice", None);
    let mut carol = SpeakerRepository::create_profile("Carol", None);
    carol.archived_at = Some("2026-06-04T00:00:00Z".to_string());

    let names: Vec<String> = SpeakerRepository::list_profiles(&[bob, alice, carol])
        .into_iter()
        .map(|p: SpeakerProfile| p.display_name)
        .collect();
    assert_eq!(names, vec!["Alice".to_string(), "Bob".to_string()]);
}

#[test]
fn rename_profile_trims_updates_and_returns_profile() {
    let p = SpeakerRepository::create_profile("Alice", None);
    let renamed = SpeakerRepository::rename_profile(Some(&p), "  Alicia ")
        .expect("rename should return the updated profile");
    assert_eq!(renamed.display_name, "Alicia");
    assert!(renamed.updated_at >= p.updated_at);
    assert_eq!(renamed.id, p.id);
}

#[test]
fn rename_missing_profile_returns_none() {
    let result = SpeakerRepository::rename_profile(None, "X");
    assert!(result.is_none());
}

#[test]
fn rename_archived_profile_returns_none() {
    let mut p = SpeakerRepository::create_profile("Alice", None);
    p.archived_at = Some("2026-06-04T00:00:00Z".to_string());
    let result = SpeakerRepository::rename_profile(Some(&p), "Alicia");
    assert!(result.is_none(), "archived profiles must not be renamable");
}

#[test]
fn upsert_voiceprint_updates_in_place_for_same_model() {
    let p = SpeakerRepository::create_profile("Alice", None);
    let mut rows = Vec::new();

    let first = upsert(&mut rows, &p.id, voice("ecapa", vec![1, 2, 3], 2, 4.0, Some(("m1", "SPEAKER_00"))));
    let second = upsert(&mut rows, &p.id, voice("ecapa", vec![9, 9, 9], 5, 12.5, Some(("m2", "SPEAKER_01"))));

    assert_eq!(first, second);
    assert_eq!(rows.len(), 1, "same profile+model must not create a duplicate row");
    assert_eq!(rows[0].embedding, vec![9, 9, 9]);
    assert_eq!(rows[0].sample_count, 5);
    assert_eq!(f64::from_bits(rows[0].total_duration.bits), 12.5);
    assert_eq!(rows[0].source_meeting_id.as_deref(), Some("m2"));
}

#[test]
fn upsert_voiceprint_keeps_separate_rows_per_model() {
    let p = SpeakerRepository::create_profile("Alice", None);
    let mut rows = Vec::new();
    upsert(&mut rows, &p.id, voice("ecapa", vec![1], 1, 1.0, None));
    upsert(&mut rows, &p.id, voice("wespeaker", vec![2], 1, 1.0, None));

    assert_eq!(rows.len(), 2, "different embedding models are distinct voiceprints");
    assert!(rows[0].id.starts_with("speaker-voiceprint-"));
    assert_eq!(rows[0].created_at, rows[0].updated_at);
}

#[test]
fn the_latest_voiceprint_is_updated() {
    let mut rows = Vec::new();
    upsert(&mut rows, "a", voice("ecapa", vec![1], 1, 1.0, None));
    upsert(&mut rows, "b", voice("ecapa", vec![1], 1, 1.0, None));
    rows[1].speaker_profile_id = "a".to_string();
    rows[0].updated_at = "2026-06-05T00:00:00+00:00".to_string();
    rows[1].updated_at = "2026-06-04T00:00:00+00:00".to_string();
    let first = rows[0].id.clone();
    assert_eq!(upsert(&mut rows, "a", voice("ecapa", vec![7], 1, 1.0, None)), first);
    assert_eq!(rows[1].embedding, vec![1]);
}

#[test]
fn identifiers_are_random_uuids() {
    let a = SpeakerRepository::create_profile("A", None).id;
    let b = SpeakerRepository::create_profile("A", None).id;
    assert_ne!(a, b);
    let uuid = &a["speaker-profile-".len()..];
    assert_eq!(uuid.len(), 36);
    assert_eq!(&uuid[14..15], "4");
    assert!(uuid.chars().all(|c| c == '-' || c.is_ascii_digit() || ('a'..='f').contains(&c)));
}
