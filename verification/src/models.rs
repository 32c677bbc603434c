//! Meetings and their transcripts as the database holds them.

use crate::double::Double;
use vstd::prelude::*;
use vstd::string::*;

verus! {

/// One transcribed segment of a meeting.
pub struct MeetingTranscript {
    pub id: String,
    pub text: String,
    pub timestamp: String,
    pub audio_start_time: Option<Double>,
    pub audio_end_time: Option<Double>,
    pub duration: Option<Double>,
    pub speaker_profile_id: Option<String>,
    pub speaker_label: Option<String>,
    pub speaker_confidence: Option<Double>,
    pub speaker_confirmed: Option<bool>,
}

/// A meeting with its transcript.
pub struct MeetingDetails {
    pub id: String,
    pub title: String,
    pub created_at: String,
    pub transcripts: Vec<MeetingTranscript>,
}

/// A named speaker.
pub struct SpeakerProfile {
    pub id: String,
    pub display_name: String,
    pub color: Option<String>,
    pub created_at: String,
    pub updated_at: String,
    pub archived_at: Option<String>,
}

/// What one embedding model has learned of a speaker's voice.
pub struct SpeakerVoiceprint {
    pub id: String,
    pub speaker_profile_id: String,
    pub embedding_model: String,
    pub embedding: Vec<u8>,
    pub sample_count: i64,
    pub total_duration: Double,
    pub source_meeting_id: Option<String>,
    pub source_cluster_label: Option<String>,
    pub created_at: String,
    pub updated_at: String,
}

/// A stretch of a meeting during which one cluster of voices speaks.
pub struct SpeakerTurn {
    pub id: String,
    pub meeting_id: String,
    pub cluster_label: String,
    pub speaker_profile_id: Option<String>,
    pub start_time: Double,
    pub end_time: Double,
    pub confidence: Option<Double>,
    pub assignment_source: String,
    pub confirmed: i64,
    pub created_at: String,
    pub updated_at: String,
}

/// The characters of a text that may be absent.
pub open spec fn text_view(s: Option<String>) -> Option<Seq<char>> {
    match s {
        Some(t) => Some(t@),
        None => None,
    }
}

/// The characters of a borrowed text that may be absent.
pub open spec fn str_view(s: Option<&str>) -> Option<Seq<char>> {
    match s {
        Some(t) => Some(t@),
        None => None,
    }
}

/// The characters of texts.
pub open spec fn texts_of(texts: Seq<String>) -> Seq<Seq<char>> {
    Seq::new(texts.len(), |i: int| texts[i]@)
}

/// The value of a number that may be absent.
pub open spec fn real_view(d: Option<Double>) -> Option<crate::double::Real> {
    match d {
        Some(x) => Some(x@),
        None => None,
    }
}

/// A copy of a text that may be absent.
pub fn copy_text(s: &Option<String>) -> (r: Option<String>)
    ensures
        r == *s,
{
    match s {
        Some(t) => Some(t.clone()),
        None => None,
    }
}

/// A text that may be absent, as an owned one.
pub fn own_text(s: Option<&str>) -> (r: Option<String>)
    ensures
        text_view(r) == str_view(s),
{
    match s {
        Some(t) => Some(t.to_owned()),
        None => None,
    }
}

/// A copy of a speaker turn.
pub fn copy_turn(t: &SpeakerTurn) -> (r: SpeakerTurn)
    ensures
        r == *t,
{
    SpeakerTurn {
        id: t.id.clone(),
        meeting_id: t.meeting_id.clone(),
        cluster_label: t.cluster_label.clone(),
        speaker_profile_id: copy_text(&t.speaker_profile_id),
        start_time: t.start_time,
        end_time: t.end_time,
        confidence: t.confidence,
        assignment_source: t.assignment_source.clone(),
        confirmed: t.confirmed,
        created_at: t.created_at.clone(),
        updated_at: t.updated_at.clone(),
    }
}

/// A copy of a speaker profile.
pub fn copy_profile(p: &SpeakerProfile) -> (r: SpeakerProfile)
    ensures
        r == *p,
{
    SpeakerProfile {
        id: p.id.clone(),
        display_name: p.display_name.clone(),
        color: copy_text(&p.color),
        created_at: p.created_at.clone(),
        updated_at: p.updated_at.clone(),
        archived_at: copy_text(&p.archived_at),
    }
}

/// What may be absent is seen as absent where it is, and as its characters or its value where it
/// is there.
pub proof fn absent_values_stay_absent(s: Option<String>, t: Option<&str>, d: Option<Double>)
    ensures
        text_view(s) is Some <==> s is Some,
        s matches Some(x) ==> text_view(s) == Some(x@),
        str_view(t) is Some <==> t is Some,
        t matches Some(x) ==> str_view(t) == Some(x@),
        real_view(d) is Some <==> d is Some,
        d matches Some(x) ==> real_view(d) == Some(x@),
{
}

/// Texts are seen each in its place.
pub proof fn texts_keep_their_places(texts: Seq<String>, i: int)
    ensures
        texts_of(texts).len() == texts.len(),
        0 <= i < texts.len() ==> texts_of(texts)[i] == texts[i]@,
{
}

} // verus!
