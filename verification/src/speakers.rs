//! Who speaks in a meeting: recognition by the sidecar, assignment by the user, and what follows
//! for other meetings.

use crate::bytes;
use crate::double;
use crate::double::Double;
use crate::labels;
use crate::models;
use crate::models::{SpeakerProfile, SpeakerTurn, SpeakerVoiceprint};
use crate::outside;
use crate::propagation::SpeakerPropagationSummary;
use crate::speaker::LearnedVoice;
use crate::speaker_turn;
use crate::speaker_turn::{SegmentUpdate, SpeakerTurnAssignment, SpeakerTurnRepository};
use crate::text;
use vstd::prelude::*;
use vstd::string::*;

verus! {

/// How many turns of a cluster the sidecar learns a voice from.
pub const LEARNING_MAX_TURNS: i64 = 8;

/// A speaker profile as the user interface shows it.
pub struct SpeakerProfileDto {
    pub id: String,
    pub display_name: String,
    pub color: Option<String>,
}

/// A speaker turn as the user interface shows it.
pub struct SpeakerTurnDto {
    pub cluster_label: String,
    pub speaker_profile_id: Option<String>,
    pub speaker_label: String,
    pub start_time: Double,
    pub end_time: Double,
    pub confidence: Option<Double>,
    pub confirmed: bool,
}

/// What came of identifying the speakers of a meeting.
pub struct SpeakerIdentificationResult {
    pub updated_transcript_count: u64,
    pub speaker_turn_count: usize,
    pub speakers: Vec<SpeakerTurnDto>,
}

/// What came of assigning a speaker.
pub struct SpeakerAssignmentResult {
    pub updated_transcript_count: u64,
    pub updated_turn_count: u64,
    pub propagated_meeting_count: u64,
    pub propagated_transcript_count: u64,
    pub propagation_error_count: u64,
    pub profile: SpeakerProfileDto,
}

/// A turn as the sidecar sees it.
pub struct SidecarTurn {
    pub cluster_label: String,
    pub start: Double,
    pub end: Double,
}

/// A voice as the sidecar sees it. The embedding is made of single-precision numbers by their bit
/// patterns.
pub struct SidecarProfile {
    pub profile_id: String,
    pub display_name: String,
    pub embedding_model: String,
    pub embedding: Vec<u32>,
}

/// What the sidecar is asked to divide into turns.
pub struct SidecarDiarizeRequest {
    pub audio_path: String,
    pub num_speakers: Option<i64>,
    pub min_speakers: Option<i64>,
    pub max_speakers: Option<i64>,
}

/// Which clusters the sidecar is asked to recognize, and among whom.
pub struct SidecarIdentifyRequest {
    pub audio_path: String,
    pub turns: Vec<SidecarTurn>,
    pub profiles: Vec<SidecarProfile>,
    pub threshold: Double,
    pub ambiguity_margin: Double,
}

/// Whom the sidecar took a cluster for.
pub struct SidecarClusterMatch {
    pub cluster_label: String,
    pub profile_id: Option<String>,
    pub display_name: Option<String>,
    pub confidence: Option<Double>,
    pub ambiguous: bool,
}

/// The turns that the sidecar is asked to learn a voice from.
pub struct SidecarEmbedClusterRequest {
    pub audio_path: String,
    pub turns: Vec<SidecarTurn>,
    pub max_turns: i64,
    pub min_turn_duration: Double,
}

/// The voice that the sidecar learned.
pub struct SidecarEmbedClusterResponse {
    pub embedding_model: String,
    pub embedding: Vec<u32>,
    pub sample_count: i64,
    pub total_duration: Double,
}

// Profiles.

/// The name of a speaker, which has to hold more than whitespace.
pub fn checked_name(display_name: &str) -> (r: Result<&str, String>)
    ensures
        match r {
            Ok(name) => !text::is_blank(display_name@) && name@ == text::trimmed(display_name@),
            Err(e) => text::is_blank(display_name@) && e@ == "Speaker name cannot be empty"@,
        },
{
    if text::is_blank_text(display_name) {
        Err("Speaker name cannot be empty".to_owned())
    } else {
        Ok(text::trim(display_name))
    }
}

/// The profile as the user interface shows it.
pub fn profile_to_dto(profile: SpeakerProfile) -> (r: SpeakerProfileDto)
    ensures
        r == (SpeakerProfileDto {
            id: profile.id,
            display_name: profile.display_name,
            color: profile.color,
        }),
{
    SpeakerProfileDto {
        id: profile.id,
        display_name: profile.display_name,
        color: profile.color,
    }
}

/// The profiles as the user interface shows them.
pub fn profiles_to_dtos(profiles: Vec<SpeakerProfile>) -> (r: Vec<SpeakerProfileDto>)
    ensures
        r@ == Seq::new(
            profiles@.len(),
            |i: int|
                SpeakerProfileDto {
                    id: profiles@[i].id,
                    display_name: profiles@[i].display_name,
                    color: profiles@[i].color,
                },
        ),
{
    let mut r: Vec<SpeakerProfileDto> = Vec::new();
    let mut i: usize = 0;
    while i < profiles.len()
        invariant
            i <= profiles@.len(),
            r@ == Seq::new(
                i as nat,
                |k: int|
                    SpeakerProfileDto {
                        id: profiles@[k].id,
                        display_name: profiles@[k].display_name,
                        color: profiles@[k].color,
                    },
            ),
        decreases profiles@.len() - i,
    {
        r.push(profile_to_dto(models::copy_profile(&profiles[i])));
        i += 1;
        assert(r@ =~= Seq::new(
            i as nat,
            |k: int|
                SpeakerProfileDto {
                    id: profiles@[k].id,
                    display_name: profiles@[k].display_name,
                    color: profiles@[k].color,
                },
        ));
    }
    r
}

/// The last one of the first `n` profiles that has the identifier.
pub open spec fn profile_with(profiles: Seq<SpeakerProfile>, id: Seq<char>, n: nat) -> Option<int>
    decreases n,
{
    if n == 0 {
        None
    } else if profiles[n - 1].id@ == id {
        Some(n - 1)
    } else {
        profile_with(profiles, id, (n - 1) as nat)
    }
}

/// The index of the profile that has the identifier.
fn profile_index(profiles: &[SpeakerProfile], id: &str) -> (r: Option<usize>)
    ensures
        r is Some <==> profile_with(profiles@, id@, profiles@.len()) is Some,
        r matches Some(i) ==> i < profiles@.len() && profile_with(
            profiles@,
            id@,
            profiles@.len(),
        ) == Some(i as int),
{
    let mut n: usize = profiles.len();
    while n > 0
        invariant
            n <= profiles@.len(),
            profile_with(profiles@, id@, profiles@.len()) == profile_with(profiles@, id@, n as nat),
        decreases n,
    {
        if text::same_text(profiles[n - 1].id.as_str(), id) {
            return Some(n - 1);
        }
        n -= 1;
    }
    None
}

/// The first profile that has the identifier.
pub fn find_profile(profiles: &[SpeakerProfile], profile_id: &str) -> (r: Result<
    SpeakerProfile,
    String,
>)
    ensures
        match r {
            Ok(p) => exists|i: int|
                0 <= i < profiles@.len() && #[trigger] profiles@[i] == p && p.id@ == profile_id@ && (
                forall|j: int| 0 <= j < i ==> (#[trigger] profiles@[j]).id@ != profile_id@),
            Err(e) => e@ == "Speaker profile not found"@ && forall|j: int|
                0 <= j < profiles@.len() ==> (#[trigger] profiles@[j]).id@ != profile_id@,
        },
{
    let mut i: usize = 0;
    while i < profiles.len()
        invariant
            i <= profiles@.len(),
            forall|j: int| 0 <= j < i ==> (#[trigger] profiles@[j]).id@ != profile_id@,
        decreases profiles@.len() - i,
    {
        if text::same_text(profiles[i].id.as_str(), profile_id) {
            return Ok(models::copy_profile(&profiles[i]));
        }
        i += 1;
    }
    Err("Speaker profile not found".to_owned())
}

/// A transcript segment and the label of its speaker.
pub struct LabelRow {
    pub transcript_id: String,
    pub speaker_label: Option<String>,
}

/// The label to write for a transcript segment.
pub struct LabelUpdate {
    pub transcript_id: String,
    pub speaker_label: String,
}

/// The label of a segment; empty where it has none.
pub open spec fn label_of(row: LabelRow) -> Seq<char> {
    match row.speaker_label {
        Some(label) => label@,
        None => Seq::empty(),
    }
}

/// The labels to write for the segments of a speaker who got a new name.
pub fn reconcile_profile_assignments(rows: &[LabelRow], display_name: &str) -> (r: Vec<LabelUpdate>)
    ensures
        r@.len() == rows@.len(),
        forall|i: int|
            0 <= i < rows@.len() ==> (#[trigger] r@[i]).transcript_id == rows@[i].transcript_id
                && r@[i].speaker_label@ == labels::renamed(label_of(rows@[i]), display_name@),
{
    let mut r: Vec<LabelUpdate> = Vec::new();
    let mut i: usize = 0;
    while i < rows.len()
        invariant
            i <= rows@.len(),
            r@.len() == i,
            forall|k: int|
                0 <= k < i ==> (#[trigger] r@[k]).transcript_id == rows@[k].transcript_id
                    && r@[k].speaker_label@ == labels::renamed(label_of(rows@[k]), display_name@),
        decreases rows@.len() - i,
    {
        let speaker_label: String = match &rows[i].speaker_label {
            Some(label) => labels::reconciled_speaker_label(label.as_str(), display_name),
            None => {
                proof {
                    reveal_strlit("");
                    assert(""@ =~= Seq::<char>::empty());
                }
                labels::reconciled_speaker_label("", display_name)
            },
        };
        r.push(LabelUpdate { transcript_id: rows[i].transcript_id.clone(), speaker_label });
        i += 1;
    }
    r
}

// Recognition.

/// The request to divide a recording into turns, for any number of speakers.
pub fn diarize_request(audio_path: &str) -> (r: SidecarDiarizeRequest)
    ensures
        r.audio_path@ == audio_path@,
        r.num_speakers is None,
        r.min_speakers is None,
        r.max_speakers is None,
{
    SidecarDiarizeRequest {
        audio_path: audio_path.to_owned(),
        num_speakers: None,
        min_speakers: None,
        max_speakers: None,
    }
}

/// The indices of the first `n` voiceprints whose speaker is among the profiles.
pub open spec fn known_voices(
    profiles: Seq<SpeakerProfile>,
    voiceprints: Seq<SpeakerVoiceprint>,
    n: nat,
) -> Seq<int>
    decreases n,
{
    if n == 0 {
        Seq::empty()
    } else if profile_with(profiles, voiceprints[n - 1].speaker_profile_id@, profiles.len()) is Some {
        known_voices(profiles, voiceprints, (n - 1) as nat).push(n - 1)
    } else {
        known_voices(profiles, voiceprints, (n - 1) as nat)
    }
}

/// Whether `voice` is what the sidecar is told of a voiceprint.
pub open spec fn tells_voice(
    voice: SidecarProfile,
    profiles: Seq<SpeakerProfile>,
    voiceprint: SpeakerVoiceprint,
) -> bool {
    let profile = profiles[profile_with(
        profiles,
        voiceprint.speaker_profile_id@,
        profiles.len(),
    )->0];
    &&& voice.profile_id == profile.id
    &&& voice.display_name == profile.display_name
    &&& voice.embedding_model == voiceprint.embedding_model
    &&& voice.embedding@ == bytes::numbers_of(voiceprint.embedding@)
}

/// What the sidecar is told of the known voices: those whose speaker has a profile.
pub fn sidecar_profiles(profiles: &[SpeakerProfile], voiceprints: &[SpeakerVoiceprint]) -> (r: Vec<
    SidecarProfile,
>)
    ensures
        r@.len() == known_voices(profiles@, voiceprints@, voiceprints@.len()).len(),
        forall|k: int|
            0 <= k < r@.len() ==> tells_voice(
                #[trigger] r@[k],
                profiles@,
                voiceprints@[known_voices(profiles@, voiceprints@, voiceprints@.len())[k]],
            ),
{
    let mut r: Vec<SidecarProfile> = Vec::new();
    let mut i: usize = 0;
    while i < voiceprints.len()
        invariant
            i <= voiceprints@.len(),
            r@.len() == known_voices(profiles@, voiceprints@, i as nat).len(),
            forall|k: int|
                0 <= k < r@.len() ==> tells_voice(
                    #[trigger] r@[k],
                    profiles@,
                    voiceprints@[known_voices(profiles@, voiceprints@, i as nat)[k]],
                ),
        decreases voiceprints@.len() - i,
    {
        let voiceprint: &SpeakerVoiceprint = &voiceprints[i];
        if let Some(p) = profile_index(profiles, voiceprint.speaker_profile_id.as_str()) {
            r.push(
                SidecarProfile {
                    profile_id: profiles[p].id.clone(),
                    display_name: profiles[p].display_name.clone(),
                    embedding_model: voiceprint.embedding_model.clone(),
                    embedding: bytes::bytes_to_f32_vec(&voiceprint.embedding),
                },
            );
        }
        i += 1;
    }
    r
}

/// A copy of a turn.
fn copy_sidecar_turn(t: &SidecarTurn) -> (r: SidecarTurn)
    ensures
        r == *t,
{
    SidecarTurn { cluster_label: t.cluster_label.clone(), start: t.start, end: t.end }
}

/// The request to recognize the clusters of a recording; none where no voice is known.
pub fn identify_request(
    audio_path: &str,
    turns: &[SidecarTurn],
    profiles: Vec<SidecarProfile>,
) -> (r: Option<SidecarIdentifyRequest>)
    ensures
        r is None <==> profiles@.len() == 0,
        r matches Some(request) ==> {
            &&& request.audio_path@ == audio_path@
            &&& request.turns@ == turns@
            &&& request.profiles == profiles
            &&& request.threshold@ == double::ratio(1, 2)
            &&& request.ambiguity_margin@ == double::ratio(1, 20)
        },
{
    if profiles.len() == 0 {
        return None;
    }
    let mut copies: Vec<SidecarTurn> = Vec::new();
    let mut i: usize = 0;
    while i < turns.len()
        invariant
            i <= turns@.len(),
            copies@ == turns@.take(i as int),
        decreases turns@.len() - i,
    {
        copies.push(copy_sidecar_turn(&turns[i]));
        assert(copies@ =~= turns@.take(i + 1));
        i += 1;
    }
    assert(turns@.take(i as int) =~= turns@);
    Some(
        SidecarIdentifyRequest {
            audio_path: audio_path.to_owned(),
            turns: copies,
            profiles,
            threshold: Double::divide(1, 2),
            ambiguity_margin: Double::divide(1, 20),
        },
    )
}

/// The last one of the first `n` matches that is of the cluster.
pub open spec fn match_of(matches: Seq<SidecarClusterMatch>, cluster: Seq<char>, n: nat) -> Option<
    SidecarClusterMatch,
>
    decreases n,
{
    if n == 0 {
        None
    } else if matches[n - 1].cluster_label@ == cluster {
        Some(matches[n - 1])
    } else {
        match_of(matches, cluster, (n - 1) as nat)
    }
}

/// The match of the cluster.
fn find_match<'a>(matches: &'a [SidecarClusterMatch], cluster: &str) -> (r: Option<
    &'a SidecarClusterMatch,
>)
    ensures
        match match_of(matches@, cluster@, matches@.len()) {
            Some(m) => r matches Some(found) && *found == m,
            None => r is None,
        },
{
    let mut n: usize = matches.len();
    while n > 0
        invariant
            n <= matches@.len(),
            match_of(matches@, cluster@, matches@.len()) == match_of(matches@, cluster@, n as nat),
        decreases n,
    {
        if text::same_text(matches[n - 1].cluster_label.as_str(), cluster) {
            return Some(&matches[n - 1]);
        }
        n -= 1;
    }
    None
}

/// The name by which a match calls the speaker, if it calls them by one.
pub open spec fn matched_name(m: Option<SidecarClusterMatch>) -> Option<Seq<char>> {
    match m {
        Some(m) => match m.display_name {
            Some(name) => if m.ambiguous {
                Some("Maybe "@ + name@)
            } else if m.profile_id is Some {
                Some(name@)
            } else {
                None
            },
            None => None,
        },
        None => None,
    }
}

/// How the speaker of a cluster is called: by the name of the one that was recognized, as a guess
/// where the recognition is ambiguous, and else by the cluster.
pub open spec fn recognized_label(cluster: Seq<char>, m: Option<SidecarClusterMatch>) -> Seq<char> {
    match matched_name(m) {
        Some(name) => name,
        None => labels::cluster_name(cluster),
    }
}

/// How a speaker was found out.
pub open spec fn recognition_source(m: Option<SidecarClusterMatch>) -> Seq<char> {
    match m {
        Some(m) => if m.ambiguous {
            "ambiguous_recognition"@
        } else if m.profile_id is Some {
            "recognition"@
        } else {
            "diarization"@
        },
        None => "diarization"@,
    }
}

/// Whether `a` gives the turn the speaker of its cluster's match.
pub open spec fn assigns_match(
    a: SpeakerTurnAssignment,
    turn: SidecarTurn,
    m: Option<SidecarClusterMatch>,
) -> bool {
    &&& a.cluster_label == turn.cluster_label
    &&& a.speaker_profile_id == match m {
        Some(m) => m.profile_id,
        None => None,
    }
    &&& a.speaker_label@ == recognized_label(turn.cluster_label@, m)
    &&& a.start_time == turn.start
    &&& a.end_time == turn.end
    &&& a.confidence == match m {
        Some(m) => m.confidence,
        None => None,
    }
    &&& !a.confirmed
    &&& a.assignment_source@ == recognition_source(m)
}

/// How the speaker of a cluster is called.
fn label_for(cluster_label: &str, m: Option<&SidecarClusterMatch>) -> (r: String)
    requires
        matched_name(
            match m {
                Some(m) => Some(*m),
                None => None,
            },
        ) is None ==> labels::is_showable(cluster_label@),
    ensures
        r@ == recognized_label(
            cluster_label@,
            match m {
                Some(m) => Some(*m),
                None => None,
            },
        ),
{
    if let Some(found) = m {
        if let Some(name) = &found.display_name {
            if found.ambiguous {
                return labels::maybe(name.as_str());
            }
            if found.profile_id.is_some() {
                return name.clone();
            }
        }
    }
    labels::display_cluster_label(cluster_label)
}

/// The turn with the speaker of its cluster's match.
fn assign_turn(turn: &SidecarTurn, m: Option<&SidecarClusterMatch>) -> (r: SpeakerTurnAssignment)
    requires
        matched_name(
            match m {
                Some(m) => Some(*m),
                None => None,
            },
        ) is None ==> labels::is_showable(turn.cluster_label@),
    ensures
        assigns_match(
            r,
            *turn,
            match m {
                Some(m) => Some(*m),
                None => None,
            },
        ),
{
    let speaker_label: String = label_for(turn.cluster_label.as_str(), m);
    match m {
        Some(found) => SpeakerTurnAssignment {
            cluster_label: turn.cluster_label.clone(),
            speaker_profile_id: models::copy_text(&found.profile_id),
            speaker_label,
            start_time: turn.start,
            end_time: turn.end,
            confidence: found.confidence,
            confirmed: false,
            assignment_source: if found.ambiguous {
                "ambiguous_recognition".to_owned()
            } else if found.profile_id.is_some() {
                "recognition".to_owned()
            } else {
                "diarization".to_owned()
            },
        },
        None => SpeakerTurnAssignment {
            cluster_label: turn.cluster_label.clone(),
            speaker_profile_id: None,
            speaker_label,
            start_time: turn.start,
            end_time: turn.end,
            confidence: None,
            confirmed: false,
            assignment_source: "diarization".to_owned(),
        },
    }
}

/// Whether every turn that is called by its cluster can be.
pub open spec fn all_showable(turns: Seq<SidecarTurn>, matches: Seq<SidecarClusterMatch>) -> bool {
    forall|i: int|
        0 <= i < turns.len() ==> {
            let label = (#[trigger] turns[i]).cluster_label@;
            matched_name(match_of(matches, label, matches.len())) is None ==> labels::is_showable(label)
        }
}

/// Whether every turn that is called by its cluster can be.
pub fn can_identify(turns: &[SidecarTurn], matches: &[SidecarClusterMatch]) -> (r: bool)
    ensures
        r == all_showable(turns@, matches@),
{
    let mut i: usize = 0;
    while i < turns.len()
        invariant
            i <= turns@.len(),
            forall|k: int|
                0 <= k < i ==> {
                    let label = (#[trigger] turns@[k]).cluster_label@;
                    matched_name(match_of(matches@, label, matches@.len())) is None ==> labels::is_showable(
                        label,
                    )
                },
        decreases turns@.len() - i,
    {
        let label: &str = turns[i].cluster_label.as_str();
        let named: bool = match find_match(matches, label) {
            Some(m) => m.display_name.is_some() && (m.ambiguous || m.profile_id.is_some()),
            None => false,
        };
        if !named && !labels::can_show_cluster(label) {
            assert(!all_showable(turns@, matches@)) by {
                let l = turns@[i as int].cluster_label@;
                assert(!labels::is_showable(l));
            }
            return false;
        }
        i += 1;
    }
    true
}

/// The turns of a meeting with the speakers that were recognized.
pub fn identify_turns(turns: &[SidecarTurn], matches: &[SidecarClusterMatch]) -> (r: Vec<
    SpeakerTurnAssignment,
>)
    requires
        all_showable(turns@, matches@),
    ensures
        r@.len() == turns@.len(),
        forall|i: int|
            0 <= i < turns@.len() ==> assigns_match(
                #[trigger] r@[i],
                turns@[i],
                match_of(matches@, turns@[i].cluster_label@, matches@.len()),
            ),
{
    let mut r: Vec<SpeakerTurnAssignment> = Vec::new();
    let mut i: usize = 0;
    while i < turns.len()
        invariant
            i <= turns@.len(),
            r@.len() == i,
            all_showable(turns@, matches@),
            forall|k: int|
                0 <= k < i ==> assigns_match(
                    #[trigger] r@[k],
                    turns@[k],
                    match_of(matches@, turns@[k].cluster_label@, matches@.len()),
                ),
        decreases turns@.len() - i,
    {
        let found = find_match(matches, turns[i].cluster_label.as_str());
        r.push(assign_turn(&turns[i], found));
        i += 1;
    }
    r
}

/// The turn as the user interface shows it.
pub fn assignment_to_dto(assignment: SpeakerTurnAssignment) -> (r: SpeakerTurnDto)
    ensures
        r == shown_turn(assignment),
{
    SpeakerTurnDto {
        cluster_label: assignment.cluster_label,
        speaker_profile_id: assignment.speaker_profile_id,
        speaker_label: assignment.speaker_label,
        start_time: assignment.start_time,
        end_time: assignment.end_time,
        confidence: assignment.confidence,
        confirmed: assignment.confirmed,
    }
}

/// The turn as the user interface shows it.
pub open spec fn shown_turn(a: SpeakerTurnAssignment) -> SpeakerTurnDto {
    SpeakerTurnDto {
        cluster_label: a.cluster_label,
        speaker_profile_id: a.speaker_profile_id,
        speaker_label: a.speaker_label,
        start_time: a.start_time,
        end_time: a.end_time,
        confidence: a.confidence,
        confirmed: a.confirmed,
    }
}

/// What came of identifying the speakers of a meeting whose segments were updated.
pub fn identification_result(updated_transcript_count: u64, assignments: Vec<SpeakerTurnAssignment>) -> (r:
    SpeakerIdentificationResult)
    ensures
        r.updated_transcript_count == updated_transcript_count,
        r.speaker_turn_count == assignments@.len(),
        r.speakers@ == Seq::new(assignments@.len(), |i: int| shown_turn(assignments@[i])),
{
    let mut speakers: Vec<SpeakerTurnDto> = Vec::new();
    let mut i: usize = 0;
    while i < assignments.len()
        invariant
            i <= assignments@.len(),
            speakers@ == Seq::new(i as nat, |k: int| shown_turn(assignments@[k])),
        decreases assignments@.len() - i,
    {
        speakers.push(assignment_to_dto(speaker_turn::copy_assignment(&assignments[i])));
        i += 1;
        assert(speakers@ =~= Seq::new(i as nat, |k: int| shown_turn(assignments@[k])));
    }
    SpeakerIdentificationResult {
        updated_transcript_count,
        speaker_turn_count: assignments.len(),
        speakers,
    }
}

/// What came of identifying the speakers of a meeting in which nobody speaks; none where somebody
/// does.
pub fn nobody_speaks(turns: &[SidecarTurn]) -> (r: Option<SpeakerIdentificationResult>)
    ensures
        r is Some <==> turns@.len() == 0,
        r matches Some(result) ==> {
            &&& result.updated_transcript_count == 0
            &&& result.speaker_turn_count == 0
            &&& result.speakers@.len() == 0
        },
{
    if turns.len() == 0 {
        Some(
            SpeakerIdentificationResult {
                updated_transcript_count: 0,
                speaker_turn_count: 0,
                speakers: Vec::new(),
            },
        )
    } else {
        None
    }
}

// Assignment.

/// The name of the profile that a turn points to, if there is one.
pub open spec fn profile_name(turn: SpeakerTurn, profiles: Seq<SpeakerProfile>) -> Option<Seq<char>> {
    match turn.speaker_profile_id {
        Some(id) => match profile_with(profiles, id@, profiles.len()) {
            Some(p) => Some(profiles[p].display_name@),
            None => None,
        },
        None => None,
    }
}

/// How the speaker of a stored turn is called: by the present name of the profile, as a guess
/// where the recognition was ambiguous, and else by the cluster.
pub open spec fn stored_label(turn: SpeakerTurn, profiles: Seq<SpeakerProfile>) -> Seq<char> {
    match profile_name(turn, profiles) {
        Some(name) => if turn.assignment_source@ == "ambiguous_recognition"@ {
            "Maybe "@ + name
        } else {
            name
        },
        None => labels::cluster_name(turn.cluster_label@),
    }
}

/// Whether the speaker of a stored turn can be called.
pub open spec fn is_callable(turn: SpeakerTurn, profiles: Seq<SpeakerProfile>) -> bool {
    profile_name(turn, profiles) is None ==> labels::is_showable(turn.cluster_label@)
}

/// Whether `a` says who speaks in a stored turn.
pub open spec fn tells_stored(
    a: SpeakerTurnAssignment,
    turn: SpeakerTurn,
    profiles: Seq<SpeakerProfile>,
) -> bool {
    &&& a.cluster_label == turn.cluster_label
    &&& a.speaker_profile_id == turn.speaker_profile_id
    &&& a.speaker_label@ == stored_label(turn, profiles)
    &&& a.start_time == turn.start_time
    &&& a.end_time == turn.end_time
    &&& a.confidence == turn.confidence
    &&& a.confirmed == (turn.confirmed != 0)
    &&& a.assignment_source == turn.assignment_source
}

/// Whether the speaker of the stored turn can be called.
pub fn can_call(turn: &SpeakerTurn, profiles: &[SpeakerProfile]) -> (r: bool)
    ensures
        r == is_callable(*turn, profiles@),
{
    let known: bool = match &turn.speaker_profile_id {
        Some(id) => profile_index(profiles, id.as_str()).is_some(),
        None => false,
    };
    known || labels::can_show_cluster(turn.cluster_label.as_str())
}

/// Who speaks in the stored turn.
pub fn turn_to_assignment(turn: SpeakerTurn, profiles: &[SpeakerProfile]) -> (r:
    SpeakerTurnAssignment)
    requires
        is_callable(turn, profiles@),
    ensures
        tells_stored(r, turn, profiles@),
{
    let known: Option<usize> = match &turn.speaker_profile_id {
        Some(id) => profile_index(profiles, id.as_str()),
        None => None,
    };
    let speaker_label: String = match known {
        Some(p) => if text::same_text(turn.assignment_source.as_str(), "ambiguous_recognition") {
            labels::maybe(profiles[p].display_name.as_str())
        } else {
            profiles[p].display_name.clone()
        },
        None => labels::display_cluster_label(turn.cluster_label.as_str()),
    };
    SpeakerTurnAssignment {
        cluster_label: turn.cluster_label,
        speaker_profile_id: turn.speaker_profile_id,
        speaker_label,
        start_time: turn.start_time,
        end_time: turn.end_time,
        confidence: turn.confidence,
        confirmed: turn.confirmed != 0,
        assignment_source: turn.assignment_source,
    }
}

/// Whether the speakers of all turns can be called.
pub open spec fn all_callable(turns: Seq<SpeakerTurn>, profiles: Seq<SpeakerProfile>) -> bool {
    forall|i: int| 0 <= i < turns.len() ==> is_callable(#[trigger] turns[i], profiles)
}

/// Who speaks in the stored turns of a meeting.
pub fn current_assignments(turns: Vec<SpeakerTurn>, profiles: &[SpeakerProfile]) -> (r: Vec<
    SpeakerTurnAssignment,
>)
    requires
        all_callable(turns@, profiles@),
    ensures
        r@.len() == turns@.len(),
        forall|i: int|
            0 <= i < turns@.len() ==> tells_stored(#[trigger] r@[i], turns@[i], profiles@),
{
    let mut r: Vec<SpeakerTurnAssignment> = Vec::new();
    let mut i: usize = 0;
    while i < turns.len()
        invariant
            i <= turns@.len(),
            r@.len() == i,
            all_callable(turns@, profiles@),
            forall|k: int|
                0 <= k < i ==> tells_stored(#[trigger] r@[k], turns@[k], profiles@),
        decreases turns@.len() - i,
    {
        assert(is_callable(turns@[i as int], profiles@));
        r.push(turn_to_assignment(models::copy_turn(&turns[i]), profiles));
        i += 1;
    }
    r
}

/// A recognized speaker is called the same after the turn was stored, as long as the profile
/// exists under the name by which it was recognized.
pub proof fn labels_survive_storage(
    found: SidecarClusterMatch,
    a: SpeakerTurnAssignment,
    sidecar_turn: SidecarTurn,
    stored: SpeakerTurn,
    profiles: Seq<SpeakerProfile>,
)
    requires
        assigns_match(a, sidecar_turn, Some(found)),
        stored.cluster_label@ == a.cluster_label@,
        stored.speaker_profile_id == a.speaker_profile_id,
        stored.assignment_source@ == a.assignment_source@,
        found.profile_id is Some,
        found.display_name is Some,
        profile_name(stored, profiles) == Some(found.display_name->0@),
    ensures
        stored_label(stored, profiles) == a.speaker_label@,
{
    reveal_strlit("ambiguous_recognition");
    reveal_strlit("recognition");
    assert("ambiguous_recognition"@.len() != "recognition"@.len());
}

/// A turn without a recognized speaker is called by its cluster, before and after it is stored.
pub proof fn unknown_speakers_are_called_by_cluster(
    a: SpeakerTurnAssignment,
    sidecar_turn: SidecarTurn,
    stored: SpeakerTurn,
    profiles: Seq<SpeakerProfile>,
)
    requires
        assigns_match(a, sidecar_turn, None),
        stored.cluster_label@ == a.cluster_label@,
        stored.speaker_profile_id == a.speaker_profile_id,
    ensures
        stored_label(stored, profiles) == a.speaker_label@,
{
}

/// Whether a turn of the cluster is called by the label.
pub open spec fn is_called(
    turns: Seq<SpeakerTurn>,
    profiles: Seq<SpeakerProfile>,
    label: Seq<char>,
    cluster: Seq<char>,
) -> bool {
    exists|i: int|
        0 <= i < turns.len() && (#[trigger] turns[i]).cluster_label@ == cluster && stored_label(
            turns[i],
            profiles,
        ) == label
}

/// Whether texts come in strictly rising order.
pub open spec fn is_rising(texts: Seq<String>) -> bool {
    forall|i: int, j: int|
        0 <= i < j < texts.len() ==> text::precedes(
            (#[trigger] texts[i])@,
            (#[trigger] texts[j])@,
        )
}

/// Whether a text is among texts.
pub open spec fn is_listed(texts: Seq<String>, t: Seq<char>) -> bool {
    exists|i: int| 0 <= i < texts.len() && (#[trigger] texts[i])@ == t
}

/// Puts a text into texts in strictly rising order, unless it is there.
fn insert_rising(texts: &mut Vec<String>, t: &str)
    requires
        is_rising(old(texts)@),
    ensures
        is_rising(final(texts)@),
        forall|c: Seq<char>| #[trigger]
            is_listed(final(texts)@, c) <==> is_listed(old(texts)@, c) || c == t@,
{
    let ghost before = texts@;
    let mut p: usize = 0;
    while p < texts.len() && text::is_before(texts[p].as_str(), t)
        invariant
            p <= texts@.len(),
            texts@ == before,
            forall|i: int| 0 <= i < p ==> text::precedes((#[trigger] texts@[i])@, t@),
        decreases texts@.len() - p,
    {
        p += 1;
    }
    if p < texts.len() && text::same_text(texts[p].as_str(), t) {
        assert(is_listed(before, t@));
        return;
    }
    proof {
        if p < before.len() {
            text::precedes_is_total(before[p as int]@, t@);
            assert forall|j: int| p <= j < before.len() implies text::precedes(
                t@,
                (#[trigger] before[j])@,
            ) by {
                if j > p {
                    lemma_precedes_chain(t@, before[p as int]@, before[j]@);
                }
            }
        }
    }
    texts.insert(p, t.to_owned());
    let ghost after = texts@;
    assert(after[p as int]@ == t@);
    assert(forall|i: int| 0 <= i < p ==> after[i] == before[i]);
    assert(forall|i: int| p < i < after.len() ==> after[i] == before[i - 1]);
    assert forall|c: Seq<char>| #[trigger]
        is_listed(after, c) <==> is_listed(before, c) || c == t@ by {
        if is_listed(before, c) {
            let i = choose|i: int| 0 <= i < before.len() && (#[trigger] before[i])@ == c;
            if i < p {
                assert(after[i]@ == c);
            } else {
                assert(after[i + 1]@ == c);
            }
        }
        if is_listed(after, c) && c != t@ {
            let i = choose|i: int| 0 <= i < after.len() && (#[trigger] after[i])@ == c;
            if i < p {
                assert(before[i]@ == c);
            } else {
                assert(before[i - 1]@ == c);
            }
        }
    }
}

/// What precedes a text precedes what that text precedes.
proof fn lemma_precedes_chain(a: Seq<char>, b: Seq<char>, c: Seq<char>)
    requires
        text::precedes(a, b),
        text::precedes(b, c),
    ensures
        text::precedes(a, c),
{
    if !text::precedes(a, c) {
        text::precedes_is_asymmetric(b, c);
        text::precedes_is_transitive(a, c, b);
    }
}

/// The clusters of a meeting whose turns are called by the label, each once, in rising order.
pub fn clusters_with_label(
    turns: &[SpeakerTurn],
    profiles: &[SpeakerProfile],
    speaker_label: &str,
) -> (r: Result<Vec<String>, String>)
    requires
        all_callable(turns@, profiles@),
    ensures
        match r {
            Ok(clusters) => {
                &&& clusters@.len() > 0
                &&& is_rising(clusters@)
                &&& forall|c: Seq<char>| #[trigger]
                    is_listed(clusters@, c) <==> is_called(turns@, profiles@, speaker_label@, c)
            },
            Err(e) => {
                &&& e@
                    == "Speaker label was not found in this meeting. Run Identify Speakers first."@
                &&& forall|c: Seq<char>| !#[trigger] is_called(turns@, profiles@, speaker_label@, c)
            },
        },
{
    let mut clusters: Vec<String> = Vec::new();
    let mut i: usize = 0;
    while i < turns.len()
        invariant
            i <= turns@.len(),
            all_callable(turns@, profiles@),
            is_rising(clusters@),
            forall|c: Seq<char>| #[trigger]
                is_listed(clusters@, c) <==> is_called(
                    turns@.take(i as int),
                    profiles@,
                    speaker_label@,
                    c,
                ),
        decreases turns@.len() - i,
    {
        assert(is_callable(turns@[i as int], profiles@));
        let assignment = turn_to_assignment(models::copy_turn(&turns[i]), profiles);
        let ghost before = clusters@;
        let called: bool = text::same_text(assignment.speaker_label.as_str(), speaker_label);
        if called {
            insert_rising(&mut clusters, assignment.cluster_label.as_str());
        }
        proof {
            let sooner = turns@.take(i as int);
            let now = turns@.take(i + 1);
            assert forall|c: Seq<char>| #[trigger]
                is_listed(clusters@, c) <==> is_called(now, profiles@, speaker_label@, c) by {
                if is_called(sooner, profiles@, speaker_label@, c) {
                    let k = choose|k: int|
                        0 <= k < sooner.len() && (#[trigger] sooner[k]).cluster_label@ == c
                            && stored_label(sooner[k], profiles@) == speaker_label@;
                    assert(now[k] == sooner[k]);
                }
                if is_called(now, profiles@, speaker_label@, c) {
                    let k = choose|k: int|
                        0 <= k < now.len() && (#[trigger] now[k]).cluster_label@ == c
                            && stored_label(now[k], profiles@) == speaker_label@;
                    if k < i {
                        assert(sooner[k] == now[k]);
                    }
                }
                if called {
                    assert(now[i as int] == turns@[i as int]);
                }
                assert(is_listed(before, c) <==> is_called(
                    sooner,
                    profiles@,
                    speaker_label@,
                    c,
                ));
            }
        }
        i += 1;
    }
    assert(turns@.take(i as int) =~= turns@);
    if clusters.len() == 0 {
        assert forall|c: Seq<char>| !#[trigger] is_called(turns@, profiles@, speaker_label@, c) by {
            assert(!is_listed(clusters@, c));
        }
        Err("Speaker label was not found in this meeting. Run Identify Speakers first.".to_owned())
    } else {
        Ok(clusters)
    }
}

/// The speaker columns to write for a segment that the user gives to a speaker.
pub fn assign_transcript_speaker(
    transcript_id: &str,
    profile: &SpeakerProfile,
    learn_voiceprint: bool,
) -> (r: Result<SegmentUpdate, String>)
    ensures
        match r {
            Ok(update) => {
                &&& !learn_voiceprint
                &&& update.transcript_id@ == transcript_id@
                &&& update.speaker_profile_id == Some(profile.id)
                &&& update.speaker_label == profile.display_name
                &&& models::real_view(update.speaker_confidence) == Some(double::whole(1))
                &&& update.speaker_confirmed == 1
            },
            Err(e) => learn_voiceprint && e@
                == "Learning from a single transcript segment is not available yet. Assign the full speaker cluster instead."@,
        },
{
    if learn_voiceprint {
        return Err(
            "Learning from a single transcript segment is not available yet. Assign the full speaker cluster instead.".to_owned(),
        );
    }
    Ok(
        SegmentUpdate {
            transcript_id: transcript_id.to_owned(),
            speaker_profile_id: Some(profile.id.clone()),
            speaker_label: profile.display_name.clone(),
            speaker_confidence: Some(Double::from_whole(1)),
            speaker_confirmed: 1,
        },
    )
}

/// What follows once clusters were given to a speaker.
#[derive(Clone, Copy, PartialEq, Eq, Structural, Debug)]
pub enum FollowUp {
    /// The voice of the cluster is learned.
    Learn { cluster: usize },
    /// The speaker is looked for in other meetings.
    Propagate,
    /// Nothing more.
    Nothing,
}

/// Says what follows once `clusters` clusters were given to a speaker, of whom the voice was tried
/// to be learned from the first `tried` ones: where it is to be learned, that is done for each
/// cluster in turn, whatever came of the others, and then for other meetings once; else nothing is
/// done.
pub fn follow_up(learn_voiceprint: bool, clusters: usize, tried: usize, propagated: bool) -> (r:
    FollowUp)
    ensures
        r == if learn_voiceprint && tried < clusters {
            FollowUp::Learn { cluster: tried }
        } else if learn_voiceprint && !propagated {
            FollowUp::Propagate
        } else {
            FollowUp::Nothing
        },
{
    if !learn_voiceprint {
        FollowUp::Nothing
    } else if tried < clusters {
        FollowUp::Learn { cluster: tried }
    } else if !propagated {
        FollowUp::Propagate
    } else {
        FollowUp::Nothing
    }
}

/// The number of failures.
pub open spec fn failures(learned: Seq<bool>) -> nat
    decreases learned.len(),
{
    if learned.len() == 0 {
        0
    } else {
        failures(learned.drop_last()) + if learned.last() {
            0nat
        } else {
            1nat
        }
    }
}

/// What came of assigning a speaker. A voice that could not be learned is counted, and leaves
/// the assignment as it is.
pub fn assignment_result(
    updated_transcript_count: u64,
    updated_turn_count: u64,
    learned: &[bool],
    propagation: SpeakerPropagationSummary,
    profile: SpeakerProfile,
) -> (r: SpeakerAssignmentResult)
    requires
        propagation.error_count + failures(learned@) <= u64::MAX,
    ensures
        r.updated_transcript_count == updated_transcript_count,
        r.updated_turn_count == updated_turn_count,
        r.propagated_meeting_count == propagation.meeting_count,
        r.propagated_transcript_count == propagation.transcript_count,
        r.propagation_error_count == propagation.error_count + failures(learned@),
        r.profile == (SpeakerProfileDto {
            id: profile.id,
            display_name: profile.display_name,
            color: profile.color,
        }),
{
    let mut errors: u64 = propagation.error_count;
    let mut i: usize = 0;
    while i < learned.len()
        invariant
            i <= learned@.len(),
            propagation.error_count + failures(learned@) <= u64::MAX,
            errors == propagation.error_count + failures(learned@.take(i as int)),
        decreases learned@.len() - i,
    {
        assert(learned@.take(i + 1).drop_last() =~= learned@.take(i as int));
        proof {
            lemma_failures_grow(learned@, (i + 1) as int);
        }
        if !learned[i] {
            errors += 1;
        }
        i += 1;
    }
    assert(learned@.take(i as int) =~= learned@);
    SpeakerAssignmentResult {
        updated_transcript_count,
        updated_turn_count,
        propagated_meeting_count: propagation.meeting_count,
        propagated_transcript_count: propagation.transcript_count,
        propagation_error_count: errors,
        profile: profile_to_dto(profile),
    }
}

proof fn lemma_failures_grow(learned: Seq<bool>, n: int)
    requires
        0 <= n <= learned.len(),
    ensures
        failures(learned.take(n)) <= failures(learned),
    decreases learned.len(),
{
    if n < learned.len() {
        lemma_failures_grow(learned.drop_last(), n);
        assert(learned.drop_last().take(n) =~= learned.take(n));
    } else {
        assert(learned.take(n) =~= learned);
    }
}

// Learning.

/// The turns of a cluster as the sidecar sees them, in their order.
pub open spec fn turns_in(turns: Seq<SpeakerTurn>, cluster: Seq<char>) -> Seq<SidecarTurn>
    decreases turns.len(),
{
    if turns.len() == 0 {
        Seq::empty()
    } else if turns.last().cluster_label@ == cluster {
        turns_in(turns.drop_last(), cluster).push(
            SidecarTurn {
                cluster_label: turns.last().cluster_label,
                start: turns.last().start_time,
                end: turns.last().end_time,
            },
        )
    } else {
        turns_in(turns.drop_last(), cluster)
    }
}

/// The request to learn the voice of a cluster from its turns.
pub fn embed_cluster_request(audio_path: &str, turns: &[SpeakerTurn], cluster_label: &str) -> (r:
    Result<SidecarEmbedClusterRequest, String>)
    ensures
        match r {
            Ok(request) => {
                &&& request.turns@.len() > 0
                &&& request.audio_path@ == audio_path@
                &&& request.turns@ == turns_in(turns@, cluster_label@)
                &&& request.max_turns == LEARNING_MAX_TURNS
                &&& request.min_turn_duration@ == double::ratio(3, 2)
            },
            Err(e) => turns_in(turns@, cluster_label@).len() == 0 && e@
                == "No speaker turns found for that cluster"@,
        },
{
    let mut chosen: Vec<SidecarTurn> = Vec::new();
    let mut i: usize = 0;
    while i < turns.len()
        invariant
            i <= turns@.len(),
            chosen@ == turns_in(turns@.take(i as int), cluster_label@),
        decreases turns@.len() - i,
    {
        assert(turns@.take(i + 1).drop_last() =~= turns@.take(i as int));
        let turn: &SpeakerTurn = &turns[i];
        if text::same_text(turn.cluster_label.as_str(), cluster_label) {
            chosen.push(
                SidecarTurn {
                    cluster_label: turn.cluster_label.clone(),
                    start: turn.start_time,
                    end: turn.end_time,
                },
            );
        }
        i += 1;
    }
    assert(turns@.take(i as int) =~= turns@);
    if chosen.len() == 0 {
        return Err("No speaker turns found for that cluster".to_owned());
    }
    Ok(
        SidecarEmbedClusterRequest {
            audio_path: audio_path.to_owned(),
            turns: chosen,
            max_turns: LEARNING_MAX_TURNS,
            min_turn_duration: Double::divide(3, 2),
        },
    )
}

/// What is to be remembered of the voice that the sidecar learned from a cluster of a meeting.
pub fn learned_voice(response: SidecarEmbedClusterResponse, meeting_id: &str, cluster_label: &str) -> (r:
    LearnedVoice)
    ensures
        r.embedding_model == response.embedding_model,
        r.embedding@ == bytes::bytes_of(response.embedding@),
        r.sample_count == response.sample_count,
        r.total_duration == response.total_duration,
        models::text_view(r.source_meeting_id) == Some(meeting_id@),
        models::text_view(r.source_cluster_label) == Some(cluster_label@),
{
    LearnedVoice {
        embedding_model: response.embedding_model,
        embedding: bytes::f32_vec_to_bytes(&response.embedding),
        sample_count: response.sample_count,
        total_duration: response.total_duration,
        source_meeting_id: Some(meeting_id.to_owned()),
        source_cluster_label: Some(cluster_label.to_owned()),
    }
}

/// The sidecar is told just what it taught: the embedding of a learned voice, stored as bytes,
/// comes back number for number.
pub proof fn learned_embedding_comes_back(
    response: SidecarEmbedClusterResponse,
    voice: LearnedVoice,
    profiles: Seq<SpeakerProfile>,
    voiceprint: SpeakerVoiceprint,
    told: SidecarProfile,
)
    requires
        voice.embedding@ == bytes::bytes_of(response.embedding@),
        voiceprint.embedding@ == voice.embedding@,
        tells_voice(told, profiles, voiceprint),
    ensures
        told.embedding@ == response.embedding@,
{
    bytes::bytes_round_trip(response.embedding@);
}

// The user's word.

/// Whether `new` is the row `was` after the user gave clusters of a meeting to a speaker: a row of
/// one of the clusters gets the speaker, confirmed and for certain, any other stays as it was.
pub open spec fn given(
    was: SpeakerTurn,
    new: SpeakerTurn,
    meeting_id: Seq<char>,
    clusters: Seq<String>,
    profile_id: Seq<char>,
) -> bool {
    if was.meeting_id@ == meeting_id && is_listed(clusters, was.cluster_label@) {
        &&& new.id == was.id
        &&& new.meeting_id == was.meeting_id
        &&& new.cluster_label == was.cluster_label
        &&& models::text_view(new.speaker_profile_id) == Some(profile_id)
        &&& new.start_time == was.start_time
        &&& new.end_time == was.end_time
        &&& models::real_view(new.confidence) == Some(double::whole(1))
        &&& new.assignment_source@ == "user"@
        &&& new.confirmed == 1
        &&& new.created_at == was.created_at
        &&& outside::is_utc_time(new.updated_at@)
    } else {
        new == was
    }
}

/// The number of rows of the meeting that are of one of the clusters.
pub open spec fn rows_in(rows: Seq<SpeakerTurn>, meeting_id: Seq<char>, clusters: Seq<String>) -> nat
    decreases rows.len(),
{
    if rows.len() == 0 {
        0
    } else {
        rows_in(rows.drop_last(), meeting_id, clusters) + if rows.last().meeting_id@ == meeting_id
            && is_listed(clusters, rows.last().cluster_label@) {
            1nat
        } else {
            0nat
        }
    }
}

proof fn lemma_listed_push(clusters: Seq<String>, last: String, c: Seq<char>)
    ensures
        is_listed(clusters.push(last), c) <==> is_listed(clusters, c) || last@ == c,
{
    let all = clusters.push(last);
    if is_listed(clusters, c) {
        let i = choose|i: int| 0 <= i < clusters.len() && (#[trigger] clusters[i])@ == c;
        assert(all[i]@ == c);
    }
    if last@ == c {
        assert(all[clusters.len() as int]@ == c);
    }
    if is_listed(all, c) {
        let i = choose|i: int| 0 <= i < all.len() && (#[trigger] all[i])@ == c;
        if i < clusters.len() {
            assert(clusters[i]@ == c);
        }
    }
}

/// The rows of one more cluster add to those of the clusters before it.
proof fn lemma_rows_in_push(
    rows: Seq<SpeakerTurn>,
    others: Seq<SpeakerTurn>,
    meeting_id: Seq<char>,
    clusters: Seq<String>,
    last: String,
)
    requires
        !is_listed(clusters, last@),
        rows.len() == others.len(),
        forall|i: int|
            0 <= i < rows.len() ==> (#[trigger] rows[i]).meeting_id@ == others[i].meeting_id@
                && rows[i].cluster_label@ == others[i].cluster_label@,
    ensures
        rows_in(rows, meeting_id, clusters.push(last)) == rows_in(rows, meeting_id, clusters)
            + speaker_turn::cluster_size(others, meeting_id, last@),
    decreases rows.len(),
{
    if rows.len() > 0 {
        lemma_rows_in_push(rows.drop_last(), others.drop_last(), meeting_id, clusters, last);
        lemma_listed_push(clusters, last, rows.last().cluster_label@);
        assert(rows.last().meeting_id@ == others.last().meeting_id@);
    }
}

proof fn lemma_rows_in_bound(rows: Seq<SpeakerTurn>, meeting_id: Seq<char>, clusters: Seq<String>)
    ensures
        rows_in(rows, meeting_id, clusters) <= rows.len(),
        clusters.len() == 0 ==> rows_in(rows, meeting_id, clusters) == 0,
    decreases rows.len(),
{
    if rows.len() > 0 {
        lemma_rows_in_bound(rows.drop_last(), meeting_id, clusters);
    }
}

/// Gives clusters of a meeting to a speaker because the user says so, and tells how many turns
/// that are.
pub fn assign_clusters(
    rows: &mut Vec<SpeakerTurn>,
    meeting_id: &str,
    clusters: &[String],
    profile_id: &str,
) -> (r: u64)
    requires
        is_rising(clusters@),
    ensures
        r == rows_in(old(rows)@, meeting_id@, clusters@),
        final(rows)@.len() == old(rows)@.len(),
        forall|i: int|
            0 <= i < old(rows)@.len() ==> #[trigger] given(
                old(rows)@[i],
                final(rows)@[i],
                meeting_id@,
                clusters@,
                profile_id@,
            ),
{
    let ghost before = rows@;
    let total: usize = rows.len();
    let mut updated: u64 = 0;
    let mut k: usize = 0;
    proof {
        lemma_rows_in_bound(before, meeting_id@, clusters@.take(0));
    }
    while k < clusters.len()
        invariant
            k <= clusters@.len(),
            is_rising(clusters@),
            rows@.len() == before.len(),
            total == before.len(),
            updated == rows_in(before, meeting_id@, clusters@.take(k as int)),
            updated <= before.len(),
            forall|i: int|
                0 <= i < before.len() ==> #[trigger] given(
                    before[i],
                    rows@[i],
                    meeting_id@,
                    clusters@.take(k as int),
                    profile_id@,
                ),
        decreases clusters@.len() - k,
    {
        let ghost sooner = rows@;
        let ghost some = clusters@.take(k as int);
        let ghost more = clusters@.take(k + 1);
        let cluster: &str = clusters[k].as_str();
        let certain: Option<Double> = Some(Double::from_whole(1));
        let n: u64 = SpeakerTurnRepository::assign_cluster(
            rows,
            meeting_id,
            cluster,
            profile_id,
            certain,
            true,
            "user",
        );
        proof {
            assert(more =~= some.push(clusters@[k as int]));
            assert(!is_listed(some, cluster@)) by {
                if is_listed(some, cluster@) {
                    let i = choose|i: int| 0 <= i < some.len() && (#[trigger] some[i])@ == cluster@;
                    assert(text::precedes(clusters@[i]@, clusters@[k as int]@));
                    text::precedes_is_asymmetric(cluster@, cluster@);
                }
            }
            assert forall|i: int| 0 <= i < before.len() implies (#[trigger] before[i]).meeting_id@
                == sooner[i].meeting_id@ && before[i].cluster_label@ == sooner[i].cluster_label@ by {
                assert(given(before[i], sooner[i], meeting_id@, some, profile_id@));
            }
            lemma_rows_in_push(before, sooner, meeting_id@, some, clusters@[k as int]);
            lemma_rows_in_bound(before, meeting_id@, more);
            let now = choose|now: Seq<char>|
                outside::is_utc_time(now) && forall|i: int|
                    0 <= i < sooner.len() ==> #[trigger] speaker_turn::reassigned(
                        sooner[i],
                        rows@[i],
                        meeting_id@,
                        cluster@,
                        profile_id@,
                        certain,
                        true,
                        "user"@,
                        now,
                    );
            assert forall|i: int| 0 <= i < before.len() implies #[trigger] given(
                before[i],
                rows@[i],
                meeting_id@,
                more,
                profile_id@,
            ) by {
                assert(given(before[i], sooner[i], meeting_id@, some, profile_id@));
                assert(speaker_turn::reassigned(
                    sooner[i],
                    rows@[i],
                    meeting_id@,
                    cluster@,
                    profile_id@,
                    certain,
                    true,
                    "user"@,
                    now,
                ));
                lemma_listed_push(some, clusters@[k as int], before[i].cluster_label@);
            }
        }
        updated += n;
        k += 1;
    }
    assert(clusters@.take(k as int) =~= clusters@);
    updated
}

/// A turn that the user gave to a speaker is called by that speaker's name, for certain.
pub proof fn given_turns_are_called_by_name(
    was: SpeakerTurn,
    new: SpeakerTurn,
    meeting_id: Seq<char>,
    clusters: Seq<String>,
    profile_id: Seq<char>,
    profiles: Seq<SpeakerProfile>,
    p: int,
)
    requires
        given(was, new, meeting_id, clusters, profile_id),
        was.meeting_id@ == meeting_id,
        is_listed(clusters, was.cluster_label@),
        profile_with(profiles, profile_id, profiles.len()) == Some(p),
    ensures
        stored_label(new, profiles) == profiles[p].display_name@,
        new.confirmed == 1,
{
    reveal_strlit("user");
    reveal_strlit("ambiguous_recognition");
    assert("user"@.len() != "ambiguous_recognition"@.len());
}

// What the functions above are for.

/// A profile is found by its identifier just where there is one that has it: it is the last one.
pub proof fn profiles_are_found_by_identifier(profiles: Seq<SpeakerProfile>, id: Seq<char>, n: nat)
    requires
        n <= profiles.len(),
    ensures
        match profile_with(profiles, id, n) {
            Some(p) => 0 <= p < n && profiles[p].id@ == id && forall|j: int|
                p < j < n ==> (#[trigger] profiles[j]).id@ != id,
            None => forall|j: int| 0 <= j < n ==> (#[trigger] profiles[j]).id@ != id,
        },
    decreases n,
{
    if n > 0 {
        profiles_are_found_by_identifier(profiles, id, (n - 1) as nat);
    }
}

/// The sidecar is told every known voice: a voiceprint is among those that are told exactly if some
/// profile has the identifier of its speaker, each once, in the order in which they are stored.
pub proof fn every_known_voice_is_told(
    profiles: Seq<SpeakerProfile>,
    voiceprints: Seq<SpeakerVoiceprint>,
    n: nat,
)
    requires
        n <= voiceprints.len(),
    ensures
        forall|i: int|
            #![trigger known_voices(profiles, voiceprints, n).contains(i)]
            known_voices(profiles, voiceprints, n).contains(i) <==> 0 <= i < n && exists|p: int|
                0 <= p < profiles.len() && (#[trigger] profiles[p]).id@
                    == voiceprints[i].speaker_profile_id@,
        forall|j: int, k: int|
            0 <= j < k < known_voices(profiles, voiceprints, n).len() ==> #[trigger] known_voices(
                profiles,
                voiceprints,
                n,
            )[j] < #[trigger] known_voices(profiles, voiceprints, n)[k],
    decreases n,
{
    let all = known_voices(profiles, voiceprints, n);
    if n > 0 {
        every_known_voice_is_told(profiles, voiceprints, (n - 1) as nat);
        let before = known_voices(profiles, voiceprints, (n - 1) as nat);
        let id = voiceprints[n - 1].speaker_profile_id@;
        profiles_are_found_by_identifier(profiles, id, profiles.len());
        assert forall|j: int| 0 <= j < before.len() implies 0 <= #[trigger] before[j] < n - 1 by {
            assert(before.contains(before[j]));
        }
        assert forall|i: int| #![trigger all.contains(i)]
            all.contains(i) <==> 0 <= i < n && exists|p: int|
                0 <= p < profiles.len() && (#[trigger] profiles[p]).id@
                    == voiceprints[i].speaker_profile_id@ by {
            if all.contains(i) {
                let w = all.index_of(i);
                if w < before.len() {
                    assert(before[w] == i);
                    assert(before.contains(i));
                } else {
                    let p = profile_with(profiles, id, profiles.len())->0;
                    assert(profiles[p].id@ == id);
                }
            }
            if 0 <= i < n && exists|p: int|
                0 <= p < profiles.len() && (#[trigger] profiles[p]).id@
                    == voiceprints[i].speaker_profile_id@ {
                if i < n - 1 {
                    assert(before.contains(i));
                    let w = before.index_of(i);
                    assert(all[w] == i);
                } else {
                    assert(all[before.len() as int] == i);
                }
            }
        }
    }
}

/// What the sidecar is told of a voiceprint is the voice of its speaker: the name and the
/// identifier of the profile that has that identifier, the model, and every number of the
/// embedding.
pub proof fn told_voices_are_those_of_their_speaker(
    voice: SidecarProfile,
    profiles: Seq<SpeakerProfile>,
    voiceprint: SpeakerVoiceprint,
    values: Seq<u32>,
)
    requires
        tells_voice(voice, profiles, voiceprint),
        exists|p: int|
            0 <= p < profiles.len() && (#[trigger] profiles[p]).id@
                == voiceprint.speaker_profile_id@,
        voiceprint.embedding@ == bytes::bytes_of(values),
    ensures
        voice.profile_id@ == voiceprint.speaker_profile_id@,
        exists|p: int|
            0 <= p < profiles.len() && (#[trigger] profiles[p]).id == voice.profile_id
                && profiles[p].display_name == voice.display_name,
        voice.embedding_model == voiceprint.embedding_model,
        voice.embedding@ == values,
{
    let id = voiceprint.speaker_profile_id@;
    profiles_are_found_by_identifier(profiles, id, profiles.len());
    let p = profile_with(profiles, id, profiles.len())->0;
    assert(profiles[p].id == voice.profile_id);
    bytes::bytes_round_trip(values);
}

/// A voice is learned from the whole of every stored turn of the cluster: they are asked for one by
/// one, in their order, each under its cluster, from its start to its end, and no other turn is.
pub proof fn voices_are_learned_from_whole_turns(turns: Seq<SpeakerTurn>, cluster: Seq<char>)
    ensures
        turns_in(turns, cluster).len() == turns.filter(|t: SpeakerTurn| t.cluster_label@ == cluster).len(),
        forall|k: int|
            0 <= k < turns_in(turns, cluster).len() ==> {
                let row = turns.filter(|t: SpeakerTurn| t.cluster_label@ == cluster)[k];
                let asked = #[trigger] turns_in(turns, cluster)[k];
                &&& asked.cluster_label == row.cluster_label
                &&& asked.cluster_label@ == cluster
                &&& asked.start == row.start_time
                &&& asked.end == row.end_time
            },
    decreases turns.len(),
{
    let here = |t: SpeakerTurn| t.cluster_label@ == cluster;
    reveal(Seq::filter);
    if turns.len() > 0 {
        voices_are_learned_from_whole_turns(turns.drop_last(), cluster);
        let sooner = turns_in(turns.drop_last(), cluster);
        assert forall|k: int| 0 <= k < turns_in(turns, cluster).len() implies {
            let row = turns.filter(here)[k];
            let asked = #[trigger] turns_in(turns, cluster)[k];
            &&& asked.cluster_label == row.cluster_label
            &&& asked.cluster_label@ == cluster
            &&& asked.start == row.start_time
            &&& asked.end == row.end_time
        } by {
            if k < sooner.len() {
                assert(turns_in(turns, cluster)[k] == sooner[k]);
            }
        }
    }
}

/// The match of a cluster is the last one with its label, and there is none where no match has it.
pub proof fn matches_are_found_by_cluster(
    matches: Seq<SidecarClusterMatch>,
    cluster: Seq<char>,
    n: nat,
)
    requires
        n <= matches.len(),
    ensures
        match match_of(matches, cluster, n) {
            Some(m) => exists|k: int|
                0 <= k < n && #[trigger] matches[k] == m && m.cluster_label@ == cluster && forall|
                    j: int,
                |
                    k < j < n ==> (#[trigger] matches[j]).cluster_label@ != cluster,
            None => forall|j: int| 0 <= j < n ==> (#[trigger] matches[j]).cluster_label@ != cluster,
        },
    decreases n,
{
    if n > 0 {
        matches_are_found_by_cluster(matches, cluster, (n - 1) as nat);
        if matches[n - 1].cluster_label@ == cluster {
            assert(matches[n - 1] == match_of(matches, cluster, n)->0);
        } else if match_of(matches, cluster, n) is Some {
            let k = choose|k: int|
                0 <= k < n - 1 && #[trigger] matches[k] == match_of(matches, cluster, n)->0
                    && matches[k].cluster_label@ == cluster && forall|j: int|
                    k < j < n - 1 ==> (#[trigger] matches[j]).cluster_label@ != cluster;
            assert(forall|j: int| k < j < n ==> (#[trigger] matches[j]).cluster_label@ != cluster);
        }
    }
}

/// A recognized turn keeps its cluster and its times and is not confirmed. It has the profile and
/// the confidence of its match, and the matched name, behind `Maybe` where the match is in doubt.
/// Without a name that can be trusted it is called by its cluster.
pub proof fn recognized_turns_are_named_after_their_match(
    a: SpeakerTurnAssignment,
    turn: SidecarTurn,
    m: SidecarClusterMatch,
)
    requires
        assigns_match(a, turn, Some(m)),
    ensures
        a.cluster_label@ == turn.cluster_label@,
        a.start_time == turn.start,
        a.end_time == turn.end,
        !a.confirmed,
        a.speaker_profile_id == m.profile_id,
        a.confidence == m.confidence,
        m.display_name matches Some(name) ==> (m.ambiguous ==> a.speaker_label@ == "Maybe "@ + name@),
        m.display_name matches Some(name) ==> (!m.ambiguous && m.profile_id is Some
            ==> a.speaker_label@ == name@),
        m.display_name is None || !m.ambiguous && m.profile_id is None ==> a.speaker_label@
            == labels::cluster_name(turn.cluster_label@),
        m.ambiguous ==> a.assignment_source@ == "ambiguous_recognition"@,
        !m.ambiguous && m.profile_id is Some ==> a.assignment_source@ == "recognition"@,
        !m.ambiguous && m.profile_id is None ==> a.assignment_source@ == "diarization"@,
{
}

/// A turn that was matched with nobody keeps its cluster and its times, is called by its cluster,
/// and has neither a profile nor a confidence nor a confirmation.
pub proof fn unmatched_turns_are_called_by_cluster(a: SpeakerTurnAssignment, turn: SidecarTurn)
    requires
        assigns_match(a, turn, None),
    ensures
        a.cluster_label@ == turn.cluster_label@,
        a.start_time == turn.start,
        a.end_time == turn.end,
        !a.confirmed,
        a.speaker_profile_id is None,
        a.confidence is None,
        a.speaker_label@ == labels::cluster_name(turn.cluster_label@),
        a.assignment_source@ == "diarization"@,
{
}

/// A turn is shown with what it holds.
pub proof fn turns_show_what_they_hold(a: SpeakerTurnAssignment)
    ensures
        shown_turn(a).cluster_label@ == a.cluster_label@,
        shown_turn(a).speaker_profile_id == a.speaker_profile_id,
        shown_turn(a).speaker_label@ == a.speaker_label@,
        shown_turn(a).start_time == a.start_time,
        shown_turn(a).end_time == a.end_time,
        shown_turn(a).confidence == a.confidence,
        shown_turn(a).confirmed == a.confirmed,
{
}

/// A stored turn is called by the name of the profile that it was given to, behind `Maybe` where
/// that was in doubt, and by its cluster where no profile has its identifier. It keeps its other
/// fields, and is confirmed unless its mark is zero.
#[verifier::spinoff_prover]
pub proof fn stored_turns_are_called_by_profile(
    a: SpeakerTurnAssignment,
    turn: SpeakerTurn,
    profiles: Seq<SpeakerProfile>,
    p: int,
)
    requires
        tells_stored(a, turn, profiles),
    ensures
        a.cluster_label@ == turn.cluster_label@,
        a.speaker_profile_id == turn.speaker_profile_id,
        a.start_time == turn.start_time,
        a.end_time == turn.end_time,
        a.confidence == turn.confidence,
        a.confirmed <==> turn.confirmed != 0,
        a.assignment_source@ == turn.assignment_source@,
        turn.speaker_profile_id is None ==> a.speaker_label@ == labels::cluster_name(
            turn.cluster_label@,
        ),
        turn.speaker_profile_id matches Some(id) ==> {
            &&& (forall|j: int| 0 <= j < profiles.len() ==> (#[trigger] profiles[j]).id@ != id@)
                ==> a.speaker_label@ == labels::cluster_name(turn.cluster_label@)
            &&& 0 <= p < profiles.len() && profiles[p].id@ == id@ && (forall|j: int|
                p < j < profiles.len() ==> (#[trigger] profiles[j]).id@ != id@) ==> if turn.assignment_source@
                == "ambiguous_recognition"@ {
                a.speaker_label@ == "Maybe "@ + profiles[p].display_name@
            } else {
                a.speaker_label@ == profiles[p].display_name@
            }
        },
{
    if let Some(id) = turn.speaker_profile_id {
        profiles_are_found_by_identifier(profiles, id@, profiles.len());
    }
}

/// A rising list of texts holds none of them twice, and a text is on a list just where one of its
/// entries holds the same characters.
pub proof fn rising_lists_hold_each_once(texts: Seq<String>, t: Seq<char>, i: int, j: int)
    ensures
        is_rising(texts) && 0 <= i < j < texts.len() ==> texts[i]@ != texts[j]@ && text::precedes(
            texts[i]@,
            texts[j]@,
        ),
        is_listed(texts, t) <==> Seq::new(texts.len(), |k: int| texts[k]@).contains(t),
{
    let held = Seq::new(texts.len(), |k: int| texts[k]@);
    if is_rising(texts) && 0 <= i < j < texts.len() {
        text::precedes_is_asymmetric(texts[i]@, texts[j]@);
    }
    if is_listed(texts, t) {
        let k = choose|k: int| 0 <= k < texts.len() && (#[trigger] texts[k])@ == t;
        assert(held[k] == t);
    }
    if held.contains(t) {
        let k = held.index_of(t);
        assert(texts[k]@ == t);
    }
}

/// A cluster is among those of a label just where one of its turns is called by that label.
#[verifier::spinoff_prover]
pub proof fn clusters_are_found_by_their_label(
    turns: Seq<SpeakerTurn>,
    profiles: Seq<SpeakerProfile>,
    label: Seq<char>,
    cluster: Seq<char>,
)
    ensures
        is_called(turns, profiles, label, cluster) <==> turns.filter(
            |t: SpeakerTurn| t.cluster_label@ == cluster && stored_label(t, profiles) == label,
        ).len() > 0,
    decreases turns.len(),
{
    reveal(Seq::filter);
    if turns.len() > 0 {
        let less = turns.drop_last();
        clusters_are_found_by_their_label(less, profiles, label, cluster);
        if is_called(turns, profiles, label, cluster) {
            let i = choose|i: int|
                0 <= i < turns.len() && (#[trigger] turns[i]).cluster_label@ == cluster
                    && stored_label(turns[i], profiles) == label;
            if i < less.len() {
                assert(less[i] == turns[i]);
            }
        }
        if is_called(less, profiles, label, cluster) {
            let i = choose|i: int|
                0 <= i < less.len() && (#[trigger] less[i]).cluster_label@ == cluster
                    && stored_label(less[i], profiles) == label;
            assert(turns[i] == less[i]);
        }
        if turns.last().cluster_label@ == cluster && stored_label(turns.last(), profiles) == label {
            assert(turns[turns.len() - 1] == turns.last());
        }
    }
}

/// As many failures are counted as voices were not learned.
pub proof fn failures_are_what_was_not_learned(learned: Seq<bool>)
    ensures
        failures(learned) == learned.filter(|b: bool| !b).len(),
    decreases learned.len(),
{
    reveal(Seq::filter);
    if learned.len() > 0 {
        failures_are_what_was_not_learned(learned.drop_last());
    }
}

/// Giving clusters to a speaker confirms the rows of those clusters in that meeting and leaves any
/// other row as it was; of the rows that it gives, what is not about the speaker stays.
pub proof fn given_rows_are_confirmed_by_the_user(
    was: SpeakerTurn,
    new: SpeakerTurn,
    meeting_id: Seq<char>,
    clusters: Seq<String>,
    profile_id: Seq<char>,
    k: int,
)
    requires
        given(was, new, meeting_id, clusters, profile_id),
    ensures
        was.meeting_id@ != meeting_id || (forall|j: int|
            0 <= j < clusters.len() ==> (#[trigger] clusters[j])@ != was.cluster_label@) ==> new
            == was,
        was.meeting_id@ == meeting_id && 0 <= k < clusters.len() && clusters[k]@
            == was.cluster_label@ ==> {
            &&& new.speaker_profile_id is Some
            &&& new.speaker_profile_id->0@ == profile_id
            &&& new.confidence is Some
            &&& new.confidence->0@ == double::whole(1)
            &&& new.assignment_source@ == "user"@
            &&& new.confirmed == 1
            &&& outside::is_utc_time(new.updated_at@)
        },
        new.id == was.id,
        new.meeting_id == was.meeting_id,
        new.cluster_label == was.cluster_label,
        new.start_time == was.start_time,
        new.end_time == was.end_time,
        new.created_at == was.created_at,
{
}

/// As many rows are given as there are rows of those clusters in that meeting.
#[verifier::spinoff_prover]
pub proof fn given_rows_are_counted(
    rows: Seq<SpeakerTurn>,
    meeting_id: Seq<char>,
    clusters: Seq<String>,
)
    ensures
        rows_in(rows, meeting_id, clusters) == rows.filter(
            |t: SpeakerTurn|
                t.meeting_id@ == meeting_id && Seq::new(
                    clusters.len(),
                    |k: int| clusters[k]@,
                ).contains(t.cluster_label@),
        ).len(),
    decreases rows.len(),
{
    reveal(Seq::filter);
    if rows.len() > 0 {
        given_rows_are_counted(rows.drop_last(), meeting_id, clusters);
        rising_lists_hold_each_once(clusters, rows.last().cluster_label@, 0, 0);
    }
}

/// A row without a label counts as one with an empty label.
pub proof fn missing_labels_are_empty(row: LabelRow)
    ensures
        row.speaker_label is None ==> label_of(row).len() == 0,
        row.speaker_label matches Some(label) ==> label_of(row) == label@,
{
}

/// A speaker's name is taken without the whitespace around it, and refused where nothing is left.
pub proof fn blank_names_are_refused(display_name: &str, r: Result<&str, String>)
    requires
        call_ensures(checked_name, (display_name,), r),
    ensures
        r is Ok <==> !text::is_blank(display_name@),
        r matches Ok(name) ==> name@ == text::trimmed(display_name@),
        r matches Err(e) ==> e@ == "Speaker name cannot be empty"@,
{
}

/// A profile is shown by its identifier, its name and its color, and profiles each in its place.
pub proof fn profiles_show_what_they_hold(
    profile: SpeakerProfile,
    dto: SpeakerProfileDto,
    profiles: Vec<SpeakerProfile>,
    dtos: Vec<SpeakerProfileDto>,
    i: int,
)
    requires
        call_ensures(profile_to_dto, (profile,), dto),
        call_ensures(profiles_to_dtos, (profiles,), dtos),
    ensures
        dto.id@ == profile.id@,
        dto.display_name@ == profile.display_name@,
        dto.color == profile.color,
        dtos@.len() == profiles@.len(),
        0 <= i < profiles@.len() ==> dtos@[i].id@ == profiles@[i].id@ && dtos@[i].display_name@
            == profiles@[i].display_name@ && dtos@[i].color == profiles@[i].color,
{
}

/// The first profile with an identifier is found, and nothing where no profile has it.
#[verifier::spinoff_prover]
pub proof fn the_first_profile_is_found(
    profiles: &[SpeakerProfile],
    profile_id: &str,
    r: Result<SpeakerProfile, String>,
    i: int,
)
    requires
        call_ensures(find_profile, (profiles, profile_id), r),
    ensures
        0 <= i < profiles@.len() && profiles@[i].id@ == profile_id@ && (forall|j: int|
            0 <= j < i ==> (#[trigger] profiles@[j]).id@ != profile_id@) ==> r == Ok::<
            SpeakerProfile,
            String,
        >(profiles@[i]),
        (forall|j: int| 0 <= j < profiles@.len() ==> (#[trigger] profiles@[j]).id@ != profile_id@)
            <==> r is Err,
        r matches Err(e) ==> e@ == "Speaker profile not found"@,
{
    if 0 <= i < profiles@.len() && profiles@[i].id@ == profile_id@ {
        if let Ok(p) = r {
            let w = choose|w: int|
                0 <= w < profiles@.len() && #[trigger] profiles@[w] == p && p.id@ == profile_id@ && (
                forall|j: int| 0 <= j < w ==> (#[trigger] profiles@[j]).id@ != profile_id@);
            assert(profiles@[w].id@ == profile_id@);
        }
    }
    if let Ok(p) = r {
        let w = choose|w: int|
            0 <= w < profiles@.len() && #[trigger] profiles@[w] == p && p.id@ == profile_id@ && (
            forall|j: int| 0 <= j < w ==> (#[trigger] profiles@[j]).id@ != profile_id@);
        assert(profiles@[w].id@ == profile_id@);
    }
}

/// Renaming a speaker writes the new name to each of the speaker's segments, behind `Maybe` where
/// the old label was in doubt.
#[verifier::spinoff_prover]
pub proof fn renaming_reaches_every_segment(
    rows: &[LabelRow],
    display_name: &str,
    r: Vec<LabelUpdate>,
    i: int,
)
    requires
        call_ensures(reconcile_profile_assignments, (rows, display_name), r),
    ensures
        r@.len() == rows@.len(),
        0 <= i < rows@.len() ==> {
            &&& r@[i].transcript_id@ == rows@[i].transcript_id@
            &&& rows@[i].speaker_label is None || !labels::is_tentative(rows@[i].speaker_label->0@)
                ==> r@[i].speaker_label@ == display_name@
            &&& rows@[i].speaker_label matches Some(label) ==> (labels::is_tentative(label@)
                ==> r@[i].speaker_label@ == "Maybe "@ + display_name@)
        },
{
    if 0 <= i < rows@.len() && rows@[i].speaker_label is None {
        reveal_strlit("Maybe ");
        assert(text::trimmed_start(Seq::<char>::empty()) =~= Seq::<char>::empty());
        assert(!"Maybe "@.is_prefix_of(Seq::<char>::empty()));
    }
}

/// The sidecar is asked for the whole recording, and for any number of speakers.
pub proof fn the_whole_recording_is_diarized(audio_path: &str, r: SidecarDiarizeRequest)
    requires
        call_ensures(diarize_request, (audio_path,), r),
    ensures
        r.audio_path@ == audio_path@,
        r.num_speakers is None && r.min_speakers is None && r.max_speakers is None,
{
}

/// The sidecar is told the voice of each voiceprint of a known speaker, once and in their order.
#[verifier::spinoff_prover]
pub proof fn known_voices_are_told_in_order(
    profiles: &[SpeakerProfile],
    voiceprints: &[SpeakerVoiceprint],
    r: Vec<SidecarProfile>,
)
    requires
        call_ensures(sidecar_profiles, (profiles, voiceprints), r),
    ensures
        exists|o: Seq<int>|
            #![trigger o.len()]
            {
                &&& o.len() == r@.len()
                &&& forall|j: int, k: int| 0 <= j < k < o.len() ==> #[trigger] o[j] < #[trigger] o[k]
                &&& forall|i: int|
                    #![trigger o.contains(i)]
                    o.contains(i) <==> 0 <= i < voiceprints@.len() && exists|p: int|
                        0 <= p < profiles@.len() && (#[trigger] profiles@[p]).id@
                            == voiceprints@[i].speaker_profile_id@
                &&& forall|k: int|
                    0 <= k < o.len() ==> (#[trigger] r@[k]).profile_id@
                        == voiceprints@[o[k]].speaker_profile_id@ && r@[k].embedding_model
                        == voiceprints@[o[k]].embedding_model && r@[k].embedding@
                        == bytes::numbers_of(voiceprints@[o[k]].embedding@)
            },
{
    let o = known_voices(profiles@, voiceprints@, voiceprints@.len());
    every_known_voice_is_told(profiles@, voiceprints@, voiceprints@.len());
    assert forall|k: int| 0 <= k < o.len() implies (#[trigger] r@[k]).profile_id@
        == voiceprints@[o[k]].speaker_profile_id@ && r@[k].embedding_model
        == voiceprints@[o[k]].embedding_model && r@[k].embedding@ == bytes::numbers_of(
        voiceprints@[o[k]].embedding@,
    ) by {
        assert(o.contains(o[k]));
        profiles_are_found_by_identifier(
            profiles@,
            voiceprints@[o[k]].speaker_profile_id@,
            profiles@.len(),
        );
        let p = choose|p: int|
            0 <= p < profiles@.len() && (#[trigger] profiles@[p]).id@
                == voiceprints@[o[k]].speaker_profile_id@;
        assert(profiles@[p].id@ == voiceprints@[o[k]].speaker_profile_id@);
    }
    assert(o.len() == r@.len());
}

/// The sidecar is asked to recognize the turns among the voices at a threshold of a half and a
/// margin of a twentieth, where there is any voice.
pub proof fn turns_are_recognized_among_voices(
    audio_path: &str,
    turns: &[SidecarTurn],
    profiles: Vec<SidecarProfile>,
    r: Option<SidecarIdentifyRequest>,
)
    requires
        call_ensures(identify_request, (audio_path, turns, profiles), r),
    ensures
        r is Some <==> profiles@.len() > 0,
        r matches Some(q) ==> {
            &&& q.audio_path@ == audio_path@
            &&& q.turns@ == turns@
            &&& q.profiles@ == profiles@
            &&& q.threshold@ == double::ratio(1, 2)
            &&& q.ambiguity_margin@ == double::ratio(1, 20)
        },
{
}

/// Each turn is identified by the last match of its cluster.
pub proof fn turns_are_identified_in_place(
    turns: &[SidecarTurn],
    matches: &[SidecarClusterMatch],
    r: Vec<SpeakerTurnAssignment>,
    i: int,
)
    requires
        call_ensures(identify_turns, (turns, matches), r),
    ensures
        r@.len() == turns@.len(),
        0 <= i < turns@.len() ==> assigns_match(
            r@[i],
            turns@[i],
            match_of(matches@, turns@[i].cluster_label@, matches@.len()),
        ),
{
}

/// The result of identification shows each turn in its place, and counts the segments and the
/// turns; where nobody speaks it is empty.
pub proof fn results_show_every_turn(
    updated: u64,
    assignments: Vec<SpeakerTurnAssignment>,
    r: SpeakerIdentificationResult,
    turns: &[SidecarTurn],
    none: Option<SpeakerIdentificationResult>,
    i: int,
)
    requires
        call_ensures(identification_result, (updated, assignments), r),
        call_ensures(nobody_speaks, (turns,), none),
    ensures
        r.updated_transcript_count == updated,
        r.speaker_turn_count == assignments@.len(),
        r.speakers@.len() == assignments@.len(),
        0 <= i < assignments@.len() ==> r.speakers@[i].speaker_label@
            == assignments@[i].speaker_label@ && r.speakers@[i].start_time
            == assignments@[i].start_time && r.speakers@[i].end_time == assignments@[i].end_time
            && r.speakers@[i].confirmed == assignments@[i].confirmed,
        none is Some <==> turns@.len() == 0,
        none matches Some(result) ==> result.updated_transcript_count == 0
            && result.speaker_turn_count == 0 && result.speakers@.len() == 0,
{
}

/// Stored turns are told each in its place.
pub proof fn stored_turns_are_told_in_place(
    turns: Vec<SpeakerTurn>,
    profiles: &[SpeakerProfile],
    r: Vec<SpeakerTurnAssignment>,
    i: int,
)
    requires
        call_ensures(current_assignments, (turns, profiles), r),
    ensures
        r@.len() == turns@.len(),
        0 <= i < turns@.len() ==> tells_stored(r@[i], turns@[i], profiles@),
{
}

/// The clusters of a label are those with a turn of that label, each once, in rising order.
pub proof fn clusters_of_a_label_are_listed(
    turns: &[SpeakerTurn],
    profiles: &[SpeakerProfile],
    label: &str,
    r: Result<Vec<String>, String>,
    cluster: Seq<char>,
)
    requires
        call_ensures(clusters_with_label, (turns, profiles, label), r),
    ensures
        r matches Ok(clusters) ==> clusters@.len() > 0 && is_rising(clusters@) && (is_listed(
            clusters@,
            cluster,
        ) <==> is_called(turns@, profiles@, label@, cluster)),
        r matches Err(e) ==> e@
            == "Speaker label was not found in this meeting. Run Identify Speakers first."@,
{
    if let Ok(clusters) = r {
        assert(is_listed(clusters@, cluster) <==> is_called(turns@, profiles@, label@, cluster));
    }
}

/// A segment that the user gives to a speaker carries the speaker's name and profile, for certain;
/// a voice cannot be learned from a single segment.
pub proof fn segments_are_given_for_certain(
    transcript_id: &str,
    profile: &SpeakerProfile,
    learn: bool,
    r: Result<SegmentUpdate, String>,
)
    requires
        call_ensures(assign_transcript_speaker, (transcript_id, profile, learn), r),
    ensures
        r is Err <==> learn,
        r matches Ok(u) ==> {
            &&& u.transcript_id@ == transcript_id@
            &&& u.speaker_profile_id is Some
            &&& u.speaker_profile_id->0@ == profile.id@
            &&& u.speaker_label@ == profile.display_name@
            &&& u.speaker_confidence is Some
            &&& u.speaker_confidence->0@ == double::whole(1)
            &&& u.speaker_confirmed == 1
        },
        r matches Err(e) ==> e@
            == "Learning from a single transcript segment is not available yet. Assign the full speaker cluster instead."@,
{
}

/// After an assignment a voice is learned from each cluster in turn, and then carried over once,
/// where that was asked for; otherwise nothing follows.
pub proof fn clusters_are_learned_one_by_one(
    learn: bool,
    clusters: usize,
    tried: usize,
    propagated: bool,
    r: FollowUp,
)
    requires
        call_ensures(follow_up, (learn, clusters, tried, propagated), r),
    ensures
        learn && tried < clusters ==> r == (FollowUp::Learn { cluster: tried }),
        learn && tried >= clusters && !propagated ==> r == FollowUp::Propagate,
        !learn || tried >= clusters && propagated ==> r == FollowUp::Nothing,
{
}

/// The result of an assignment tells what was written here and in other meetings, and counts the
/// voices that could not be learned with the errors.
pub proof fn assignments_tell_what_was_written(
    transcripts: u64,
    turns: u64,
    learned: &[bool],
    propagation: SpeakerPropagationSummary,
    profile: SpeakerProfile,
    r: SpeakerAssignmentResult,
)
    requires
        call_ensures(assignment_result, (transcripts, turns, learned, propagation, profile), r),
    ensures
        r.updated_transcript_count == transcripts,
        r.updated_turn_count == turns,
        r.propagated_meeting_count == propagation.meeting_count,
        r.propagated_transcript_count == propagation.transcript_count,
        r.propagation_error_count == propagation.error_count + learned@.filter(|b: bool| !b).len(),
        r.profile.id@ == profile.id@ && r.profile.display_name@ == profile.display_name@,
        r.profile.color == profile.color,
{
    failures_are_what_was_not_learned(learned@);
}

/// A voice is learned from the turns of its cluster, of which the sidecar takes up to eight that
/// last a second and a half; without turns nothing is asked.
#[verifier::spinoff_prover]
pub proof fn voices_are_learned_from_their_cluster(
    audio_path: &str,
    turns: &[SpeakerTurn],
    cluster: &str,
    r: Result<SidecarEmbedClusterRequest, String>,
    k: int,
)
    requires
        call_ensures(embed_cluster_request, (audio_path, turns, cluster), r),
    ensures
        ({
            let wanted = cluster@;
            let rows = turns@.filter(|t: SpeakerTurn| t.cluster_label@ == wanted);
            &&& r is Err <==> rows.len() == 0
            &&& r matches Err(e) ==> e@ == "No speaker turns found for that cluster"@
            &&& r matches Ok(q) ==> {
                &&& q.audio_path@ == audio_path@
                &&& q.max_turns == 8
                &&& q.min_turn_duration@ == double::ratio(3, 2)
                &&& q.turns@.len() == rows.len()
                &&& 0 <= k < rows.len() ==> q.turns@[k].cluster_label@ == cluster@
                    && q.turns@[k].start == rows[k].start_time && q.turns@[k].end
                    == rows[k].end_time
            }
        }),
{
    let wanted = cluster@;
    voices_are_learned_from_whole_turns(turns@, wanted);
    let asked = turns_in(turns@, wanted);
    assert(0 <= k < asked.len() ==> asked[k].cluster_label@ == wanted);
}

/// What the sidecar learned of a voice is kept whole, with the meeting and the cluster that it was
/// learned from.
pub proof fn learned_voices_name_their_source(
    response: SidecarEmbedClusterResponse,
    meeting_id: &str,
    cluster: &str,
    r: LearnedVoice,
)
    requires
        call_ensures(learned_voice, (response, meeting_id, cluster), r),
    ensures
        r.embedding_model@ == response.embedding_model@,
        r.embedding@ == bytes::bytes_of(response.embedding@),
        r.sample_count == response.sample_count,
        r.total_duration == response.total_duration,
        r.source_meeting_id is Some && r.source_meeting_id->0@ == meeting_id@,
        r.source_cluster_label is Some && r.source_cluster_label->0@ == cluster@,
{
}

/// A turn can be named unless its cluster has the last number of all and nothing else gives it a
/// name.
pub proof fn only_the_last_cluster_has_no_name(
    turns: &[SidecarTurn],
    matches: &[SidecarClusterMatch],
    named: bool,
    turn: &SpeakerTurn,
    profiles: &[SpeakerProfile],
    called: bool,
)
    requires
        call_ensures(can_identify, (turns, matches), named),
        call_ensures(can_call, (turn, profiles), called),
    ensures
        named <==> forall|i: int|
            0 <= i < turns@.len() ==> labels::cluster_number(
                (#[trigger] turns@[i]).cluster_label@,
            ) != Some(usize::MAX as nat) || matched_name(
                match_of(matches@, turns@[i].cluster_label@, matches@.len()),
            ) is Some,
        called <==> labels::cluster_number(turn.cluster_label@) != Some(usize::MAX as nat)
            || profile_name(*turn, profiles@) is Some,
        LEARNING_MAX_TURNS == 8,
{
}

} // verus!
