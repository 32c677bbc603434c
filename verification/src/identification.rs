//! The identification of a meeting's speakers, step by step.

use crate::double;
use crate::labels;
use crate::models::{SpeakerProfile, SpeakerVoiceprint};
use crate::speaker_turn;
use crate::speaker_turn::SpeakerTurnAssignment;
use crate::speakers;
use crate::speakers::{
    SidecarClusterMatch, SidecarDiarizeRequest, SidecarIdentifyRequest, SidecarTurn,
    SpeakerIdentificationResult,
};
use vstd::prelude::*;
use vstd::string::*;

verus! {

/// How far the identification of a meeting's speakers is.
pub enum Identification {
    /// The recording is divided into turns.
    Diarizing { audio_path: String },
    /// The profiles and the voiceprints are loaded.
    Loading { audio_path: String, turns: Vec<SidecarTurn> },
    /// The clusters are recognized.
    Recognizing { turns: Vec<SidecarTurn> },
    /// The turns are stored, and the segments that they overlap get their speakers.
    Storing { assignments: Vec<SpeakerTurnAssignment> },
    /// It is done.
    Finished,
}

/// What the identification is told.
pub enum IdentificationEvent {
    /// The recording has these turns.
    Diarized { turns: Vec<SidecarTurn> },
    /// There are these profiles and voiceprints.
    Loaded { profiles: Vec<SpeakerProfile>, voiceprints: Vec<SpeakerVoiceprint> },
    /// The clusters were taken for these speakers.
    Recognized { matches: Vec<SidecarClusterMatch> },
    /// The turns are stored, and so many segments got their speakers.
    Stored { updated_transcript_count: u64 },
}

/// What the identification asks for.
pub enum IdentificationAction {
    Diarize(SidecarDiarizeRequest),
    Load,
    Recognize(SidecarIdentifyRequest),
    Store,
    Finish(SpeakerIdentificationResult),
}

/// Whether an event answers what the identification asked for.
pub open spec fn answers(state: Identification, event: IdentificationEvent) -> bool {
    match state {
        Identification::Diarizing { .. } => event is Diarized,
        Identification::Loading { .. } => event is Loaded,
        Identification::Recognizing { .. } => event is Recognized,
        Identification::Storing { .. } => event is Stored,
        Identification::Finished => false,
    }
}

/// Whether the turns that are called by their cluster can be.
pub open spec fn can_be_called(state: Identification, event: IdentificationEvent) -> bool {
    match (state, event) {
        (
            Identification::Loading { turns, .. },
            IdentificationEvent::Loaded { profiles, voiceprints },
        ) => speakers::known_voices(profiles@, voiceprints@, voiceprints@.len()).len() == 0
            ==> speakers::all_showable(turns@, Seq::empty()),
        (
            Identification::Recognizing { turns },
            IdentificationEvent::Recognized { matches },
        ) => speakers::all_showable(turns@, matches@),
        _ => true,
    }
}

/// Whether the turns have the speakers that were recognized.
pub open spec fn are_identified(
    assignments: Seq<SpeakerTurnAssignment>,
    turns: Seq<SidecarTurn>,
    matches: Seq<SidecarClusterMatch>,
) -> bool {
    &&& assignments.len() == turns.len()
    &&& forall|i: int|
        0 <= i < turns.len() ==> speakers::assigns_match(
            #[trigger] assignments[i],
            turns[i],
            speakers::match_of(matches, turns[i].cluster_label@, matches.len()),
        )
}

/// Whether a request tells the sidecar the turns and the known voices.
pub open spec fn asks_for(
    request: SidecarIdentifyRequest,
    audio_path: Seq<char>,
    turns: Seq<SidecarTurn>,
    profiles: Seq<SpeakerProfile>,
    voiceprints: Seq<SpeakerVoiceprint>,
) -> bool {
    let known = speakers::known_voices(profiles, voiceprints, voiceprints.len());
    &&& request.audio_path@ == audio_path
    &&& request.turns@ == turns
    &&& request.profiles@.len() == known.len()
    &&& forall|k: int|
        0 <= k < known.len() ==> speakers::tells_voice(
            #[trigger] request.profiles@[k],
            profiles,
            voiceprints[known[k]],
        )
    &&& request.threshold@ == double::ratio(1, 2)
    &&& request.ambiguity_margin@ == double::ratio(1, 20)
}

/// Whether `after` and `action` are what comes of an event: a meeting in which nobody speaks is
/// done at once, nobody is recognized where no voice is known, and all others are recognized,
/// stored and shown.
pub open spec fn follows(
    state: Identification,
    event: IdentificationEvent,
    after: Identification,
    action: IdentificationAction,
) -> bool {
    match (state, event) {
        (
            Identification::Diarizing { audio_path },
            IdentificationEvent::Diarized { turns },
        ) => if turns@.len() == 0 {
            &&& after is Finished
            &&& action matches IdentificationAction::Finish(result)
            &&& result.updated_transcript_count == 0
            &&& result.speaker_turn_count == 0
            &&& result.speakers@.len() == 0
        } else {
            after == Identification::Loading { audio_path, turns } && action is Load
        },
        (
            Identification::Loading { audio_path, turns },
            IdentificationEvent::Loaded { profiles, voiceprints },
        ) => if speakers::known_voices(profiles@, voiceprints@, voiceprints@.len()).len() == 0 {
            &&& after matches Identification::Storing { assignments }
            &&& are_identified(assignments@, turns@, Seq::empty())
            &&& action is Store
        } else {
            &&& after == Identification::Recognizing { turns }
            &&& action matches IdentificationAction::Recognize(request)
            &&& asks_for(request, audio_path@, turns@, profiles@, voiceprints@)
        },
        (
            Identification::Recognizing { turns },
            IdentificationEvent::Recognized { matches },
        ) => {
            &&& after matches Identification::Storing { assignments }
            &&& are_identified(assignments@, turns@, matches@)
            &&& action is Store
        },
        (
            Identification::Storing { assignments },
            IdentificationEvent::Stored { updated_transcript_count },
        ) => {
            &&& after is Finished
            &&& action matches IdentificationAction::Finish(result)
            &&& result.updated_transcript_count == updated_transcript_count
            &&& result.speaker_turn_count == assignments@.len()
            &&& result.speakers@ == Seq::new(
                assignments@.len(),
                |i: int| speakers::shown_turn(assignments@[i]),
            )
        },
        _ => false,
    }
}

impl Identification {
    /// Starts with the recording.
    pub fn new(audio_path: String) -> (r: (Identification, IdentificationAction))
        ensures
            r.0 == (Identification::Diarizing { audio_path }),
            r.1 matches IdentificationAction::Diarize(request) && request.audio_path@
                == audio_path@ && request.num_speakers is None && request.min_speakers is None
                && request.max_speakers is None,
    {
        let request = speakers::diarize_request(audio_path.as_str());
        (Identification::Diarizing { audio_path }, IdentificationAction::Diarize(request))
    }

    /// The turns to store.
    pub fn to_store(&self) -> (r: Option<&Vec<SpeakerTurnAssignment>>)
        ensures
            r == match *self {
                Identification::Storing { assignments } => Some(&assignments),
                _ => None,
            },
    {
        match self {
            Identification::Storing { assignments } => Some(assignments),
            _ => None,
        }
    }

    /// Whether an event answers what the identification asked for, and the turns that are called
    /// by their cluster can be.
    pub fn can_step(&self, event: &IdentificationEvent) -> (r: bool)
        ensures
            r == (answers(*self, *event) && can_be_called(*self, *event)),
    {
        match (self, event) {
            (Identification::Diarizing { .. }, IdentificationEvent::Diarized { .. }) => true,
            (
                Identification::Loading { turns, .. },
                IdentificationEvent::Loaded { profiles, voiceprints },
            ) => {
                let known = speakers::sidecar_profiles(profiles, voiceprints);
                let none: Vec<SidecarClusterMatch> = Vec::new();
                assert(none@ =~= Seq::empty());
                known.len() > 0 || speakers::can_identify(turns, &none)
            },
            (
                Identification::Recognizing { turns },
                IdentificationEvent::Recognized { matches },
            ) => speakers::can_identify(turns, matches),
            (Identification::Storing { .. }, IdentificationEvent::Stored { .. }) => true,
            _ => false,
        }
    }

    /// Takes an event, and says what is asked for next.
    pub fn step(self, event: IdentificationEvent) -> (r: (Identification, IdentificationAction))
        requires
            answers(self, event),
            can_be_called(self, event),
        ensures
            follows(self, event, r.0, r.1),
    {
        match (self, event) {
            (Identification::Diarizing { audio_path }, IdentificationEvent::Diarized { turns }) =>
                match speakers::nobody_speaks(&turns) {
                Some(result) => (Identification::Finished, IdentificationAction::Finish(result)),
                None => (
                    Identification::Loading { audio_path, turns },
                    IdentificationAction::Load,
                ),
            },
            (
                Identification::Loading { audio_path, turns },
                IdentificationEvent::Loaded { profiles, voiceprints },
            ) => {
                let known = speakers::sidecar_profiles(&profiles, &voiceprints);
                match speakers::identify_request(audio_path.as_str(), &turns, known) {
                    Some(request) => (
                        Identification::Recognizing { turns },
                        IdentificationAction::Recognize(request),
                    ),
                    None => {
                        let none: Vec<SidecarClusterMatch> = Vec::new();
                        assert(none@ =~= Seq::empty());
                        let assignments = speakers::identify_turns(&turns, &none);
                        (Identification::Storing { assignments }, IdentificationAction::Store)
                    },
                }
            },
            (
                Identification::Recognizing { turns },
                IdentificationEvent::Recognized { matches },
            ) => {
                let assignments = speakers::identify_turns(&turns, &matches);
                (Identification::Storing { assignments }, IdentificationAction::Store)
            },
            (
                Identification::Storing { assignments },
                IdentificationEvent::Stored { updated_transcript_count },
            ) => (
                Identification::Finished,
                IdentificationAction::Finish(
                    speakers::identification_result(updated_transcript_count, assignments),
                ),
            ),
            (state, _) => {
                assert(false);
                (state, IdentificationAction::Load)
            },
        }
    }
}

/// Whether there are turns wherever turns are held.
pub open spec fn has_turns(state: Identification) -> bool {
    match state {
        Identification::Loading { turns, .. } => turns@.len() > 0,
        Identification::Recognizing { turns } => turns@.len() > 0,
        Identification::Storing { assignments } => assignments@.len() > 0,
        _ => true,
    }
}

/// The turns of a meeting are replaced only where somebody speaks in it: an identification that
/// finds no turns leaves those that are stored as they are.
pub proof fn silence_replaces_nothing(
    state: Identification,
    event: IdentificationEvent,
    after: Identification,
    action: IdentificationAction,
)
    requires
        has_turns(state),
        follows(state, event, after, action),
    ensures
        has_turns(after),
        action is Store ==> (after matches Identification::Storing { assignments }
            && assignments@.len() > 0),
{
}

/// Identification never claims the user's word: no turn that it stores is confirmed.
pub proof fn identified_turns_are_unconfirmed(
    assignments: Seq<SpeakerTurnAssignment>,
    turns: Seq<SidecarTurn>,
    matches: Seq<SidecarClusterMatch>,
    i: int,
)
    requires
        are_identified(assignments, turns, matches),
        0 <= i < assignments.len(),
    ensures
        !assignments[i].confirmed,
        assignments[i].start_time == turns[i].start,
        assignments[i].end_time == turns[i].end,
{
    assert(speakers::assigns_match(
        assignments[i],
        turns[i],
        speakers::match_of(matches, turns[i].cluster_label@, matches.len()),
    ));
}

/// A segment that lies in an identified turn is labelled by the name that the turn was matched
/// with, behind `Maybe` where the match is in doubt, and by the name of the cluster where there is
/// no name that can be trusted. The label does not wait for the user to confirm the turn.
#[verifier::spinoff_prover]
pub proof fn segments_are_labelled_by_the_recognized_name(
    assignments: Seq<SpeakerTurnAssignment>,
    turns: Seq<SidecarTurn>,
    matches: Seq<SidecarClusterMatch>,
    row: speaker_turn::SegmentRow,
    update: speaker_turn::SegmentUpdate,
    k: int,
)
    requires
        are_identified(assignments, turns, matches),
        speaker_turn::turn_for(row, assignments) is Some,
        speaker_turn::gives_speaker(
            update,
            row,
            assignments[speaker_turn::turn_for(row, assignments)->0],
        ),
    ensures
        ({
            let turn = turns[speaker_turn::turn_for(row, assignments)->0];
            &&& update.transcript_id@ == row.id@
            &&& update.speaker_confirmed == 0
            &&& (forall|j: int|
                0 <= j < matches.len() ==> (#[trigger] matches[j]).cluster_label@
                    != turn.cluster_label@) ==> update.speaker_label@ == labels::cluster_name(
                turn.cluster_label@,
            ) && update.speaker_profile_id is None && update.speaker_confidence is None
            &&& 0 <= k < matches.len() && matches[k].cluster_label@ == turn.cluster_label@ && (
            forall|j: int|
                k < j < matches.len() ==> (#[trigger] matches[j]).cluster_label@
                    != turn.cluster_label@) ==> {
                let m = matches[k];
                &&& update.speaker_profile_id == m.profile_id
                &&& update.speaker_confidence == m.confidence
                &&& update.speaker_label@ == if m.display_name is Some && m.ambiguous {
                    "Maybe "@ + m.display_name->0@
                } else if m.display_name is Some && m.profile_id is Some {
                    m.display_name->0@
                } else {
                    labels::cluster_name(turn.cluster_label@)
                }
            }
        }),
{
    let b = speaker_turn::turn_for(row, assignments)->0;
    speaker_turn::segments_get_the_speaker_of_their_turn(update, row, assignments);
    let turn = turns[b];
    let found = speakers::match_of(matches, turn.cluster_label@, matches.len());
    assert(speakers::assigns_match(assignments[b], turn, found));
    speakers::matches_are_found_by_cluster(matches, turn.cluster_label@, matches.len());
    if let Some(m) = found {
        let w = choose|w: int|
            0 <= w < matches.len() && #[trigger] matches[w] == m && m.cluster_label@
                == turn.cluster_label@ && forall|j: int|
                w < j < matches.len() ==> (#[trigger] matches[j]).cluster_label@
                    != turn.cluster_label@;
        assert(matches[w].cluster_label@ == turn.cluster_label@);
    }
}

/// Identifying speakers goes from the turns to the voices that are known, from there to the
/// sidecar where any voice is known, and from there to storing. Where nobody speaks it is done at
/// once, and where no voice is known the turns are stored under their clusters.
#[verifier::spinoff_prover]
pub proof fn identification_goes_step_by_step(
    state: Identification,
    event: IdentificationEvent,
    after: Identification,
    action: IdentificationAction,
)
    requires
        answers(state, event),
        follows(state, event, after, action),
    ensures
        event matches IdentificationEvent::Diarized { turns } ==> {
            &&& turns@.len() == 0 ==> after is Finished && (
            action matches IdentificationAction::Finish(result) && result.updated_transcript_count
                == 0 && result.speaker_turn_count == 0 && result.speakers@.len() == 0)
            &&& turns@.len() > 0 ==> action is Load && (after matches Identification::Loading {
                turns: kept,
                ..
            } && kept == turns)
        },
        event matches IdentificationEvent::Loaded { profiles, voiceprints } ==> (
        state matches Identification::Loading { audio_path, turns } && {
            let known = exists|v: int, p: int|
                0 <= v < voiceprints@.len() && 0 <= p < profiles@.len() && (
                #[trigger] voiceprints@[v]).speaker_profile_id@ == (#[trigger] profiles@[p]).id@;
            &&& known ==> (after matches Identification::Recognizing { turns: kept } && kept == turns)
                && (action matches IdentificationAction::Recognize(request) && request.audio_path@
                == audio_path@ && request.turns@ == turns@ && request.profiles@.len() > 0
                && request.threshold@ == double::ratio(1, 2) && request.ambiguity_margin@
                == double::ratio(1, 20))
            &&& !known ==> action is Store && (after matches Identification::Storing {
                assignments,
            } && assignments@.len() == turns@.len() && forall|i: int|
                0 <= i < turns@.len() ==> (#[trigger] assignments@[i]).speaker_label@
                    == labels::cluster_name(turns@[i].cluster_label@)
                    && assignments@[i].speaker_profile_id is None)
        }),
        event matches IdentificationEvent::Recognized { matches } ==> (
        state matches Identification::Recognizing { turns } && action is Store && (
        after matches Identification::Storing { assignments } && are_identified(
            assignments@,
            turns@,
            matches@,
        ))),
        event matches IdentificationEvent::Stored { updated_transcript_count } ==> (
        state matches Identification::Storing { assignments } && after is Finished && (
        action matches IdentificationAction::Finish(result) && {
            &&& result.updated_transcript_count == updated_transcript_count
            &&& result.speaker_turn_count == assignments@.len()
            &&& result.speakers@.len() == assignments@.len()
            &&& forall|i: int|
                0 <= i < assignments@.len() ==> (#[trigger] result.speakers@[i]).speaker_label
                    == assignments@[i].speaker_label
        })),
{
    if let (
        Identification::Loading { audio_path, turns },
        IdentificationEvent::Loaded { profiles, voiceprints },
    ) = (state, event) {
        let n = voiceprints@.len();
        let told = speakers::known_voices(profiles@, voiceprints@, n);
        speakers::every_known_voice_is_told(profiles@, voiceprints@, n);
        if told.len() > 0 {
            assert(told.contains(told[0]));
            let v = told[0];
            let p = choose|p: int|
                0 <= p < profiles@.len() && (#[trigger] profiles@[p]).id@
                    == voiceprints@[v].speaker_profile_id@;
            assert(voiceprints@[v].speaker_profile_id@ == profiles@[p].id@);
        }
        if exists|v: int, p: int|
            0 <= v < n && 0 <= p < profiles@.len() && (
            #[trigger] voiceprints@[v]).speaker_profile_id@ == (#[trigger] profiles@[p]).id@ {
            let (v, p): (int, int) = choose|v: int, p: int|
                0 <= v < n && 0 <= p < profiles@.len() && (
                #[trigger] voiceprints@[v]).speaker_profile_id@ == (#[trigger] profiles@[p]).id@;
            assert(profiles@[p].id@ == voiceprints@[v].speaker_profile_id@);
            assert(told.contains(v));
        }
    }
}

/// Identifying speakers only goes on with what was asked for.
pub proof fn identification_waits_for_its_answer(state: Identification, event: IdentificationEvent)
    ensures
        answers(state, event) <==> {
            ||| state is Diarizing && event is Diarized
            ||| state is Loading && event is Loaded
            ||| state is Recognizing && event is Recognized
            ||| state is Storing && event is Stored
        },
{
}

/// Identification starts with the recording's turns, goes on as its steps say, and offers the turns
/// to store while it stores them.
pub proof fn identification_starts_with_the_recording(
    audio_path: String,
    begun: (Identification, IdentificationAction),
    state: Identification,
    event: IdentificationEvent,
    r: (Identification, IdentificationAction),
)
    requires
        call_ensures(Identification::new, (audio_path,), begun),
        call_ensures(Identification::step, (state, event), r),
    ensures
        begun.0 matches Identification::Diarizing { audio_path: path } && path@ == audio_path@,
        begun.1 matches IdentificationAction::Diarize(request) && request.audio_path@ == audio_path@
            && request.num_speakers is None && request.min_speakers is None
            && request.max_speakers is None,
        follows(state, event, r.0, r.1),
{
}

/// A step can be taken where it answers what was asked for and, once the turns are to be named,
/// every one of them can be.
pub proof fn steps_need_names(state: &Identification, event: &IdentificationEvent, r: bool)
    requires
        call_ensures(Identification::can_step, (state, event), r),
    ensures
        r ==> answers(*state, *event),
        answers(*state, *event) && (state is Diarizing || state is Storing) ==> r,
        state matches Identification::Recognizing { turns } ==> (
        event matches IdentificationEvent::Recognized { matches } ==> (r <==> speakers::all_showable(
            turns@,
            matches@,
        ))),
        state matches Identification::Loading { turns, .. } ==> (
        event matches IdentificationEvent::Loaded { profiles, voiceprints } ==> (r <==> (
        speakers::known_voices(profiles@, voiceprints@, voiceprints@.len()).len() > 0
            || speakers::all_showable(turns@, Seq::empty())))),
{
}

} // verus!
