//! Transcription of recorded chunks: what the worker does with each of them, and what is counted.

use crate::audio;
use crate::audio::{Audio, AudioChunk};
use crate::double;
use crate::double::{Double, Real};
use crate::engine;
use crate::engine::{Transcription, TranscriptionError, TranscriptionFailure};
use crate::events;
use crate::events::{Report, Said, TranscriptUpdate};
use crate::outside;
use crate::status;
use crate::status::{TranscriptionStatus, TranscriptionTask};
use crate::text;
use vstd::prelude::*;
use vstd::string::*;

verus! {

/// How many milliseconds the worker pauses where chunks are missing at the end.
pub const MISSING_CHUNK_PAUSE_MS: u64 = 5;

/// How many milliseconds the worker pauses where nothing is queued yet.
pub const IDLE_PAUSE_MS: u64 = 1;

/// The confidence of a transcript whose engine gives none: the single-precision number nearest to
/// 0.85, as a double.
pub const DEFAULT_CONFIDENCE_BITS: u64 = 0x3feb_3333_4000_0000;

/// What was heard of a chunk.
pub enum Heard {
    Words { text: Seq<char>, confidence: Option<Double>, is_partial: bool },
    TooShort { message: Seq<char> },
    ModelGone { message: Seq<char> },
    Broken { message: Seq<char> },
}

/// What was heard of a chunk, from what the engine made of it.
pub open spec fn heard(outcome: Result<Transcription, TranscriptionFailure>) -> Heard {
    match outcome {
        Ok(t) => Heard::Words {
            text: t.text@,
            confidence: t.confidence,
            is_partial: t.is_partial,
        },
        Err(f) => match f.error {
            TranscriptionError::AudioTooShort { .. } => Heard::TooShort { message: f.message@ },
            TranscriptionError::ModelNotLoaded => Heard::ModelGone { message: f.message@ },
            _ => Heard::Broken { message: f.message@ },
        },
    }
}

/// What the worker is about.
#[derive(Debug)]
pub enum Phase {
    /// It asks for the next chunk.
    Receiving,
    /// It asks whether the model is there.
    AwaitingModel { chunk: AudioChunk, energy: Double },
    /// It asks for the samples of the chunk at the rate of the earlier one.
    Resampling { earlier: AudioChunk, chunk: AudioChunk },
    /// It asks for a transcript of the chunk.
    Transcribing { chunk: AudioChunk },
    /// It asks for a transcript of an earlier chunk that came out empty and ended at `end`; the
    /// next chunk waits.
    Retrying { padded: AudioChunk, end: Double, next: Option<AudioChunk> },
    /// It is done.
    Finished,
}

/// The one that turns the chunks of a recording into transcripts, in their order.
#[derive(Debug)]
pub struct Worker {
    pub id: usize,
    /// A chunk that sounds like speech and came out empty.
    pub pending_empty_chunk: Option<AudioChunk>,
    pub phase: Phase,
}

/// What the worker is told.
#[derive(Debug)]
pub enum Event {
    /// A chunk came, with its energy.
    Chunk { chunk: AudioChunk, energy: Double },
    /// No chunk will come, or none is there.
    QueueEmpty,
    /// The model is there, or did not come in time.
    Model { loaded: bool },
    /// The samples of the chunk at the rate of the earlier one.
    Resampled { samples: Vec<u32> },
    /// What the engine made of the chunk, and the energy of that chunk.
    Transcribed { energy: Double, outcome: Result<Transcription, TranscriptionFailure> },
}

/// What the worker asks for.
#[derive(Clone, Copy, PartialEq, Eq, Structural, Debug)]
pub enum Action {
    /// The next chunk.
    Receive,
    /// Whether the model is there.
    AwaitModel,
    /// The samples of the chunk at the rate of the earlier one.
    Resample,
    /// A transcript.
    Transcribe,
    /// The next chunk, after a pause.
    Pause { ms: u64 },
    /// Nothing more.
    Finish,
}

/// What the worker is about, by what the chunks hold.
pub enum Stage {
    Receiving,
    AwaitingModel { chunk: Audio, energy: Double },
    Resampling { earlier: Audio, chunk: Audio },
    Transcribing { chunk: Audio },
    Retrying { padded: Audio, end: Real, next: Option<Audio> },
    Finished,
}

/// What happened, by what it holds.
pub enum Happened {
    Chunk { chunk: Audio, energy: Double },
    QueueEmpty,
    Model { loaded: bool },
    Resampled { samples: Seq<u32> },
    Transcribed { energy: Double, heard: Heard },
}

/// What a chunk holds, if there is one.
pub open spec fn audio_of(chunk: Option<AudioChunk>) -> Option<Audio> {
    match chunk {
        Some(c) => Some(c@),
        None => None,
    }
}

impl View for Phase {
    type V = Stage;

    open spec fn view(&self) -> Stage {
        match self {
            Phase::Receiving => Stage::Receiving,
            Phase::AwaitingModel { chunk, energy } => Stage::AwaitingModel {
                chunk: chunk@,
                energy: *energy,
            },
            Phase::Resampling { earlier, chunk } => Stage::Resampling {
                earlier: earlier@,
                chunk: chunk@,
            },
            Phase::Transcribing { chunk } => Stage::Transcribing { chunk: chunk@ },
            Phase::Retrying { padded, end, next } => Stage::Retrying {
                padded: padded@,
                end: end@,
                next: audio_of(*next),
            },
            Phase::Finished => Stage::Finished,
        }
    }
}

impl View for Event {
    type V = Happened;

    open spec fn view(&self) -> Happened {
        match self {
            Event::Chunk { chunk, energy } => Happened::Chunk { chunk: chunk@, energy: *energy },
            Event::QueueEmpty => Happened::QueueEmpty,
            Event::Model { loaded } => Happened::Model { loaded: *loaded },
            Event::Resampled { samples } => Happened::Resampled { samples: samples@ },
            Event::Transcribed { energy, outcome } => Happened::Transcribed {
                energy: *energy,
                heard: heard(*outcome),
            },
        }
    }
}

/// The worker and what is counted.
pub struct Scene {
    pub id: usize,
    pub pending: Option<Audio>,
    pub stage: Stage,
    pub task: TranscriptionTask,
    pub status: TranscriptionStatus,
}

/// What comes of an event.
pub struct Step {
    pub scene: Scene,
    pub said: Seq<Said>,
    pub action: Action,
}

/// The worker and what is counted.
pub open spec fn scene(worker: Worker, task: TranscriptionTask, status: TranscriptionStatus) -> Scene {
    Scene {
        id: worker.id,
        pending: audio_of(worker.pending_empty_chunk),
        stage: worker.phase@,
        task,
        status,
    }
}

/// The scene after one more chunk was dealt with.
pub open spec fn completed(s: Scene, now: Option<u128>) -> Scene {
    Scene {
        task: TranscriptionTask {
            chunks_completed: status::bumped(s.task.chunks_completed),
            ..s.task
        },
        status: TranscriptionStatus {
            chunks_completed: status::bumped(s.status.chunks_completed),
            last_activity_ms: status::counted_millis(now),
            ..s.status
        },
        ..s
    }
}

/// What is known after a transcript was announced.
pub open spec fn announced(status: TranscriptionStatus) -> TranscriptionStatus {
    TranscriptionStatus {
        sequence_counter: status::bumped(status.sequence_counter),
        speech_detected_emitted: true,
        ..status
    }
}

/// What is said of a transcript: that speech was detected, where it is the first of the recording,
/// and the transcript under the next number.
pub open spec fn announcement(
    status: TranscriptionStatus,
    now: Option<u128>,
    words: Seq<char>,
    confidence: Option<Double>,
    is_partial: bool,
    start: Real,
    end: Real,
) -> Seq<Said> {
    let transcript = Said::Transcript {
        text: words,
        timestamp: status::time_of_day(status::counted_seconds(now)),
        source: "Audio"@,
        sequence_id: status.sequence_counter,
        chunk_start: start,
        is_partial,
        confidence: match confidence {
            Some(c) => c,
            None => Double { bits: DEFAULT_CONFIDENCE_BITS },
        },
        start,
        end,
        duration: events::span(start, end),
    };
    if status.speech_detected_emitted {
        seq![transcript]
    } else {
        seq![Said::SpeechDetected { message: "Speech activity detected"@ }, transcript]
    }
}

/// A chunk came.
pub open spec fn on_chunk(s: Scene, chunk: Audio, energy: Double) -> Step {
    Step {
        scene: Scene { stage: Stage::AwaitingModel { chunk, energy }, ..s },
        said: seq![
            events::noted(
                "audio_chunk_received"@,
                chunk.chunk_id,
                chunk.timestamp@,
                audio::end_time(chunk),
                "chunk entered transcription worker"@,
                None,
                Some(energy),
                None,
                None,
            ),
        ],
        action: Action::AwaitModel,
    }
}

/// A chunk that came out empty is tried once more, with silence behind it.
pub open spec fn retry(s: Scene, earlier: Audio, next: Option<Audio>) -> Step {
    Step {
        scene: Scene {
            pending: None,
            stage: Stage::Retrying {
                padded: audio::padded(earlier, audio::final_padding()),
                end: audio::end_time(earlier),
                next,
            },
            ..s
        },
        said: Seq::empty(),
        action: Action::Transcribe,
    }
}

/// A chunk is transcribed.
pub open spec fn transcribe(s: Scene, chunk: Audio, said: Seq<Said>) -> Step {
    Step {
        scene: Scene { pending: None, stage: Stage::Transcribing { chunk }, ..s },
        said,
        action: Action::Transcribe,
    }
}

/// No chunk is queued.
pub open spec fn on_empty_queue(s: Scene) -> Step {
    if !s.task.input_finished {
        Step { scene: s, said: Seq::empty(), action: Action::Pause { ms: IDLE_PAUSE_MS } }
    } else if s.task.chunks_completed < s.task.chunks_queued {
        Step { scene: s, said: Seq::empty(), action: Action::Pause { ms: MISSING_CHUNK_PAUSE_MS } }
    } else {
        match s.pending {
            Some(earlier) => retry(s, earlier, None),
            None => Step {
                scene: Scene { stage: Stage::Finished, ..s },
                said: Seq::empty(),
                action: Action::Finish,
            },
        }
    }
}

/// The model did not come in time: the chunk is skipped.
pub open spec fn on_missing_model(s: Scene, now: Option<u128>, chunk: Audio, energy: Double) -> Step {
    Step {
        scene: Scene { stage: Stage::Receiving, ..completed(s, now) },
        said: seq![
            events::noted(
                "model_not_ready_dropped"@,
                chunk.chunk_id,
                chunk.timestamp@,
                audio::end_time(chunk),
                "model not loaded before timeout"@,
                None,
                Some(energy),
                None,
                None,
            ),
            Said::Warning {
                message: "Transcription model was not ready after "@ + text::numeral(
                    engine::MODEL_LOAD_WAIT_TIMEOUT_SEC as nat,
                ) + " seconds; one audio chunk was skipped."@,
            },
        ],
        action: Action::Receive,
    }
}

/// The model is there: the chunk is transcribed, together with an earlier one that came out empty
/// where that is near, or after another try of that one where it is far.
pub open spec fn on_model(s: Scene, chunk: Audio) -> Step {
    match s.pending {
        Some(earlier) => if !audio::is_near(earlier, chunk) {
            retry(s, earlier, Some(chunk))
        } else if earlier.sample_rate == chunk.sample_rate {
            transcribe(s, audio::merged(earlier, chunk), Seq::empty())
        } else {
            Step {
                scene: Scene { pending: None, stage: Stage::Resampling { earlier, chunk }, ..s },
                said: Seq::empty(),
                action: Action::Resample,
            }
        },
        None => transcribe(s, chunk, Seq::empty()),
    }
}

/// The chunk with its samples at the rate of an earlier one.
pub open spec fn at_rate_of(earlier: Audio, chunk: Audio, samples: Seq<u32>) -> Audio {
    Audio { data: samples, sample_rate: earlier.sample_rate, ..chunk }
}

/// What is said of another try.
pub open spec fn retry_report(
    status: TranscriptionStatus,
    now: Option<u128>,
    padded: Audio,
    end: Real,
    h: Heard,
) -> Seq<Said> {
    let id = padded.chunk_id;
    let start = padded.timestamp@;
    match h {
        Heard::Words { text, confidence, is_partial } => if text::is_blank(text) {
            seq![
                events::noted(
                    "asr_empty_retry_dropped"@,
                    id,
                    start,
                    end,
                    "context retry returned empty transcript"@,
                    confidence,
                    None,
                    Some(0),
                    Some(is_partial),
                ),
            ]
        } else {
            seq![
                events::noted(
                    "asr_retry_emitted"@,
                    id,
                    start,
                    end,
                    "context retry emitted non-empty transcript"@,
                    confidence,
                    None,
                    Some(text.len() as usize),
                    Some(is_partial),
                ),
            ] + announcement(status, now, text, confidence, is_partial, start, end)
        },
        Heard::TooShort { message } => seq![
            events::noted("asr_retry_error"@, id, start, end, message, None, None, None, None),
        ],
        Heard::ModelGone { message } => seq![
            events::noted("asr_retry_error"@, id, start, end, message, None, None, None, None),
        ],
        Heard::Broken { message } => seq![
            events::noted("asr_retry_error"@, id, start, end, message, None, None, None, None),
        ],
    }
}

/// What is known after something was heard: more where it was words.
pub open spec fn after_hearing(status: TranscriptionStatus, h: Heard) -> TranscriptionStatus {
    match h {
        Heard::Words { text, .. } => if text::is_blank(text) {
            status
        } else {
            announced(status)
        },
        _ => status,
    }
}

/// Another try was made: the next chunk is transcribed, or all is done.
pub open spec fn on_retried(
    s: Scene,
    now: Option<u128>,
    padded: Audio,
    end: Real,
    next: Option<Audio>,
    h: Heard,
) -> Step {
    let said = retry_report(s.status, now, padded, end, h);
    let after = Scene { status: after_hearing(s.status, h), ..s };
    match next {
        Some(chunk) => Step {
            scene: Scene { stage: Stage::Transcribing { chunk }, ..after },
            said,
            action: Action::Transcribe,
        },
        None => Step {
            scene: Scene { stage: Stage::Finished, ..after },
            said,
            action: Action::Finish,
        },
    }
}

/// What is said of the chunk that was transcribed.
pub open spec fn report(
    status: TranscriptionStatus,
    now: Option<u128>,
    chunk: Audio,
    energy: Double,
    h: Heard,
) -> Seq<Said> {
    let id = chunk.chunk_id;
    let start = chunk.timestamp@;
    let end = audio::end_time(chunk);
    match h {
        Heard::Words { text, confidence, is_partial } => if !text::is_blank(text) {
            seq![
                events::noted(
                    "asr_emitted"@,
                    id,
                    start,
                    end,
                    "non-empty transcript emitted"@,
                    confidence,
                    Some(energy),
                    Some(text.len() as usize),
                    Some(is_partial),
                ),
            ] + announcement(status, now, text, confidence, is_partial, start, end)
        } else if audio::is_speech_like(chunk, energy@) {
            seq![
                events::noted(
                    "asr_empty_retry_pending"@,
                    id,
                    start,
                    end,
                    "empty transcript for speech-like chunk; preserving for context retry"@,
                    confidence,
                    Some(energy),
                    Some(0),
                    Some(is_partial),
                ),
            ]
        } else {
            seq![
                events::noted(
                    "asr_empty_no_retry"@,
                    id,
                    start,
                    end,
                    "empty transcript for chunk below retry thresholds"@,
                    confidence,
                    Some(energy),
                    Some(0),
                    Some(is_partial),
                ),
            ]
        },
        _ => failure_report(chunk, energy, h),
    }
}

/// What is said of a chunk without a transcript.
pub open spec fn failure_report(chunk: Audio, energy: Double, h: Heard) -> Seq<Said> {
    let id = chunk.chunk_id;
    let start = chunk.timestamp@;
    let end = audio::end_time(chunk);
    match h {
        Heard::Words { .. } => Seq::empty(),
        Heard::TooShort { .. } => seq![
            events::noted(
                "audio_too_short_dropped"@,
                id,
                start,
                end,
                "audio chunk too short for transcription"@,
                None,
                Some(energy),
                None,
                None,
            ),
        ],
        Heard::ModelGone { .. } => seq![
            events::noted(
                "model_unloaded_during_transcription"@,
                id,
                start,
                end,
                "model unloaded during transcription"@,
                None,
                Some(energy),
                None,
                None,
            ),
        ],
        Heard::Broken { message } => seq![
            events::noted(
                "transcription_error"@,
                id,
                start,
                end,
                message,
                None,
                Some(energy),
                None,
                None,
            ),
            Said::Warning { message },
        ],
    }
}

/// Whether the chunk is kept for another try.
pub open spec fn is_kept(chunk: Audio, energy: Double, h: Heard) -> bool {
    h matches Heard::Words { text, .. } && text::is_blank(text) && audio::is_speech_like(
        chunk,
        energy@,
    )
}

/// Whether the progress is told after a chunk.
pub open spec fn tells_progress(h: Heard) -> bool {
    h is Words || h is Broken
}

/// A chunk was transcribed, or could not be.
pub open spec fn on_transcribed(
    s: Scene,
    now: Option<u128>,
    chunk: Audio,
    energy: Double,
    h: Heard,
) -> Step {
    let done = completed(Scene { status: after_hearing(s.status, h), ..s }, now);
    let told = report(s.status, now, chunk, energy, h);
    Step {
        scene: Scene {
            pending: if is_kept(chunk, energy, h) {
                Some(chunk)
            } else {
                None
            },
            stage: Stage::Receiving,
            ..done
        },
        said: if tells_progress(h) {
            told.push(
                events::progress(s.id, done.task.chunks_completed, done.task.chunks_queued),
            )
        } else {
            told
        },
        action: Action::Receive,
    }
}

/// Whether an event answers what the worker asked for.
pub open spec fn answers(stage: Stage, e: Happened) -> bool {
    match stage {
        Stage::Receiving => e is Chunk || e is QueueEmpty,
        Stage::AwaitingModel { .. } => e is Model,
        Stage::Resampling { .. } => e is Resampled,
        Stage::Transcribing { .. } => e is Transcribed,
        Stage::Retrying { .. } => e is Transcribed,
        Stage::Finished => false,
    }
}

/// Whether chunks that are put together can be held.
pub open spec fn has_room(s: Scene, e: Happened) -> bool {
    match (s.stage, e) {
        (Stage::Receiving, Happened::QueueEmpty) => s.pending matches Some(earlier)
            ==> s.task.input_finished && s.task.chunks_completed >= s.task.chunks_queued
            ==> audio::can_pad(earlier, audio::final_padding()),
        (Stage::AwaitingModel { chunk, .. }, Happened::Model { loaded }) => loaded ==> (
        s.pending matches Some(earlier) ==> if !audio::is_near(earlier, chunk) {
            audio::can_pad(earlier, audio::final_padding())
        } else {
            earlier.sample_rate == chunk.sample_rate ==> audio::can_merge(earlier, chunk)
        }),
        (Stage::Resampling { earlier, chunk }, Happened::Resampled { samples }) =>
            audio::can_merge(earlier, at_rate_of(earlier, chunk, samples)),
        _ => true,
    }
}

/// What comes of an event.
pub open spec fn next(s: Scene, now: Option<u128>, e: Happened) -> Step
    recommends
        answers(s.stage, e),
{
    match (s.stage, e) {
        (Stage::Receiving, Happened::Chunk { chunk, energy }) => on_chunk(s, chunk, energy),
        (Stage::AwaitingModel { chunk, energy }, Happened::Model { loaded }) => if loaded {
            on_model(s, chunk)
        } else {
            on_missing_model(s, now, chunk, energy)
        },
        (Stage::Resampling { earlier, chunk }, Happened::Resampled { samples }) => transcribe(
            s,
            audio::merged(earlier, at_rate_of(earlier, chunk, samples)),
            Seq::empty(),
        ),
        (Stage::Transcribing { chunk }, Happened::Transcribed { energy, heard }) => on_transcribed(
            s,
            now,
            chunk,
            energy,
            heard,
        ),
        (Stage::Retrying { padded, end, next }, Happened::Transcribed { heard, .. }) => on_retried(
            s,
            now,
            padded,
            end,
            next,
            heard,
        ),
        _ => on_empty_queue(s),
    }
}

/// Whether all chunks of a finished input are completed.
pub open spec fn is_all_processed(task: TranscriptionTask) -> bool {
    task.input_finished && task.chunks_completed >= task.chunks_queued
}

/// Whether a chunk that came out empty waits only where the worker may still take it up, and is
/// tried again with no chunk to follow only once all chunks are completed.
pub open spec fn is_sound(s: Scene) -> bool {
    &&& s.stage is Receiving || s.stage is AwaitingModel || s.pending is None
    &&& s.stage matches Stage::Retrying { next, .. } ==> next is None ==> is_all_processed(s.task)
}

/// How many chunks the worker has received and not yet dealt with.
pub open spec fn in_hand(stage: Stage) -> nat {
    match stage {
        Stage::AwaitingModel { .. } => 1,
        Stage::Resampling { .. } => 1,
        Stage::Transcribing { .. } => 1,
        Stage::Retrying { next, .. } => if next is Some {
            1
        } else {
            0
        },
        _ => 0,
    }
}

/// A worker's soundness outlasts every event.
pub proof fn soundness_is_kept(s: Scene, now: Option<u128>, e: Happened)
    requires
        is_sound(s),
        answers(s.stage, e),
    ensures
        is_sound(next(s, now, e).scene),
{
}

/// No chunk is lost and none is counted twice: with every event, the chunks completed and those
/// in hand together grow by one where a chunk comes, and stay the same otherwise. The worker
/// leaves the number of queued chunks alone.
pub proof fn every_chunk_is_counted_once(s: Scene, now: Option<u128>, e: Happened)
    requires
        answers(s.stage, e),
        s.task.chunks_completed < u64::MAX,
    ensures
        next(s, now, e).scene.task.chunks_completed + in_hand(next(s, now, e).scene.stage)
            == s.task.chunks_completed + in_hand(s.stage) + if e is Chunk {
            1int
        } else {
            0int
        },
        next(s, now, e).scene.task.chunks_queued == s.task.chunks_queued,
        next(s, now, e).scene.task.input_finished == s.task.input_finished,
{
}

/// The worker stops only when the input is finished, as many chunks are completed as were queued,
/// no chunk is in hand, and no chunk waits for another try.
pub proof fn worker_stops_only_when_done(s: Scene, now: Option<u128>, e: Happened)
    requires
        is_sound(s),
        answers(s.stage, e),
        next(s, now, e).action == Action::Finish,
    ensures
        next(s, now, e).scene.stage is Finished,
        next(s, now, e).scene.pending is None,
        in_hand(next(s, now, e).scene.stage) == 0,
        is_all_processed(next(s, now, e).scene.task),
{
}

/// Words are never discarded, whatever their confidence: where the transcript of a chunk is not
/// blank, it is announced, word for word.
pub proof fn words_are_always_announced(
    s: Scene,
    now: Option<u128>,
    energy: Double,
    words: Seq<char>,
    confidence: Option<Double>,
    is_partial: bool,
)
    requires
        s.stage is Transcribing || s.stage is Retrying,
        !text::is_blank(words),
    ensures
        exists|i: int|
            0 <= i < next(
                s,
                now,
                Happened::Transcribed {
                    energy,
                    heard: Heard::Words { text: words, confidence, is_partial },
                },
            ).said.len() && ((#[trigger] next(
                s,
                now,
                Happened::Transcribed {
                    energy,
                    heard: Heard::Words { text: words, confidence, is_partial },
                },
            ).said[i]) matches Said::Transcript { text, .. } && text == words),
{
    let said = next(
        s,
        now,
        Happened::Transcribed {
            energy,
            heard: Heard::Words { text: words, confidence, is_partial },
        },
    ).said;
    if s.status.speech_detected_emitted {
        assert(said[1] matches Said::Transcript { text, .. } && text == words);
    } else {
        assert(said[2] matches Said::Transcript { text, .. } && text == words);
    }
}

/// Transcripts are numbered in the order in which they are announced: a step announces at most
/// one, under the number that is due, and then that number is used up.
pub proof fn transcripts_are_numbered(s: Scene, now: Option<u128>, e: Happened, i: int)
    requires
        answers(s.stage, e),
        0 <= i < next(s, now, e).said.len(),
        next(s, now, e).said[i] is Transcript,
    ensures
        next(s, now, e).said[i] matches Said::Transcript { sequence_id, .. } && sequence_id
            == s.status.sequence_counter,
        next(s, now, e).scene.status.sequence_counter == status::bumped(s.status.sequence_counter),
        forall|j: int|
            0 <= j < next(s, now, e).said.len() && j != i ==> !((#[trigger] next(
                s,
                now,
                e,
            ).said[j]) is Transcript),
{
    let said = next(s, now, e).said;
    match (s.stage, e) {
        (Stage::Transcribing { chunk }, Happened::Transcribed { energy, heard }) => {
            let told = report(s.status, now, chunk, energy, heard);
            assert(forall|j: int| 0 <= j < told.len() ==> said[j] == told[j]);
            lemma_report(s.status, now, chunk, energy, heard);
        },
        (Stage::Retrying { padded, end, .. }, Happened::Transcribed { heard, .. }) => {
            lemma_retry_report(s.status, now, padded, end, heard);
        },
        _ => {
            assert(false);
        },
    }
}

/// Whether reports hold at most one transcript, under the number that is due.
spec fn numbers_one(said: Seq<Said>, status: TranscriptionStatus, after: TranscriptionStatus) -> bool {
    forall|i: int, j: int|
        0 <= i < said.len() && 0 <= j < said.len() && (#[trigger] said[i]) is Transcript ==> {
            &&& said[i] matches Said::Transcript { sequence_id, .. } && sequence_id
                == status.sequence_counter
            &&& after.sequence_counter == status::bumped(status.sequence_counter)
            &&& j != i ==> !((#[trigger] said[j]) is Transcript)
        }
}

/// Whether reports say that speech was detected only while the flag is down, before a transcript.
spec fn detects_first(said: Seq<Said>, status: TranscriptionStatus, after: TranscriptionStatus) -> bool {
    forall|i: int|
        0 <= i < said.len() && (#[trigger] said[i]) is SpeechDetected ==> {
            &&& !status.speech_detected_emitted
            &&& after.speech_detected_emitted
            &&& i + 1 < said.len()
            &&& said[i + 1] is Transcript
        }
}

proof fn lemma_report(
    status: TranscriptionStatus,
    now: Option<u128>,
    chunk: Audio,
    energy: Double,
    h: Heard,
)
    ensures
        numbers_one(report(status, now, chunk, energy, h), status, after_hearing(status, h)),
        detects_first(report(status, now, chunk, energy, h), status, after_hearing(status, h)),
{
}

proof fn lemma_retry_report(
    status: TranscriptionStatus,
    now: Option<u128>,
    padded: Audio,
    end: Real,
    h: Heard,
)
    ensures
        numbers_one(retry_report(status, now, padded, end, h), status, after_hearing(status, h)),
        detects_first(
            retry_report(status, now, padded, end, h),
            status,
            after_hearing(status, h),
        ),
{
}

/// That speech was detected is said with the first transcript of a recording and never again:
/// it is said only while the flag is down, only before a transcript, and raises the flag.
pub proof fn speech_is_detected_once(s: Scene, now: Option<u128>, e: Happened, i: int)
    requires
        answers(s.stage, e),
        0 <= i < next(s, now, e).said.len(),
        next(s, now, e).said[i] is SpeechDetected,
    ensures
        !s.status.speech_detected_emitted,
        next(s, now, e).scene.status.speech_detected_emitted,
        i + 1 < next(s, now, e).said.len() && next(s, now, e).said[i + 1] is Transcript,
{
    let said = next(s, now, e).said;
    match (s.stage, e) {
        (Stage::Transcribing { chunk }, Happened::Transcribed { energy, heard }) => {
            let told = report(s.status, now, chunk, energy, heard);
            assert(forall|j: int| 0 <= j < told.len() ==> said[j] == told[j]);
            lemma_report(s.status, now, chunk, energy, heard);
        },
        (Stage::Retrying { padded, end, .. }, Happened::Transcribed { heard, .. }) => {
            lemma_retry_report(s.status, now, padded, end, heard);
        },
        _ => {
            assert(false);
        },
    }
}

/// The flag that speech was detected stays up once it is up.
pub proof fn detected_speech_stays_detected(s: Scene, now: Option<u128>, e: Happened)
    requires
        answers(s.stage, e),
        s.status.speech_detected_emitted,
    ensures
        next(s, now, e).scene.status.speech_detected_emitted,
{
}

/// A transcript that is announced, and when.
pub struct Utterance {
    pub now: Option<u128>,
    pub words: Seq<char>,
    pub confidence: Option<Double>,
    pub is_partial: bool,
    pub start: Real,
    pub end: Real,
}

/// What is said of an utterance.
pub open spec fn announcement_of(status: TranscriptionStatus, u: Utterance) -> Seq<Said> {
    announcement(status, u.now, u.words, u.confidence, u.is_partial, u.start, u.end)
}

/// What is known after utterances were announced one after the other.
pub open spec fn announced_all(status: TranscriptionStatus, all: Seq<Utterance>) -> TranscriptionStatus
    decreases all.len(),
{
    if all.len() == 0 {
        status
    } else {
        announced(announced_all(status, all.drop_last()))
    }
}

/// What is said of utterances that are announced one after the other.
pub open spec fn announcements(status: TranscriptionStatus, all: Seq<Utterance>) -> Seq<Said>
    decreases all.len(),
{
    if all.len() == 0 {
        Seq::empty()
    } else {
        announcements(status, all.drop_last()) + announcement_of(
            announced_all(status, all.drop_last()),
            all.last(),
        )
    }
}

/// The number that is `k` behind another, from the largest back to zero.
pub open spec fn number_behind(n: u64, k: nat) -> u64 {
    ((n + k) % 0x1_0000_0000_0000_0000) as u64
}

/// The report of an utterance under its number.
pub open spec fn transcript_of(u: Utterance, sequence_id: u64) -> Said {
    Said::Transcript {
        text: u.words,
        timestamp: status::time_of_day(status::counted_seconds(u.now)),
        source: "Audio"@,
        sequence_id,
        chunk_start: u.start,
        is_partial: u.is_partial,
        confidence: match u.confidence {
            Some(c) => c,
            None => Double { bits: DEFAULT_CONFIDENCE_BITS },
        },
        start: u.start,
        end: u.end,
        duration: events::span(u.start, u.end),
    }
}

/// What is said before utterances are announced: that speech was detected, where there are any and
/// it was not said before.
pub open spec fn detection(status: TranscriptionStatus, all: Seq<Utterance>) -> Seq<Said> {
    if status.speech_detected_emitted || all.len() == 0 {
        Seq::empty()
    } else {
        seq![Said::SpeechDetected { message: "Speech activity detected"@ }]
    }
}

/// The reports of utterances under numbers that rise by one.
pub open spec fn numbered(first: u64, all: Seq<Utterance>) -> Seq<Said> {
    Seq::new(all.len(), |k: int| transcript_of(all[k], number_behind(first, k as nat)))
}

/// Of transcripts that are announced one after the other, each is reported in its turn, under
/// numbers that rise by one. That speech was detected is said once, before the first of them,
/// where it was not said before, and not at all where it was.
#[verifier::spinoff_prover]
pub proof fn announcements_are_numbered_in_order(status: TranscriptionStatus, all: Seq<Utterance>)
    ensures
        announcements(status, all) == detection(status, all) + numbered(
            status.sequence_counter,
            all,
        ),
        announced_all(status, all).sequence_counter == number_behind(
            status.sequence_counter,
            all.len(),
        ),
        announced_all(status, all).speech_detected_emitted == (status.speech_detected_emitted
            || all.len() > 0),
    decreases all.len(),
{
    lemma_announced_all(status, all);
    if all.len() == 0 {
        assert(announcements(status, all) =~= detection(status, all) + numbered(
            status.sequence_counter,
            all,
        ));
    } else {
        let head = all.drop_last();
        announcements_are_numbered_in_order(status, head);
        lemma_announced_all(status, head);
        lemma_announcement(announced_all(status, head), all.last());
        lemma_numbered(status.sequence_counter, all);
        lemma_one_more(status, all);
    }
}

/// What is known after utterances were announced.
#[verifier::spinoff_prover]
proof fn lemma_announced_all(status: TranscriptionStatus, all: Seq<Utterance>)
    ensures
        announced_all(status, all).sequence_counter == number_behind(
            status.sequence_counter,
            all.len(),
        ),
        announced_all(status, all).speech_detected_emitted == (status.speech_detected_emitted
            || all.len() > 0),
    decreases all.len(),
{
    if all.len() > 0 {
        lemma_announced_all(status, all.drop_last());
    }
}

/// One announcement: the detection where it is due, and the report.
#[verifier::spinoff_prover]
proof fn lemma_announcement(status: TranscriptionStatus, u: Utterance)
    ensures
        announcement_of(status, u) == detection(status, seq![u]) + seq![
            transcript_of(u, status.sequence_counter),
        ],
{
    assert(announcement_of(status, u) =~= detection(status, seq![u]) + seq![
        transcript_of(u, status.sequence_counter),
    ]);
}

/// The reports of utterances are those of all but the last, and that of the last.
#[verifier::spinoff_prover]
proof fn lemma_numbered(first: u64, all: Seq<Utterance>)
    requires
        all.len() > 0,
    ensures
        numbered(first, all) == numbered(first, all.drop_last()).push(
            transcript_of(all.last(), number_behind(first, (all.len() - 1) as nat)),
        ),
{
    assert(numbered(first, all) =~= numbered(first, all.drop_last()).push(
        transcript_of(all.last(), number_behind(first, (all.len() - 1) as nat)),
    ));
}

/// Announcing one more utterance keeps the order of the reports.
#[verifier::spinoff_prover]
proof fn lemma_one_more(status: TranscriptionStatus, all: Seq<Utterance>)
    requires
        all.len() > 0,
        announcements(status, all.drop_last()) == detection(status, all.drop_last()) + numbered(
            status.sequence_counter,
            all.drop_last(),
        ),
        numbered(status.sequence_counter, all) == numbered(
            status.sequence_counter,
            all.drop_last(),
        ).push(
            transcript_of(
                all.last(),
                number_behind(status.sequence_counter, (all.len() - 1) as nat),
            ),
        ),
        announcement_of(announced_all(status, all.drop_last()), all.last()) == detection(
            announced_all(status, all.drop_last()),
            seq![all.last()],
        ) + seq![
            transcript_of(
                all.last(),
                announced_all(status, all.drop_last()).sequence_counter,
            ),
        ],
        announced_all(status, all.drop_last()).sequence_counter == number_behind(
            status.sequence_counter,
            (all.len() - 1) as nat,
        ),
        announced_all(status, all.drop_last()).speech_detected_emitted == (
        status.speech_detected_emitted || all.len() > 1),
    ensures
        announcements(status, all) == detection(status, all) + numbered(
            status.sequence_counter,
            all,
        ),
{
    let head = all.drop_last();
    if head.len() == 0 {
        assert(numbered(status.sequence_counter, head) =~= Seq::<Said>::empty());
    }
    assert(announcements(status, all) =~= detection(status, all) + numbered(
        status.sequence_counter,
        all,
    ));
}

/// Those of some reports that announce something.
pub open spec fn spoken(said: Seq<Said>) -> Seq<Said>
    decreases said.len(),
{
    if said.len() == 0 {
        Seq::empty()
    } else if said.last() is Transcript || said.last() is SpeechDetected {
        spoken(said.drop_last()).push(said.last())
    } else {
        spoken(said.drop_last())
    }
}

/// What an event lets the worker announce, if anything.
pub open spec fn uttered(s: Scene, now: Option<u128>, e: Happened) -> Seq<Utterance> {
    match (s.stage, e) {
        (
            Stage::Transcribing { chunk },
            Happened::Transcribed { heard: Heard::Words { text, confidence, is_partial }, .. },
        ) => if text::is_blank(text) {
            Seq::empty()
        } else {
            seq![
                Utterance {
                    now,
                    words: text,
                    confidence,
                    is_partial,
                    start: chunk.timestamp@,
                    end: audio::end_time(chunk),
                },
            ]
        },
        (
            Stage::Retrying { padded, end, .. },
            Happened::Transcribed { heard: Heard::Words { text, confidence, is_partial }, .. },
        ) => if text::is_blank(text) {
            Seq::empty()
        } else {
            seq![
                Utterance {
                    now,
                    words: text,
                    confidence,
                    is_partial,
                    start: padded.timestamp@,
                    end,
                },
            ]
        },
        _ => Seq::empty(),
    }
}

proof fn lemma_spoken_joined(a: Seq<Said>, b: Seq<Said>)
    ensures
        spoken(a + b) == spoken(a) + spoken(b),
    decreases b.len(),
{
    if b.len() == 0 {
        assert(a + b =~= a);
        assert(spoken(a) + spoken(b) =~= spoken(a));
    } else {
        assert((a + b).drop_last() =~= a + b.drop_last());
        lemma_spoken_joined(a, b.drop_last());
        assert(spoken(a + b) =~= spoken(a) + spoken(b));
    }
}

/// A single report that announces nothing leaves nothing.
proof fn lemma_unspoken(said: Said)
    requires
        !(said is Transcript),
        !(said is SpeechDetected),
    ensures
        spoken(seq![said]) == Seq::<Said>::empty(),
{
    reveal_with_fuel(spoken, 2);
    assert(seq![said].drop_last() =~= Seq::<Said>::empty());
}

proof fn lemma_announcement_spoken(status: TranscriptionStatus, u: Utterance)
    ensures
        spoken(announcement_of(status, u)) == announcement_of(status, u),
{
    reveal_with_fuel(spoken, 3);
    let all = announcement_of(status, u);
    let head = all.drop_last();
    if head.len() > 0 {
        assert(head.drop_last() =~= Seq::<Said>::empty());
        assert(spoken(head) =~= head);
    } else {
        assert(head =~= Seq::<Said>::empty());
    }
    assert(spoken(all) =~= all);
}

/// A report that announces nothing, in front of others, adds nothing.
proof fn lemma_spoken_behind(first: Said, rest: Seq<Said>)
    requires
        !(first is Transcript),
        !(first is SpeechDetected),
    ensures
        spoken(seq![first] + rest) == spoken(rest),
{
    lemma_unspoken(first);
    lemma_spoken_joined(seq![first], rest);
    assert(Seq::<Said>::empty() + spoken(rest) =~= spoken(rest));
}

proof fn lemma_report_speaks(
    status: TranscriptionStatus,
    now: Option<u128>,
    chunk: Audio,
    energy: Double,
    h: Heard,
)
    ensures
        spoken(report(status, now, chunk, energy, h)) == match h {
            Heard::Words { text, confidence, is_partial } => if text::is_blank(text) {
                Seq::empty()
            } else {
                announcement(
                    status,
                    now,
                    text,
                    confidence,
                    is_partial,
                    chunk.timestamp@,
                    audio::end_time(chunk),
                )
            },
            _ => Seq::empty(),
        },
{
    let said = report(status, now, chunk, energy, h);
    match h {
        Heard::Words { text, confidence, is_partial } => if text::is_blank(text) {
            lemma_silent(said);
        } else {
            let u = Utterance {
                now,
                words: text,
                confidence,
                is_partial,
                start: chunk.timestamp@,
                end: audio::end_time(chunk),
            };
            let first = said[0];
            assert(said =~= seq![first] + announcement_of(status, u));
            lemma_spoken_behind(first, announcement_of(status, u));
            lemma_announcement_spoken(status, u);
        },
        _ => {
            lemma_silent(said);
        },
    }
}

proof fn lemma_retry_report_speaks(
    status: TranscriptionStatus,
    now: Option<u128>,
    padded: Audio,
    end: Real,
    h: Heard,
)
    ensures
        spoken(retry_report(status, now, padded, end, h)) == match h {
            Heard::Words { text, confidence, is_partial } => if text::is_blank(text) {
                Seq::empty()
            } else {
                announcement(
                    status,
                    now,
                    text,
                    confidence,
                    is_partial,
                    padded.timestamp@,
                    end,
                )
            },
            _ => Seq::empty(),
        },
{
    let said = retry_report(status, now, padded, end, h);
    match h {
        Heard::Words { text, confidence, is_partial } => if text::is_blank(text) {
            lemma_silent(said);
        } else {
            let u = Utterance {
                now,
                words: text,
                confidence,
                is_partial,
                start: padded.timestamp@,
                end,
            };
            let first = said[0];
            assert(said =~= seq![first] + announcement_of(status, u));
            lemma_spoken_behind(first, announcement_of(status, u));
            lemma_announcement_spoken(status, u);
        },
        _ => {
            lemma_silent(said);
        },
    }
}

/// What one step announces.
proof fn lemma_step_speaks(s: Scene, now: Option<u128>, e: Happened)
    requires
        answers(s.stage, e),
    ensures
        uttered(s, now, e).len() <= 1,
        uttered(s, now, e).len() == 0 ==> spoken(next(s, now, e).said) == Seq::<Said>::empty(),
        uttered(s, now, e).len() == 1 ==> spoken(next(s, now, e).said) == announcement_of(
            s.status,
            uttered(s, now, e)[0],
        ),
        next(s, now, e).scene.status.sequence_counter == if uttered(s, now, e).len() == 1 {
            status::bumped(s.status.sequence_counter)
        } else {
            s.status.sequence_counter
        },
        next(s, now, e).scene.status.speech_detected_emitted == (
        s.status.speech_detected_emitted || uttered(s, now, e).len() == 1),
{
    let said = next(s, now, e).said;
    match (s.stage, e) {
        (Stage::Transcribing { chunk }, Happened::Transcribed { energy, heard }) => {
            let told = report(s.status, now, chunk, energy, heard);
            lemma_report_speaks(s.status, now, chunk, energy, heard);
            if tells_progress(heard) {
                assert(said.drop_last() =~= told);
                assert(spoken(said) == spoken(told));
            }
        },
        (Stage::Retrying { padded, end, .. }, Happened::Transcribed { heard, .. }) => {
            lemma_retry_report_speaks(s.status, now, padded, end, heard);
        },
        _ => {
            lemma_silent(said);
        },
    }
}

/// Reports that announce nothing leave nothing.
proof fn lemma_silent(said: Seq<Said>)
    requires
        forall|i: int|
            0 <= i < said.len() ==> !((#[trigger] said[i]) is Transcript) && !(said[i] is SpeechDetected),
    ensures
        spoken(said) == Seq::<Said>::empty(),
    decreases said.len(),
{
    if said.len() > 0 {
        assert(said[said.len() - 1] == said.last());
        lemma_silent(said.drop_last());
    }
}

/// Whether every chunk that the worker holds starts at a time or later.
pub open spec fn all_from(s: Scene, time: Real) -> bool {
    &&& s.pending matches Some(a) ==> double::at_most(time, a.timestamp@)
    &&& match s.stage {
        Stage::AwaitingModel { chunk, .. } => double::at_most(time, chunk.timestamp@),
        Stage::Resampling { earlier, chunk } => double::at_most(time, earlier.timestamp@)
            && double::at_most(time, chunk.timestamp@),
        Stage::Transcribing { chunk } => double::at_most(time, chunk.timestamp@),
        Stage::Retrying { padded, next, .. } => double::at_most(time, padded.timestamp@) && (
        next matches Some(a) ==> double::at_most(time, a.timestamp@)),
        _ => true,
    }
}

/// Whether the chunks that the worker holds start in the order in which they came.
pub open spec fn is_in_order(s: Scene) -> bool {
    match s.stage {
        Stage::AwaitingModel { chunk, .. } => s.pending matches Some(a) ==> double::at_most(
            a.timestamp@,
            chunk.timestamp@,
        ),
        Stage::Resampling { earlier, chunk } => double::at_most(
            earlier.timestamp@,
            chunk.timestamp@,
        ),
        Stage::Retrying { padded, next, .. } => next matches Some(a) ==> double::at_most(
            padded.timestamp@,
            a.timestamp@,
        ),
        _ => true,
    }
}

/// Transcripts are announced in the order of time: where chunks come in that order, a transcript
/// starts no later than any chunk that the worker still holds, and the worker keeps the order.
pub proof fn transcripts_come_in_order(s: Scene, now: Option<u128>, e: Happened)
    requires
        is_sound(s),
        is_in_order(s),
        answers(s.stage, e),
        e matches Happened::Chunk { chunk, .. } ==> s.pending matches Some(a) ==> double::at_most(
            a.timestamp@,
            chunk.timestamp@,
        ),
    ensures
        is_in_order(next(s, now, e).scene),
        forall|i: int|
            0 <= i < next(s, now, e).said.len() ==> ((#[trigger] next(s, now, e).said[i])
                matches Said::Transcript { start, .. } ==> all_from(
                next(s, now, e).scene,
                start,
            )),
{
    let said = next(s, now, e).said;
    match (s.stage, e) {
        (Stage::Transcribing { chunk }, Happened::Transcribed { energy, heard }) => {
            let told = report(s.status, now, chunk, energy, heard);
            assert(forall|j: int| 0 <= j < told.len() ==> said[j] == told[j]);
            lemma_report_starts(s.status, now, chunk, energy, heard);
        },
        (Stage::Retrying { padded, end, .. }, Happened::Transcribed { heard, .. }) => {
            lemma_retry_report_starts(s.status, now, padded, end, heard);
        },
        _ => {
        },
    }
}

/// What the worker announces later starts no earlier: a time that no chunk of the worker precedes
/// and no chunk that comes precedes stays such a time, and no transcript precedes it.
pub proof fn later_transcripts_start_later(s: Scene, now: Option<u128>, e: Happened, time: Real)
    requires
        answers(s.stage, e),
        all_from(s, time),
        e matches Happened::Chunk { chunk, .. } ==> double::at_most(time, chunk.timestamp@),
    ensures
        all_from(next(s, now, e).scene, time),
        forall|i: int|
            0 <= i < next(s, now, e).said.len() ==> ((#[trigger] next(s, now, e).said[i])
                matches Said::Transcript { start, .. } ==> double::at_most(time, start)),
{
    let said = next(s, now, e).said;
    match (s.stage, e) {
        (Stage::Transcribing { chunk }, Happened::Transcribed { energy, heard }) => {
            let told = report(s.status, now, chunk, energy, heard);
            assert(forall|j: int| 0 <= j < told.len() ==> said[j] == told[j]);
            lemma_report_starts(s.status, now, chunk, energy, heard);
        },
        (Stage::Retrying { padded, end, .. }, Happened::Transcribed { heard, .. }) => {
            lemma_retry_report_starts(s.status, now, padded, end, heard);
        },
        _ => {
        },
    }
}

/// Whether the transcripts among reports start at a time, and are there only where words were
/// heard.
spec fn starts_at(said: Seq<Said>, time: Real, h: Heard) -> bool {
    forall|i: int|
        0 <= i < said.len() ==> ((#[trigger] said[i]) matches Said::Transcript { start, .. }
            ==> start == time && (h matches Heard::Words { text, .. } && !text::is_blank(text)))
}

proof fn lemma_report_starts(
    status: TranscriptionStatus,
    now: Option<u128>,
    chunk: Audio,
    energy: Double,
    h: Heard,
)
    ensures
        starts_at(report(status, now, chunk, energy, h), chunk.timestamp@, h),
{
}

proof fn lemma_retry_report_starts(
    status: TranscriptionStatus,
    now: Option<u128>,
    padded: Audio,
    end: Real,
    h: Heard,
)
    ensures
        starts_at(retry_report(status, now, padded, end, h), padded.timestamp@, h),
{
}

/// A chunk that sounded like speech and came out empty is not dropped: it waits until it is
/// transcribed together with the next chunk, or once more by itself.
pub proof fn empty_speech_is_tried_again(s: Scene, now: Option<u128>, e: Happened, earlier: Audio)
    requires
        is_sound(s),
        answers(s.stage, e),
        s.pending == Some(earlier),
    ensures
        ({
            let after = next(s, now, e).scene;
            ||| after.pending == Some(earlier)
            ||| after.stage matches Stage::Resampling { earlier: kept, .. } && kept == earlier
            ||| after.stage matches Stage::Retrying { padded, end, .. } && padded == audio::padded(
                earlier,
                audio::final_padding(),
            ) && end == audio::end_time(earlier)
            ||| s.stage matches Stage::AwaitingModel { chunk, .. }
                && after.stage matches Stage::Transcribing { chunk: both } && both
                == audio::merged(earlier, chunk)
        }),
{
}

/// What the worker does next, and what it has to report.
pub struct Progressed {
    pub worker: Worker,
    pub reports: Vec<Report>,
    pub action: Action,
}

/// Whether a transcript has words to show. How sure the engine is of them does not matter.
pub fn should_emit_transcript_text(transcript: &str, _confidence: Option<Double>) -> (r: bool)
    ensures
        r == !text::is_blank(transcript@),
{
    !text::is_blank_text(transcript)
}

/// Counts one more chunk as completed.
fn complete_chunk(task: &mut TranscriptionTask, status: &mut TranscriptionStatus, now: Option<u128>)
    ensures
        *final(task) == (TranscriptionTask {
            chunks_completed: status::bumped(old(task).chunks_completed),
            ..*old(task)
        }),
        *final(status) == (TranscriptionStatus {
            chunks_completed: status::bumped(old(status).chunks_completed),
            last_activity_ms: status::counted_millis(now),
            ..*old(status)
        }),
{
    task.chunks_completed = status::bump(task.chunks_completed);
    status.chunks_completed = status::bump(status.chunks_completed);
    status.last_activity_ms = status::millis_of(now);
}

/// Announces a transcript behind what was reported before.
fn emit_transcript_update(
    reports: &mut Vec<Report>,
    status: &mut TranscriptionStatus,
    now: Option<u128>,
    transcript: Transcription,
    audio_start_time: Double,
    audio_end_time: Double,
)
    ensures
        *final(status) == announced(*old(status)),
        events::said(final(reports)@) == events::said(old(reports)@) + announcement(
            *old(status),
            now,
            transcript.text@,
            transcript.confidence,
            transcript.is_partial,
            audio_start_time@,
            audio_end_time@,
        ),
{
    let ghost before = events::said(reports@);
    let ghost was = *status;
    if !status.speech_detected_emitted {
        status.speech_detected_emitted = true;
        reports.push(Report::SpeechDetected { message: "Speech activity detected".to_owned() });
    }
    let sequence_id: u64 = status.sequence_counter;
    status.sequence_counter = status::bump(sequence_id);
    let confidence: Double = match transcript.confidence {
        Some(c) => c,
        None => Double { bits: DEFAULT_CONFIDENCE_BITS },
    };
    reports.push(
        Report::Transcript(
            TranscriptUpdate {
                text: transcript.text,
                timestamp: status::format_time_of_day(status::seconds_of(now)),
                source: "Audio".to_owned(),
                sequence_id,
                chunk_start_time: audio_start_time,
                is_partial: transcript.is_partial,
                confidence,
                audio_start_time,
                audio_end_time,
                duration: events::span_sec(&audio_start_time, &audio_end_time),
            },
        ),
    );
    assert(events::said(reports@) =~= before + announcement(
        was,
        now,
        transcript.text@,
        transcript.confidence,
        transcript.is_partial,
        audio_start_time@,
        audio_end_time@,
    ));
}

/// What another try of a chunk that came out empty has to report.
fn report_retry(
    status: &mut TranscriptionStatus,
    now: Option<u128>,
    padded: &AudioChunk,
    end: Double,
    outcome: Result<Transcription, TranscriptionFailure>,
) -> (r: Vec<Report>)
    ensures
        *final(status) == after_hearing(*old(status), heard(outcome)),
        events::said(r@) == retry_report(*old(status), now, padded@, end@, heard(outcome)),
{
    let id: u64 = padded.chunk_id;
    let start: Double = padded.timestamp;
    let ghost said = retry_report(*status, now, padded@, end@, heard(outcome));
    let mut reports: Vec<Report> = Vec::new();
    match outcome {
        Ok(transcript) => {
            if text::is_blank_text(transcript.text.as_str()) {
                reports.push(
                    events::transcription_diagnostic(
                        "asr_empty_retry_dropped",
                        id,
                        start,
                        end,
                        "context retry returned empty transcript",
                        transcript.confidence,
                        None,
                        Some(0),
                        Some(transcript.is_partial),
                    ),
                );
            } else {
                let text_length: usize = transcript.text.as_str().unicode_len();
                reports.push(
                    events::transcription_diagnostic(
                        "asr_retry_emitted",
                        id,
                        start,
                        end,
                        "context retry emitted non-empty transcript",
                        transcript.confidence,
                        None,
                        Some(text_length),
                        Some(transcript.is_partial),
                    ),
                );
                emit_transcript_update(&mut reports, status, now, transcript, start, end);
            }
        },
        Err(failure) => {
            reports.push(
                events::transcription_diagnostic(
                    "asr_retry_error",
                    id,
                    start,
                    end,
                    failure.message.as_str(),
                    None,
                    None,
                    None,
                    None,
                ),
            );
        },
    }
    assert(events::said(reports@) =~= said);
    reports
}

/// What the transcript of a chunk has to report, and whether the chunk is kept for another try.
fn report_transcript(
    status: &mut TranscriptionStatus,
    now: Option<u128>,
    chunk: &AudioChunk,
    energy: Double,
    transcript: Transcription,
) -> (r: (Vec<Report>, bool))
    ensures
        *final(status) == after_hearing(*old(status), heard(Ok(transcript))),
        events::said(r.0@) == report(*old(status), now, chunk@, energy, heard(Ok(transcript))),
        r.1 == is_kept(chunk@, energy, heard(Ok(transcript))),
{
    let id: u64 = chunk.chunk_id;
    let start: Double = chunk.timestamp;
    let end: Double = audio::audio_chunk_end(chunk);
    let ghost said = report(*status, now, chunk@, energy, heard(Ok(transcript)));
    let mut reports: Vec<Report> = Vec::new();
    let mut kept: bool = false;
    let confidence: Option<Double> = transcript.confidence;
    let is_partial: bool = transcript.is_partial;
    if should_emit_transcript_text(transcript.text.as_str(), confidence) {
        let text_length: usize = transcript.text.as_str().unicode_len();
        reports.push(
            events::transcription_diagnostic(
                "asr_emitted",
                id,
                start,
                end,
                "non-empty transcript emitted",
                confidence,
                Some(energy),
                Some(text_length),
                Some(is_partial),
            ),
        );
        emit_transcript_update(&mut reports, status, now, transcript, start, end);
    } else if audio::should_retry_empty_transcript(chunk, &energy) {
        reports.push(
            events::transcription_diagnostic(
                "asr_empty_retry_pending",
                id,
                start,
                end,
                "empty transcript for speech-like chunk; preserving for context retry",
                confidence,
                Some(energy),
                Some(0),
                Some(is_partial),
            ),
        );
        kept = true;
    } else {
        reports.push(
            events::transcription_diagnostic(
                "asr_empty_no_retry",
                id,
                start,
                end,
                "empty transcript for chunk below retry thresholds",
                confidence,
                Some(energy),
                Some(0),
                Some(is_partial),
            ),
        );
    }
    assert(events::said(reports@) =~= said);
    (reports, kept)
}

/// What a chunk without a transcript has to report.
fn report_failure(chunk: &AudioChunk, energy: Double, failure: TranscriptionFailure) -> (r: Vec<
    Report,
>)
    ensures
        events::said(r@) == failure_report(chunk@, energy, heard(Err(failure))),
{
    let id: u64 = chunk.chunk_id;
    let start: Double = chunk.timestamp;
    let end: Double = audio::audio_chunk_end(chunk);
    let ghost said = failure_report(chunk@, energy, heard(Err(failure)));
    let mut reports: Vec<Report> = Vec::new();
    match failure.error {
        TranscriptionError::AudioTooShort { .. } => {
            reports.push(
                events::transcription_diagnostic(
                    "audio_too_short_dropped",
                    id,
                    start,
                    end,
                    "audio chunk too short for transcription",
                    None,
                    Some(energy),
                    None,
                    None,
                ),
            );
        },
        TranscriptionError::ModelNotLoaded => {
            reports.push(
                events::transcription_diagnostic(
                    "model_unloaded_during_transcription",
                    id,
                    start,
                    end,
                    "model unloaded during transcription",
                    None,
                    Some(energy),
                    None,
                    None,
                ),
            );
        },
        _ => {
            reports.push(
                events::transcription_diagnostic(
                    "transcription_error",
                    id,
                    start,
                    end,
                    failure.message.as_str(),
                    None,
                    Some(energy),
                    None,
                    None,
                ),
            );
            reports.push(Report::Warning(failure.message));
        },
    }
    assert(events::said(reports@) =~= said);
    reports
}

impl Worker {
    /// A worker that has done nothing yet.
    pub fn new(id: usize) -> (r: Worker)
        ensures
            r.id == id,
            r.pending_empty_chunk is None,
            r.phase is Receiving,
    {
        Worker { id, pending_empty_chunk: None, phase: Phase::Receiving }
    }

    /// The chunk whose transcript the worker asks for.
    pub fn chunk_to_transcribe(&self) -> (r: Option<&AudioChunk>)
        ensures
            r == match self.phase {
                Phase::Transcribing { chunk } => Some(&chunk),
                Phase::Retrying { padded, .. } => Some(&padded),
                _ => None,
            },
    {
        match &self.phase {
            Phase::Transcribing { chunk } => Some(chunk),
            Phase::Retrying { padded, .. } => Some(padded),
            _ => None,
        }
    }

    /// The chunk whose samples the worker asks for at another rate, and that rate.
    pub fn chunk_to_resample(&self) -> (r: Option<(&AudioChunk, u32)>)
        ensures
            r == match self.phase {
                Phase::Resampling { earlier, chunk } => Some((&chunk, earlier.sample_rate)),
                _ => None,
            },
    {
        match &self.phase {
            Phase::Resampling { earlier, chunk } => Some((chunk, earlier.sample_rate)),
            _ => None,
        }
    }

    /// Whether an event answers what the worker asked for and leaves room for the chunks that
    /// are put together.
    pub fn can_step(&self, task: &TranscriptionTask, event: &Event) -> (r: bool)
        ensures
            forall|status: TranscriptionStatus|
                r == (answers(self.phase@, event@) && has_room(
                    #[trigger] scene(*self, *task, status),
                    event@,
                )),
    {
        match (&self.phase, event) {
            (Phase::Receiving, Event::Chunk { .. }) => true,
            (Phase::Receiving, Event::QueueEmpty) => match &self.pending_empty_chunk {
                Some(earlier) => !task.all_processed() || audio::fits_padded(
                    earlier,
                    &audio::final_padding_sec(),
                ),
                None => true,
            },
            (Phase::AwaitingModel { chunk, .. }, Event::Model { loaded }) => {
                if !*loaded {
                    return true;
                }
                match &self.pending_empty_chunk {
                    Some(earlier) => if !audio::should_merge_empty_retry_with_next(earlier, chunk) {
                        audio::fits_padded(earlier, &audio::final_padding_sec())
                    } else {
                        earlier.sample_rate != chunk.sample_rate || audio::fits_merged(
                            earlier,
                            chunk,
                            chunk.data.len(),
                        )
                    },
                    None => true,
                }
            },
            (Phase::Resampling { earlier, chunk }, Event::Resampled { samples }) =>
                audio::fits_merged(earlier, chunk, samples.len()),
            (Phase::Transcribing { .. }, Event::Transcribed { .. }) => true,
            (Phase::Retrying { .. }, Event::Transcribed { .. }) => true,
            _ => false,
        }
    }

    /// Takes an event now, and says what the worker asks for next and what it has to report. The
    /// time is the clock's, which may be any.
    pub fn step_now(
        self,
        task: &mut TranscriptionTask,
        status: &mut TranscriptionStatus,
        event: Event,
    ) -> (r: Progressed)
        requires
            answers(self.phase@, event@),
            has_room(scene(self, *old(task), *old(status)), event@),
        ensures
            exists|now: Option<u128>|
                {
                    let step = #[trigger] next(
                        scene(self, *old(task), *old(status)),
                        now,
                        event@,
                    );
                    &&& scene(r.worker, *final(task), *final(status)) == step.scene
                    &&& events::said(r.reports@) == step.said
                    &&& r.action == step.action
                },
    {
        let now: Option<u128> = outside::system_millis();
        self.step(task, status, now, event)
    }

    /// Takes an event at the time that the clock shows, and says what the worker asks for next and
    /// what it has to report.
    pub fn step(
        self,
        task: &mut TranscriptionTask,
        status: &mut TranscriptionStatus,
        now: Option<u128>,
        event: Event,
    ) -> (r: Progressed)
        requires
            answers(self.phase@, event@),
            has_room(scene(self, *old(task), *old(status)), event@),
        ensures
            scene(r.worker, *final(task), *final(status)) == next(
                scene(self, *old(task), *old(status)),
                now,
                event@,
            ).scene,
            events::said(r.reports@) == next(
                scene(self, *old(task), *old(status)),
                now,
                event@,
            ).said,
            r.action == next(scene(self, *old(task), *old(status)), now, event@).action,
    {
        let id: usize = self.id;
        let pending: Option<AudioChunk> = self.pending_empty_chunk;
        let ghost expected = next(scene(self, *task, *status), now, event@);
        match (self.phase, event) {
            (Phase::Receiving, Event::Chunk { chunk, energy }) => {
                let mut reports: Vec<Report> = Vec::new();
                reports.push(
                    events::transcription_diagnostic(
                        "audio_chunk_received",
                        chunk.chunk_id,
                        chunk.timestamp,
                        audio::audio_chunk_end(&chunk),
                        "chunk entered transcription worker",
                        None,
                        Some(energy),
                        None,
                        None,
                    ),
                );
                assert(events::said(reports@) =~= expected.said);
                Progressed {
                    worker: Worker {
                        id,
                        pending_empty_chunk: pending,
                        phase: Phase::AwaitingModel { chunk, energy },
                    },
                    reports,
                    action: Action::AwaitModel,
                }
            },
            (Phase::AwaitingModel { chunk, energy }, Event::Model { loaded }) => if loaded {
                let r = take_up(id, pending, chunk);
                assert(events::said(r.reports@) =~= expected.said);
                r
            } else {
                let reports = report_missing_model(&chunk, energy);
                complete_chunk(task, status, now);
                assert(events::said(reports@) =~= expected.said);
                Progressed {
                    worker: Worker { id, pending_empty_chunk: pending, phase: Phase::Receiving },
                    reports,
                    action: Action::Receive,
                }
            },
            (Phase::Resampling { earlier, chunk }, Event::Resampled { samples }) => {
                let rate: u32 = earlier.sample_rate;
                let both = audio::merge_audio_chunks(
                    earlier,
                    audio::with_samples(chunk, samples, rate),
                );
                let reports: Vec<Report> = Vec::new();
                assert(events::said(reports@) =~= expected.said);
                Progressed {
                    worker: Worker {
                        id,
                        pending_empty_chunk: None,
                        phase: Phase::Transcribing { chunk: both },
                    },
                    reports,
                    action: Action::Transcribe,
                }
            },
            (Phase::Transcribing { chunk }, Event::Transcribed { energy, outcome }) =>
                finish_chunk(id, task, status, now, chunk, energy, outcome),
            (Phase::Retrying { padded, end, next }, Event::Transcribed { outcome, .. }) => {
                let reports = report_retry(status, now, &padded, end, outcome);
                match next {
                    Some(chunk) => Progressed {
                        worker: Worker {
                            id,
                            pending_empty_chunk: pending,
                            phase: Phase::Transcribing { chunk },
                        },
                        reports,
                        action: Action::Transcribe,
                    },
                    None => Progressed {
                        worker: Worker { id, pending_empty_chunk: pending, phase: Phase::Finished },
                        reports,
                        action: Action::Finish,
                    },
                }
            },
            _ => {
                let r = face_empty_queue(id, pending, task);
                assert(events::said(r.reports@) =~= expected.said);
                r
            },
        }
    }
}

/// What a chunk has to report for which the model did not come.
fn report_missing_model(chunk: &AudioChunk, energy: Double) -> (r: Vec<Report>)
    ensures
        forall|s: Scene, now: Option<u128>|
            events::said(r@) == (#[trigger] on_missing_model(s, now, chunk@, energy)).said,
{
    let mut reports: Vec<Report> = Vec::new();
    reports.push(
        events::transcription_diagnostic(
            "model_not_ready_dropped",
            chunk.chunk_id,
            chunk.timestamp,
            audio::audio_chunk_end(chunk),
            "model not loaded before timeout",
            None,
            Some(energy),
            None,
            None,
        ),
    );
    let mut message = "Transcription model was not ready after ".to_owned();
    text::push_number(&mut message, engine::MODEL_LOAD_WAIT_TIMEOUT_SEC);
    message.append(" seconds; one audio chunk was skipped.");
    reports.push(Report::Warning(message));
    assert forall|s: Scene, now: Option<u128>|
        events::said(reports@) == (#[trigger] on_missing_model(s, now, chunk@, energy)).said by {
        assert(events::said(reports@) =~= on_missing_model(s, now, chunk@, energy).said);
    }
    reports
}

/// Starts another try of a chunk that came out empty.
fn start_retry(id: usize, earlier: AudioChunk, next: Option<AudioChunk>) -> (r: Progressed)
    requires
        audio::can_pad(earlier@, audio::final_padding()),
    ensures
        r.worker.id == id,
        r.worker.pending_empty_chunk is None,
        r.worker.phase@ == (Stage::Retrying {
            padded: audio::padded(earlier@, audio::final_padding()),
            end: audio::end_time(earlier@),
            next: audio_of(next),
        }),
        r.reports@.len() == 0,
        r.action == Action::Transcribe,
{
    let end: Double = audio::audio_chunk_end(&earlier);
    let padded = audio::pad_audio_chunk(earlier, &audio::final_padding_sec());
    Progressed {
        worker: Worker {
            id,
            pending_empty_chunk: None,
            phase: Phase::Retrying { padded, end, next },
        },
        reports: Vec::new(),
        action: Action::Transcribe,
    }
}

/// Takes up a chunk now that the model is there.
fn take_up(id: usize, pending: Option<AudioChunk>, chunk: AudioChunk) -> (r: Progressed)
    requires
        pending matches Some(earlier) ==> if !audio::is_near(earlier@, chunk@) {
            audio::can_pad(earlier@, audio::final_padding())
        } else {
            earlier.sample_rate == chunk.sample_rate ==> audio::can_merge(earlier@, chunk@)
        },
    ensures
        forall|s: Scene|
            s.id == id && s.pending == audio_of(pending) ==> scene(r.worker, s.task, s.status)
                == (#[trigger] on_model(s, chunk@)).scene && r.action == on_model(s, chunk@).action,
        r.reports@.len() == 0,
{
    match pending {
        Some(earlier) => if !audio::should_merge_empty_retry_with_next(&earlier, &chunk) {
            start_retry(id, earlier, Some(chunk))
        } else if earlier.sample_rate == chunk.sample_rate {
            Progressed {
                worker: Worker {
                    id,
                    pending_empty_chunk: None,
                    phase: Phase::Transcribing { chunk: audio::merge_audio_chunks(earlier, chunk) },
                },
                reports: Vec::new(),
                action: Action::Transcribe,
            }
        } else {
            Progressed {
                worker: Worker {
                    id,
                    pending_empty_chunk: None,
                    phase: Phase::Resampling { earlier, chunk },
                },
                reports: Vec::new(),
                action: Action::Resample,
            }
        },
        None => Progressed {
            worker: Worker {
                id,
                pending_empty_chunk: None,
                phase: Phase::Transcribing { chunk },
            },
            reports: Vec::new(),
            action: Action::Transcribe,
        },
    }
}

/// Goes on where no chunk is queued.
fn face_empty_queue(id: usize, pending: Option<AudioChunk>, task: &TranscriptionTask) -> (r:
    Progressed)
    requires
        pending matches Some(earlier) ==> task.input_finished && task.chunks_completed
            >= task.chunks_queued ==> audio::can_pad(earlier@, audio::final_padding()),
    ensures
        forall|s: Scene|
            s.id == id && s.pending == audio_of(pending) && s.stage is Receiving && s.task == *task
                ==> scene(r.worker, s.task, s.status) == (#[trigger] on_empty_queue(s)).scene
                && r.action == on_empty_queue(s).action,
        r.reports@.len() == 0,
{
    if !task.input_finished {
        Progressed {
            worker: Worker { id, pending_empty_chunk: pending, phase: Phase::Receiving },
            reports: Vec::new(),
            action: Action::Pause { ms: IDLE_PAUSE_MS },
        }
    } else if !task.all_processed() {
        Progressed {
            worker: Worker { id, pending_empty_chunk: pending, phase: Phase::Receiving },
            reports: Vec::new(),
            action: Action::Pause { ms: MISSING_CHUNK_PAUSE_MS },
        }
    } else {
        match pending {
            Some(earlier) => start_retry(id, earlier, None),
            None => Progressed {
                worker: Worker { id, pending_empty_chunk: None, phase: Phase::Finished },
                reports: Vec::new(),
                action: Action::Finish,
            },
        }
    }
}

/// Deals with what the engine made of a chunk.
fn finish_chunk(
    id: usize,
    task: &mut TranscriptionTask,
    status: &mut TranscriptionStatus,
    now: Option<u128>,
    chunk: AudioChunk,
    energy: Double,
    outcome: Result<Transcription, TranscriptionFailure>,
) -> (r: Progressed)
    ensures
        forall|s: Scene|
            #![trigger on_transcribed(s, now, chunk@, energy, heard(outcome))]
            s.id == id && s.task == *old(task) && s.status == *old(status) ==> {
                let done = on_transcribed(s, now, chunk@, energy, heard(outcome));
                &&& scene(r.worker, *final(task), *final(status)) == done.scene
                &&& events::said(r.reports@) == done.said
                &&& r.action == done.action
            },
{
    let ghost was_task = *task;
    let ghost was_status = *status;
    let ghost h = heard(outcome);
    let mut kept: bool = false;
    let tells: bool = match &outcome {
        Ok(_) => true,
        Err(failure) => match &failure.error {
            TranscriptionError::AudioTooShort { .. } => false,
            TranscriptionError::ModelNotLoaded => false,
            _ => true,
        },
    };
    let mut reports: Vec<Report> = match outcome {
        Ok(transcript) => {
            let told = report_transcript(status, now, &chunk, energy, transcript);
            kept = told.1;
            told.0
        },
        Err(failure) => report_failure(&chunk, energy, failure),
    };
    let ghost told = events::said(reports@);
    assert(told == report(was_status, now, chunk@, energy, h));
    assert(*status == after_hearing(was_status, h));
    complete_chunk(task, status, now);
    if tells {
        reports.push(
            events::transcription_progress(id, task.chunks_completed, task.chunks_queued),
        );
        assert(events::said(reports@) =~= told.push(
            events::progress(id, task.chunks_completed, task.chunks_queued),
        ));
    }
    let pending_empty_chunk: Option<AudioChunk> = if kept {
        Some(chunk)
    } else {
        None
    };
    Progressed {
        worker: Worker { id, pending_empty_chunk, phase: Phase::Receiving },
        reports,
        action: Action::Receive,
    }
}

/// Whether every chunk that was queued is completed, in hand, or one of those that wait.
pub open spec fn is_balanced(s: Scene, waiting: nat) -> bool {
    s.task.chunks_queued == s.task.chunks_completed + in_hand(s.stage) + waiting
}

/// Queueing a chunk adds it to those that wait.
pub proof fn dispatching_keeps_the_balance(s: Scene, waiting: nat)
    requires
        is_balanced(s, waiting),
        s.task.chunks_queued < u64::MAX,
    ensures
        is_balanced(Scene { task: status::dispatched(s.task), ..s }, waiting + 1),
{
}

/// The worker takes a chunk from those that wait, and loses none on the way to its completion.
pub proof fn working_keeps_the_balance(s: Scene, now: Option<u128>, e: Happened, waiting: nat)
    requires
        answers(s.stage, e),
        is_balanced(s, waiting),
        e is Chunk ==> waiting > 0,
    ensures
        is_balanced(
            next(s, now, e).scene,
            if e is Chunk {
                (waiting - 1) as nat
            } else {
                waiting
            },
        ),
{
    if in_hand(s.stage) == 0 && s.task.chunks_completed == u64::MAX {
        assert(!(e is Chunk));
    } else {
        every_chunk_is_counted_once(s, now, e);
    }
}

/// Once the input is finished and no chunk waits, the worker does not idle: it is done, or tries
/// the last empty chunk again and is done then. All chunks are completed.
pub proof fn no_chunk_is_lost(s: Scene, now: Option<u128>)
    requires
        s.stage is Receiving,
        s.task.input_finished,
        is_balanced(s, 0),
    ensures
        s.task.chunks_completed == s.task.chunks_queued,
        next(s, now, Happened::QueueEmpty).action == if s.pending is Some {
            Action::Transcribe
        } else {
            Action::Finish
        },
        status::verdict(next(s, now, Happened::QueueEmpty).scene.task, 0) is Complete,
{
}

// Recordings.

/// What happens in a recording.
pub enum Move {
    /// A chunk is queued.
    Dispatch { now_ms: u64 },
    /// No more chunks will be queued.
    FinishInput,
    /// The worker takes an event.
    Work { now: Option<u128>, event: Happened },
}

/// The worker, what is counted, and how many chunks wait in the queue.
pub struct Recording {
    pub scene: Scene,
    pub waiting: nat,
}

/// Whether a recording starts: nothing is counted, and the worker has done nothing.
pub open spec fn is_starting(r: Recording) -> bool {
    &&& r.scene.task == status::nothing_counted()
    &&& r.scene.status.chunks_queued == 0 && r.scene.status.chunks_completed == 0
    &&& r.scene.stage is Receiving
    &&& r.scene.pending is None
    &&& r.waiting == 0
}

/// Whether something can happen: chunks are queued while there is input, and the worker takes
/// events that answer what it asked for, and chunks that wait.
pub open spec fn can_move(r: Recording, m: Move) -> bool {
    match m {
        Move::Dispatch { .. } => !r.scene.task.input_finished,
        Move::FinishInput => true,
        Move::Work { event, .. } => answers(r.scene.stage, event) && (event is Chunk ==> r.waiting
            > 0),
    }
}

/// The recording after something happened.
pub open spec fn moved(r: Recording, m: Move) -> Recording {
    match m {
        Move::Dispatch { now_ms } => Recording {
            scene: Scene {
                task: status::dispatched(r.scene.task),
                status: status::told_of_dispatch(r.scene.status, now_ms),
                ..r.scene
            },
            waiting: r.waiting + 1,
        },
        Move::FinishInput => Recording {
            scene: Scene { task: status::input_over(r.scene.task), ..r.scene },
            ..r
        },
        Move::Work { now, event } => Recording {
            scene: next(r.scene, now, event).scene,
            waiting: if event is Chunk {
                (r.waiting - 1) as nat
            } else {
                r.waiting
            },
        },
    }
}

/// The recording after all that happened.
pub open spec fn recorded(r: Recording, moves: Seq<Move>) -> Recording
    decreases moves.len(),
{
    if moves.len() == 0 {
        r
    } else {
        moved(recorded(r, moves.drop_last()), moves.last())
    }
}

/// Whether all of it can happen, one thing after the other.
pub open spec fn can_happen(r: Recording, moves: Seq<Move>) -> bool
    decreases moves.len(),
{
    moves.len() > 0 ==> can_happen(r, moves.drop_last()) && can_move(
        recorded(r, moves.drop_last()),
        moves.last(),
    )
}

/// Whether the status that the user sees agrees with what is counted of the recording.
pub open spec fn is_mirrored(s: Scene) -> bool {
    &&& s.status.chunks_queued == s.task.chunks_queued
    &&& s.status.chunks_completed == s.task.chunks_completed
}

/// The status goes on to agree with what is counted, whatever the worker does.
pub proof fn working_is_mirrored(s: Scene, now: Option<u128>, e: Happened)
    requires
        answers(s.stage, e),
        is_mirrored(s),
    ensures
        is_mirrored(next(s, now, e).scene),
{
}

/// Whether a recording is in good order: its chunks balance, the status agrees with the counts,
/// the worker is sound, and it is done only when all chunks are completed.
pub open spec fn is_in_good_order(r: Recording) -> bool {
    &&& is_balanced(r.scene, r.waiting)
    &&& is_mirrored(r.scene)
    &&& is_sound(r.scene)
    &&& r.scene.stage is Finished ==> is_all_processed(r.scene.task) && r.scene.pending is None
}

/// Good order outlasts everything that can happen.
#[verifier::spinoff_prover]
proof fn lemma_move_keeps_order(r: Recording, m: Move)
    requires
        is_in_good_order(r),
        can_move(r, m),
        r.scene.task.chunks_queued < u64::MAX,
    ensures
        is_in_good_order(moved(r, m)),
        moved(r, m).scene.task.chunks_queued <= r.scene.task.chunks_queued + 1,
{
    match m {
        Move::Work { now, event } => {
            soundness_is_kept(r.scene, now, event);
            working_keeps_the_balance(r.scene, now, event, r.waiting);
            working_is_mirrored(r.scene, now, event);
            if next(r.scene, now, event).scene.stage is Finished {
                worker_stops_only_when_done(r.scene, now, event);
            }
        },
        Move::Dispatch { .. } => {
            dispatching_keeps_the_balance(r.scene, r.waiting);
        },
        Move::FinishInput => {},
    }
}

/// No chunk of a recording is lost: whatever happens, every chunk that was queued waits, is in
/// hand, or is completed, and the status that the user sees agrees with that. Once the worker is
/// done, all of them are completed, the final counts agree, and the status shows that nothing is
/// pending and, after the end, that nothing is under way.
pub proof fn a_recording_loses_no_chunk(start: Recording, moves: Seq<Move>)
    requires
        is_starting(start),
        can_happen(start, moves),
        moves.len() < u64::MAX,
    ensures
        is_in_good_order(recorded(start, moves)),
        recorded(start, moves).scene.task.chunks_queued <= moves.len(),
        recorded(start, moves).scene.stage is Finished ==> {
            let r = recorded(start, moves);
            &&& r.waiting == 0
            &&& r.scene.task.chunks_completed == r.scene.task.chunks_queued
            &&& forall|attempts: nat| (#[trigger] status::verdict(r.scene.task, attempts)) is Complete
            &&& forall|at: u64, now_ms: u64|
                {
                    let shown = #[trigger] status::snapshot(
                        status::ended(r.scene.status, at),
                        now_ms,
                    );
                    shown.0 == 0 && !shown.1
                }
        },
    decreases moves.len(),
{
    if moves.len() > 0 {
        a_recording_loses_no_chunk(start, moves.drop_last());
        lemma_move_keeps_order(recorded(start, moves.drop_last()), moves.last());
    }
}

/// All that is said in a recording.
pub open spec fn said_along(r: Recording, moves: Seq<Move>) -> Seq<Said>
    decreases moves.len(),
{
    if moves.len() == 0 {
        Seq::empty()
    } else {
        said_along(r, moves.drop_last()) + match moves.last() {
            Move::Work { now, event } => next(
                recorded(r, moves.drop_last()).scene,
                now,
                event,
            ).said,
            _ => Seq::empty(),
        }
    }
}

/// All that the worker announces in a recording.
pub open spec fn uttered_along(r: Recording, moves: Seq<Move>) -> Seq<Utterance>
    decreases moves.len(),
{
    if moves.len() == 0 {
        Seq::empty()
    } else {
        uttered_along(r, moves.drop_last()) + match moves.last() {
            Move::Work { now, event } => uttered(
                recorded(r, moves.drop_last()).scene,
                now,
                event,
            ),
            _ => Seq::empty(),
        }
    }
}

/// In every recording, what is announced is what the words that were heard let the worker announce,
/// one after the other and nothing else: so the transcripts of a whole recording are numbered
/// without a gap, and speech is detected once.
#[verifier::spinoff_prover]
pub proof fn a_recording_announces_in_order(r: Recording, moves: Seq<Move>)
    requires
        can_happen(r, moves),
    ensures
        spoken(said_along(r, moves)) == announcements(r.scene.status, uttered_along(r, moves)),
        recorded(r, moves).scene.status.sequence_counter == announced_all(
            r.scene.status,
            uttered_along(r, moves),
        ).sequence_counter,
        recorded(r, moves).scene.status.speech_detected_emitted == announced_all(
            r.scene.status,
            uttered_along(r, moves),
        ).speech_detected_emitted,
    decreases moves.len(),
{
    if moves.len() > 0 {
        let head = moves.drop_last();
        let there = recorded(r, head).scene;
        let before = uttered_along(r, head);
        a_recording_announces_in_order(r, head);
        match moves.last() {
            Move::Work { now, event } => {
                let more = uttered(there, now, event);
                lemma_spoken_joined(said_along(r, head), next(there, now, event).said);
                lemma_step_speaks(there, now, event);
                if more.len() == 0 {
                    assert(before + more =~= before);
                    assert(spoken(said_along(r, head)) + Seq::<Said>::empty() =~= spoken(
                        said_along(r, head),
                    ));
                } else {
                    assert((before + more).drop_last() =~= before);
                    assert((before + more).last() == more[0]);
                    lemma_announcement(there.status, more[0]);
                    lemma_announcement(announced_all(r.scene.status, before), more[0]);
                }
            },
            _ => {
                assert(before + Seq::<Utterance>::empty() =~= before);
                assert(said_along(r, head) + Seq::<Said>::empty() =~= said_along(r, head));
            },
        }
    }
}

// The way of a chunk to the engine.

/// Whether `handed` is what the engine gets for a chunk: the chunk, or the chunk behind an earlier
/// one, at the rate of that one.
pub open spec fn carries(handed: Audio, chunk: Audio) -> bool {
    ||| handed == chunk
    ||| exists|earlier: Audio| handed == #[trigger] audio::merged(earlier, chunk)
    ||| exists|earlier: Audio, samples: Seq<u32>|
        handed == audio::merged(earlier, #[trigger] at_rate_of(earlier, chunk, samples))
}

/// The chunk that the worker will hand to the engine once something else is done.
pub open spec fn put_off(stage: Stage) -> Option<Audio> {
    match stage {
        Stage::Resampling { chunk, .. } => Some(chunk),
        Stage::Retrying { next, .. } => next,
        _ => None,
    }
}

/// A chunk for which the model is there is not dropped: it is transcribed at once, alone or behind
/// an earlier one that came out empty, or put off until it is resampled or the earlier one was
/// tried again.
pub proof fn fresh_chunks_are_taken_up(s: Scene, now: Option<u128>, chunk: Audio, energy: Double)
    requires
        s.stage == (Stage::AwaitingModel { chunk, energy }),
    ensures
        ({
            let after = next(s, now, Happened::Model { loaded: true }).scene;
            match s.pending {
                None => after.stage == (Stage::Transcribing { chunk }),
                Some(earlier) => if !audio::is_near(earlier, chunk) {
                    after.stage matches Stage::Retrying { next, .. } && next == Some(chunk)
                } else if earlier.sample_rate == chunk.sample_rate {
                    after.stage == (Stage::Transcribing { chunk: audio::merged(earlier, chunk) })
                } else {
                    after.stage == (Stage::Resampling { earlier, chunk })
                },
            }
        }),
{
}

/// A chunk that was put off is the next to be transcribed.
pub proof fn chunks_put_off_come_next(s: Scene, now: Option<u128>, e: Happened, chunk: Audio)
    requires
        put_off(s.stage) == Some(chunk),
        answers(s.stage, e),
    ensures
        next(s, now, e).scene.stage matches Stage::Transcribing { chunk: handed } && carries(
            handed,
            chunk,
        ),
{
    match (s.stage, e) {
        (Stage::Resampling { earlier, .. }, Happened::Resampled { samples }) => {
            assert(next(s, now, e).scene.stage == (Stage::Transcribing {
                chunk: audio::merged(earlier, at_rate_of(earlier, chunk, samples)),
            }));
        },
        _ => {},
    }
}

/// The chunks that came in a recording, in order.
pub open spec fn received(moves: Seq<Move>) -> Seq<Audio>
    decreases moves.len(),
{
    if moves.len() == 0 {
        Seq::empty()
    } else {
        received(moves.drop_last()) + match moves.last() {
            Move::Work { event: Happened::Chunk { chunk, .. }, .. } => seq![chunk],
            _ => Seq::empty(),
        }
    }
}

/// The chunks for which the model was waited for, in order, each with whether it came.
pub open spec fn waited_for(r: Recording, moves: Seq<Move>) -> Seq<(Audio, bool)>
    decreases moves.len(),
{
    if moves.len() == 0 {
        Seq::empty()
    } else {
        waited_for(r, moves.drop_last()) + match (
            recorded(r, moves.drop_last()).scene.stage,
            moves.last(),
        ) {
            (
                Stage::AwaitingModel { chunk, .. },
                Move::Work { event: Happened::Model { loaded }, .. },
            ) => seq![(chunk, loaded)],
            _ => Seq::empty(),
        }
    }
}

/// The chunks for which the model came.
pub open spec fn ready(waited: Seq<(Audio, bool)>) -> Seq<Audio>
    decreases waited.len(),
{
    if waited.len() == 0 {
        Seq::empty()
    } else if waited.last().1 {
        ready(waited.drop_last()).push(waited.last().0)
    } else {
        ready(waited.drop_last())
    }
}

/// What the engine is handed for the first time, in order; another try of an earlier chunk does not
/// count.
pub open spec fn handed(r: Recording, moves: Seq<Move>) -> Seq<Audio>
    decreases moves.len(),
{
    if moves.len() == 0 {
        Seq::empty()
    } else {
        handed(r, moves.drop_last()) + match (recorded(r, moves).scene.stage, moves.last()) {
            (Stage::Transcribing { chunk }, Move::Work { .. }) => seq![chunk],
            _ => Seq::empty(),
        }
    }
}

/// The chunk for which the worker waits for the model.
pub open spec fn held(stage: Stage) -> Seq<Audio> {
    match stage {
        Stage::AwaitingModel { chunk, .. } => seq![chunk],
        _ => Seq::empty(),
    }
}

/// The chunks of pairs.
pub open spec fn chunks_of(waited: Seq<(Audio, bool)>) -> Seq<Audio> {
    Seq::new(waited.len(), |i: int| waited[i].0)
}

/// The model is waited for with every chunk that came, in the order in which they came.
#[verifier::spinoff_prover]
pub proof fn chunks_wait_in_order(r: Recording, moves: Seq<Move>)
    requires
        r.scene.stage is Receiving,
        can_happen(r, moves),
    ensures
        received(moves) == chunks_of(waited_for(r, moves)) + held(recorded(r, moves).scene.stage),
    decreases moves.len(),
{
    if moves.len() > 0 {
        let head = moves.drop_last();
        chunks_wait_in_order(r, head);
        let s = recorded(r, head).scene;
        assert(chunks_of(waited_for(r, moves)) =~= chunks_of(waited_for(r, head)) + match (
            s.stage,
            moves.last(),
        ) {
            (
                Stage::AwaitingModel { chunk, .. },
                Move::Work { event: Happened::Model { .. }, .. },
            ) => seq![chunk],
            _ => Seq::empty(),
        });
        lemma_held(s, moves.last());
        assert(received(moves) =~= chunks_of(waited_for(r, moves)) + held(
            recorded(r, moves).scene.stage,
        ));
    } else {
        assert(received(moves) =~= chunks_of(waited_for(r, moves)) + held(
            recorded(r, moves).scene.stage,
        ));
    }
}

/// How the chunk changes for which the worker waits for the model.
#[verifier::spinoff_prover]
proof fn lemma_held(s: Scene, m: Move)
    requires
        m matches Move::Work { event, .. } ==> answers(s.stage, event),
    ensures
        match m {
            Move::Work { now, event } => match event {
                Happened::Chunk { chunk, .. } => held(s.stage).len() == 0 && held(
                    next(s, now, event).scene.stage,
                ) == seq![chunk],
                Happened::Model { .. } => s.stage is AwaitingModel && held(
                    next(s, now, event).scene.stage,
                ).len() == 0,
                _ => held(s.stage).len() == 0 && held(next(s, now, event).scene.stage).len() == 0,
            },
            _ => true,
        },
{
}

/// Every chunk for which the model came is handed to the engine, alone or behind an earlier one,
/// in the order in which the chunks came; at most the last of them is still put off.
#[verifier::spinoff_prover]
pub proof fn ready_chunks_reach_the_engine(r: Recording, moves: Seq<Move>)
    requires
        r.scene.stage is Receiving,
        can_happen(r, moves),
    ensures
        ({
            let all = ready(waited_for(r, moves));
            let given = handed(r, moves);
            &&& forall|i: int|
                0 <= i < given.len() ==> i < all.len() && carries(#[trigger] given[i], all[i])
            &&& match put_off(recorded(r, moves).scene.stage) {
                Some(chunk) => all.len() == given.len() + 1 && all.last() == chunk,
                None => all.len() == given.len(),
            }
        }),
    decreases moves.len(),
{
    if moves.len() > 0 {
        let head = moves.drop_last();
        ready_chunks_reach_the_engine(r, head);
        let s = recorded(r, head).scene;
        let all = ready(waited_for(r, head));
        let given = handed(r, head);
        let more = ready(waited_for(r, moves));
        let now_given = handed(r, moves);
        lemma_ready(r, moves);
        match moves.last() {
            Move::Work { now, event } => {
                lemma_engine_step(s, now, event);
                let after = next(s, now, event).scene;
                assert forall|i: int| 0 <= i < now_given.len() implies i < more.len() && carries(
                    #[trigger] now_given[i],
                    more[i],
                ) by {
                    if i < given.len() {
                        assert(now_given[i] == given[i]);
                        assert(more[i] == all[i]);
                    }
                }
            },
            _ => {
                assert(now_given =~= given);
                assert(more =~= all);
            },
        }
    }
}

/// How the chunks for which the model came grow.
#[verifier::spinoff_prover]
proof fn lemma_ready(r: Recording, moves: Seq<Move>)
    requires
        moves.len() > 0,
    ensures
        ready(waited_for(r, moves)) == ready(waited_for(r, moves.drop_last())) + match (
            recorded(r, moves.drop_last()).scene.stage,
            moves.last(),
        ) {
            (
                Stage::AwaitingModel { chunk, .. },
                Move::Work { event: Happened::Model { loaded: true }, .. },
            ) => seq![chunk],
            _ => Seq::empty(),
        },
{
    let head = waited_for(r, moves.drop_last());
    let all = waited_for(r, moves);
    if all.len() > head.len() {
        assert(all.drop_last() =~= head);
    } else {
        assert(all =~= head);
    }
    assert(ready(all) =~= ready(head) + match (
        recorded(r, moves.drop_last()).scene.stage,
        moves.last(),
    ) {
        (
            Stage::AwaitingModel { chunk, .. },
            Move::Work { event: Happened::Model { loaded: true }, .. },
        ) => seq![chunk],
        _ => Seq::empty(),
    });
}

/// What a step hands to the engine, and what it puts off.
#[verifier::spinoff_prover]
proof fn lemma_engine_step(s: Scene, now: Option<u128>, e: Happened)
    requires
        answers(s.stage, e),
    ensures
        ({
            let after = next(s, now, e).scene.stage;
            let fresh = match (s.stage, e) {
                (Stage::AwaitingModel { chunk, .. }, Happened::Model { loaded: true }) => Some(chunk),
                _ => put_off(s.stage),
            };
            match fresh {
                Some(chunk) => {
                    ||| put_off(after) is None && (after matches Stage::Transcribing {
                        chunk: given,
                    } && carries(given, chunk))
                    ||| put_off(after) == Some(chunk) && !(after is Transcribing) && s.stage is AwaitingModel
                },
                None => put_off(after) is None && !(after is Transcribing),
            }
        }),
{
    match (s.stage, e) {
        (Stage::Resampling { earlier, chunk }, Happened::Resampled { samples }) => {
            chunks_put_off_come_next(s, now, e, chunk);
        },
        (Stage::AwaitingModel { chunk, energy }, Happened::Model { loaded: true }) => {
            fresh_chunks_are_taken_up(s, now, chunk, energy);
        },
        _ => {},
    }
}

// What is reported of a chunk.

/// How long samples last at a rate.
pub open spec fn lasting(samples: nat, sample_rate: u32) -> Real {
    if sample_rate == 0 {
        Real::Finite { units: 0 }
    } else {
        double::ratio(samples, sample_rate as nat)
    }
}

/// Whether the times of a report are those of a chunk that starts at `start` and ends at `end`.
pub open spec fn are_times(from: Real, until: Real, duration: Real, start: Real, end: Real) -> bool {
    &&& from == start
    &&& until == end
    &&& double::less(double::zero(), double::difference(end, start)) ==> duration
        == double::difference(end, start)
    &&& !double::less(double::zero(), double::difference(end, start)) ==> duration == (Real::Finite {
        units: 0,
    })
}

/// The transcript of a chunk that was transcribed carries the words that were heard, the start of
/// the chunk, and the end that its samples give at its rate, whatever number it has and whatever
/// was announced before.
#[verifier::spinoff_prover]
pub proof fn transcripts_carry_the_times_of_their_chunk(
    s: Scene,
    now: Option<u128>,
    e: Happened,
    chunk: Audio,
    i: int,
)
    requires
        s.stage == (Stage::Transcribing { chunk }),
        answers(s.stage, e),
        0 <= i < next(s, now, e).said.len(),
        next(s, now, e).said[i] is Transcript,
    ensures
        ({
            let end = double::sum(
                chunk.timestamp@,
                lasting(chunk.data.len(), chunk.sample_rate),
            );
            &&& next(s, now, e).said[i] matches Said::Transcript {
                text,
                timestamp,
                source,
                sequence_id,
                chunk_start,
                is_partial,
                confidence,
                start: from,
                end: until,
                duration,
            }
            &&& are_times(from, until, duration, chunk.timestamp@, end)
            &&& chunk_start == chunk.timestamp@
            &&& sequence_id == s.status.sequence_counter
            &&& source == "Audio"@
            &&& timestamp == status::time_of_day(status::counted_seconds(now))
            &&& e matches Happened::Transcribed {
                heard: Heard::Words { text: words, confidence: given, is_partial: partial },
                ..
            }
            &&& text == words
            &&& is_partial == partial
            &&& given matches Some(c) ==> confidence == c
            &&& given is None ==> confidence.bits == 0x3feb_3333_4000_0000
        }),
{
    if let Happened::Transcribed { energy, heard } = e {
        let told = report(s.status, now, chunk, energy, heard);
        assert(forall|j: int| 0 <= j < told.len() ==> next(s, now, e).said[j] == told[j]);
        lemma_report_transcript(s.status, now, chunk, energy, heard, i);
    }
}

proof fn lemma_report_transcript(
    status: TranscriptionStatus,
    now: Option<u128>,
    chunk: Audio,
    energy: Double,
    h: Heard,
    i: int,
)
    requires
        0 <= i < report(status, now, chunk, energy, h).len(),
        report(status, now, chunk, energy, h)[i] is Transcript,
    ensures
        h matches Heard::Words { text, confidence, is_partial } && report(
            status,
            now,
            chunk,
            energy,
            h,
        )[i] == announcement(
            status,
            now,
            text,
            confidence,
            is_partial,
            chunk.timestamp@,
            audio::end_time(chunk),
        ).last(),
{
}

/// The transcript of another try carries the words that were heard, and the start and the end of
/// the chunk as it was before silence was put behind it.
#[verifier::spinoff_prover]
pub proof fn retried_transcripts_carry_the_times_of_their_chunk(
    s: Scene,
    now: Option<u128>,
    e: Happened,
    padded: Audio,
    end: Real,
    i: int,
)
    requires
        s.stage matches Stage::Retrying { padded: p, end: x, .. } && p == padded && x == end,
        answers(s.stage, e),
        0 <= i < next(s, now, e).said.len(),
        next(s, now, e).said[i] is Transcript,
    ensures
        ({
            &&& next(s, now, e).said[i] matches Said::Transcript {
                text,
                timestamp,
                source,
                sequence_id,
                chunk_start,
                is_partial,
                confidence,
                start: from,
                end: until,
                duration,
            }
            &&& are_times(from, until, duration, padded.timestamp@, end)
            &&& chunk_start == padded.timestamp@
            &&& sequence_id == s.status.sequence_counter
            &&& source == "Audio"@
            &&& timestamp == status::time_of_day(status::counted_seconds(now))
            &&& e matches Happened::Transcribed {
                heard: Heard::Words { text: words, confidence: given, is_partial: partial },
                ..
            }
            &&& text == words
            &&& is_partial == partial
            &&& given matches Some(c) ==> confidence == c
            &&& given is None ==> confidence.bits == 0x3feb_3333_4000_0000
        }),
{
    if let Happened::Transcribed { energy, heard } = e {
        lemma_retry_transcript(s.status, now, padded, end, heard, i);
    }
}

proof fn lemma_retry_transcript(
    status: TranscriptionStatus,
    now: Option<u128>,
    padded: Audio,
    end: Real,
    h: Heard,
    i: int,
)
    requires
        0 <= i < retry_report(status, now, padded, end, h).len(),
        retry_report(status, now, padded, end, h)[i] is Transcript,
    ensures
        h matches Heard::Words { text, confidence, is_partial } && retry_report(
            status,
            now,
            padded,
            end,
            h,
        )[i] == announcement(
            status,
            now,
            text,
            confidence,
            is_partial,
            padded.timestamp@,
            end,
        ).last(),
{
}

/// Another try is made with the samples of the empty chunk and four fifths of a second of silence
/// behind them, and remembers when the chunk itself ended.
#[verifier::spinoff_prover]
pub proof fn tries_add_silence_and_keep_the_end(s: Scene, now: Option<u128>, e: Happened)
    requires
        is_sound(s),
        answers(s.stage, e),
        !(s.stage is Retrying),
        next(s, now, e).scene.stage is Retrying,
    ensures
        next(s, now, e).action == Action::Transcribe,
        next(s, now, e).said.len() == 0,
        next(s, now, e).scene.pending is None,
        next(s, now, e).scene.task == s.task,
        next(s, now, e).scene.status == s.status,
        s.pending matches Some(earlier) && (next(s, now, e).scene.stage matches Stage::Retrying {
            padded,
            end,
            next: following,
        } && {
            &&& padded.timestamp == earlier.timestamp
            &&& padded.chunk_id == earlier.chunk_id
            &&& padded.sample_rate == earlier.sample_rate
            &&& padded.device_type == earlier.device_type
            &&& end == double::sum(
                earlier.timestamp@,
                lasting(earlier.data.len(), earlier.sample_rate),
            )
            &&& padded.data.take(earlier.data.len() as int) == earlier.data
            &&& padded.data.len() == earlier.data.len() + double::rounded_whole(
                double::multiple(double::ratio(4, 5), earlier.sample_rate as nat),
                usize::MAX as nat,
            )
            &&& match s.stage {
                Stage::AwaitingModel { chunk, .. } => following == Some(chunk),
                _ => following is None,
            }
        }),
{
    if let Some(earlier) = s.pending {
        audio::padding_only_adds_silence(earlier, audio::final_padding());
    }
}

/// Every diagnostic on a transcribed chunk tells of that chunk: its identifier, its start, the end
/// that its samples give at its rate, the time between them, and how loud it is.
#[verifier::spinoff_prover]
pub proof fn diagnostics_tell_of_their_chunk(
    s: Scene,
    now: Option<u128>,
    chunk: Audio,
    energy: Double,
    h: Heard,
    i: int,
)
    requires
        s.stage == (Stage::Transcribing { chunk }),
        0 <= i < next(s, now, Happened::Transcribed { energy, heard: h }).said.len(),
        next(s, now, Happened::Transcribed { energy, heard: h }).said[i] is Diagnostic,
    ensures
        next(s, now, Happened::Transcribed { energy, heard: h }).said[i] matches Said::Diagnostic {
            chunk_id,
            start: from,
            end: until,
            duration,
            energy: told,
            ..
        } && {
            &&& chunk_id == chunk.chunk_id
            &&& are_times(
                from,
                until,
                duration,
                chunk.timestamp@,
                double::sum(chunk.timestamp@, lasting(chunk.data.len(), chunk.sample_rate)),
            )
            &&& told == Some(energy)
        },
{
    lemma_transcribed_diagnostic(s, now, chunk, energy, h, i);
}

#[verifier::spinoff_prover]
proof fn lemma_transcribed_diagnostic(
    s: Scene,
    now: Option<u128>,
    chunk: Audio,
    energy: Double,
    h: Heard,
    i: int,
)
    requires
        0 <= i < on_transcribed(s, now, chunk, energy, h).said.len(),
        on_transcribed(s, now, chunk, energy, h).said[i] is Diagnostic,
    ensures
        on_transcribed(s, now, chunk, energy, h).said[i] matches Said::Diagnostic {
            chunk_id,
            start,
            end,
            duration,
            energy: told,
            ..
        } && chunk_id == chunk.chunk_id && start == chunk.timestamp@ && end == audio::end_time(chunk)
            && duration == events::span(start, end) && told == Some(energy),
{
    let told = report(s.status, now, chunk, energy, h);
    let done = completed(Scene { status: after_hearing(s.status, h), ..s }, now);
    let last = events::progress(s.id, done.task.chunks_completed, done.task.chunks_queued);
    assert(last is Progress);
    if i < told.len() {
        assert(told.push(last)[i] == told[i]);
        lemma_report_diagnostic(s.status, now, chunk, energy, h, i);
    } else {
        assert(told.push(last)[i] == last);
    }
}

#[verifier::spinoff_prover]
proof fn lemma_report_diagnostic(
    status: TranscriptionStatus,
    now: Option<u128>,
    chunk: Audio,
    energy: Double,
    h: Heard,
    i: int,
)
    requires
        0 <= i < report(status, now, chunk, energy, h).len(),
        report(status, now, chunk, energy, h)[i] is Diagnostic,
    ensures
        i == 0,
        report(status, now, chunk, energy, h)[i] matches Said::Diagnostic {
            chunk_id,
            start,
            end,
            duration,
            energy: told,
            ..
        } && chunk_id == chunk.chunk_id && start == chunk.timestamp@ && end == audio::end_time(chunk)
            && duration == events::span(start, end) && told == Some(energy),
{
    if let Heard::Words { text, confidence, is_partial } = h {
        if !text::is_blank(text) {
            let rest = announcement(
                status,
                now,
                text,
                confidence,
                is_partial,
                chunk.timestamp@,
                audio::end_time(chunk),
            );
            assert(forall|j: int| 0 <= j < rest.len() ==> !(rest[j] is Diagnostic));
            if i > 0 {
                assert(report(status, now, chunk, energy, h)[i] == rest[i - 1]);
            }
        }
    }
}

/// What became of a chunk is said first, under the event that belongs to it: a transcript, an empty
/// one that is kept or given up, too few samples, a model that is gone, or an error.
#[verifier::spinoff_prover]
pub proof fn outcomes_have_their_events(
    s: Scene,
    now: Option<u128>,
    chunk: Audio,
    energy: Double,
    h: Heard,
)
    requires
        s.stage == (Stage::Transcribing { chunk }),
    ensures
        ({
            let said = next(s, now, Happened::Transcribed { energy, heard: h }).said;
            &&& said.len() > 0
            &&& said[0] matches Said::Diagnostic { event, reason, score, text_length, partial, .. }
            &&& match h {
                Heard::Words { text, confidence, is_partial } => {
                    &&& score == confidence
                    &&& partial == Some(is_partial)
                    &&& if !text::is_blank(text) {
                        &&& event == "asr_emitted"@
                        &&& reason == Some("non-empty transcript emitted"@)
                        &&& text_length == Some(text.len() as usize)
                    } else if audio::is_speech_like(chunk, energy@) {
                        &&& event == "asr_empty_retry_pending"@
                        &&& reason == Some(
                            "empty transcript for speech-like chunk; preserving for context retry"@,
                        )
                        &&& text_length == Some(0usize)
                    } else {
                        &&& event == "asr_empty_no_retry"@
                        &&& reason == Some("empty transcript for chunk below retry thresholds"@)
                        &&& text_length == Some(0usize)
                    }
                },
                Heard::TooShort { .. } => {
                    &&& event == "audio_too_short_dropped"@
                    &&& reason == Some("audio chunk too short for transcription"@)
                    &&& score is None && text_length is None && partial is None
                    &&& said.len() == 1
                },
                Heard::ModelGone { .. } => {
                    &&& event == "model_unloaded_during_transcription"@
                    &&& reason == Some("model unloaded during transcription"@)
                    &&& score is None && text_length is None && partial is None
                    &&& said.len() == 1
                },
                Heard::Broken { message } => {
                    &&& event == "transcription_error"@
                    &&& reason == Some(message)
                    &&& score is None && text_length is None && partial is None
                    &&& said.len() == 3
                    &&& said[1] == (Said::Warning { message })
                },
            }
        }),
{
}

/// What became of another try is said first, under the event that belongs to it, for the chunk that
/// was tried again and its own times.
#[verifier::spinoff_prover]
pub proof fn tries_have_their_events(
    s: Scene,
    now: Option<u128>,
    padded: Audio,
    end: Real,
    energy: Double,
    h: Heard,
)
    requires
        s.stage matches Stage::Retrying { padded: p, end: x, .. } && p == padded && x == end,
    ensures
        ({
            let said = next(s, now, Happened::Transcribed { energy, heard: h }).said;
            &&& said.len() > 0
            &&& said[0] matches Said::Diagnostic {
                event,
                chunk_id,
                start: from,
                end: until,
                duration,
                reason,
                score,
                energy: loud,
                text_length,
                partial,
            }
            &&& chunk_id == padded.chunk_id
            &&& are_times(from, until, duration, padded.timestamp@, end)
            &&& loud is None
            &&& match h {
                Heard::Words { text, confidence, is_partial } => {
                    &&& score == confidence
                    &&& partial == Some(is_partial)
                    &&& if text::is_blank(text) {
                        &&& event == "asr_empty_retry_dropped"@
                        &&& reason == Some("context retry returned empty transcript"@)
                        &&& text_length == Some(0usize)
                        &&& said.len() == 1
                    } else {
                        &&& event == "asr_retry_emitted"@
                        &&& reason == Some("context retry emitted non-empty transcript"@)
                        &&& text_length == Some(text.len() as usize)
                        &&& said.last() is Transcript
                    }
                },
                Heard::TooShort { message } => event == "asr_retry_error"@ && reason == Some(message)
                    && said.len() == 1,
                Heard::ModelGone { message } => event == "asr_retry_error"@ && reason == Some(message)
                    && said.len() == 1,
                Heard::Broken { message } => event == "asr_retry_error"@ && reason == Some(message)
                    && said.len() == 1,
            }
        }),
{
    let e = Happened::Transcribed { energy, heard: h };
    assert(next(s, now, e).said == retry_report(s.status, now, padded, end, h));
    if let Heard::Words { text, confidence, is_partial } = h {
        if !text::is_blank(text) {
            let rest = announcement(
                s.status,
                now,
                text,
                confidence,
                is_partial,
                padded.timestamp@,
                end,
            );
            assert(rest.len() > 0 && rest.last() is Transcript);
            assert(next(s, now, e).said.last() == rest.last());
        }
    }
}

/// A chunk is kept for another try just where its transcript is blank, it lasts from three quarters
/// of a second to twelve seconds, and it is loud enough; nothing else is kept.
#[verifier::spinoff_prover]
pub proof fn only_empty_speech_is_kept(
    s: Scene,
    now: Option<u128>,
    chunk: Audio,
    energy: Double,
    h: Heard,
)
    requires
        s.stage == (Stage::Transcribing { chunk }),
    ensures
        ({
            let after = next(s, now, Happened::Transcribed { energy, heard: h }).scene;
            let time = lasting(chunk.data.len(), chunk.sample_rate);
            &&& after.stage is Receiving
            &&& after.pending is Some <==> (h matches Heard::Words { text, .. } && text::is_blank(
                text,
            )) && double::at_most(double::ratio(3, 4), time) && double::at_most(
                time,
                double::whole(12),
            ) && double::at_most((Double { bits: 0x3ee4_f8b5_8000_0000 })@, energy@)
            &&& after.pending matches Some(kept) ==> kept == chunk
        }),
{
}

/// After a transcript or an error, how far transcription is is said last, with the chunk counted;
/// a chunk that was too short or whose model was gone is counted in silence.
#[verifier::spinoff_prover]
pub proof fn progress_is_told_last(
    s: Scene,
    now: Option<u128>,
    chunk: Audio,
    energy: Double,
    h: Heard,
)
    requires
        s.stage == (Stage::Transcribing { chunk }),
        s.task.chunks_completed < u64::MAX,
    ensures
        ({
            let step = next(s, now, Happened::Transcribed { energy, heard: h });
            &&& step.action == Action::Receive
            &&& step.scene.task.chunks_completed == s.task.chunks_completed + 1
            &&& step.scene.status.last_activity_ms == status::counted_millis(now)
            &&& step.scene.status.active == s.status.active
            &&& h is Words || h is Broken ==> (step.said.last() matches Said::Progress {
                worker_id,
                completed,
                queued,
                ..
            } && worker_id == s.id && completed == s.task.chunks_completed + 1 && queued
                == s.task.chunks_queued)
            &&& h is TooShort || h is ModelGone ==> !(step.said.last() is Progress)
        }),
{
}

/// A chunk that comes is reported and kept as it is, with its energy, while the model is awaited.
#[verifier::spinoff_prover]
pub proof fn chunks_wait_for_the_model(s: Scene, now: Option<u128>, chunk: Audio, energy: Double)
    requires
        s.stage is Receiving,
    ensures
        ({
            let step = next(s, now, Happened::Chunk { chunk, energy });
            &&& step.action == Action::AwaitModel
            &&& step.scene.stage == (Stage::AwaitingModel { chunk, energy })
            &&& step.scene.pending == s.pending
            &&& step.scene.task == s.task
            &&& step.scene.status == s.status
            &&& step.said.len() == 1
        }),
        next(s, now, Happened::Chunk { chunk, energy }).said[0] matches Said::Diagnostic {
            event,
            chunk_id,
            start: from,
            end: until,
            duration,
            reason,
            score,
            energy: told,
            text_length,
            partial,
        } && {
            &&& event == "audio_chunk_received"@
            &&& reason == Some("chunk entered transcription worker"@)
            &&& chunk_id == chunk.chunk_id
            &&& are_times(
                from,
                until,
                duration,
                chunk.timestamp@,
                double::sum(chunk.timestamp@, lasting(chunk.data.len(), chunk.sample_rate)),
            )
            &&& told == Some(energy)
            &&& score is None && text_length is None && partial is None
        },
{
}

/// A chunk whose model does not come is counted and skipped, with a report and a warning; an
/// earlier chunk that came out empty goes on waiting.
#[verifier::spinoff_prover]
pub proof fn chunks_without_a_model_are_skipped(
    s: Scene,
    now: Option<u128>,
    chunk: Audio,
    energy: Double,
)
    requires
        s.stage == (Stage::AwaitingModel { chunk, energy }),
        s.task.chunks_completed < u64::MAX,
    ensures
        ({
            let step = next(s, now, Happened::Model { loaded: false });
            &&& step.action == Action::Receive
            &&& step.scene.stage is Receiving
            &&& step.scene.pending == s.pending
            &&& step.scene.task.chunks_completed == s.task.chunks_completed + 1
            &&& step.scene.status.last_activity_ms == status::counted_millis(now)
            &&& step.scene.status.sequence_counter == s.status.sequence_counter
            &&& step.said.len() == 2
            &&& step.said[1] == (Said::Warning {
                message: "Transcription model was not ready after "@ + text::numeral(120)
                    + " seconds; one audio chunk was skipped."@,
            })
        }),
        next(s, now, Happened::Model { loaded: false }).said[0] matches Said::Diagnostic {
            event,
            chunk_id,
            start: from,
            end: until,
            duration,
            reason,
            score,
            energy: told,
            text_length,
            partial,
        } && {
            &&& event == "model_not_ready_dropped"@
            &&& reason == Some("model not loaded before timeout"@)
            &&& chunk_id == chunk.chunk_id
            &&& are_times(
                from,
                until,
                duration,
                chunk.timestamp@,
                double::sum(chunk.timestamp@, lasting(chunk.data.len(), chunk.sample_rate)),
            )
            &&& told == Some(energy)
            &&& score is None && text_length is None && partial is None
        },
{
}

/// An empty queue changes nothing while there may be more chunks: the worker looks again after a
/// millisecond, or after five where chunks are missing at the end.
#[verifier::spinoff_prover]
pub proof fn empty_queues_are_waited_out(s: Scene, now: Option<u128>)
    requires
        s.stage is Receiving,
    ensures
        ({
            let step = next(s, now, Happened::QueueEmpty);
            &&& step.said.len() == 0
            &&& step.scene.task == s.task && step.scene.status == s.status && step.scene.id == s.id
            &&& !s.task.input_finished ==> step.scene == s && step.action == Action::Pause { ms: 1 }
            &&& s.task.input_finished && s.task.chunks_completed < s.task.chunks_queued
                ==> step.scene == s && step.action == Action::Pause { ms: 5 }
            &&& is_all_processed(s.task) ==> step.action == if s.pending is Some {
                Action::Transcribe
            } else {
                Action::Finish
            }
        }),
{
}

/// What was heard is what the engine made of the chunk, error by error.
pub proof fn what_is_heard_is_the_outcome(outcome: Result<Transcription, TranscriptionFailure>)
    ensures
        match outcome {
            Ok(t) => heard(outcome) == (Heard::Words {
                text: t.text@,
                confidence: t.confidence,
                is_partial: t.is_partial,
            }),
            Err(f) => {
                &&& f.error is AudioTooShort <==> heard(outcome) is TooShort
                &&& f.error is ModelNotLoaded <==> heard(outcome) is ModelGone
                &&& f.error is EngineFailed || f.error is Other <==> heard(outcome) is Broken
                &&& heard(outcome) matches Heard::TooShort { message } ==> message == f.message@
                &&& heard(outcome) matches Heard::ModelGone { message } ==> message == f.message@
                &&& heard(outcome) matches Heard::Broken { message } ==> message == f.message@
            },
        },
{
}

/// Resampling changes the samples and the rate of a chunk alone.
pub proof fn resampled_chunks_stay_themselves(earlier: Audio, chunk: Audio, samples: Seq<u32>)
    ensures
        at_rate_of(earlier, chunk, samples).data == samples,
        at_rate_of(earlier, chunk, samples).sample_rate == earlier.sample_rate,
        at_rate_of(earlier, chunk, samples).timestamp == chunk.timestamp,
        at_rate_of(earlier, chunk, samples).chunk_id == chunk.chunk_id,
        at_rate_of(earlier, chunk, samples).device_type == chunk.device_type,
{
}

/// The worker and what is told to it are seen as they are.
pub proof fn the_worker_shows_its_fields(
    worker: Worker,
    task: TranscriptionTask,
    status: TranscriptionStatus,
    event: Event,
)
    ensures
        scene(worker, task, status).id == worker.id,
        scene(worker, task, status).task == task,
        scene(worker, task, status).status == status,
        worker.pending_empty_chunk is None <==> scene(worker, task, status).pending is None,
        worker.pending_empty_chunk matches Some(c) ==> scene(worker, task, status).pending == Some(
            c@,
        ),
        scene(worker, task, status).stage == worker.phase@,
        worker.phase matches Phase::AwaitingModel { chunk, energy } ==> worker.phase@ == (
        Stage::AwaitingModel { chunk: chunk@, energy }),
        worker.phase matches Phase::Resampling { earlier, chunk } ==> worker.phase@ == (
        Stage::Resampling { earlier: earlier@, chunk: chunk@ }),
        worker.phase matches Phase::Transcribing { chunk } ==> worker.phase@ == (
        Stage::Transcribing { chunk: chunk@ }),
        worker.phase matches Phase::Retrying { padded, end, next } ==> (
        worker.phase@ matches Stage::Retrying { padded: p, end: x, next: n } && p == padded@ && x
            == end@ && (next is None <==> n is None) && (next matches Some(c) ==> n == Some(c@))),
        worker.phase is Receiving <==> worker.phase@ is Receiving,
        worker.phase is Finished <==> worker.phase@ is Finished,
        event matches Event::Chunk { chunk, energy } ==> event@ == (Happened::Chunk {
            chunk: chunk@,
            energy,
        }),
        event matches Event::Model { loaded } ==> event@ == (Happened::Model { loaded }),
        event matches Event::Resampled { samples } ==> event@ == (Happened::Resampled {
            samples: samples@,
        }),
        event matches Event::Transcribed { energy, outcome } ==> event@ == (Happened::Transcribed {
            energy,
            heard: heard(outcome),
        }),
        event is QueueEmpty <==> event@ is QueueEmpty,
{
}

/// Of the reports that the worker makes of a chunk, each transcript holds the start of the chunk,
/// the end that its samples give at its rate, and the time between them, in its own fields.
#[verifier::spinoff_prover]
pub proof fn reported_transcripts_carry_the_times_of_their_chunk(
    s: Scene,
    now: Option<u128>,
    e: Happened,
    chunk: Audio,
    reports: Seq<Report>,
    i: int,
)
    requires
        s.stage == (Stage::Transcribing { chunk }),
        answers(s.stage, e),
        events::said(reports) == next(s, now, e).said,
        0 <= i < reports.len(),
    ensures
        reports[i] matches Report::Transcript(u) ==> {
            let end = double::sum(chunk.timestamp@, lasting(chunk.data.len(), chunk.sample_rate));
            &&& u.audio_start_time@ == chunk.timestamp@
            &&& u.chunk_start_time@ == chunk.timestamp@
            &&& u.audio_end_time@ == end
            &&& u.duration@ == double::larger(
                double::difference(end, chunk.timestamp@),
                double::zero(),
            )
            &&& u.sequence_id == s.status.sequence_counter
            &&& e matches Happened::Transcribed { heard: Heard::Words { text, is_partial, .. }, .. }
            &&& u.text@ == text
            &&& u.is_partial == is_partial
        },
{
    events::reports_are_said_in_order(reports, reports, i);
    events::reports_say_what_they_hold(reports[i]);
    if reports[i] is Transcript {
        transcripts_carry_the_times_of_their_chunk(s, now, e, chunk, i);
    }
}

/// Words that are not blank take the next number and end the wait for speech; anything else leaves
/// the number and the wait as they are. Neither changes how much was queued.
#[verifier::spinoff_prover]
pub proof fn only_words_take_a_number(s: Scene, now: Option<u128>, energy: Double, h: Heard)
    requires
        s.stage is Transcribing || s.stage is Retrying,
        s.status.sequence_counter < u64::MAX,
    ensures
        ({
            let after = next(s, now, Happened::Transcribed { energy, heard: h }).scene.status;
            let spoken = h matches Heard::Words { text, .. } && !text::is_blank(text);
            &&& spoken ==> after.sequence_counter == s.status.sequence_counter + 1
            &&& spoken ==> after.speech_detected_emitted
            &&& !spoken ==> after.sequence_counter == s.status.sequence_counter
            &&& !spoken ==> after.speech_detected_emitted == s.status.speech_detected_emitted
            &&& after.chunks_queued == s.status.chunks_queued
            &&& after.active == s.status.active
        }),
{
}

/// That speech was detected is said once, right before the first transcript, in the same words
/// whatever was heard.
#[verifier::spinoff_prover]
pub proof fn speech_is_detected_before_the_first_transcript(
    s: Scene,
    now: Option<u128>,
    energy: Double,
    words: Seq<char>,
    confidence: Option<Double>,
    is_partial: bool,
)
    requires
        s.stage is Transcribing || s.stage is Retrying,
        !text::is_blank(words),
    ensures
        ({
            let said = next(
                s,
                now,
                Happened::Transcribed {
                    energy,
                    heard: Heard::Words { text: words, confidence, is_partial },
                },
            ).said;
            &&& said[0] is Diagnostic
            &&& s.status.speech_detected_emitted ==> said[1] is Transcript
            &&& !s.status.speech_detected_emitted ==> said[1] == (Said::SpeechDetected {
                message: "Speech activity detected"@,
            }) && said[2] is Transcript
            &&& said.len() == 2 + (if s.status.speech_detected_emitted {
                0int
            } else {
                1
            }) + (if s.stage is Transcribing {
                1int
            } else {
                0
            })
        }),
{
}

/// A chunk that is taken up is handed on in silence. One that was resampled is put behind the
/// earlier chunk, with its new samples at the rate of that one.
#[verifier::spinoff_prover]
pub proof fn chunks_are_taken_up_in_silence(
    s: Scene,
    now: Option<u128>,
    earlier: Audio,
    chunk: Audio,
    samples: Seq<u32>,
)
    ensures
        s.stage is AwaitingModel ==> {
            let step = next(s, now, Happened::Model { loaded: true });
            &&& step.said.len() == 0
            &&& step.scene.task == s.task && step.scene.status == s.status && step.scene.id == s.id
            &&& step.scene.pending is None
        },
        s.stage == (Stage::Resampling { earlier, chunk }) ==> {
            let step = next(s, now, Happened::Resampled { samples });
            &&& step.said.len() == 0
            &&& step.scene.task == s.task && step.scene.status == s.status && step.scene.id == s.id
            &&& step.action == Action::Transcribe
            &&& step.scene.stage == (Stage::Transcribing {
                chunk: audio::merged(
                    earlier,
                    Audio {
                        data: samples,
                        sample_rate: earlier.sample_rate,
                        timestamp: chunk.timestamp,
                        chunk_id: chunk.chunk_id,
                        device_type: chunk.device_type,
                    },
                ),
            })
        },
{
}

/// After another try the chunk that waited is transcribed as it is, and where none waited the
/// worker is done; nothing is counted.
#[verifier::spinoff_prover]
pub proof fn tries_give_way_to_the_next_chunk(
    s: Scene,
    now: Option<u128>,
    energy: Double,
    h: Heard,
)
    requires
        s.stage is Retrying,
    ensures
        ({
            let step = next(s, now, Happened::Transcribed { energy, heard: h });
            &&& step.scene.task == s.task && step.scene.id == s.id
            &&& step.scene.pending == s.pending
            &&& step.scene.status.chunks_completed == s.status.chunks_completed
            &&& step.scene.status.last_activity_ms == s.status.last_activity_ms
            &&& s.stage matches Stage::Retrying { next: following, .. } && match following {
                Some(chunk) => step.scene.stage == (Stage::Transcribing { chunk }) && step.action
                    == Action::Transcribe,
                None => step.scene.stage is Finished && step.action == Action::Finish,
            }
        }),
{
}

/// The counts of the worker and those that are shown go up together.
#[verifier::spinoff_prover]
pub proof fn completed_chunks_are_shown(s: Scene, now: Option<u128>, e: Happened)
    requires
        answers(s.stage, e),
        s.task.chunks_completed < u64::MAX,
        s.status.chunks_completed < u64::MAX,
    ensures
        next(s, now, e).scene.status.chunks_completed - s.status.chunks_completed == next(
            s,
            now,
            e,
        ).scene.task.chunks_completed - s.task.chunks_completed,
        next(s, now, e).scene.task.chunks_completed == s.task.chunks_completed + if s.stage
            is Transcribing || e == (Happened::Model { loaded: false }) {
            1int
        } else {
            0
        },
        next(s, now, e).scene.id == s.id,
        next(s, now, e).scene.status.active == s.status.active,
        next(s, now, e).scene.status.chunks_queued == s.status.chunks_queued,
{
}

/// A chunk that starts at a whole second and holds so many seconds of samples is announced from
/// that second to so many seconds later, whichever transcript of the recording it is.
#[verifier::spinoff_prover]
pub proof fn transcripts_last_as_long_as_their_chunk(
    s: Scene,
    now: Option<u128>,
    e: Happened,
    chunk: Audio,
    i: int,
    start: nat,
    n: nat,
)
    requires
        s.stage == (Stage::Transcribing { chunk }),
        answers(s.stage, e),
        chunk.sample_rate > 0,
        chunk.data.len() == n * chunk.sample_rate,
        chunk.timestamp@ == double::whole(start),
        n * chunk.sample_rate < double::LIMIT,
        start + n < double::LIMIT,
        0 <= i < next(s, now, e).said.len(),
        next(s, now, e).said[i] is Transcript,
    ensures
        next(s, now, e).said[i] matches Said::Transcript { start: from, end: until, duration, .. }
            && from == double::whole(start) && until == double::whole(start + n) && duration
            == double::whole(n),
{
    transcripts_carry_the_times_of_their_chunk(s, now, e, chunk, i);
    let rate = chunk.sample_rate as nat;
    assert(n <= n * rate) by (nonlinear_arith)
        requires
            rate >= 1,
    ;
    double::whole_numbers_are_exact(n, rate);
    double::whole_numbers_add_up(start, n);
    double::whole_numbers_add_up(0, n);
}

} // verus!
