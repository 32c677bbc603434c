//! What the engines that turn samples into text are given, and what they answer.

use crate::double::Double;
use crate::events;
use crate::events::Report;
use crate::text;
use vstd::prelude::*;
use vstd::string::*;

verus! {

/// How many seconds the worker waits for the model before it skips a chunk.
pub const MODEL_LOAD_WAIT_TIMEOUT_SEC: u64 = 120;

/// How many milliseconds pass between two looks at the model.
pub const MODEL_LOAD_POLL_MS: u64 = 250;

/// The rate at which the engines take samples.
pub const ENGINE_SAMPLE_RATE: u32 = 16_000;

/// The number of samples below which a chunk is too short: a tenth of a second.
pub const ENGINE_MIN_SAMPLES: usize = 1_600;

/// What the engine made of a chunk.
#[derive(Debug)]
pub struct Transcription {
    pub text: String,
    pub confidence: Option<Double>,
    pub is_partial: bool,
}

/// Why a chunk has no transcript.
#[derive(Debug)]
pub enum TranscriptionError {
    /// There are not enough samples.
    AudioTooShort { samples: usize, minimum: usize },
    /// The model is not there.
    ModelNotLoaded,
    /// The engine failed, for the reason that it gave.
    EngineFailed(String),
    /// Anything else, in the words of the engine.
    Other(String),
}

/// An error together with the words for it.
#[derive(Debug)]
pub struct TranscriptionFailure {
    pub error: TranscriptionError,
    pub message: String,
}

/// An error, and whether it came from an engine that was asked.
#[derive(Debug)]
pub struct Untranscribed {
    pub error: TranscriptionError,
    pub asked_engine: bool,
}

impl Untranscribed {
    /// The failure in words, and what is reported of it: one report that the user can do nothing
    /// about where an engine was asked, none where there was nothing to ask an engine for.
    pub fn reported(self, message: String) -> (r: (TranscriptionFailure, Option<Report>))
        ensures
            r.0 == (TranscriptionFailure { error: self.error, message }),
            r.1 is Some <==> self.asked_engine,
            r.1 matches Some(report) ==> report@ == events::engine_failure(message@),
    {
        let report: Option<Report> = if self.asked_engine {
            Some(events::transcription_failure(message.as_str()))
        } else {
            None
        };
        (TranscriptionFailure { error: self.error, message }, report)
    }
}

/// What to do while the model may still come.
#[derive(Clone, Copy, PartialEq, Eq, Structural, Debug)]
pub enum ModelWait {
    /// It is there.
    Ready,
    /// Look again after a pause.
    Pause,
    /// It did not come in time.
    GiveUp,
}

/// Says whether to go on waiting for the model, from a look at it and the time since the first.
pub fn wait_for_model_loaded(loaded: bool, waited_ms: u64, timeout_ms: u64) -> (r: ModelWait)
    ensures
        r == if loaded {
            ModelWait::Ready
        } else if waited_ms < timeout_ms {
            ModelWait::Pause
        } else {
            ModelWait::GiveUp
        },
{
    if loaded {
        ModelWait::Ready
    } else if waited_ms < timeout_ms {
        ModelWait::Pause
    } else {
        ModelWait::GiveUp
    }
}

/// Whether samples have to be brought to another rate for the engines.
pub fn needs_resampling(sample_rate: u32) -> (r: bool)
    ensures
        r == (sample_rate != ENGINE_SAMPLE_RATE),
{
    sample_rate != ENGINE_SAMPLE_RATE
}

/// Whether there is anything to transcribe. Where there is not, no engine is asked.
pub fn check_samples(samples: &[u32]) -> (r: Result<(), Untranscribed>)
    ensures
        samples@.len() > 0 ==> r is Ok,
        samples@.len() == 0 ==> r == Err::<(), _>(
            Untranscribed {
                error: TranscriptionError::AudioTooShort { samples: 0, minimum: ENGINE_MIN_SAMPLES },
                asked_engine: false,
            },
        ),
{
    if samples.len() == 0 {
        Err(
            Untranscribed {
                error: TranscriptionError::AudioTooShort { samples: 0, minimum: ENGINE_MIN_SAMPLES },
                asked_engine: false,
            },
        )
    } else {
        Ok(())
    }
}

/// What an engine answered.
pub enum EngineReply {
    /// The text, its confidence and whether it is partial, or what went wrong.
    Whisper(Result<(String, Double, bool), String>),
    /// The text, or what went wrong.
    Parakeet(Result<String, String>),
    /// A transcript, or an error.
    Provider(Result<Transcription, TranscriptionError>),
}

/// Whether a transcript is the given one without the whitespace around its text.
pub open spec fn is_cleaned(
    t: Transcription,
    words: Seq<char>,
    confidence: Option<Double>,
    is_partial: bool,
) -> bool {
    &&& t.text@ == text::trimmed(words)
    &&& t.confidence == confidence
    &&& t.is_partial == is_partial
}

/// The error in an engine's answer, if it is one.
pub open spec fn engine_error(reply: EngineReply) -> Option<TranscriptionError> {
    match reply {
        EngineReply::Whisper(Err(e)) => Some(TranscriptionError::EngineFailed(e)),
        EngineReply::Parakeet(Err(e)) => Some(TranscriptionError::EngineFailed(e)),
        EngineReply::Provider(Err(e)) => Some(e),
        _ => None,
    }
}

/// The transcript in an engine's answer, without the whitespace around its text, or the error.
pub fn transcribe_chunk_with_provider(reply: EngineReply) -> (r: Result<Transcription, Untranscribed>)
    ensures
        match reply {
            EngineReply::Whisper(Ok((words, confidence, is_partial))) => r matches Ok(t)
                && is_cleaned(t, words@, Some(confidence), is_partial),
            EngineReply::Parakeet(Ok(words)) => r matches Ok(t) && is_cleaned(
                t,
                words@,
                None,
                false,
            ),
            EngineReply::Provider(Ok(given)) => r matches Ok(t) && is_cleaned(
                t,
                given.text@,
                given.confidence,
                given.is_partial,
            ),
            _ => r matches Err(u) && u.asked_engine && engine_error(reply) == Some(u.error),
        },
{
    match reply {
        EngineReply::Whisper(Ok((words, confidence, is_partial))) => Ok(
            Transcription {
                text: text::trim(words.as_str()).to_owned(),
                confidence: Some(confidence),
                is_partial,
            },
        ),
        EngineReply::Whisper(Err(e)) => Err(
            Untranscribed { error: TranscriptionError::EngineFailed(e), asked_engine: true },
        ),
        EngineReply::Parakeet(Ok(words)) => Ok(
            Transcription {
                text: text::trim(words.as_str()).to_owned(),
                confidence: None,
                is_partial: false,
            },
        ),
        EngineReply::Parakeet(Err(e)) => Err(
            Untranscribed { error: TranscriptionError::EngineFailed(e), asked_engine: true },
        ),
        EngineReply::Provider(Ok(given)) => Ok(
            Transcription {
                text: text::trim(given.text.as_str()).to_owned(),
                confidence: given.confidence,
                is_partial: given.is_partial,
            },
        ),
        EngineReply::Provider(Err(e)) => Err(Untranscribed { error: e, asked_engine: true }),
    }
}

/// A transcript of an engine loses the whitespace around it and nothing else.
pub proof fn transcripts_are_trimmed(
    t: Transcription,
    words: Seq<char>,
    confidence: Option<Double>,
    is_partial: bool,
)
    requires
        is_cleaned(t, words, confidence, is_partial),
    ensures
        t.text@ == text::trimmed(words),
        t.confidence == confidence,
        t.is_partial == is_partial,
{
}

/// The engines of this machine fail with the message that they gave, and a provider with the error
/// that it gave; there is no error where there is a transcript.
pub proof fn errors_are_those_of_the_engine(reply: EngineReply)
    ensures
        engine_error(reply) is None <==> {
            ||| reply matches EngineReply::Whisper(Ok(_))
            ||| reply matches EngineReply::Parakeet(Ok(_))
            ||| reply matches EngineReply::Provider(Ok(_))
        },
        reply matches EngineReply::Whisper(Err(e)) ==> engine_error(reply) == Some(
            TranscriptionError::EngineFailed(e),
        ),
        reply matches EngineReply::Parakeet(Err(e)) ==> engine_error(reply) == Some(
            TranscriptionError::EngineFailed(e),
        ),
        reply matches EngineReply::Provider(Err(e)) ==> engine_error(reply) == Some(e),
{
}

/// The engines hear sixteen thousand samples a second and at least a tenth of a second, and a
/// model is waited for two minutes, four looks a second.
pub proof fn engines_have_their_measures()
    ensures
        ENGINE_SAMPLE_RATE == 16_000,
        10 * ENGINE_MIN_SAMPLES == ENGINE_SAMPLE_RATE,
        MODEL_LOAD_WAIT_TIMEOUT_SEC == 2 * 60,
        4 * MODEL_LOAD_POLL_MS == 1_000,
{
}

/// A model that is there is ready whatever was waited; one that is not is waited for until the time
/// is up and then given up.
pub proof fn models_are_waited_for_until_the_time_is_up(
    loaded: bool,
    waited_ms: u64,
    timeout_ms: u64,
    r: ModelWait,
)
    requires
        call_ensures(wait_for_model_loaded, (loaded, waited_ms, timeout_ms), r),
    ensures
        loaded <==> r == ModelWait::Ready,
        !loaded && waited_ms < timeout_ms <==> r == ModelWait::Pause,
        !loaded && timeout_ms <= waited_ms <==> r == ModelWait::GiveUp,
{
}

/// Samples are resampled just where they do not have the rate that the engines hear.
pub proof fn only_other_rates_are_resampled(sample_rate: u32, r: bool)
    requires
        call_ensures(needs_resampling, (sample_rate,), r),
    ensures
        r <==> sample_rate != 16_000,
{
}

/// A chunk without samples is too short for any engine, and a failure is reported where an engine
/// was asked.
pub proof fn silence_is_not_transcribed(
    samples: &[u32],
    checked: Result<(), Untranscribed>,
    failed: Untranscribed,
    message: String,
    told: (TranscriptionFailure, Option<Report>),
)
    requires
        call_ensures(check_samples, (samples,), checked),
        call_ensures(Untranscribed::reported, (failed, message), told),
    ensures
        checked is Ok <==> samples@.len() > 0,
        checked matches Err(u) ==> !u.asked_engine && u.error == (TranscriptionError::AudioTooShort {
            samples: 0,
            minimum: 1_600,
        }),
        told.0.error == failed.error,
        told.0.message@ == message@,
        told.1 is Some <==> failed.asked_engine,
        told.1 matches Some(report) ==> report@ == (events::Said::Failure {
            error: message@,
            user_message: "Transcription failed: "@ + message@,
            actionable: false,
        }),
{
}

/// What an engine heard is trimmed; one of this machine gives its confidence or none, and a
/// provider what it gave. A failed engine gives its error, and was asked.
pub proof fn engines_give_what_they_heard(
    reply: EngineReply,
    r: Result<Transcription, Untranscribed>,
)
    requires
        call_ensures(transcribe_chunk_with_provider, (reply,), r),
    ensures
        reply matches EngineReply::Whisper(Ok((words, confidence, is_partial))) ==> (r matches Ok(t)
            && t.text@ == text::trimmed(words@) && t.confidence == Some(confidence) && t.is_partial
            == is_partial),
        reply matches EngineReply::Parakeet(Ok(words)) ==> (r matches Ok(t) && t.text@
            == text::trimmed(words@) && t.confidence is None && !t.is_partial),
        reply matches EngineReply::Provider(Ok(given)) ==> (r matches Ok(t) && t.text@
            == text::trimmed(given.text@) && t.confidence == given.confidence && t.is_partial
            == given.is_partial),
        engine_error(reply) matches Some(e) ==> (r matches Err(u) && u.asked_engine && u.error == e),
{
}

} // verus!
