//! What transcription reports to the user interface.

use crate::double;
use crate::double::{Double, Real};
use crate::models;
use crate::text;
use vstd::prelude::*;
use vstd::string::*;

verus! {

/// A transcribed segment.
pub struct TranscriptUpdate {
    pub text: String,
    pub timestamp: String,
    pub source: String,
    pub sequence_id: u64,
    pub chunk_start_time: Double,
    pub is_partial: bool,
    pub confidence: Double,
    pub audio_start_time: Double,
    pub audio_end_time: Double,
    pub duration: Double,
}

/// What happened to a chunk.
pub struct TranscriptionDiagnostic {
    pub event: String,
    pub chunk_id: u64,
    pub audio_start_time: Double,
    pub audio_end_time: Double,
    pub duration: Double,
    pub reason: Option<String>,
    pub confidence: Option<Double>,
    pub energy: Option<Double>,
    pub text_length: Option<usize>,
    pub is_partial: Option<bool>,
}

/// What is reported.
pub enum Report {
    Diagnostic(TranscriptionDiagnostic),
    Warning(String),
    Failure { error: String, user_message: String, actionable: bool },
    SpeechDetected { message: String },
    Transcript(TranscriptUpdate),
    Progress {
        worker_id: usize,
        chunks_completed: u64,
        chunks_queued: u64,
        progress_percentage: u32,
        message: String,
    },
    QueueComplete { total_chunks: u64, message: String },
    ChunkLoss { chunks_queued: u64, chunks_completed: u64, chunks_lost: u64, message: String },
}

/// What a report says.
pub enum Said {
    Diagnostic {
        event: Seq<char>,
        chunk_id: u64,
        start: Real,
        end: Real,
        duration: Real,
        reason: Option<Seq<char>>,
        score: Option<Double>,
        energy: Option<Double>,
        text_length: Option<usize>,
        partial: Option<bool>,
    },
    Warning { message: Seq<char> },
    Failure { error: Seq<char>, user_message: Seq<char>, actionable: bool },
    SpeechDetected { message: Seq<char> },
    Transcript {
        text: Seq<char>,
        timestamp: Seq<char>,
        source: Seq<char>,
        sequence_id: u64,
        chunk_start: Real,
        is_partial: bool,
        confidence: Double,
        start: Real,
        end: Real,
        duration: Real,
    },
    Progress {
        worker_id: usize,
        completed: u64,
        queued: u64,
        percentage: u32,
        message: Seq<char>,
    },
    QueueComplete { total: u64, message: Seq<char> },
    ChunkLoss { queued: u64, completed: u64, lost: u64, message: Seq<char> },
}

impl View for Report {
    type V = Said;

    open spec fn view(&self) -> Said {
        match self {
            Report::Diagnostic(d) => Said::Diagnostic {
                event: d.event@,
                chunk_id: d.chunk_id,
                start: d.audio_start_time@,
                end: d.audio_end_time@,
                duration: d.duration@,
                reason: models::text_view(d.reason),
                score: d.confidence,
                energy: d.energy,
                text_length: d.text_length,
                partial: d.is_partial,
            },
            Report::Warning(message) => Said::Warning { message: message@ },
            Report::Failure { error, user_message, actionable } => Said::Failure {
                error: error@,
                user_message: user_message@,
                actionable: *actionable,
            },
            Report::SpeechDetected { message } => Said::SpeechDetected { message: message@ },
            Report::Transcript(u) => Said::Transcript {
                text: u.text@,
                timestamp: u.timestamp@,
                source: u.source@,
                sequence_id: u.sequence_id,
                chunk_start: u.chunk_start_time@,
                is_partial: u.is_partial,
                confidence: u.confidence,
                start: u.audio_start_time@,
                end: u.audio_end_time@,
                duration: u.duration@,
            },
            Report::Progress {
                worker_id,
                chunks_completed,
                chunks_queued,
                progress_percentage,
                message,
            } => Said::Progress {
                worker_id: *worker_id,
                completed: *chunks_completed,
                queued: *chunks_queued,
                percentage: *progress_percentage,
                message: message@,
            },
            Report::QueueComplete { total_chunks, message } => Said::QueueComplete {
                total: *total_chunks,
                message: message@,
            },
            Report::ChunkLoss { chunks_queued, chunks_completed, chunks_lost, message } =>
                Said::ChunkLoss {
                queued: *chunks_queued,
                completed: *chunks_completed,
                lost: *chunks_lost,
                message: message@,
            },
        }
    }
}

/// The name of the event by which something is said.
pub open spec fn event_of(said: Said) -> Seq<char> {
    match said {
        Said::Diagnostic { .. } => "transcription-diagnostic"@,
        Said::Warning { .. } => "transcription-warning"@,
        Said::Failure { .. } => "transcription-error"@,
        Said::SpeechDetected { .. } => "speech-detected"@,
        Said::Transcript { .. } => "transcript-update"@,
        Said::Progress { .. } => "transcription-progress"@,
        Said::QueueComplete { .. } => "transcription-queue-complete"@,
        Said::ChunkLoss { .. } => "transcript-chunk-loss-detected"@,
    }
}

impl Report {
    /// The name of the event by which the report is made.
    pub fn event(&self) -> (r: &'static str)
        ensures
            r@ == event_of(self@),
    {
        match self {
            Report::Diagnostic(_) => "transcription-diagnostic",
            Report::Warning(_) => "transcription-warning",
            Report::Failure { .. } => "transcription-error",
            Report::SpeechDetected { .. } => "speech-detected",
            Report::Transcript(_) => "transcript-update",
            Report::Progress { .. } => "transcription-progress",
            Report::QueueComplete { .. } => "transcription-queue-complete",
            Report::ChunkLoss { .. } => "transcript-chunk-loss-detected",
        }
    }
}

/// What reports say, one after the other.
pub open spec fn said(reports: Seq<Report>) -> Seq<Said> {
    Seq::new(reports.len(), |i: int| reports[i]@)
}

/// The time between two times; zero where the second is not the later one.
pub open spec fn span(start: Real, end: Real) -> Real {
    double::larger(double::difference(end, start), double::zero())
}

/// What is said of a chunk.
pub open spec fn noted(
    event: Seq<char>,
    chunk_id: u64,
    start: Real,
    end: Real,
    reason: Seq<char>,
    confidence: Option<Double>,
    energy: Option<Double>,
    text_length: Option<usize>,
    is_partial: Option<bool>,
) -> Said {
    Said::Diagnostic {
        event,
        chunk_id,
        start,
        end,
        duration: span(start, end),
        reason: Some(reason),
        score: confidence,
        energy,
        text_length,
        partial: is_partial,
    }
}

/// The time between two times; zero where the second is not the later one.
pub fn span_sec(start: &Double, end: &Double) -> (r: Double)
    ensures
        r@ == span(start@, end@),
{
    end.minus(start).max(&Double { bits: 0 })
}

/// A report on what happened to a chunk.
pub fn transcription_diagnostic(
    event: &str,
    chunk_id: u64,
    audio_start_time: Double,
    audio_end_time: Double,
    reason: &str,
    confidence: Option<Double>,
    energy: Option<Double>,
    text_length: Option<usize>,
    is_partial: Option<bool>,
) -> (r: Report)
    ensures
        r@ == noted(
            event@,
            chunk_id,
            audio_start_time@,
            audio_end_time@,
            reason@,
            confidence,
            energy,
            text_length,
            is_partial,
        ),
{
    Report::Diagnostic(
        TranscriptionDiagnostic {
            event: event.to_owned(),
            chunk_id,
            audio_start_time,
            audio_end_time,
            duration: span_sec(&audio_start_time, &audio_end_time),
            reason: Some(reason.to_owned()),
            confidence,
            energy,
            text_length,
            is_partial,
        },
    )
}

/// What is said where the engine could not transcribe a chunk.
pub open spec fn engine_failure(error: Seq<char>) -> Said {
    Said::Failure { error, user_message: "Transcription failed: "@ + error, actionable: false }
}

/// A report that the engine could not transcribe a chunk.
pub fn transcription_failure(error: &str) -> (r: Report)
    ensures
        r@ == engine_failure(error@),
{
    let mut user_message = "Transcription failed: ".to_owned();
    user_message.append(error);
    Report::Failure { error: error.to_owned(), user_message, actionable: false }
}

/// What is said where there is no engine.
pub open spec fn no_engine(error: Seq<char>) -> Said {
    Said::Failure {
        error,
        user_message:
            "Recording failed: Unable to initialize speech recognition. Please check your model settings."@,
        actionable: true,
    }
}

/// A report that there is no engine.
pub fn engine_missing(error: &str) -> (r: Report)
    ensures
        r@ == no_engine(error@),
{
    Report::Failure {
        error: error.to_owned(),
        user_message:
            "Recording failed: Unable to initialize speech recognition. Please check your model settings.".to_owned(),
        actionable: true,
    }
}

/// How far transcription is, in whole percent.
pub open spec fn percentage(completed: u64, queued: u64) -> nat {
    if queued == 0 {
        100
    } else {
        double::truncated_whole(
            double::multiple(double::ratio(completed as nat, queued as nat), 100),
            u32::MAX as nat,
        )
    }
}

/// What is said of how far transcription is.
pub open spec fn progress(worker_id: usize, completed: u64, queued: u64) -> Said {
    Said::Progress {
        worker_id,
        completed,
        queued,
        percentage: percentage(completed, queued) as u32,
        message: "Worker "@ + text::numeral(worker_id as nat) + " processing... ("@ + text::numeral(
            completed as nat,
        ) + "/"@ + text::numeral(queued as nat) + ")"@,
    }
}

/// A report on how far transcription is.
pub fn transcription_progress(worker_id: usize, completed: u64, queued: u64) -> (r: Report)
    ensures
        r@ == progress(worker_id, completed, queued),
{
    let progress_percentage: u32 = if queued > 0 {
        Double::divide(completed, queued).times(100).truncate_within(u32::MAX as u64) as u32
    } else {
        100
    };
    let mut message = "Worker ".to_owned();
    text::push_number(&mut message, worker_id as u64);
    message.append(" processing... (");
    text::push_number(&mut message, completed);
    message.append("/");
    text::push_number(&mut message, queued);
    message.append(")");
    Report::Progress {
        worker_id,
        chunks_completed: completed,
        chunks_queued: queued,
        progress_percentage,
        message,
    }
}

/// What is said when the last chunk is queued.
pub open spec fn all_queued(total: u64) -> Said {
    Said::QueueComplete {
        total,
        message: text::numeral(total as nat)
            + " chunks queued for processing - waiting for completion"@,
    }
}

/// A report that the last chunk is queued.
pub fn queue_complete(total: u64) -> (r: Report)
    ensures
        r@ == all_queued(total),
{
    let mut message = String::new();
    text::push_number(&mut message, total);
    message.append(" chunks queued for processing - waiting for completion");
    assert(message@ =~= text::numeral(total as nat)
        + " chunks queued for processing - waiting for completion"@);
    Report::QueueComplete { total_chunks: total, message }
}

/// What is said of chunks that were never completed.
pub open spec fn loss(queued: u64, completed: u64) -> Said {
    Said::ChunkLoss {
        queued,
        completed,
        lost: (queued - completed) as u64,
        message: "Some transcript chunks may have been lost during shutdown"@,
    }
}

/// A report on chunks that were never completed.
pub fn chunk_loss(queued: u64, completed: u64) -> (r: Report)
    requires
        completed <= queued,
    ensures
        r@ == loss(queued, completed),
{
    Report::ChunkLoss {
        chunks_queued: queued,
        chunks_completed: completed,
        chunks_lost: queued - completed,
        message: "Some transcript chunks may have been lost during shutdown".to_owned(),
    }
}

/// A report says what its fields hold, each under its own name.
pub proof fn reports_say_what_they_hold(report: Report)
    ensures
        report matches Report::Transcript(u) ==> (report@ matches Said::Transcript {
            text,
            timestamp,
            source,
            sequence_id,
            chunk_start,
            is_partial,
            confidence,
            start,
            end,
            duration,
        } && {
            &&& u.text@ == text
            &&& u.timestamp@ == timestamp
            &&& u.source@ == source
            &&& u.sequence_id == sequence_id
            &&& u.chunk_start_time@ == chunk_start
            &&& u.is_partial == is_partial
            &&& u.confidence == confidence
            &&& u.audio_start_time@ == start
            &&& u.audio_end_time@ == end
            &&& u.duration@ == duration
        }),
        report matches Report::Diagnostic(d) ==> (report@ matches Said::Diagnostic {
            event,
            chunk_id,
            start,
            end,
            duration,
            reason,
            score,
            energy,
            text_length,
            partial,
        } && {
            &&& d.event@ == event
            &&& d.chunk_id == chunk_id
            &&& d.audio_start_time@ == start
            &&& d.audio_end_time@ == end
            &&& d.duration@ == duration
            &&& d.reason is Some <==> reason is Some
            &&& d.reason matches Some(why) ==> reason == Some(why@)
            &&& d.confidence == score
            &&& d.energy == energy
            &&& d.text_length == text_length
            &&& d.is_partial == partial
        }),
        report matches Report::Warning(m) ==> report@ == (Said::Warning { message: m@ }),
        report matches Report::Failure { error, user_message, actionable } ==> report@ == (
        Said::Failure { error: error@, user_message: user_message@, actionable }),
        report matches Report::SpeechDetected { message } ==> report@ == (Said::SpeechDetected {
            message: message@,
        }),
        report matches Report::Progress {
            worker_id,
            chunks_completed,
            chunks_queued,
            progress_percentage,
            message,
        } ==> report@ == (Said::Progress {
            worker_id,
            completed: chunks_completed,
            queued: chunks_queued,
            percentage: progress_percentage,
            message: message@,
        }),
        report matches Report::QueueComplete { total_chunks, message } ==> report@ == (
        Said::QueueComplete { total: total_chunks, message: message@ }),
        report matches Report::ChunkLoss {
            chunks_queued,
            chunks_completed,
            chunks_lost,
            message,
        } ==> report@ == (Said::ChunkLoss {
            queued: chunks_queued,
            completed: chunks_completed,
            lost: chunks_lost,
            message: message@,
        }),
{
}

/// Each kind of report has its own event, and reports of one kind share it.
#[verifier::spinoff_prover]
pub proof fn events_tell_reports_apart(a: Said, b: Said)
    ensures
        event_of(a) == event_of(b) <==> {
            ||| a is Diagnostic && b is Diagnostic
            ||| a is Warning && b is Warning
            ||| a is Failure && b is Failure
            ||| a is SpeechDetected && b is SpeechDetected
            ||| a is Transcript && b is Transcript
            ||| a is Progress && b is Progress
            ||| a is QueueComplete && b is QueueComplete
            ||| a is ChunkLoss && b is ChunkLoss
        },
        event_of(a) == "transcript-update"@ <==> a is Transcript,
        event_of(a) == "transcription-diagnostic"@ <==> a is Diagnostic,
        event_of(a) == "transcription-warning"@ <==> a is Warning,
        event_of(a) == "transcription-error"@ <==> a is Failure,
        event_of(a) == "speech-detected"@ <==> a is SpeechDetected,
        event_of(a) == "transcription-progress"@ <==> a is Progress,
        event_of(a) == "transcription-queue-complete"@ <==> a is QueueComplete,
        event_of(a) == "transcript-chunk-loss-detected"@ <==> a is ChunkLoss,
{
    reveal_strlit("transcription-diagnostic");
    reveal_strlit("transcription-warning");
    reveal_strlit("transcription-error");
    reveal_strlit("speech-detected");
    reveal_strlit("transcript-update");
    reveal_strlit("transcription-progress");
    reveal_strlit("transcription-queue-complete");
    reveal_strlit("transcript-chunk-loss-detected");
    // Those of one length differ in the character at the place where they part.
    assert("transcription-warning"@[14] != "transcription-error"@[14]);
    assert("transcription-warning"@.len() == 21);
    assert("transcription-error"@.len() == 19);
    assert("transcription-progress"@.len() == 22);
    assert("transcription-diagnostic"@.len() == 24);
    assert("transcript-update"@.len() == 17);
    assert("speech-detected"@.len() == 15);
    assert("transcription-queue-complete"@.len() == 28);
    assert("transcript-chunk-loss-detected"@.len() == 30);
}

/// As much is said as there are reports, each in its place.
pub proof fn reports_are_said_in_order(some: Seq<Report>, more: Seq<Report>, i: int)
    ensures
        said(some).len() == some.len(),
        0 <= i < some.len() ==> said(some)[i] == some[i]@,
        said(some + more) == said(some) + said(more),
{
    assert(said(some + more) =~= said(some) + said(more));
}

/// The time between two times is their difference where the second is later, and zero elsewhere.
#[verifier::spinoff_prover]
pub proof fn spans_are_never_negative(start: Real, end: Real)
    ensures
        double::less(start, end) ==> span(start, end) == double::difference(end, start),
        double::less(end, start) || start == end || start == Real::NotANumber || end
            == Real::NotANumber ==> span(start, end) == double::zero(),
        !double::less(span(start, end), double::zero()),
{
    double::difference_has_sign(end, start);
    if start == end {
        if let Real::Finite { units } = start {
            assert(double::difference(end, start) == double::rounded(0));
            assert(!double::less(double::zero(), double::difference(end, start)));
            assert(!double::less(double::difference(end, start), double::zero()));
        }
    }
}

/// What is said of a chunk tells what happened and why, which chunk it is and when it starts, ends
/// and how long it takes.
pub proof fn notes_tell_of_the_chunk(
    event: Seq<char>,
    chunk_id: u64,
    start: Real,
    end: Real,
    reason: Seq<char>,
    confidence: Option<Double>,
    energy: Option<Double>,
    text_length: Option<usize>,
    is_partial: Option<bool>,
)
    ensures
        noted(
            event,
            chunk_id,
            start,
            end,
            reason,
            confidence,
            energy,
            text_length,
            is_partial,
        ) == (Said::Diagnostic {
            event,
            chunk_id,
            start,
            end,
            duration: double::larger(double::difference(end, start), double::zero()),
            reason: Some(reason),
            score: confidence,
            energy,
            text_length,
            partial: is_partial,
        }),
{
}

/// A failure of the engine is told with its error and nothing that the user could do; a missing
/// engine is something that the user can mend.
pub proof fn failures_tell_their_error(error: Seq<char>)
    ensures
        engine_failure(error) == (Said::Failure {
            error,
            user_message: "Transcription failed: "@ + error,
            actionable: false,
        }),
        no_engine(error) == (Said::Failure {
            error,
            user_message:
                "Recording failed: Unable to initialize speech recognition. Please check your model settings."@,
            actionable: true,
        }),
{
}

/// Progress tells which worker is how far of how many chunks, in numbers and in words; with
/// nothing queued it is complete.
pub proof fn progress_tells_the_counts(worker_id: usize, completed: u64, queued: u64)
    ensures
        progress(worker_id, completed, queued) matches Said::Progress {
            worker_id: w,
            completed: c,
            queued: q,
            percentage: share,
            message,
        } && {
            &&& w == worker_id
            &&& c == completed
            &&& q == queued
            &&& queued == 0 ==> share == 100
            &&& queued > 0 ==> share == double::truncated_whole(
                double::multiple(double::ratio(completed as nat, queued as nat), 100),
                u32::MAX as nat,
            )
            &&& message == "Worker "@ + text::numeral(worker_id as nat) + " processing... ("@
                + text::numeral(completed as nat) + "/"@ + text::numeral(queued as nat) + ")"@
        },
{
}

/// The chunks that were lost and those that were completed together are those that were queued.
pub proof fn losses_are_what_is_missing(queued: u64, completed: u64)
    requires
        completed <= queued,
    ensures
        loss(queued, completed) matches Said::ChunkLoss { queued: q, completed: c, lost, message }
            && q == queued && c == completed && lost + c == q && message
            == "Some transcript chunks may have been lost during shutdown"@,
        all_queued(queued) == (Said::QueueComplete {
            total: queued,
            message: text::numeral(queued as nat)
                + " chunks queued for processing - waiting for completion"@,
        }),
{
}

/// Each report is made as its words say, and by its own event.
#[verifier::spinoff_prover]
pub proof fn reports_are_made_as_they_say(
    report: &Report,
    event: &'static str,
    start: &Double,
    end: &Double,
    between: Double,
    error: &str,
    failed: Report,
    missing: Report,
    worker_id: usize,
    completed: u64,
    queued: u64,
    far: Report,
    all: Report,
    lost: Report,
)
    requires
        call_ensures(Report::event, (report,), event),
        call_ensures(span_sec, (start, end), between),
        call_ensures(transcription_failure, (error,), failed),
        call_ensures(engine_missing, (error,), missing),
        call_ensures(transcription_progress, (worker_id, completed, queued), far),
        call_ensures(queue_complete, (queued,), all),
        call_ensures(chunk_loss, (queued, completed), lost),
    ensures
        event@ == event_of(report@),
        between@ == double::larger(double::difference(end@, start@), double::zero()),
        failed@ == engine_failure(error@),
        missing@ == no_engine(error@),
        far@ == progress(worker_id, completed, queued),
        all@ == all_queued(queued),
        lost@ == loss(queued, completed),
{
}

/// Nothing completed is no percent, and everything completed is a hundred.
#[verifier::spinoff_prover]
pub proof fn everything_is_a_hundred_percent(queued: u64)
    requires
        0 < queued < double::LIMIT,
    ensures
        percentage(0, queued) == 0,
        percentage(queued, queued) == 100,
        percentage(queued, 0) == 100,
{
    let q = queued as nat;
    double::whole_numbers_are_exact(1, q);
    double::whole_numbers_are_exact(1, 100);
    double::whole_numbers_are_exact(100, 1);
    double::whole_numbers_are_exact(0, q);
    double::whole_numbers_are_exact(0, 100);
    assert(0 * q == 0) by (nonlinear_arith);
    assert(1 * q == q) by (nonlinear_arith);
}

} // verus!
