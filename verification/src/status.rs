//! What is counted of transcription, and when it last did something.

use crate::double;
use crate::double::{Double, Real};
use crate::events;
use crate::events::{Report, Said};
use crate::outside;
use crate::text;
use vstd::prelude::*;
use vstd::string::*;

verus! {

/// How many milliseconds pass between two looks at the final counts.
pub const VERIFICATION_PAUSE_MS: u64 = 100;

/// How many times the final counts are looked at again.
pub const MAX_VERIFICATION_ATTEMPTS: u32 = 10;

/// What is known of transcription across recordings.
#[derive(Clone, Copy, PartialEq, Eq, Structural, Debug)]
pub struct TranscriptionStatus {
    pub sequence_counter: u64,
    pub speech_detected_emitted: bool,
    pub chunks_queued: u64,
    pub chunks_completed: u64,
    pub active: bool,
    pub last_activity_ms: u64,
}

/// What is counted of one recording.
#[derive(Clone, Copy, PartialEq, Eq, Structural, Debug)]
pub struct TranscriptionTask {
    pub chunks_queued: u64,
    pub chunks_completed: u64,
    pub input_finished: bool,
}

/// The next number, from the largest back to zero.
pub open spec fn bumped(n: u64) -> u64 {
    if n == u64::MAX {
        0
    } else {
        (n + 1) as u64
    }
}

/// The next number, from the largest back to zero.
pub fn bump(n: u64) -> (r: u64)
    ensures
        r == bumped(n),
{
    if n == u64::MAX {
        0
    } else {
        n + 1
    }
}

impl TranscriptionStatus {
    /// Nothing was transcribed yet.
    pub fn new() -> (r: TranscriptionStatus)
        ensures
            r == (TranscriptionStatus {
                sequence_counter: 0,
                speech_detected_emitted: false,
                chunks_queued: 0,
                chunks_completed: 0,
                active: false,
                last_activity_ms: 0,
            }),
    {
        TranscriptionStatus {
            sequence_counter: 0,
            speech_detected_emitted: false,
            chunks_queued: 0,
            chunks_completed: 0,
            active: false,
            last_activity_ms: 0,
        }
    }
}

/// Lets the next transcript of a new recording announce that speech was detected.
pub fn reset_speech_detected_flag(status: &mut TranscriptionStatus)
    ensures
        *final(status) == (TranscriptionStatus { speech_detected_emitted: false, ..*old(status) }),
{
    status.speech_detected_emitted = false;
}

/// The chunks that were queued and not completed, whether transcription is under way, and the
/// milliseconds since it last did something; zero where it never did.
pub open spec fn snapshot(status: TranscriptionStatus, now_ms: u64) -> (usize, bool, u64) {
    let pending = if status.chunks_queued < status.chunks_completed {
        0
    } else {
        status.chunks_queued - status.chunks_completed
    };
    let idle = if status.last_activity_ms == 0 || now_ms < status.last_activity_ms {
        0
    } else {
        now_ms - status.last_activity_ms
    };
    (pending as usize, status.active || pending as usize > 0, idle as u64)
}

/// What transcription is doing at a time.
pub fn status_snapshot_at(status: &TranscriptionStatus, now_ms: u64) -> (r: (usize, bool, u64))
    ensures
        r == snapshot(*status, now_ms),
{
    let pending: usize = status.chunks_queued.saturating_sub(status.chunks_completed) as usize;
    let idle: u64 = if status.last_activity_ms == 0 {
        0
    } else {
        now_ms.saturating_sub(status.last_activity_ms)
    };
    (pending, status.active || pending > 0, idle)
}

/// What transcription is doing now.
pub fn get_transcription_status_snapshot(status: &TranscriptionStatus) -> (r: (usize, bool, u64))
    ensures
        exists|now_ms: u64| r == #[trigger] snapshot(*status, now_ms),
{
    let now_ms: u64 = now_millis();
    status_snapshot_at(status, now_ms)
}

/// The milliseconds that the clock gives since the Unix epoch, in sixty-four bits; zero where it
/// stands before that.
pub open spec fn counted_millis(elapsed: Option<u128>) -> u64 {
    match elapsed {
        Some(millis) => (millis % 0x1_0000_0000_0000_0000) as u64,
        None => 0,
    }
}

/// The milliseconds that the clock gives since the Unix epoch, in sixty-four bits; zero where it
/// stands before that.
pub fn millis_of(elapsed: Option<u128>) -> (r: u64)
    ensures
        r == counted_millis(elapsed),
{
    match elapsed {
        Some(millis) => (millis % 0x1_0000_0000_0000_0000) as u64,
        None => 0,
    }
}

/// The whole seconds that the clock gives since the Unix epoch; zero where it stands before that.
pub open spec fn counted_seconds(elapsed: Option<u128>) -> nat {
    match elapsed {
        Some(millis) => millis as nat / 1000,
        None => 0,
    }
}

/// The whole seconds that the clock gives since the Unix epoch; zero where it stands before that.
pub fn seconds_of(elapsed: Option<u128>) -> (r: u128)
    ensures
        r == counted_seconds(elapsed),
{
    match elapsed {
        Some(millis) => millis / 1000,
        None => 0,
    }
}

/// The time of the clock, in milliseconds since the Unix epoch. Which number it is depends on the
/// clock, which may give any.
pub fn now_millis() -> u64 {
    millis_of(outside::system_millis())
}

/// Notes that transcription does something at a time.
pub fn mark_activity_at(status: &mut TranscriptionStatus, now_ms: u64)
    ensures
        *final(status) == (TranscriptionStatus { last_activity_ms: now_ms, ..*old(status) }),
{
    status.last_activity_ms = now_ms;
}

/// Notes that transcription does something now. The time noted is the clock's, which may be any;
/// all else stays as it is.
pub fn mark_transcription_activity(status: &mut TranscriptionStatus)
    ensures
        *final(status) == (TranscriptionStatus {
            last_activity_ms: final(status).last_activity_ms,
            ..*old(status)
        }),
{
    mark_activity_at(status, now_millis());
}

/// The time of day, in hours, minutes and seconds.
pub open spec fn time_of_day(seconds: nat) -> Seq<char> {
    text::two_digits((seconds / 3600) % 24) + ":"@ + text::two_digits((seconds / 60) % 60) + ":"@
        + text::two_digits(seconds % 60)
}

/// The time of day, in hours, minutes and seconds.
pub fn format_time_of_day(seconds: u128) -> (r: String)
    ensures
        r@ == time_of_day(seconds as nat),
{
    let mut r = String::new();
    text::push_two_digits(&mut r, ((seconds / 3600) % 24) as u64);
    r.append(":");
    text::push_two_digits(&mut r, ((seconds / 60) % 60) as u64);
    r.append(":");
    text::push_two_digits(&mut r, (seconds % 60) as u64);
    assert(r@ =~= time_of_day(seconds as nat));
    r
}

/// The present time of day, in hours, minutes and seconds.
pub fn format_current_timestamp() -> (r: String)
    ensures
        exists|elapsed: Option<u128>| r@ == time_of_day(#[trigger] counted_seconds(elapsed)),
{
    let elapsed: Option<u128> = outside::system_millis();
    format_time_of_day(seconds_of(elapsed))
}

/// A time of a recording, in minutes and seconds.
pub open spec fn recording_time(time: Real) -> Seq<char> {
    let total = double::truncated_whole(time, u64::MAX as nat);
    "["@ + text::two_digits(total / 60) + ":"@ + text::two_digits(total % 60) + "]"@
}

/// A time of a recording, in minutes and seconds.
pub fn format_recording_time(seconds: &Double) -> (r: String)
    ensures
        r@ == recording_time(seconds@),
{
    let total: u64 = seconds.truncate_within(u64::MAX);
    let mut r = "[".to_owned();
    text::push_two_digits(&mut r, total / 60);
    r.append(":");
    text::push_two_digits(&mut r, total % 60);
    r.append("]");
    r
}

impl TranscriptionTask {
    /// Whether no more chunks will come and all that came are completed.
    pub fn all_processed(&self) -> (r: bool)
        ensures
            r == (self.input_finished && self.chunks_completed >= self.chunks_queued),
    {
        self.input_finished && self.chunks_completed >= self.chunks_queued
    }
}

/// What is counted after one more chunk was queued.
pub open spec fn dispatched(task: TranscriptionTask) -> TranscriptionTask {
    TranscriptionTask { chunks_queued: bumped(task.chunks_queued), ..task }
}

/// What is known after one more chunk was queued.
pub open spec fn told_of_dispatch(status: TranscriptionStatus, now_ms: u64) -> TranscriptionStatus {
    TranscriptionStatus {
        chunks_queued: bumped(status.chunks_queued),
        last_activity_ms: now_ms,
        ..status
    }
}

/// What is known after transcription ended.
pub open spec fn ended(status: TranscriptionStatus, now_ms: u64) -> TranscriptionStatus {
    TranscriptionStatus { active: false, last_activity_ms: now_ms, ..status }
}

/// What is counted of a recording that starts.
pub open spec fn nothing_counted() -> TranscriptionTask {
    TranscriptionTask { chunks_queued: 0, chunks_completed: 0, input_finished: false }
}

/// What is known when transcription starts.
pub open spec fn started(status: TranscriptionStatus, now_ms: u64) -> TranscriptionStatus {
    TranscriptionStatus {
        chunks_queued: 0,
        chunks_completed: 0,
        active: true,
        last_activity_ms: now_ms,
        ..status
    }
}

/// What is counted once no more chunks will be queued.
pub open spec fn input_over(task: TranscriptionTask) -> TranscriptionTask {
    TranscriptionTask { input_finished: true, ..task }
}

/// Starts the transcription of a recording.
pub fn start_transcription(status: &mut TranscriptionStatus, now_ms: u64) -> (r: TranscriptionTask)
    ensures
        r == nothing_counted(),
        *final(status) == started(*old(status), now_ms),
{
    status.chunks_queued = 0;
    status.chunks_completed = 0;
    status.active = true;
    status.last_activity_ms = now_ms;
    TranscriptionTask { chunks_queued: 0, chunks_completed: 0, input_finished: false }
}

/// Gives the transcription up because there is no engine.
pub fn abandon_transcription(status: &mut TranscriptionStatus, now_ms: u64, error: &str) -> (r:
    Report)
    ensures
        *final(status) == ended(*old(status), now_ms),
        r@ == events::no_engine(error@),
{
    finish_transcription(status, now_ms);
    events::engine_missing(error)
}

/// Counts a chunk as queued.
pub fn dispatch_chunk(task: &mut TranscriptionTask, status: &mut TranscriptionStatus, now_ms: u64)
    ensures
        *final(task) == dispatched(*old(task)),
        *final(status) == told_of_dispatch(*old(status), now_ms),
{
    task.chunks_queued = bump(task.chunks_queued);
    status.chunks_queued = bump(status.chunks_queued);
    status.last_activity_ms = now_ms;
}

/// Notes that no more chunks will be queued.
pub fn finish_input(task: &mut TranscriptionTask) -> (r: Report)
    ensures
        *final(task) == input_over(*old(task)),
        r@ == events::all_queued(old(task).chunks_queued),
{
    task.input_finished = true;
    events::queue_complete(task.chunks_queued)
}

/// What the final counts mean.
pub enum Verdict {
    /// All chunks are completed.
    Complete,
    /// Some are not; the counts are looked at again, for the time that is given.
    LookAgain { attempts: u32 },
    /// Some are not, and that is reported.
    Lost(Report),
}

/// What the final counts mean, by what is reported.
pub enum Finding {
    Complete,
    LookAgain { attempts: nat },
    Lost { said: Said },
}

impl View for Verdict {
    type V = Finding;

    open spec fn view(&self) -> Finding {
        match self {
            Verdict::Complete => Finding::Complete,
            Verdict::LookAgain { attempts } => Finding::LookAgain { attempts: *attempts as nat },
            Verdict::Lost(report) => Finding::Lost { said: report@ },
        }
    }
}

/// What the final counts mean after some attempts.
pub open spec fn verdict(task: TranscriptionTask, attempts: nat) -> Finding {
    if task.chunks_queued == task.chunks_completed {
        Finding::Complete
    } else if attempts < MAX_VERIFICATION_ATTEMPTS {
        Finding::LookAgain { attempts: attempts + 1 }
    } else {
        Finding::Lost { said: events::loss(task.chunks_queued, task.chunks_completed) }
    }
}

/// Says what the final counts mean after some attempts.
pub fn verify_completion(task: &TranscriptionTask, attempts: u32) -> (r: Verdict)
    requires
        attempts >= MAX_VERIFICATION_ATTEMPTS ==> task.chunks_completed <= task.chunks_queued,
    ensures
        r@ == verdict(*task, attempts as nat),
{
    if task.chunks_queued == task.chunks_completed {
        Verdict::Complete
    } else if attempts < MAX_VERIFICATION_ATTEMPTS {
        Verdict::LookAgain { attempts: attempts + 1 }
    } else {
        Verdict::Lost(events::chunk_loss(task.chunks_queued, task.chunks_completed))
    }
}

/// Notes that the transcription of a recording is over.
pub fn finish_transcription(status: &mut TranscriptionStatus, now_ms: u64)
    ensures
        *final(status) == ended(*old(status), now_ms),
{
    status.active = false;
    status.last_activity_ms = now_ms;
}

/// Counting goes up by one, and from the largest number round to zero.
pub proof fn counters_go_up_by_one(n: u64)
    ensures
        n < u64::MAX ==> bumped(n) == n + 1,
        bumped(u64::MAX) == 0,
{
}

/// The snapshot tells how many queued chunks are not completed, never less than none; whether
/// transcription runs or has such chunks; and how long ago something last happened, which is zero
/// where nothing did or the clock went back.
pub proof fn snapshots_tell_what_is_open(status: TranscriptionStatus, now_ms: u64)
    ensures
        ({
            let (pending, busy, idle) = snapshot(status, now_ms);
            &&& status.chunks_completed <= status.chunks_queued <= usize::MAX ==> pending
                + status.chunks_completed == status.chunks_queued
            &&& status.chunks_completed > status.chunks_queued ==> pending == 0
            &&& busy <==> status.active || pending > 0
            &&& status.last_activity_ms == 0 ==> idle == 0
            &&& 0 < status.last_activity_ms <= now_ms ==> idle + status.last_activity_ms == now_ms
            &&& now_ms < status.last_activity_ms ==> idle == 0
        }),
{
}

/// The clock is read in milliseconds and in whole seconds; one that cannot be read gives zero.
#[verifier::spinoff_prover]
pub proof fn clocks_are_read_in_milliseconds(elapsed: Option<u128>)
    ensures
        elapsed is None ==> counted_millis(elapsed) == 0 && counted_seconds(elapsed) == 0,
        elapsed matches Some(millis) ==> (millis <= u64::MAX ==> counted_millis(elapsed) == millis),
        elapsed matches Some(millis) ==> counted_millis(elapsed) == millis
            % 0x1_0000_0000_0000_0000,
        elapsed matches Some(millis) ==> 1_000 * counted_seconds(elapsed) <= millis < 1_000 * (
        counted_seconds(elapsed) + 1),
{
    if let Some(millis) = elapsed {
        vstd::arithmetic::div_mod::lemma_fundamental_div_mod(millis as int, 1_000);
        vstd::arithmetic::div_mod::lemma_mod_bound(millis as int, 1_000);
        if millis <= u64::MAX {
            vstd::arithmetic::div_mod::lemma_small_mod(
                millis as nat,
                0x1_0000_0000_0000_0000,
            );
        }
    }
}

/// So many days, hours, minutes and seconds since midnight show as that hour, minute and second.
#[verifier::spinoff_prover]
pub proof fn times_of_day_show_hour_minute_and_second(
    days: nat,
    hours: nat,
    minutes: nat,
    seconds: nat,
)
    requires
        hours < 24,
        minutes < 60,
        seconds < 60,
    ensures
        time_of_day(((days * 24 + hours) * 60 + minutes) * 60 + seconds) == text::two_digits(hours)
            + ":"@ + text::two_digits(minutes) + ":"@ + text::two_digits(seconds),
{
    lemma_day_fields(days, hours, minutes, seconds);
}

#[verifier::spinoff_prover]
proof fn lemma_day_fields(days: nat, hours: nat, minutes: nat, seconds: nat)
    requires
        hours < 24,
        minutes < 60,
        seconds < 60,
    ensures
        ({
            let total = ((days * 24 + hours) * 60 + minutes) * 60 + seconds;
            &&& total % 60 == seconds
            &&& (total / 60) % 60 == minutes
            &&& (total / 3600) % 24 == hours
        }),
{
    let total = ((days * 24 + hours) * 60 + minutes) * 60 + seconds;
    let whole_hours = days * 24 + hours;
    let whole_minutes = whole_hours * 60 + minutes;
    vstd::arithmetic::div_mod::lemma_fundamental_div_mod_converse(
        total as int,
        60,
        whole_minutes as int,
        seconds as int,
    );
    vstd::arithmetic::div_mod::lemma_fundamental_div_mod_converse(
        whole_minutes as int,
        60,
        whole_hours as int,
        minutes as int,
    );
    vstd::arithmetic::div_mod::lemma_fundamental_div_mod_converse(
        total as int,
        3600,
        whole_hours as int,
        (minutes * 60 + seconds) as int,
    );
    vstd::arithmetic::div_mod::lemma_fundamental_div_mod_converse(
        whole_hours as int,
        24,
        days as int,
        hours as int,
    );
}

/// So many whole minutes and seconds of a recording show as those numbers, in brackets.
#[verifier::spinoff_prover]
pub proof fn recording_times_show_minutes_and_seconds(time: Real, minutes: nat, seconds: nat)
    requires
        seconds < 60,
        double::truncated_whole(time, u64::MAX as nat) == 60 * minutes + seconds,
    ensures
        recording_time(time) == "["@ + text::two_digits(minutes) + ":"@ + text::two_digits(seconds)
            + "]"@,
{
    let total = 60 * minutes + seconds;
    vstd::arithmetic::div_mod::lemma_fundamental_div_mod_converse(
        total as int,
        60,
        minutes as int,
        seconds as int,
    );
}

/// Each stage of a transcription changes what it is about and leaves the rest as it was.
pub proof fn stages_change_what_they_are_about(
    task: TranscriptionTask,
    status: TranscriptionStatus,
    now_ms: u64,
)
    ensures
        ({
            let new = started(status, now_ms);
            &&& new.chunks_queued == 0 && new.chunks_completed == 0 && new.active
            &&& new.last_activity_ms == now_ms
            &&& new.sequence_counter == status.sequence_counter
            &&& new.speech_detected_emitted == status.speech_detected_emitted
        }),
        nothing_counted().chunks_queued == 0 && nothing_counted().chunks_completed == 0
            && !nothing_counted().input_finished,
        ({
            let new = told_of_dispatch(status, now_ms);
            &&& status.chunks_queued < u64::MAX ==> new.chunks_queued == status.chunks_queued + 1
            &&& new.chunks_completed == status.chunks_completed && new.active == status.active
            &&& new.last_activity_ms == now_ms
            &&& new.sequence_counter == status.sequence_counter
            &&& new.speech_detected_emitted == status.speech_detected_emitted
        }),
        ({
            let new = dispatched(task);
            &&& task.chunks_queued < u64::MAX ==> new.chunks_queued == task.chunks_queued + 1
            &&& new.chunks_completed == task.chunks_completed
            &&& new.input_finished == task.input_finished
        }),
        input_over(task).input_finished && input_over(task).chunks_queued == task.chunks_queued
            && input_over(task).chunks_completed == task.chunks_completed,
        ({
            let new = ended(status, now_ms);
            &&& !new.active && new.last_activity_ms == now_ms
            &&& new.chunks_queued == status.chunks_queued
            &&& new.chunks_completed == status.chunks_completed
            &&& new.sequence_counter == status.sequence_counter
            &&& new.speech_detected_emitted == status.speech_detected_emitted
        }),
{
}

/// A transcription is complete just where as many chunks are completed as were queued. Where it is
/// not, it is looked at again up to ten times, a tenth of a second apart, and then the missing
/// chunks are reported.
pub proof fn missing_chunks_are_looked_for_ten_times(task: TranscriptionTask, attempts: nat)
    ensures
        verdict(task, attempts) is Complete <==> task.chunks_queued == task.chunks_completed,
        task.chunks_queued != task.chunks_completed && attempts < 10 ==> verdict(task, attempts) == (
        Finding::LookAgain { attempts: attempts + 1 }),
        task.chunks_completed < task.chunks_queued && attempts >= 10 ==> (
        verdict(task, attempts) matches Finding::Lost { said } && (said matches Said::ChunkLoss {
            queued,
            completed,
            lost,
            ..
        } && queued == task.chunks_queued && completed == task.chunks_completed && lost + completed
            == queued)),
        10 * VERIFICATION_PAUSE_MS == 1_000,
{
}

/// A verdict says what was found.
pub proof fn verdicts_say_what_was_found(v: Verdict)
    ensures
        v is Complete <==> v@ is Complete,
        v matches Verdict::LookAgain { attempts } ==> v@ == (Finding::LookAgain {
            attempts: attempts as nat,
        }),
        v matches Verdict::Lost(report) ==> v@ == (Finding::Lost { said: report@ }),
{
}

/// Nothing is known before the first recording; the status, the clock and the times are read as
/// they are; and a transcription is through where its input is over and all of it is completed.
pub proof fn readings_tell_what_is_known(
    fresh: TranscriptionStatus,
    status: &TranscriptionStatus,
    now_ms: u64,
    seen: (usize, bool, u64),
    elapsed: Option<u128>,
    millis: u64,
    seconds: u128,
    time: u128,
    clock: String,
    at: &Double,
    recorded: String,
    task: &TranscriptionTask,
    through: bool,
    attempts: u32,
    found: Verdict,
)
    requires
        call_ensures(TranscriptionStatus::new, (), fresh),
        call_ensures(status_snapshot_at, (status, now_ms), seen),
        call_ensures(millis_of, (elapsed,), millis),
        call_ensures(seconds_of, (elapsed,), seconds),
        call_ensures(format_time_of_day, (time,), clock),
        call_ensures(format_recording_time, (at,), recorded),
        call_ensures(TranscriptionTask::all_processed, (task,), through),
        call_ensures(verify_completion, (task, attempts), found),
    ensures
        fresh.sequence_counter == 0 && !fresh.speech_detected_emitted && !fresh.active,
        fresh.chunks_queued == 0 && fresh.chunks_completed == 0 && fresh.last_activity_ms == 0,
        seen == snapshot(*status, now_ms),
        millis == counted_millis(elapsed),
        seconds == counted_seconds(elapsed),
        clock@ == time_of_day(time as nat),
        recorded@ == recording_time(at@),
        through <==> task.input_finished && task.chunks_queued <= task.chunks_completed,
        found@ == verdict(*task, attempts as nat),
{
}

} // verus!
