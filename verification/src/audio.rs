//! Recorded audio in chunks.

use crate::double;
use crate::double::{Double, Real};
use vstd::prelude::*;

verus! {

/// Where a chunk was recorded.
#[derive(Clone, Copy, PartialEq, Eq, Structural, Debug)]
pub enum DeviceType {
    Microphone,
    System,
}

/// A stretch of recorded audio. Samples are single-precision numbers by their bit patterns; the
/// time is in seconds from the start of the recording.
#[derive(Debug)]
pub struct AudioChunk {
    pub data: Vec<u32>,
    pub sample_rate: u32,
    pub timestamp: Double,
    pub chunk_id: u64,
    pub device_type: DeviceType,
}

/// What a chunk holds.
#[verifier::ext_equal]
pub struct Audio {
    pub data: Seq<u32>,
    pub sample_rate: u32,
    pub timestamp: Double,
    pub chunk_id: u64,
    pub device_type: DeviceType,
}

impl View for AudioChunk {
    type V = Audio;

    open spec fn view(&self) -> Audio {
        Audio {
            data: self.data@,
            sample_rate: self.sample_rate,
            timestamp: self.timestamp,
            chunk_id: self.chunk_id,
            device_type: self.device_type,
        }
    }
}

/// The shortest empty transcript that is retried, in quarters of a second.
pub const RETRY_MIN_QUARTERS: u64 = 3;

/// The longest empty transcript that is retried, in seconds.
pub const RETRY_MAX_SECONDS: u64 = 12;

/// The least energy of a chunk whose empty transcript is retried: the single-precision number
/// nearest to 0.00001, as a double.
pub const RETRY_MIN_ENERGY_BITS: u64 = 0x3ee4_f8b5_8000_0000;

/// The silence behind a chunk that is retried alone, in fifths of a second.
pub const FINAL_PADDING_FIFTHS: u64 = 4;

/// The longest gap across which an empty chunk is retried with the next, in seconds.
pub const RETRY_MAX_GAP_SECONDS: u64 = 3;

/// `n` samples of silence.
pub open spec fn silence(n: nat) -> Seq<u32> {
    Seq::new(n, |i: int| 0u32)
}

/// How long a chunk lasts.
pub open spec fn seconds(a: Audio) -> Real {
    if a.sample_rate == 0 {
        double::zero()
    } else {
        double::ratio(a.data.len(), a.sample_rate as nat)
    }
}

/// When a chunk ends.
pub open spec fn end_time(a: Audio) -> Real {
    double::sum(a.timestamp@, seconds(a))
}

/// The time between the end of a chunk and the start of the next; zero where they meet or overlap.
pub open spec fn gap(first: Audio, second: Audio) -> Real {
    double::larger(double::difference(second.timestamp@, end_time(first)), double::zero())
}

/// The number of samples that fill some seconds at a rate.
pub open spec fn samples_for(time: Real, sample_rate: u32) -> nat {
    double::rounded_whole(double::multiple(time, sample_rate as nat), usize::MAX as nat)
}

/// The second chunk behind the first, with silence for the gap between them.
pub open spec fn merged(first: Audio, second: Audio) -> Audio {
    Audio {
        data: first.data + silence(samples_for(gap(first, second), first.sample_rate))
            + second.data,
        chunk_id: second.chunk_id,
        ..first
    }
}

/// A chunk with silence behind it.
pub open spec fn padded(a: Audio, padding: Real) -> Audio {
    Audio { data: a.data + silence(samples_for(padding, a.sample_rate)), ..a }
}

/// The silence behind a chunk that is retried alone.
pub open spec fn final_padding() -> Real {
    double::ratio(FINAL_PADDING_FIFTHS as nat, 5)
}

/// Whether the merged chunk can be held.
pub open spec fn can_merge(first: Audio, second: Audio) -> bool {
    first.data.len() + samples_for(gap(first, second), first.sample_rate) + second.data.len()
        <= usize::MAX
}

/// Whether the padded chunk can be held.
pub open spec fn can_pad(a: Audio, padding: Real) -> bool {
    a.data.len() + samples_for(padding, a.sample_rate) <= usize::MAX
}

/// Whether a chunk without a transcript is long enough, short enough and loud enough to be speech.
pub open spec fn is_speech_like(a: Audio, energy: Real) -> bool {
    &&& double::at_most(double::ratio(RETRY_MIN_QUARTERS as nat, 4), seconds(a))
    &&& double::at_most(seconds(a), double::whole(RETRY_MAX_SECONDS as nat))
    &&& double::at_most((Double { bits: RETRY_MIN_ENERGY_BITS })@, energy)
}

/// Whether two chunks are near enough to be transcribed as one.
pub open spec fn is_near(first: Audio, second: Audio) -> bool {
    double::at_most(gap(first, second), double::whole(RETRY_MAX_GAP_SECONDS as nat))
}

/// How long the chunk lasts, in seconds.
pub fn audio_chunk_duration_sec(chunk: &AudioChunk) -> (r: Double)
    ensures
        r@ == seconds(chunk@),
{
    if chunk.sample_rate == 0 {
        return Double { bits: 0 };
    }
    Double::divide(chunk.data.len() as u64, chunk.sample_rate as u64)
}

/// When the chunk ends.
pub fn audio_chunk_end(chunk: &AudioChunk) -> (r: Double)
    ensures
        r@ == end_time(chunk@),
{
    chunk.timestamp.plus(&audio_chunk_duration_sec(chunk))
}

/// The seconds between the end of the first chunk and the start of the second.
pub fn audio_gap_sec(first: &AudioChunk, second: &AudioChunk) -> (r: Double)
    ensures
        r@ == gap(first@, second@),
{
    second.timestamp.minus(&audio_chunk_end(first)).max(&Double { bits: 0 })
}

/// Whether an empty transcript of the chunk is worth another try, given the chunk's energy.
pub fn should_retry_empty_transcript(chunk: &AudioChunk, energy: &Double) -> (r: bool)
    ensures
        r == is_speech_like(chunk@, energy@),
{
    let duration = audio_chunk_duration_sec(chunk);
    let least = Double { bits: RETRY_MIN_ENERGY_BITS };
    Double::divide(RETRY_MIN_QUARTERS, 4).le(&duration) && duration.le(
        &Double::from_whole(RETRY_MAX_SECONDS),
    ) && least.le(energy)
}

/// Whether the chunk that came out empty is retried together with the next one.
pub fn should_merge_empty_retry_with_next(pending: &AudioChunk, next: &AudioChunk) -> (r: bool)
    ensures
        r == is_near(pending@, next@),
{
    audio_gap_sec(pending, next).le(&Double::from_whole(RETRY_MAX_GAP_SECONDS))
}

/// The number of samples that fill some seconds at the rate.
fn sample_count(time: &Double, sample_rate: u32) -> (r: usize)
    ensures
        r == samples_for(time@, sample_rate),
{
    time.times(sample_rate).round_within(usize::MAX as u64) as usize
}

/// Puts silence behind the samples.
fn push_silence(data: &mut Vec<u32>, n: usize)
    requires
        old(data)@.len() + n <= usize::MAX,
    ensures
        final(data)@ == old(data)@ + silence(n as nat),
{
    let ghost before = data@;
    let mut i: usize = 0;
    while i < n
        invariant
            i <= n,
            data@ == before + silence(i as nat),
        decreases n - i,
    {
        data.push(0);
        i += 1;
        assert(data@ =~= before + silence(i as nat));
    }
}

/// Whether the first chunk, silence up to the second, and `n` samples can be held as one chunk.
pub fn fits_merged(first: &AudioChunk, second: &AudioChunk, n: usize) -> (r: bool)
    ensures
        r == (first.data@.len() + samples_for(gap(first@, second@), first.sample_rate) + n
            <= usize::MAX),
{
    let silent: usize = sample_count(&audio_gap_sec(first, second), first.sample_rate);
    match first.data.len().checked_add(silent) {
        Some(m) => match m.checked_add(n) {
            Some(_) => true,
            None => false,
        },
        None => false,
    }
}

/// Whether the chunk can be held with silence behind it.
pub fn fits_padded(chunk: &AudioChunk, padding_sec: &Double) -> (r: bool)
    ensures
        r == can_pad(chunk@, padding_sec@),
{
    match chunk.data.len().checked_add(sample_count(padding_sec, chunk.sample_rate)) {
        Some(_) => true,
        None => false,
    }
}

/// One chunk of both: the first, silence for the gap, and the second. It keeps the time of the
/// first and takes the identifier of the second. Both are sampled at the same rate.
pub fn merge_audio_chunks(first: AudioChunk, second: AudioChunk) -> (r: AudioChunk)
    requires
        first.sample_rate == second.sample_rate,
        can_merge(first@, second@),
    ensures
        r@ == merged(first@, second@),
{
    let silent: usize = sample_count(&audio_gap_sec(&first, &second), first.sample_rate);
    let mut data: Vec<u32> = first.data;
    let mut rest: Vec<u32> = second.data;
    push_silence(&mut data, silent);
    data.append(&mut rest);
    AudioChunk {
        data,
        sample_rate: first.sample_rate,
        timestamp: first.timestamp,
        chunk_id: second.chunk_id,
        device_type: first.device_type,
    }
}

/// The chunk with silence behind it.
pub fn pad_audio_chunk(chunk: AudioChunk, padding_sec: &Double) -> (r: AudioChunk)
    requires
        can_pad(chunk@, padding_sec@),
    ensures
        r@ == padded(chunk@, padding_sec@),
{
    let n: usize = sample_count(padding_sec, chunk.sample_rate);
    let mut data: Vec<u32> = chunk.data;
    push_silence(&mut data, n);
    AudioChunk {
        data,
        sample_rate: chunk.sample_rate,
        timestamp: chunk.timestamp,
        chunk_id: chunk.chunk_id,
        device_type: chunk.device_type,
    }
}

/// The silence that is put behind a chunk that is retried alone.
pub fn final_padding_sec() -> (r: Double)
    ensures
        r@ == final_padding(),
{
    Double::divide(FINAL_PADDING_FIFTHS, 5)
}

/// The chunk with its samples at another rate.
pub fn with_samples(chunk: AudioChunk, data: Vec<u32>, sample_rate: u32) -> (r: AudioChunk)
    ensures
        r@ == (Audio { data: data@, sample_rate, ..chunk@ }),
{
    AudioChunk {
        data,
        sample_rate,
        timestamp: chunk.timestamp,
        chunk_id: chunk.chunk_id,
        device_type: chunk.device_type,
    }
}

/// Merging loses no sample: the first chunk's samples stay where they were, silence follows, and
/// the second chunk's samples come last, in order.
pub proof fn merging_keeps_both_chunks(first: Audio, second: Audio)
    ensures
        merged(first, second).timestamp == first.timestamp,
        merged(first, second).sample_rate == first.sample_rate,
        merged(first, second).data.take(first.data.len() as int) == first.data,
        merged(first, second).data.skip(merged(first, second).data.len() - second.data.len())
            == second.data,
        forall|i: int|
            first.data.len() <= i < merged(first, second).data.len() - second.data.len()
                ==> #[trigger] merged(first, second).data[i] == 0,
{
    let m = merged(first, second);
    assert(m.data.take(first.data.len() as int) =~= first.data);
    assert(m.data.skip(m.data.len() - second.data.len()) =~= second.data);
}

/// Padding adds silence behind a chunk and leaves its time and its samples as they are.
pub proof fn padding_only_adds_silence(a: Audio, padding: Real)
    ensures
        padded(a, padding).timestamp == a.timestamp,
        padded(a, padding).chunk_id == a.chunk_id,
        padded(a, padding).data.take(a.data.len() as int) == a.data,
        forall|i: int|
            a.data.len() <= i < padded(a, padding).data.len() ==> #[trigger] padded(
                a,
                padding,
            ).data[i] == 0,
{
    assert(padded(a, padding).data.take(a.data.len() as int) =~= a.data);
}

/// A chunk that starts no later than the one before it ends leaves no gap.
pub proof fn overlapping_chunks_leave_no_gap(first: Audio, second: Audio)
    requires
        double::at_most(second.timestamp@, end_time(first)),
    ensures
        gap(first, second) == double::zero(),
{
    double::difference_has_sign(second.timestamp@, end_time(first));
}

/// A chunk lasts as long as its samples take at its rate, and ends that much after its start; one
/// without a rate takes no time.
pub proof fn chunks_last_as_long_as_their_samples(a: Audio)
    ensures
        a.sample_rate > 0 ==> seconds(a) == double::ratio(a.data.len(), a.sample_rate as nat),
        a.sample_rate == 0 ==> seconds(a) == (Real::Finite { units: 0 }),
        a.sample_rate > 0 ==> end_time(a) == double::sum(
            a.timestamp@,
            double::ratio(a.data.len(), a.sample_rate as nat),
        ),
        a.sample_rate == 0 ==> end_time(a) == double::sum(a.timestamp@, Real::Finite { units: 0 }),
{
}

/// The gap between two chunks is the difference of the start of the second and the end of the
/// first where that is positive, and zero where it is not.
pub proof fn gaps_are_what_lies_between(first: Audio, second: Audio)
    ensures
        ({
            let between = double::difference(
                second.timestamp@,
                double::sum(first.timestamp@, seconds(first)),
            );
            &&& double::less(double::zero(), between) ==> gap(first, second) == between
            &&& !double::less(double::zero(), between) ==> gap(first, second) == double::zero()
        }),
{
}

/// A merged chunk has the time, the rate and the device of the first chunk, the identifier of the
/// second, and as much silence between them as the gap takes at that rate.
pub proof fn merged_chunks_are_first_silence_second(first: Audio, second: Audio)
    ensures
        ({
            let m = merged(first, second);
            &&& m.timestamp == first.timestamp
            &&& m.sample_rate == first.sample_rate
            &&& m.device_type == first.device_type
            &&& m.chunk_id == second.chunk_id
            &&& m.data.len() == first.data.len() + second.data.len() + double::rounded_whole(
                double::multiple(gap(first, second), first.sample_rate as nat),
                usize::MAX as nat,
            )
        }),
{
}

/// A padded chunk keeps all but the silence behind it, which takes the padding at its rate.
pub proof fn padded_chunks_grow_by_the_padding(a: Audio, padding: Real)
    ensures
        ({
            let p = padded(a, padding);
            &&& p.sample_rate == a.sample_rate
            &&& p.device_type == a.device_type
            &&& p.chunk_id == a.chunk_id
            &&& p.timestamp == a.timestamp
            &&& p.data.len() == a.data.len() + double::rounded_whole(
                double::multiple(padding, a.sample_rate as nat),
                usize::MAX as nat,
            )
        }),
        final_padding() == double::ratio(4, 5),
{
}

/// An empty transcript is worth another try just where the chunk lasts from three quarters of a
/// second to twelve seconds and is loud enough.
pub proof fn speech_lasts_long_enough(a: Audio, energy: Real)
    ensures
        is_speech_like(a, energy) <==> !double::less(seconds(a), double::ratio(3, 4))
            && !double::less(double::whole(12), seconds(a)) && !double::less(
            energy,
            (Double { bits: 0x3ee4_f8b5_8000_0000 })@,
        ) && energy != Real::NotANumber && seconds(a) != Real::NotANumber,
{
    lemma_numbers();
}

proof fn lemma_numbers()
    ensures
        double::ratio(3, 4) is Finite,
        double::whole(12) != Real::NotANumber,
        (Double { bits: 0x3ee4_f8b5_8000_0000 })@ is Finite,
{
}

/// Two chunks are transcribed as one just where no more than three seconds lie between them.
pub proof fn near_chunks_have_short_gaps(first: Audio, second: Audio)
    ensures
        is_near(first, second) <==> gap(first, second) != Real::NotANumber && !double::less(
            double::whole(3),
            gap(first, second),
        ),
        double::at_most(second.timestamp@, end_time(first)) ==> is_near(first, second),
{
    double::difference_has_sign(second.timestamp@, end_time(first));
    assert(double::whole(3) != Real::NotANumber);
}

/// What a chunk holds are its fields.
pub proof fn chunks_show_their_fields(chunk: AudioChunk)
    ensures
        chunk@.data == chunk.data@,
        chunk@.sample_rate == chunk.sample_rate,
        chunk@.timestamp == chunk.timestamp,
        chunk@.chunk_id == chunk.chunk_id,
        chunk@.device_type == chunk.device_type,
{
}

/// Chunks are measured and put together as they last.
pub proof fn chunks_are_measured(
    chunk: &AudioChunk,
    duration: Double,
    end: Double,
    second: &AudioChunk,
    between: Double,
    energy: &Double,
    speech: bool,
    near: bool,
)
    requires
        call_ensures(audio_chunk_duration_sec, (chunk,), duration),
        call_ensures(audio_chunk_end, (chunk,), end),
        call_ensures(audio_gap_sec, (chunk, second), between),
        call_ensures(should_retry_empty_transcript, (chunk, energy), speech),
        call_ensures(should_merge_empty_retry_with_next, (chunk, second), near),
    ensures
        duration@ == seconds(chunk@),
        end@ == double::sum(chunk.timestamp@, duration@),
        between@ == double::larger(double::difference(second.timestamp@, end@), double::zero()),
        speech == is_speech_like(chunk@, energy@),
        near <==> double::at_most(between@, double::whole(3)),
{
}

/// A chunk of so many times its rate in samples lasts so many seconds, and ends so many seconds
/// after it starts; the gap to a chunk that starts later is what is left, filled by so many times
/// the rate in samples of silence.
#[verifier::spinoff_prover]
pub proof fn whole_seconds_are_counted_in_samples(a: Audio, b: Audio, start: nat, n: nat, k: nat)
    requires
        a.sample_rate > 0,
        a.data.len() == n * a.sample_rate,
        a.timestamp@ == double::whole(start),
        b.timestamp@ == double::whole(start + n + k),
        n * a.sample_rate < double::LIMIT,
        k * a.sample_rate < double::LIMIT,
        start + n + k < double::LIMIT,
    ensures
        seconds(a) == double::whole(n),
        end_time(a) == double::whole(start + n),
        gap(a, b) == double::whole(k),
        k * a.sample_rate <= usize::MAX ==> samples_for(gap(a, b), a.sample_rate) == k
            * a.sample_rate,
        is_near(a, b) <==> k <= 3,
{
    let rate = a.sample_rate as nat;
    assert(n <= n * rate) by (nonlinear_arith)
        requires
            rate >= 1,
    ;
    assert(k <= k * rate) by (nonlinear_arith)
        requires
            rate >= 1,
    ;
    double::whole_numbers_are_exact(n, rate);
    double::whole_numbers_add_up(start, n);
    double::whole_numbers_add_up(start + n, k);
    double::whole_numbers_add_up(0, k);
    double::whole_numbers_are_exact(k, rate);
    double::whole_numbers_are_exact(k * rate, 1);
    if k <= 3 {
        double::whole_numbers_add_up(k, (3 - k) as nat);
    } else {
        double::whole_numbers_add_up(3, (k - 3) as nat);
    }
}

} // verus!
