//! Audio streams: which way a device is captured, and how its samples come in.

use crate::audio::DeviceType;
use crate::bytes;
use crate::models;
use crate::text;
use vstd::prelude::*;
use vstd::string::*;

verus! {

/// The rate at which system audio is captured through PipeWire.
pub const PIPEWIRE_SYSTEM_SAMPLE_RATE: u32 = 48_000;

/// The channels in which system audio is captured through PipeWire.
pub const PIPEWIRE_SYSTEM_CHANNELS: u16 = 2;

/// How many bytes are read from PipeWire at once.
pub const PIPEWIRE_READ_BUFFER_BYTES: usize = 16_384;

/// How many samples of Core Audio are passed on at once.
pub const CORE_AUDIO_FRAMES_PER_CHUNK: usize = 1_024;

/// The channels of the Core Audio tap.
pub const CORE_AUDIO_CHANNELS: u16 = 1;

/// The system that the program runs on.
#[derive(Clone, Copy, PartialEq, Eq, Structural, Debug)]
pub enum Platform {
    MacOs,
    Linux,
    Other,
}

/// The way in which the user wants system audio to be captured on macOS.
#[derive(Clone, Copy, PartialEq, Eq, Structural, Debug)]
pub enum AudioCaptureBackend {
    ScreenCaptureKit,
    CoreAudio,
}

/// The way in which a device is captured.
#[derive(Clone, Copy, PartialEq, Eq, Structural, Debug)]
pub enum StreamBackend {
    Cpal,
    PipeWire,
    CoreAudio,
}

/// The way in which a device is captured first: a microphone always through CPAL, system audio
/// through PipeWire on Linux and, where the user wants that, through Core Audio on macOS.
pub fn create_with_backend(
    platform: Platform,
    device_type: DeviceType,
    backend_type: AudioCaptureBackend,
) -> (r: StreamBackend)
    ensures
        r == match (device_type, platform) {
            (DeviceType::System, Platform::Linux) => StreamBackend::PipeWire,
            (DeviceType::System, Platform::MacOs) => if backend_type
                == AudioCaptureBackend::CoreAudio {
                StreamBackend::CoreAudio
            } else {
                StreamBackend::Cpal
            },
            _ => StreamBackend::Cpal,
        },
{
    match (device_type, platform) {
        (DeviceType::System, Platform::Linux) => StreamBackend::PipeWire,
        (DeviceType::System, Platform::MacOs) => match backend_type {
            AudioCaptureBackend::CoreAudio => StreamBackend::CoreAudio,
            AudioCaptureBackend::ScreenCaptureKit => StreamBackend::Cpal,
        },
        _ => StreamBackend::Cpal,
    }
}

/// The way in which a device is captured where another way failed, if there is one.
pub fn fallback_backend(failed: StreamBackend) -> (r: Option<StreamBackend>)
    ensures
        r == if failed == StreamBackend::PipeWire {
            Some(StreamBackend::Cpal)
        } else {
            None
        },
{
    match failed {
        StreamBackend::PipeWire => Some(StreamBackend::Cpal),
        _ => None,
    }
}

// PipeWire.

/// The name of a device without the mark of system audio.
pub open spec fn cleaned_name(device_name: Seq<char>) -> Seq<char> {
    let name = text::trimmed(device_name);
    let mark = " (System Audio)"@;
    if mark.is_suffix_of(name) {
        text::trimmed(name.take(name.len() - mark.len()))
    } else {
        text::trimmed(name)
    }
}

/// The source that follows from the user's word or the device's name alone: what the user says,
/// a monitor as it is, and the monitor of a sink.
pub open spec fn named_target(configured: Option<Seq<char>>, device_name: Seq<char>) -> Option<
    Seq<char>,
> {
    let name = cleaned_name(device_name);
    if configured matches Some(target) && !text::is_blank(target) {
        Some(text::trimmed(configured->0))
    } else if ".monitor"@.is_suffix_of(name) {
        Some(name)
    } else if "alsa_output."@.is_prefix_of(name) {
        Some(name + ".monitor"@)
    } else {
        None
    }
}

/// The source that follows from the system's default sink.
pub open spec fn default_target(default_sink: Option<Seq<char>>) -> Option<Seq<char>> {
    match default_sink {
        Some(sink) => if text::is_blank(sink) {
            None
        } else {
            Some(text::trimmed(sink) + ".monitor"@)
        },
        None => None,
    }
}

/// The name of the device without the mark of system audio.
fn clean_name(device_name: &str) -> (r: &str)
    ensures
        r@ == cleaned_name(device_name@),
{
    let name = text::trim(device_name);
    match text::strip_suffix(name, " (System Audio)") {
        Some(rest) => text::trim(rest),
        None => text::trim(name),
    }
}

/// The monitor of a sink.
fn monitor_of(sink: &str) -> (r: String)
    ensures
        r@ == sink@ + ".monitor"@,
{
    let mut r = sink.to_owned();
    r.append(".monitor");
    r
}

/// The source that follows from the user's word or the device's name alone. Where there is none,
/// the system's default sink has to be asked for.
pub fn pipewire_target_by_name(configured: Option<&str>, device_name: &str) -> (r: Option<String>)
    ensures
        models::text_view(r) == named_target(models::str_view(configured), device_name@),
{
    if let Some(target) = configured {
        if !text::is_blank_text(target) {
            return Some(text::trim(target).to_owned());
        }
    }
    let name = clean_name(device_name);
    if text::ends_with(name, ".monitor") {
        return Some(name.to_owned());
    }
    if text::starts_with(name, "alsa_output.") {
        return Some(monitor_of(name));
    }
    None
}

/// The source from which PipeWire captures what a device plays.
pub fn resolve_pipewire_monitor_target(
    configured: Option<&str>,
    device_name: &str,
    default_sink: Option<&str>,
) -> (r: Result<String, String>)
    ensures
        match named_target(models::str_view(configured), device_name@) {
            Some(target) => r matches Ok(t) && t@ == target,
            None => match default_target(models::str_view(default_sink)) {
                Some(target) => r matches Ok(t) && t@ == target,
                None => r matches Err(e) && e@ == "Could not resolve PipeWire monitor target for '"@
                    + device_name@ + "'"@,
            },
        },
{
    if let Some(target) = pipewire_target_by_name(configured, device_name) {
        return Ok(target);
    }
    if let Some(sink) = default_sink {
        if !text::is_blank_text(sink) {
            return Ok(monitor_of(text::trim(sink)));
        }
    }
    let mut message = "Could not resolve PipeWire monitor target for '".to_owned();
    message.append(device_name);
    message.append("'");
    Err(message)
}

/// The words after `pw-record` that capture a source to the standard output.
pub open spec fn capture_words(target: Seq<char>) -> Seq<Seq<char>> {
    seq![
        "--format"@,
        "f32"@,
        "--rate"@,
        text::numeral(PIPEWIRE_SYSTEM_SAMPLE_RATE as nat),
        "--channels"@,
        text::numeral(PIPEWIRE_SYSTEM_CHANNELS as nat),
        "--latency"@,
        "50ms"@,
        "--target"@,
        target,
        "-"@,
    ]
}

/// The number in decimal.
fn decimal(n: u64) -> (r: String)
    ensures
        r@ == text::numeral(n as nat),
{
    let mut r = String::new();
    text::push_number(&mut r, n);
    assert(r@ =~= text::numeral(n as nat));
    r
}

/// The words after `pw-record` that capture a source to the standard output.
pub fn pipewire_arguments(target: &str) -> (r: Vec<String>)
    ensures
        models::texts_of(r@) == capture_words(target@),
{
    let mut r: Vec<String> = Vec::new();
    r.push("--format".to_owned());
    r.push("f32".to_owned());
    r.push("--rate".to_owned());
    r.push(decimal(PIPEWIRE_SYSTEM_SAMPLE_RATE as u64));
    r.push("--channels".to_owned());
    r.push(decimal(PIPEWIRE_SYSTEM_CHANNELS as u64));
    r.push("--latency".to_owned());
    r.push("50ms".to_owned());
    r.push("--target".to_owned());
    r.push(target.to_owned());
    r.push("-".to_owned());
    assert(models::texts_of(r@) =~= capture_words(target@));
    r
}

/// The bytes that came from PipeWire and make no whole sample yet.
pub struct PipeWireReader {
    pub pending_bytes: Vec<u8>,
}

impl PipeWireReader {
    /// Nothing came yet.
    pub fn new() -> (r: PipeWireReader)
        ensures
            r.pending_bytes@.len() == 0,
    {
        PipeWireReader { pending_bytes: Vec::new() }
    }

    /// Takes bytes and gives the samples that they complete, if there are any to pass on; what is
    /// left over waits.
    pub fn read(&mut self, bytes: &[u8]) -> (r: Option<Vec<u32>>)
        ensures
            match r {
                Some(samples) => samples@.len() > 0 && samples@ == bytes::numbers_of(
                    old(self).pending_bytes@ + bytes@,
                ),
                None => bytes::numbers_of(old(self).pending_bytes@ + bytes@).len() == 0,
            },
            final(self).pending_bytes@ == bytes::left_over(old(self).pending_bytes@ + bytes@),
    {
        let ghost all = self.pending_bytes@ + bytes@;
        let mut joined: Vec<u8> = Vec::new();
        joined.append(&mut self.pending_bytes);
        joined.extend_from_slice(bytes);
        assert(joined@ =~= all);
        let samples: Vec<u32> = bytes::bytes_to_f32_vec(&joined);
        let aligned: usize = joined.len() - joined.len() % 4;
        self.pending_bytes = joined.split_off(aligned);
        assert(self.pending_bytes@ =~= bytes::left_over(all));
        if samples.len() > 0 {
            Some(samples)
        } else {
            None
        }
    }
}

// Core Audio.

/// The samples of Core Audio that were not passed on yet.
pub struct SampleBuffer {
    pub buffer: Vec<u32>,
}

impl SampleBuffer {
    /// Nothing came yet.
    pub fn new() -> (r: SampleBuffer)
        ensures
            r.buffer@.len() == 0,
    {
        SampleBuffer { buffer: Vec::new() }
    }

    /// Takes a sample, and gives those to pass on when there are enough.
    pub fn push(&mut self, sample: u32) -> (r: Option<Vec<u32>>)
        ensures
            match r {
                Some(samples) => {
                    &&& samples@.len() >= CORE_AUDIO_FRAMES_PER_CHUNK
                    &&& samples@ == old(self).buffer@.push(sample)
                    &&& final(self).buffer@.len() == 0
                },
                None => {
                    &&& final(self).buffer@.len() < CORE_AUDIO_FRAMES_PER_CHUNK
                    &&& final(self).buffer@ == old(self).buffer@.push(sample)
                },
            },
    {
        self.buffer.push(sample);
        if self.buffer.len() >= CORE_AUDIO_FRAMES_PER_CHUNK {
            let mut samples: Vec<u32> = Vec::new();
            samples.append(&mut self.buffer);
            Some(samples)
        } else {
            None
        }
    }

    /// The samples that are left when the stream ends, if any are.
    pub fn finish(self) -> (r: Option<Vec<u32>>)
        ensures
            match r {
                Some(samples) => samples == self.buffer && self.buffer@.len() > 0,
                None => self.buffer@.len() == 0,
            },
    {
        if self.buffer.len() > 0 {
            Some(self.buffer)
        } else {
            None
        }
    }
}

// CPAL.

/// The form in which CPAL gives samples.
#[derive(Clone, Copy, PartialEq, Eq, Structural, Debug)]
pub enum SampleFormat {
    F32,
    I16,
    I32,
    I8,
    Other,
}

/// Whether a stream can be built for samples of the form that goes by the name.
pub fn build_stream(format: SampleFormat, name: &str) -> (r: Result<(), String>)
    ensures
        match r {
            Ok(_) => format != SampleFormat::Other,
            Err(e) => format == SampleFormat::Other && e@ == "Unsupported sample format: "@ + name@,
        },
{
    match format {
        SampleFormat::Other => {
            let mut message = "Unsupported sample format: ".to_owned();
            message.append(name);
            Err(message)
        },
        _ => Ok(()),
    }
}

// Both streams.

/// The reasons for which streams could not be stopped, in order.
pub open spec fn reasons(outcomes: Seq<Result<(), String>>) -> Seq<Seq<char>>
    decreases outcomes.len(),
{
    if outcomes.len() == 0 {
        Seq::empty()
    } else {
        match outcomes.last() {
            Ok(_) => reasons(outcomes.drop_last()),
            Err(e) => reasons(outcomes.drop_last()).push(e@),
        }
    }
}

/// Texts one after the other, with a comma and a space between.
pub open spec fn listed(texts: Seq<Seq<char>>) -> Seq<char>
    decreases texts.len(),
{
    if texts.len() == 0 {
        Seq::empty()
    } else if texts.len() == 1 {
        texts[0]
    } else {
        listed(texts.drop_last()) + ", "@ + texts.last()
    }
}

/// What stopping came to: an error where a stream could not be stopped, with all the reasons.
pub open spec fn stopping(outcomes: Seq<Result<(), String>>) -> Result<(), Seq<char>> {
    if reasons(outcomes).len() == 0 {
        Ok(())
    } else {
        Err("Failed to stop some streams: ["@ + listed(reasons(outcomes)) + "]"@)
    }
}

/// What stopping came to, from what came of each stream.
pub fn stop_result(outcomes: &[Result<(), String>]) -> (r: Result<(), String>)
    ensures
        match stopping(outcomes@) {
            Ok(_) => r is Ok,
            Err(message) => r matches Err(e) && e@ == message,
        },
{
    let mut list = String::new();
    let mut failed: bool = false;
    let mut i: usize = 0;
    assert(list@ =~= Seq::<char>::empty());
    while i < outcomes.len()
        invariant
            i <= outcomes@.len(),
            failed == (reasons(outcomes@.take(i as int)).len() > 0),
            list@ == listed(reasons(outcomes@.take(i as int))),
        decreases outcomes@.len() - i,
    {
        let ghost before = reasons(outcomes@.take(i as int));
        assert(outcomes@.take(i + 1).drop_last() =~= outcomes@.take(i as int));
        if let Err(e) = &outcomes[i] {
            assert(before.push(e@).drop_last() =~= before);
            if failed {
                list.append(", ");
            }
            list.append(e.as_str());
            failed = true;
            assert(list@ =~= listed(before.push(e@)));
        }
        i += 1;
    }
    assert(outcomes@.take(i as int) =~= outcomes@);
    if failed {
        let mut message = "Failed to stop some streams: [".to_owned();
        message.append(list.as_str());
        message.append("]");
        Err(message)
    } else {
        Ok(())
    }
}

/// Stopping succeeds exactly if every stream could be stopped.
pub proof fn stopping_succeeds_where_all_stop(outcomes: Seq<Result<(), String>>)
    ensures
        stopping(outcomes) is Ok <==> forall|i: int|
            0 <= i < outcomes.len() ==> (#[trigger] outcomes[i]) is Ok,
    decreases outcomes.len(),
{
    if outcomes.len() > 0 {
        let head = outcomes.drop_last();
        stopping_succeeds_where_all_stop(head);
        assert(forall|i: int| 0 <= i < head.len() ==> head[i] == outcomes[i]);
        assert(outcomes[outcomes.len() - 1] == outcomes.last());
        if forall|i: int| 0 <= i < outcomes.len() ==> (#[trigger] outcomes[i]) is Ok {
            assert(forall|i: int| 0 <= i < head.len() ==> (#[trigger] head[i]) is Ok);
        }
        if stopping(outcomes) is Ok {
            assert forall|i: int| 0 <= i < outcomes.len() implies (#[trigger] outcomes[i]) is Ok by {
                if i < head.len() {
                    assert(head[i] is Ok);
                }
            }
        }
    }
}

/// Once streams were stopped none is left, whatever came of it: stopping again stops nothing, and
/// succeeds.
pub proof fn stopping_again_stops_nothing<S>(after: AudioStreamManager<S>)
    requires
        after.microphone_stream is None,
        after.system_stream is None,
    ensures
        after.streams().len() == 0,
        stopping(Seq::empty()) is Ok,
{
}

/// The streams of a recording.
pub struct AudioStreamManager<S> {
    pub microphone_stream: Option<S>,
    pub system_stream: Option<S>,
}

impl<S> AudioStreamManager<S> {
    /// No stream was started.
    pub fn new() -> (r: AudioStreamManager<S>)
        ensures
            r.microphone_stream is None,
            r.system_stream is None,
    {
        AudioStreamManager { microphone_stream: None, system_stream: None }
    }

    /// Takes the stream of the microphone. Without it the recording does not start.
    pub fn microphone_created(&mut self, outcome: Result<S, String>) -> (r: Result<(), String>)
        ensures
            final(self).system_stream == old(self).system_stream,
            match outcome {
                Ok(stream) => r is Ok && final(self).microphone_stream == Some(stream),
                Err(e) => r == Err::<(), String>(e) && final(self).microphone_stream == old(
                    self,
                ).microphone_stream,
            },
    {
        match outcome {
            Ok(stream) => {
                self.microphone_stream = Some(stream);
                Ok(())
            },
            Err(e) => Err(e),
        }
    }

    /// Takes the stream of the system. The recording starts without it; then the reason is given.
    pub fn system_created(&mut self, outcome: Result<S, String>) -> (r: Option<String>)
        ensures
            final(self).microphone_stream == old(self).microphone_stream,
            match outcome {
                Ok(stream) => r is None && final(self).system_stream == Some(stream),
                Err(e) => r == Some(e) && final(self).system_stream == old(self).system_stream,
            },
    {
        match outcome {
            Ok(stream) => {
                self.system_stream = Some(stream);
                None
            },
            Err(e) => Some(e),
        }
    }

    /// Whether the recording can start: there is a stream.
    pub fn start_streams(&self) -> (r: Result<(), String>)
        ensures
            match r {
                Ok(_) => self.microphone_stream is Some || self.system_stream is Some,
                Err(e) => self.microphone_stream is None && self.system_stream is None && e@
                    == "No audio streams could be created"@,
            },
    {
        if self.has_active_streams() {
            Ok(())
        } else {
            Err("No audio streams could be created".to_owned())
        }
    }

    /// The streams, the microphone's first.
    pub open spec fn streams(self) -> Seq<S> {
        match (self.microphone_stream, self.system_stream) {
            (Some(microphone), Some(system)) => seq![microphone, system],
            (Some(microphone), None) => seq![microphone],
            (None, Some(system)) => seq![system],
            (None, None) => Seq::empty(),
        }
    }

    /// Hands the streams out, each to be stopped whatever comes of the others, the microphone's
    /// first. None is left.
    pub fn stop_streams(&mut self) -> (r: Vec<S>)
        ensures
            final(self).microphone_stream is None,
            final(self).system_stream is None,
            r@ == old(self).streams(),
    {
        let mut r: Vec<S> = Vec::new();
        if let Some(stream) = self.microphone_stream.take() {
            r.push(stream);
        }
        if let Some(stream) = self.system_stream.take() {
            r.push(stream);
        }
        r
    }

    /// The number of streams.
    pub fn active_stream_count(&self) -> (r: usize)
        ensures
            r == (if self.microphone_stream is Some {
                1int
            } else {
                0int
            }) + (if self.system_stream is Some {
                1int
            } else {
                0int
            }),
    {
        let mut count: usize = 0;
        if self.microphone_stream.is_some() {
            count += 1;
        }
        if self.system_stream.is_some() {
            count += 1;
        }
        count
    }

    /// Whether there is a stream.
    pub fn has_active_streams(&self) -> (r: bool)
        ensures
            r == (self.microphone_stream is Some || self.system_stream is Some),
    {
        self.microphone_stream.is_some() || self.system_stream.is_some()
    }
}

/// A device is known by its name without the mark of system audio and without whitespace around
/// it.
#[verifier::spinoff_prover]
pub proof fn device_names_lose_their_mark(device_name: Seq<char>, base: Seq<char>)
    ensures
        text::trimmed(device_name) == base + " (System Audio)"@ ==> cleaned_name(device_name)
            == text::trimmed(base),
        !" (System Audio)"@.is_suffix_of(text::trimmed(device_name)) ==> cleaned_name(device_name)
            == text::trimmed(device_name),
{
    let name = text::trimmed(device_name);
    let mark = " (System Audio)"@;
    if name == base + mark {
        assert(name.take(name.len() - mark.len()) =~= base);
        assert(mark.is_suffix_of(name)) by {
            assert(name.subrange(name.len() - mark.len(), name.len() as int) =~= mark);
        }
    }
    if !mark.is_suffix_of(name) {
        text::trimming_twice_is_trimming_once(device_name);
    }
}

/// A configured target is taken where it is not blank. Else a device that is a monitor is its own
/// target, and one that is an output is heard by its monitor; any other has no target by name.
pub proof fn targets_are_monitors(configured: Option<Seq<char>>, device_name: Seq<char>)
    ensures
        configured matches Some(target) ==> (!text::is_blank(target) ==> named_target(
            configured,
            device_name,
        ) == Some(text::trimmed(target))),
        configured is None || text::is_blank(configured->0) ==> {
            let name = cleaned_name(device_name);
            &&& ".monitor"@.is_suffix_of(name) ==> named_target(configured, device_name) == Some(name)
            &&& !".monitor"@.is_suffix_of(name) && "alsa_output."@.is_prefix_of(name)
                ==> named_target(configured, device_name) == Some(name + ".monitor"@)
            &&& !".monitor"@.is_suffix_of(name) && !"alsa_output."@.is_prefix_of(name)
                ==> named_target(configured, device_name) is None
        },
        configured is None || text::is_blank(configured->0) ==> default_target(configured) is None,
        configured matches Some(sink) ==> (!text::is_blank(sink) ==> default_target(configured)
            == Some(text::trimmed(sink) + ".monitor"@)),
{
}

/// The recorder is told to write raw floats at forty-eight thousand samples a second on two
/// channels, from the target to its output.
pub proof fn the_recorder_is_told_format_and_target(target: Seq<char>)
    ensures
        capture_words(target).len() == 11,
        capture_words(target)[0] == "--format"@ && capture_words(target)[1] == "f32"@,
        capture_words(target)[2] == "--rate"@ && capture_words(target)[3] == text::numeral(48_000),
        capture_words(target)[4] == "--channels"@ && capture_words(target)[5] == text::numeral(2),
        capture_words(target)[6] == "--latency"@ && capture_words(target)[7] == "50ms"@,
        capture_words(target)[8] == "--target"@ && capture_words(target)[9] == target,
        capture_words(target)[10] == "-"@,
        PIPEWIRE_READ_BUFFER_BYTES == 16 * 1_024,
        CORE_AUDIO_FRAMES_PER_CHUNK == 1_024,
        CORE_AUDIO_CHANNELS == 1,
{
}

/// Each stream that could not be stopped adds its reason, in the order of the streams, and the
/// reasons are told in brackets with commas between them.
#[verifier::spinoff_prover]
pub proof fn every_reason_is_told(
    outcomes: Seq<Result<(), String>>,
    more: Result<(), String>,
    texts: Seq<Seq<char>>,
    t: Seq<char>,
)
    ensures
        more is Ok ==> reasons(outcomes.push(more)) == reasons(outcomes),
        more matches Err(e) ==> reasons(outcomes.push(more)) == reasons(outcomes).push(e@),
        reasons(Seq::empty()) == Seq::<Seq<char>>::empty(),
        listed(seq![t]) == t,
        texts.len() > 0 ==> listed(texts.push(t)) == listed(texts) + ", "@ + t,
        reasons(outcomes).len() > 0 ==> stopping(outcomes) == Err::<(), Seq<char>>(
            "Failed to stop some streams: ["@ + listed(reasons(outcomes)) + "]"@,
        ),
        reasons(outcomes).len() == 0 ==> stopping(outcomes) == Ok::<(), Seq<char>>(()),
{
    assert(outcomes.push(more).drop_last() =~= outcomes);
    assert(texts.push(t).drop_last() =~= texts);
}

/// The streams are the microphone's and then the system's, as far as they are there.
pub proof fn the_microphone_comes_first<S>(manager: AudioStreamManager<S>)
    ensures
        manager.microphone_stream matches Some(m) ==> manager.streams().len() > 0
            && manager.streams()[0] == m,
        manager.system_stream matches Some(s) ==> manager.streams().len() > 0
            && manager.streams().last() == s,
        manager.streams().len() == (if manager.microphone_stream is Some {
            1int
        } else {
            0
        }) + (if manager.system_stream is Some {
            1int
        } else {
            0
        }),
{
}

/// System audio is captured by PipeWire on Linux, by Core Audio on macOS where that was chosen, and
/// everything else by the common backend, to which only PipeWire falls back.
pub proof fn backends_follow_the_platform(
    platform: Platform,
    device_type: DeviceType,
    chosen: AudioCaptureBackend,
    r: StreamBackend,
    failed: StreamBackend,
    other: Option<StreamBackend>,
)
    requires
        call_ensures(create_with_backend, (platform, device_type, chosen), r),
        call_ensures(fallback_backend, (failed,), other),
    ensures
        r == StreamBackend::PipeWire <==> device_type == DeviceType::System && platform
            == Platform::Linux,
        r == StreamBackend::CoreAudio <==> device_type == DeviceType::System && platform
            == Platform::MacOs && chosen == AudioCaptureBackend::CoreAudio,
        failed == StreamBackend::PipeWire ==> other == Some(StreamBackend::Cpal),
        failed != StreamBackend::PipeWire ==> other is None,
{
}

/// The target is the one that the configuration or the device's name gives, else the monitor of
/// the default sink, else there is none.
#[verifier::spinoff_prover]
pub proof fn targets_go_by_name_and_default(
    configured: Option<&str>,
    device_name: &str,
    default_sink: Option<&str>,
    named: Option<String>,
    r: Result<String, String>,
    target: &str,
    words: Vec<String>,
)
    requires
        call_ensures(pipewire_target_by_name, (configured, device_name), named),
        call_ensures(resolve_pipewire_monitor_target, (configured, device_name, default_sink), r),
        call_ensures(pipewire_arguments, (target,), words),
    ensures
        models::text_view(named) == named_target(models::str_view(configured), device_name@),
        named matches Some(t) ==> (r matches Ok(found) && found@ == t@),
        named is None && default_sink is Some && !text::is_blank(default_sink->0@) ==> (
        r matches Ok(found) && found@ == text::trimmed(default_sink->0@) + ".monitor"@),
        named is None && (default_sink is None || text::is_blank(default_sink->0@)) ==> (
        r matches Err(e) && e@ == "Could not resolve PipeWire monitor target for '"@ + device_name@
            + "'"@),
        models::texts_of(words@) == capture_words(target@),
{
}

/// A stream is built for every sample format that is known, stopping fails with the reasons that
/// there are, and a recording starts where at least one stream is there.
pub proof fn streams_are_built_started_and_stopped<S>(
    format: SampleFormat,
    name: &str,
    built: Result<(), String>,
    outcomes: &[Result<(), String>],
    stopped: Result<(), String>,
    manager: &AudioStreamManager<S>,
    begun: Result<(), String>,
    count: usize,
    running: bool,
)
    requires
        call_ensures(build_stream, (format, name), built),
        call_ensures(stop_result, (outcomes,), stopped),
        call_ensures(AudioStreamManager::<S>::start_streams, (manager,), begun),
        call_ensures(AudioStreamManager::<S>::active_stream_count, (manager,), count),
        call_ensures(AudioStreamManager::<S>::has_active_streams, (manager,), running),
    ensures
        built is Err <==> format == SampleFormat::Other,
        built matches Err(e) ==> e@ == "Unsupported sample format: "@ + name@,
        stopped is Ok <==> reasons(outcomes@).len() == 0,
        stopped matches Err(e) ==> e@ == "Failed to stop some streams: ["@ + listed(
            reasons(outcomes@),
        ) + "]"@,
        begun is Ok <==> manager.streams().len() > 0,
        begun matches Err(e) ==> e@ == "No audio streams could be created"@,
        count == manager.streams().len(),
        running <==> manager.streams().len() > 0,
{
}

} // verus!
