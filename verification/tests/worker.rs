use meetily_speakers::audio::{
    audio_chunk_duration_sec, audio_gap_sec, final_padding_sec, fits_merged, fits_padded,
    merge_audio_chunks, pad_audio_chunk, should_merge_empty_retry_with_next,
    should_retry_empty_transcript, AudioChunk, DeviceType,
};
use meetily_speakers::double::Double;
use meetily_speakers::engine::{
    check_samples, needs_resampling, transcribe_chunk_with_provider, wait_for_model_loaded,
    EngineReply, ModelWait, Transcription, TranscriptionError, TranscriptionFailure,
    Untranscribed,
};
use meetily_speakers::events::{transcription_failure, Report};
use meetily_speakers::status::{
    abandon_transcription, dispatch_chunk, finish_input, finish_transcription,
    format_current_timestamp, format_recording_time, format_time_of_day,
    get_transcription_status_snapshot, mark_activity_at, mark_transcription_activity, millis_of,
    now_millis,
    reset_speech_detected_flag, seconds_of, start_transcription, status_snapshot_at, verify_completion,
    TranscriptionStatus, TranscriptionTask, Verdict,
};
use meetily_speakers::worker::{should_emit_transcript_text, Action, Event, Worker};

fn double(x: f64) -> Double {
    Double { bits: x.to_bits() }
}

fn number(d: &Double) -> f64 {
    f64::from_bits(d.bits)
}

fn chunk(chunk_id: u64, timestamp: f64, sample_rate: u32, samples: Vec<f32>) -> AudioChunk {
    AudioChunk {
        data: samples.iter().map(|s| s.to_bits()).collect(),
        sample_rate,
        timestamp: double(timestamp),
        chunk_id,
        device_type: DeviceType::Microphone,
    }
}

fn audio_chunk_energy(chunk: &AudioChunk) -> Double {
    let samples: Vec<f32> = chunk.data.iter().map(|b| f32::from_bits(*b)).collect();
    if samples.is_empty() {
        return double(0.0);
    }
    let energy = samples.iter().map(|s| s * s).sum::<f32>() / samples.len() as f32;
    double(energy as f64)
}

fn words(text: &str, confidence: Option<f32>) -> Event {
    Event::Transcribed {
        energy: double(0.01),
        outcome: Ok(Transcription {
            text: text.to_string(),
            confidence: confidence.map(|c| double(c as f64)),
            is_partial: false,
        }),
    }
}

fn failure(error: TranscriptionError, message: &str) -> Event {
    Event::Transcribed {
        energy: double(0.01),
        outcome: Err(TranscriptionFailure {
            error,
            message: message.to_string(),
        }),
    }
}

fn speech(chunk_id: u64, timestamp: f64) -> AudioChunk {
    chunk(chunk_id, timestamp, 16_000, vec![0.1; 16_000])
}

/// A worker with what is counted, as a program would run it.
struct Run {
    worker: Option<Worker>,
    task: TranscriptionTask,
    status: TranscriptionStatus,
    reports: Vec<Report>,
}

impl Run {
    fn new() -> Run {
        let mut status = TranscriptionStatus::new();
        let task = start_transcription(&mut status, 1_000);
        Run {
            worker: Some(Worker::new(0)),
            task,
            status,
            reports: Vec::new(),
        }
    }

    fn step(&mut self, event: Event) -> Action {
        let worker = self.worker.take().unwrap();
        assert!(worker.can_step(&self.task, &event));
        let done = worker.step(&mut self.task, &mut self.status, Some(3_723_000), event);
        self.worker = Some(done.worker);
        self.reports = done.reports;
        done.action
    }

    fn queue(&mut self) {
        dispatch_chunk(&mut self.task, &mut self.status, 2_000);
    }

    fn receive(&mut self, chunk: AudioChunk) {
        self.queue();
        let energy = audio_chunk_energy(&chunk);
        assert_eq!(self.step(Event::Chunk { chunk, energy }), Action::AwaitModel);
    }

    fn diagnostics(&self) -> Vec<String> {
        self.reports
            .iter()
            .filter_map(|r| match r {
                Report::Diagnostic(d) => Some(d.event.clone()),
                _ => None,
            })
            .collect()
    }
}

#[test]
fn retries_empty_transcript_for_energetic_speech_sized_chunk() {
    let audio = chunk(1, 10.0, 16_000, vec![0.1; 16_000]);

    assert!(should_retry_empty_transcript(
        &audio,
        &audio_chunk_energy(&audio)
    ));
}

#[test]
fn retries_empty_transcript_for_quiet_non_silent_tail_chunk() {
    let quiet_tail = chunk(4, 32.0, 48_000, vec![0.0033; 48_000 * 6]);

    assert!(should_retry_empty_transcript(
        &quiet_tail,
        &audio_chunk_energy(&quiet_tail)
    ));
}

#[test]
fn does_not_retry_empty_transcript_for_tiny_or_silent_chunks() {
    let tiny = chunk(1, 10.0, 16_000, vec![0.1; 2_000]);
    let silent = chunk(2, 10.0, 16_000, vec![0.0; 16_000]);

    assert!(!should_retry_empty_transcript(
        &tiny,
        &audio_chunk_energy(&tiny)
    ));
    assert!(!should_retry_empty_transcript(
        &silent,
        &audio_chunk_energy(&silent)
    ));
}

#[test]
fn emits_non_empty_transcripts_even_with_low_confidence() {
    assert!(should_emit_transcript_text("ciao", Some(double(0.01))));
    assert!(should_emit_transcript_text("ciao", None));
    assert!(!should_emit_transcript_text("   ", Some(double(0.99))));
}

#[test]
fn merge_audio_chunks_preserves_timeline_gap_and_start_time() {
    let first = chunk(10, 1.0, 16_000, vec![0.1; 16_000]);
    let second = chunk(11, 2.5, 16_000, vec![0.2; 8_000]);

    assert!(should_merge_empty_retry_with_next(&first, &second));
    let merged = merge_audio_chunks(first, second);

    assert_eq!(number(&merged.timestamp), 1.0);
    assert_eq!(merged.chunk_id, 11);
    assert_eq!(merged.sample_rate, 16_000);
    assert_eq!(merged.data.len(), 16_000 + 8_000 + 8_000);
}

#[test]
fn does_not_merge_empty_retry_across_large_gap() {
    let first = chunk(10, 1.0, 16_000, vec![0.1; 16_000]);
    let second = chunk(11, 8.5, 16_000, vec![0.2; 8_000]);

    assert_eq!(number(&audio_gap_sec(&first, &second)), 6.5);
    assert!(!should_merge_empty_retry_with_next(&first, &second));
}

#[test]
fn final_padding_extends_audio_without_moving_timestamp() {
    let original = chunk(10, 1.0, 16_000, vec![0.1; 16_000]);
    let padded = pad_audio_chunk(original, &double(0.8));

    assert_eq!(number(&padded.timestamp), 1.0);
    assert_eq!(padded.data.len(), 16_000 + 12_800);
}

#[test]
fn waits_for_model_to_finish_loading_before_dropping_chunk() {
    let mut checks = 0;
    let mut waited_ms = 0;
    let loaded = loop {
        let ready = checks >= 2;
        checks += 1;
        match wait_for_model_loaded(ready, waited_ms, 50) {
            ModelWait::Ready => break true,
            ModelWait::Pause => waited_ms += 1,
            ModelWait::GiveUp => break false,
        }
    };
    assert!(loaded);
    assert_eq!(wait_for_model_loaded(false, 49, 50), ModelWait::Pause);
    assert_eq!(wait_for_model_loaded(false, 50, 50), ModelWait::GiveUp);
}

#[test]
fn chunks_last_as_long_as_their_samples() {
    assert_eq!(number(&audio_chunk_duration_sec(&chunk(1, 0.0, 16_000, vec![0.1; 4_000]))), 0.25);
    assert_eq!(number(&audio_chunk_duration_sec(&chunk(1, 0.0, 48_000, vec![0.1; 1]))), 1.0 / 48_000.0);
    assert_eq!(number(&audio_chunk_duration_sec(&chunk(1, 0.0, 0, vec![0.1; 10]))), 0.0);
}

#[test]
fn retry_thresholds_are_inclusive() {
    let least = double(0.00001_f32 as f64);
    assert!(should_retry_empty_transcript(&chunk(1, 0.0, 16_000, vec![0.1; 12_000]), &least));
    assert!(!should_retry_empty_transcript(&chunk(1, 0.0, 16_000, vec![0.1; 11_999]), &least));
    assert!(should_retry_empty_transcript(&chunk(1, 0.0, 1_000, vec![0.1; 12_000]), &least));
    assert!(!should_retry_empty_transcript(&chunk(1, 0.0, 1_000, vec![0.1; 12_001]), &least));
    let below = Double { bits: least.bits - 1 };
    assert!(!should_retry_empty_transcript(&chunk(1, 0.0, 16_000, vec![0.1; 12_000]), &below));
}

#[test]
fn merged_chunks_keep_their_samples_around_silence() {
    let merged = merge_audio_chunks(
        chunk(1, 0.0, 4, vec![0.5, 0.25]),
        chunk(2, 1.0, 4, vec![0.75]),
    );
    let expected: Vec<u32> = [0.5_f32, 0.25, 0.0, 0.0, 0.75].iter().map(|s| s.to_bits()).collect();
    assert_eq!(merged.data, expected);
}

#[test]
fn overlapping_chunks_are_merged_without_silence() {
    let first = chunk(1, 0.0, 4, vec![0.5; 8]);
    let second = chunk(2, 1.0, 4, vec![0.75]);
    assert_eq!(number(&audio_gap_sec(&first, &second)), 0.0);
    assert_eq!(merge_audio_chunks(first, second).data.len(), 9);
}

#[test]
fn impossible_sizes_are_known() {
    let first = chunk(1, 0.0, 48_000, vec![0.5]);
    let far = chunk(2, f64::INFINITY, 48_000, vec![0.5]);
    assert!(!fits_merged(&first, &far, 1));
    assert!(fits_merged(&first, &chunk(2, 3.0, 48_000, vec![]), 0));
    assert!(fits_padded(&first, &final_padding_sec()));
    assert!(!fits_padded(&first, &double(f64::INFINITY)));
}

#[test]
fn a_transcript_is_announced_with_its_times() {
    let mut run = Run::new();
    run.receive(speech(7, 3.0));
    assert_eq!(run.diagnostics(), vec!["audio_chunk_received"]);
    assert_eq!(run.step(Event::Model { loaded: true }), Action::Transcribe);
    assert_eq!(run.worker.as_ref().unwrap().chunk_to_transcribe().unwrap().chunk_id, 7);
    assert_eq!(run.step(words("ciao", Some(0.5))), Action::Receive);
    let events: Vec<&str> = run.reports.iter().map(|r| r.event()).collect();
    assert_eq!(
        events,
        vec![
            "transcription-diagnostic",
            "speech-detected",
            "transcript-update",
            "transcription-progress"
        ]
    );
    match &run.reports[0] {
        Report::Diagnostic(d) => {
            assert_eq!(d.event, "asr_emitted");
            assert_eq!(d.chunk_id, 7);
            assert_eq!(d.reason.as_deref(), Some("non-empty transcript emitted"));
            assert_eq!(d.text_length, Some(4));
            assert_eq!(number(&d.audio_start_time), 3.0);
            assert_eq!(number(&d.audio_end_time), 4.0);
            assert_eq!(number(&d.duration), 1.0);
        }
        _ => panic!(),
    }
    match &run.reports[1] {
        Report::SpeechDetected { message } => assert_eq!(message, "Speech activity detected"),
        _ => panic!(),
    }
    match &run.reports[2] {
        Report::Transcript(u) => {
            assert_eq!(u.text, "ciao");
            assert_eq!(u.timestamp, "01:02:03");
            assert_eq!(u.source, "Audio");
            assert_eq!(u.sequence_id, 0);
            assert_eq!(number(&u.chunk_start_time), 3.0);
            assert_eq!(number(&u.audio_start_time), 3.0);
            assert_eq!(number(&u.audio_end_time), 4.0);
            assert_eq!(number(&u.duration), 1.0);
            assert_eq!(number(&u.confidence), 0.5);
            assert!(!u.is_partial);
        }
        _ => panic!(),
    }
    match &run.reports[3] {
        Report::Progress {
            worker_id,
            chunks_completed,
            chunks_queued,
            progress_percentage,
            message,
        } => {
            assert_eq!((*worker_id, *chunks_completed, *chunks_queued), (0, 1, 1));
            assert_eq!(*progress_percentage, 100);
            assert_eq!(message, "Worker 0 processing... (1/1)");
        }
        _ => panic!(),
    }
    assert_eq!(run.status.chunks_completed, 1);
    assert_eq!(run.status.last_activity_ms, 3_723_000);
    assert_eq!(run.status.sequence_counter, 1);
}

#[test]
fn speech_is_detected_once_for_each_recording() {
    let mut run = Run::new();
    for id in 0..3 {
        run.receive(speech(id, id as f64));
        run.step(Event::Model { loaded: true });
        run.step(words("ciao", None));
        let detected = run.reports.iter().any(|r| matches!(r, Report::SpeechDetected { .. }));
        assert_eq!(detected, id == 0);
        let sequence = run.reports.iter().find_map(|r| match r {
            Report::Transcript(u) => Some((u.sequence_id, number(&u.confidence))),
            _ => None,
        });
        assert_eq!(sequence, Some((id, 0.85_f32 as f64)));
    }
    reset_speech_detected_flag(&mut run.status);
    assert!(!run.status.speech_detected_emitted);
    assert_eq!(run.status.sequence_counter, 3);
}

#[test]
fn progress_is_cut_to_whole_percent() {
    let mut run = Run::new();
    run.queue();
    run.queue();
    run.receive(speech(1, 0.0));
    run.step(Event::Model { loaded: true });
    run.step(words("ciao", None));
    match run.reports.last().unwrap() {
        Report::Progress { progress_percentage, message, .. } => {
            assert_eq!(*progress_percentage, 33);
            assert_eq!(message, "Worker 0 processing... (1/3)");
        }
        _ => panic!(),
    }
}

#[test]
fn a_chunk_is_skipped_where_the_model_does_not_come() {
    let mut run = Run::new();
    run.receive(speech(1, 0.0));
    assert_eq!(run.step(Event::Model { loaded: false }), Action::Receive);
    assert_eq!(run.diagnostics(), vec!["model_not_ready_dropped"]);
    match &run.reports[1] {
        Report::Warning(message) => assert_eq!(
            message,
            "Transcription model was not ready after 120 seconds; one audio chunk was skipped."
        ),
        _ => panic!(),
    }
    assert_eq!(run.task.chunks_completed, 1);
}

#[test]
fn an_empty_chunk_is_tried_with_the_next_one() {
    let mut run = Run::new();
    run.receive(speech(1, 0.0));
    run.step(Event::Model { loaded: true });
    assert_eq!(run.step(words("  ", None)), Action::Receive);
    assert_eq!(run.diagnostics(), vec!["asr_empty_retry_pending"]);
    run.receive(speech(2, 1.5));
    assert_eq!(run.step(Event::Model { loaded: true }), Action::Transcribe);
    let both = run.worker.as_ref().unwrap().chunk_to_transcribe().unwrap();
    assert_eq!(both.chunk_id, 2);
    assert_eq!(number(&both.timestamp), 0.0);
    assert_eq!(both.data.len(), 16_000 + 8_000 + 16_000);
    run.step(words("both", None));
    assert_eq!(run.task.chunks_completed, 2);
}

#[test]
fn an_empty_chunk_far_from_the_next_is_tried_alone() {
    let mut run = Run::new();
    run.receive(speech(1, 0.0));
    run.step(Event::Model { loaded: true });
    run.step(words("", None));
    run.receive(speech(2, 9.0));
    assert_eq!(run.step(Event::Model { loaded: true }), Action::Transcribe);
    let alone = run.worker.as_ref().unwrap().chunk_to_transcribe().unwrap();
    assert_eq!(alone.chunk_id, 1);
    assert_eq!(alone.data.len(), 16_000 + 12_800);
    assert_eq!(run.step(words("alone", None)), Action::Transcribe);
    assert_eq!(run.diagnostics(), vec!["asr_retry_emitted"]);
    let times = run.reports.iter().find_map(|r| match r {
        Report::Transcript(u) => Some((number(&u.audio_start_time), number(&u.audio_end_time))),
        _ => None,
    });
    assert_eq!(times, Some((0.0, 1.0)));
    assert_eq!(run.worker.as_ref().unwrap().chunk_to_transcribe().unwrap().chunk_id, 2);
    assert_eq!(run.task.chunks_completed, 1);
    run.step(words("next", None));
    assert_eq!(run.task.chunks_completed, 2);
}

#[test]
fn chunks_of_other_rates_are_resampled_before_they_are_merged() {
    let mut run = Run::new();
    run.receive(speech(1, 0.0));
    run.step(Event::Model { loaded: true });
    run.step(words("", None));
    run.receive(chunk(2, 1.0, 48_000, vec![0.1; 48_000]));
    assert_eq!(run.step(Event::Model { loaded: true }), Action::Resample);
    let (other, rate) = run.worker.as_ref().unwrap().chunk_to_resample().unwrap();
    assert_eq!((other.chunk_id, rate), (2, 16_000));
    assert_eq!(run.step(Event::Resampled { samples: vec![9; 5] }), Action::Transcribe);
    let both = run.worker.as_ref().unwrap().chunk_to_transcribe().unwrap();
    assert_eq!(both.sample_rate, 16_000);
    assert_eq!(both.data.len(), 16_005);
    assert_eq!(&both.data[16_000..], &[9, 9, 9, 9, 9]);
}

#[test]
fn the_last_empty_chunk_is_tried_before_the_worker_stops() {
    let mut run = Run::new();
    run.receive(speech(1, 0.0));
    run.step(Event::Model { loaded: true });
    run.step(words("", None));
    assert_eq!(run.step(Event::QueueEmpty), Action::Pause { ms: 1 });
    run.queue();
    match finish_input(&mut run.task) {
        Report::QueueComplete { total_chunks, message } => {
            assert_eq!(total_chunks, 2);
            assert_eq!(message, "2 chunks queued for processing - waiting for completion");
        }
        _ => panic!(),
    }
    assert_eq!(run.step(Event::QueueEmpty), Action::Pause { ms: 5 });
    run.task.chunks_completed += 1;
    assert_eq!(run.step(Event::QueueEmpty), Action::Transcribe);
    assert_eq!(run.step(words(" ", None)), Action::Finish);
    assert_eq!(run.diagnostics(), vec!["asr_empty_retry_dropped"]);
    assert_eq!(run.reports.len(), 1);
}

#[test]
fn quiet_empty_chunks_are_let_go() {
    let mut run = Run::new();
    run.receive(chunk(1, 0.0, 16_000, vec![0.1; 100]));
    run.step(Event::Model { loaded: true });
    run.step(words("", None));
    assert_eq!(run.diagnostics(), vec!["asr_empty_no_retry"]);
    finish_input(&mut run.task);
    assert_eq!(run.step(Event::QueueEmpty), Action::Finish);
}

#[test]
fn failures_are_told_apart() {
    let cases = [
        (TranscriptionError::AudioTooShort { samples: 0, minimum: 1600 }, "audio_too_short_dropped", 1),
        (TranscriptionError::ModelNotLoaded, "model_unloaded_during_transcription", 1),
        (TranscriptionError::EngineFailed("x".to_string()), "transcription_error", 3),
        (TranscriptionError::Other("y".to_string()), "transcription_error", 3),
    ];
    for (error, event, reports) in cases {
        let mut run = Run::new();
        run.receive(speech(1, 0.0));
        run.step(Event::Model { loaded: true });
        assert_eq!(run.step(failure(error, "went wrong")), Action::Receive);
        assert_eq!(run.diagnostics(), vec![event]);
        assert_eq!(run.reports.len(), reports);
        if reports == 3 {
            match &run.reports[1] {
                Report::Warning(message) => assert_eq!(message, "went wrong"),
                _ => panic!(),
            }
        }
        assert_eq!(run.task.chunks_completed, 1);
    }
}

#[test]
fn a_failed_retry_is_told() {
    let mut run = Run::new();
    run.receive(speech(1, 0.0));
    run.step(Event::Model { loaded: true });
    run.step(words("", None));
    finish_input(&mut run.task);
    assert_eq!(run.step(Event::QueueEmpty), Action::Transcribe);
    assert_eq!(run.step(failure(TranscriptionError::ModelNotLoaded, "gone")), Action::Finish);
    match &run.reports[0] {
        Report::Diagnostic(d) => {
            assert_eq!(d.event, "asr_retry_error");
            assert_eq!(d.reason.as_deref(), Some("gone"));
        }
        _ => panic!(),
    }
}

#[test]
fn events_out_of_turn_are_known() {
    let worker = Worker::new(0);
    let task = start_transcription(&mut TranscriptionStatus::new(), 0);
    assert!(!worker.can_step(&task, &Event::Model { loaded: true }));
    assert!(!worker.can_step(&task, &words("x", None)));
    assert!(worker.can_step(&task, &Event::QueueEmpty));
}

#[test]
fn the_final_counts_are_looked_at_ten_times() {
    let mut task = TranscriptionTask {
        chunks_queued: 3,
        chunks_completed: 2,
        input_finished: true,
    };
    assert!(matches!(verify_completion(&task, 0), Verdict::LookAgain { attempts: 1 }));
    assert!(matches!(verify_completion(&task, 9), Verdict::LookAgain { attempts: 10 }));
    match verify_completion(&task, 10) {
        Verdict::Lost(Report::ChunkLoss { chunks_queued, chunks_completed, chunks_lost, message }) => {
            assert_eq!((chunks_queued, chunks_completed, chunks_lost), (3, 2, 1));
            assert_eq!(message, "Some transcript chunks may have been lost during shutdown");
        }
        _ => panic!(),
    }
    task.chunks_completed = 3;
    assert!(matches!(verify_completion(&task, 10), Verdict::Complete));
}

#[test]
fn the_status_follows_a_recording() {
    let mut status = TranscriptionStatus::new();
    assert_eq!(status_snapshot_at(&status, 500), (0, false, 0));
    let mut task = start_transcription(&mut status, 100);
    assert_eq!(status_snapshot_at(&status, 500), (0, true, 400));
    dispatch_chunk(&mut task, &mut status, 200);
    dispatch_chunk(&mut task, &mut status, 300);
    assert_eq!(task.chunks_queued, 2);
    assert_eq!(status_snapshot_at(&status, 250), (2, true, 0));
    finish_transcription(&mut status, 400);
    assert_eq!(status_snapshot_at(&status, 450), (2, true, 50));
    status.chunks_completed = 5;
    assert_eq!(status_snapshot_at(&status, 450), (0, false, 50));
}

#[test]
fn transcripts_come_in_the_order_of_time() {
    let mut run = Run::new();
    let mut starts: Vec<f64> = Vec::new();
    let mut replies = vec!["a", "", "b", "", "late", "c"].into_iter();
    for (id, time) in [0.0, 1.0, 2.0, 9.0, 20.0].into_iter().enumerate() {
        run.receive(speech(id as u64, time));
        let mut asked = run.step(Event::Model { loaded: true });
        while asked == Action::Transcribe {
            asked = run.step(words(replies.next().unwrap(), None));
            for report in &run.reports {
                if let Report::Transcript(u) = report {
                    starts.push(number(&u.audio_start_time));
                }
            }
        }
    }
    assert_eq!(starts, vec![0.0, 1.0, 9.0, 20.0]);
}

#[test]
fn every_chunk_reaches_the_engine_in_order_and_none_is_lost() {
    let mut run = Run::new();
    let mut handed: Vec<u64> = Vec::new();
    let mut replies = vec!["a", "", "b", "", "late", "c"].into_iter();
    for (id, time) in [0.0, 1.0, 2.0, 9.0, 20.0].into_iter().enumerate() {
        run.receive(speech(id as u64, time));
        let mut asked = run.step(Event::Model { loaded: true });
        while asked == Action::Transcribe {
            handed.push(run.worker.as_ref().unwrap().chunk_to_transcribe().unwrap().chunk_id);
            asked = run.step(words(replies.next().unwrap(), None));
        }
        assert_eq!(run.status.chunks_completed, run.task.chunks_completed);
        assert_eq!(run.status.chunks_queued, run.task.chunks_queued);
    }
    assert_eq!(handed, vec![0, 1, 2, 3, 3, 4]);
    finish_input(&mut run.task);
    assert_eq!(run.step(Event::QueueEmpty), Action::Finish);
    assert_eq!((run.task.chunks_completed, run.task.chunks_queued), (5, 5));
    assert!(matches!(verify_completion(&run.task, 0), Verdict::Complete));
    finish_transcription(&mut run.status, 4_000_000);
    assert_eq!(status_snapshot_at(&run.status, 4_000_001), (0, false, 1));
}

#[test]
fn reports_have_events() {
    assert_eq!(Report::Warning(String::new()).event(), "transcription-warning");
    assert_eq!(transcription_failure("x").event(), "transcription-error");
    let mut task = start_transcription(&mut TranscriptionStatus::new(), 0);
    assert_eq!(finish_input(&mut task).event(), "transcription-queue-complete");
    task.chunks_queued = 1;
    match verify_completion(&task, 10) {
        Verdict::Lost(report) => assert_eq!(report.event(), "transcript-chunk-loss-detected"),
        _ => panic!(),
    }
}

#[test]
fn a_missing_engine_is_reported() {
    let mut status = TranscriptionStatus::new();
    start_transcription(&mut status, 100);
    match abandon_transcription(&mut status, 200, "no model") {
        Report::Failure { error, user_message, actionable } => {
            assert_eq!(error, "no model");
            assert_eq!(
                user_message,
                "Recording failed: Unable to initialize speech recognition. Please check your model settings."
            );
            assert!(actionable);
        }
        _ => panic!(),
    }
    assert!(!status.active);
    assert_eq!(status.last_activity_ms, 200);
}

#[test]
fn the_clock_is_read() {
    let before = std::time::SystemTime::now()
        .duration_since(std::time::UNIX_EPOCH)
        .unwrap()
        .as_millis() as u64;
    let now = now_millis();
    assert!(before <= now && now <= before + 10_000);
    let mut status = TranscriptionStatus::new();
    mark_transcription_activity(&mut status);
    assert!(status.last_activity_ms >= before);
    let (pending, processing, idle) = get_transcription_status_snapshot(&status);
    assert_eq!((pending, processing), (0, false));
    assert!(idle <= 10_000);
    let before = std::time::SystemTime::now()
        .duration_since(std::time::UNIX_EPOCH)
        .unwrap()
        .as_millis() as u64;
    let mut task = start_transcription(&mut status, 0);
    dispatch_chunk(&mut task, &mut status, 0);
    let chunk = speech(1, 0.0);
    let worker = Worker::new(0)
        .step_now(&mut task, &mut status, Event::Chunk { chunk, energy: double(0.01) })
        .worker;
    worker.step_now(&mut task, &mut status, Event::Model { loaded: false });
    assert!(status.last_activity_ms >= before);
    assert_eq!(status.chunks_completed, 1);
    let text = format_current_timestamp();
    assert_eq!(text.len(), 8);
    assert_eq!(&text[2..3], ":");
}

#[test]
fn what_the_clock_gives_is_counted_and_noted() {
    assert_eq!(millis_of(None), 0);
    assert_eq!(millis_of(Some(1_780_650_000_125)), 1_780_650_000_125);
    assert_eq!(millis_of(Some(u64::MAX as u128)), u64::MAX);
    assert_eq!(millis_of(Some(u64::MAX as u128 + 8)), 7);
    assert_eq!(seconds_of(None), 0);
    assert_eq!(seconds_of(Some(90_061_999)), 90_061);
    let beyond = u64::MAX as u128 + 1;
    assert_eq!(seconds_of(Some(beyond)), 18_446_744_073_709_551);
    assert_eq!(format_time_of_day(seconds_of(Some(beyond))), "14:25:51");
    let mut status = TranscriptionStatus::new();
    status.chunks_queued = 3;
    status.active = true;
    mark_activity_at(&mut status, 125);
    assert_eq!(status.last_activity_ms, 125);
    assert_eq!((status.chunks_queued, status.chunks_completed, status.active), (3, 0, true));
    assert_eq!((status.sequence_counter, status.speech_detected_emitted), (0, false));
}

#[test]
fn times_are_written_in_two_digits() {
    assert_eq!(format_time_of_day(0), "00:00:00");
    assert_eq!(format_time_of_day(86_399), "23:59:59");
    assert_eq!(format_time_of_day(90_061), "01:01:01");
    assert_eq!(format_recording_time(&double(125.9)), "[02:05]");
    assert_eq!(format_recording_time(&double(-1.0)), "[00:00]");
    assert_eq!(format_recording_time(&double(6_000.0)), "[100:00]");
}

#[test]
fn engine_replies_are_cleaned() {
    let t = transcribe_chunk_with_provider(EngineReply::Whisper(Ok((
        " hi ".to_string(),
        double(0.5),
        true,
    ))))
    .unwrap();
    assert_eq!((t.text.as_str(), t.confidence, t.is_partial), ("hi", Some(double(0.5)), true));
    let t = transcribe_chunk_with_provider(EngineReply::Parakeet(Ok("\thi\n".to_string()))).unwrap();
    assert_eq!((t.text.as_str(), t.confidence, t.is_partial), ("hi", None, false));
    let t = transcribe_chunk_with_provider(EngineReply::Provider(Ok(Transcription {
        text: "  ".to_string(),
        confidence: None,
        is_partial: true,
    })))
    .unwrap();
    assert_eq!((t.text.as_str(), t.is_partial), ("", true));
    match transcribe_chunk_with_provider(EngineReply::Parakeet(Err("bad".to_string()))) {
        Err(Untranscribed { error: TranscriptionError::EngineFailed(reason), asked_engine: true }) => {
            assert_eq!(reason, "bad")
        }
        _ => panic!(),
    }
    match transcribe_chunk_with_provider(EngineReply::Whisper(Err("bad".to_string()))) {
        Err(Untranscribed { error: TranscriptionError::EngineFailed(reason), asked_engine: true }) => {
            assert_eq!(reason, "bad")
        }
        _ => panic!(),
    }
    assert!(matches!(
        transcribe_chunk_with_provider(EngineReply::Provider(Err(TranscriptionError::ModelNotLoaded))),
        Err(Untranscribed { error: TranscriptionError::ModelNotLoaded, asked_engine: true })
    ));
    match transcription_failure("bad") {
        Report::Failure { error, user_message, actionable } => {
            assert_eq!(error, "bad");
            assert_eq!(user_message, "Transcription failed: bad");
            assert!(!actionable);
        }
        _ => panic!(),
    }
}

#[test]
fn engines_take_samples_at_one_rate() {
    assert!(!needs_resampling(16_000));
    assert!(needs_resampling(48_000));
    assert!(check_samples(&[1]).is_ok());
    assert!(matches!(
        check_samples(&[]),
        Err(Untranscribed {
            error: TranscriptionError::AudioTooShort { samples: 0, minimum: 1600 },
            asked_engine: false
        })
    ));
}

#[test]
fn only_engines_that_were_asked_are_reported() {
    let (failure, report) =
        check_samples(&[]).err().unwrap().reported("too short".to_string());
    assert_eq!(failure.message, "too short");
    assert!(matches!(failure.error, TranscriptionError::AudioTooShort { .. }));
    assert!(report.is_none());
    let reply = EngineReply::Provider(Err(TranscriptionError::AudioTooShort { samples: 5, minimum: 9 }));
    let (failure, report) =
        transcribe_chunk_with_provider(reply).err().unwrap().reported("five".to_string());
    assert!(matches!(failure.error, TranscriptionError::AudioTooShort { samples: 5, minimum: 9 }));
    match report {
        Some(Report::Failure { error, user_message, actionable }) => {
            assert_eq!((error.as_str(), user_message.as_str()), ("five", "Transcription failed: five"));
            assert!(!actionable);
        }
        _ => panic!(),
    }
}
