use meetily_speakers::audio::DeviceType;
use meetily_speakers::stream::{
    build_stream, create_with_backend, fallback_backend, pipewire_arguments,
    pipewire_target_by_name, resolve_pipewire_monitor_target, stop_result, AudioCaptureBackend,
    AudioStreamManager, PipeWireReader, Platform, SampleBuffer, SampleFormat, StreamBackend,
};

#[test]
fn pipewire_monitor_resolver_accepts_source_name() {
    let target = resolve_pipewire_monitor_target(
        None,
        "alsa_output.test-device.stereo.monitor (System Audio)",
        None,
    )
    .expect("monitor source target");

    assert_eq!(target, "alsa_output.test-device.stereo.monitor");
}

#[test]
fn pipewire_monitor_resolver_derives_monitor_from_sink_name() {
    let target = resolve_pipewire_monitor_target(None, "alsa_output.test-device.stereo", None)
        .expect("sink monitor target");

    assert_eq!(target, "alsa_output.test-device.stereo.monitor");
}

#[test]
fn the_user_and_the_default_sink_name_a_source_too() {
    assert_eq!(
        resolve_pipewire_monitor_target(Some(" mine "), "alsa_output.x", None),
        Ok("mine".to_string())
    );
    assert_eq!(
        resolve_pipewire_monitor_target(Some("  "), "Speakers", Some("sink\n")),
        Ok("sink.monitor".to_string())
    );
    for sink in [None, Some(" \n")] {
        assert_eq!(
            resolve_pipewire_monitor_target(None, " Speakers", sink),
            Err("Could not resolve PipeWire monitor target for ' Speakers'".to_string())
        );
    }
    assert_eq!(pipewire_target_by_name(None, "Speakers"), None);
    assert_eq!(
        pipewire_target_by_name(None, "x.monitor  (System Audio) "),
        Some("x.monitor".to_string())
    );
}

#[test]
fn devices_are_captured_by_their_platform() {
    let kit = AudioCaptureBackend::ScreenCaptureKit;
    let core = AudioCaptureBackend::CoreAudio;
    let (mic, sys) = (DeviceType::Microphone, DeviceType::System);
    assert_eq!(create_with_backend(Platform::MacOs, sys, core), StreamBackend::CoreAudio);
    assert_eq!(create_with_backend(Platform::MacOs, sys, kit), StreamBackend::Cpal);
    assert_eq!(create_with_backend(Platform::MacOs, mic, core), StreamBackend::Cpal);
    assert_eq!(create_with_backend(Platform::Linux, sys, kit), StreamBackend::PipeWire);
    assert_eq!(create_with_backend(Platform::Linux, mic, core), StreamBackend::Cpal);
    assert_eq!(create_with_backend(Platform::Other, sys, core), StreamBackend::Cpal);
    assert_eq!(fallback_backend(StreamBackend::PipeWire), Some(StreamBackend::Cpal));
    assert_eq!(fallback_backend(StreamBackend::CoreAudio), None);
}

#[test]
fn pipewire_captures_stereo_floats() {
    assert_eq!(
        pipewire_arguments("t"),
        vec!["--format", "f32", "--rate", "48000", "--channels", "2", "--latency", "50ms", "--target", "t", "-"]
    );
}

#[test]
fn samples_do_not_depend_on_how_bytes_are_cut() {
    let samples: Vec<f32> = (0..20).map(|i| i as f32 * 0.5 - 3.0).collect();
    let bytes: Vec<u8> = samples.iter().flat_map(|s| s.to_le_bytes()).collect();
    for size in 1..11 {
        let mut reader = PipeWireReader::new();
        let mut got: Vec<f32> = Vec::new();
        for piece in bytes.chunks(size) {
            got.extend(reader.read(piece).unwrap_or_default().into_iter().map(f32::from_bits));
        }
        assert_eq!(got, samples);
        assert!(reader.pending_bytes.is_empty());
    }
    let mut reader = PipeWireReader::new();
    assert_eq!(reader.read(&[1, 2, 3]), None);
    assert_eq!(reader.pending_bytes, vec![1, 2, 3]);
}

#[test]
fn core_audio_is_passed_on_in_pieces() {
    let mut buffer = SampleBuffer::new();
    let mut got: Vec<u32> = Vec::new();
    for i in 0..2_500 {
        if let Some(samples) = buffer.push(i) {
            assert_eq!(samples.len(), 1_024);
            got.extend(samples);
        }
    }
    got.extend(buffer.finish().unwrap());
    assert_eq!(got, (0..2_500).collect::<Vec<u32>>());
    assert!(SampleBuffer::new().finish().is_none());
}

#[test]
fn some_sample_formats_are_supported() {
    for format in [SampleFormat::F32, SampleFormat::I16, SampleFormat::I32, SampleFormat::I8] {
        assert_eq!(build_stream(format, "x"), Ok(()));
    }
    assert_eq!(
        build_stream(SampleFormat::Other, "U8"),
        Err("Unsupported sample format: U8".to_string())
    );
}

#[test]
fn recordings_start_with_any_stream_but_not_without_a_microphone_that_was_asked_for() {
    let mut manager: AudioStreamManager<u8> = AudioStreamManager::new();
    assert_eq!(manager.active_stream_count(), 0);
    assert_eq!(
        manager.start_streams(),
        Err("No audio streams could be created".to_string())
    );
    assert_eq!(manager.microphone_created(Err("busy".to_string())), Err("busy".to_string()));
    assert!(!manager.has_active_streams());
    assert_eq!(manager.system_created(Err("denied".to_string())), Some("denied".to_string()));
    assert_eq!(manager.microphone_created(Ok(1)), Ok(()));
    assert_eq!(manager.start_streams(), Ok(()));
    assert_eq!(manager.system_created(Ok(2)), None);
    assert_eq!(manager.active_stream_count(), 2);
    assert_eq!(manager.stop_streams(), vec![1, 2]);
    assert_eq!(manager.stop_streams(), Vec::<u8>::new());
    assert!(!manager.has_active_streams());
}

#[test]
fn stopping_fails_where_a_stream_could_not_be_stopped() {
    let failed = |reason: &str| Err(reason.to_string());
    assert_eq!(stop_result(&[]), Ok(()));
    assert_eq!(stop_result(&[Ok(()), Ok(())]), Ok(()));
    assert_eq!(
        stop_result(&[failed("busy"), Ok(())]),
        Err("Failed to stop some streams: [busy]".to_string())
    );
    assert_eq!(
        stop_result(&[failed("busy"), failed("gone")]),
        Err("Failed to stop some streams: [busy, gone]".to_string())
    );
}
