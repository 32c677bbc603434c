use meetily_speakers::paths::{ancestors, first_present, is_absolute, join, parent};
use meetily_speakers::prefixes::PathStyle;
use meetily_speakers::speaker_sidecar::{
    ancestor_candidates, endpoint, launch_arguments, launch_environment, python_candidates,
    repo_root_from_manifest_dir, resolve_launch_config, resolve_python_path, resolve_sidecar_root,
    sidecar_program, sidecar_root_candidates, sidecar_url, status_from_health, ChildState,
    HealthResponse, HealthWait, LaunchConfig, SpeakerSidecarManager, SpeakerSidecarStatus, Start,
    WaitStep,
};
use std::path::Path;

fn health(status: &str, token: bool) -> HealthResponse {
    HealthResponse {
        status: status.to_string(),
        hf_token_configured: token,
        diarization_loaded: true,
        embedding_loaded: false,
    }
}

fn config() -> LaunchConfig {
    LaunchConfig {
        python_path: "/py".to_string(),
        sidecar_root: "/root".to_string(),
    }
}

fn url() -> String {
    "http://127.0.0.1:8179".to_string()
}

fn message(r: Result<SpeakerSidecarStatus, String>) -> String {
    r.err().unwrap()
}

#[test]
fn repo_root_from_manifest_dir_moves_from_src_tauri_to_repo_root() {
    let root = repo_root_from_manifest_dir(PathStyle::Posix, "/repo/frontend/src-tauri").unwrap();

    assert_eq!(root, "/repo");
}

#[test]
fn python_candidates_prioritize_explicit_python() {
    let candidates = python_candidates(PathStyle::Posix, "/repo", Some("/custom/python"));

    assert_eq!(candidates[0], "/custom/python");
    assert_eq!(
        candidates[1],
        "/repo/backend/diarization_service/.venv/bin/python"
    );
    assert_eq!(candidates[2], "/repo/.venv/bin/python");
}

#[test]
fn sidecar_status_from_health_rejects_missing_hf_token() {
    let err = message(status_from_health(
        "http://127.0.0.1:8179".to_string(),
        HealthResponse {
            status: "ok".to_string(),
            hf_token_configured: false,
            diarization_loaded: false,
            embedding_loaded: false,
        },
        None,
        false,
    ));

    assert!(err.contains("HF_TOKEN"));
}

#[test]
fn a_healthy_sidecar_is_ready() {
    let status = status_from_health(url(), health("ok", true), Some(config()), true).ok().unwrap();
    assert!(status.running && status.managed && status.diarization_loaded);
    assert!(!status.embedding_loaded);
    assert_eq!(status.python_path.as_deref(), Some("/py"));
    assert_eq!(status.sidecar_root.as_deref(), Some("/root"));
    assert_eq!(status.message, "Speaker recognition sidecar is ready");
    let err = message(status_from_health(url(), health("starting", true), None, false));
    assert_eq!(err, "Speaker recognition sidecar returned status 'starting'");
}

#[test]
fn the_status_is_shown_as_it_is() {
    let mut manager = SpeakerSidecarManager::new();
    let status = manager.status(url(), Err("down".to_string()));
    assert!(!status.running && !status.managed);
    assert_eq!(status.message, "down");
    manager.child_started(config());
    let status = manager.status(url(), Ok(health("ok", false)));
    assert!(status.running && status.managed && !status.hf_token_configured);
    assert_eq!(status.python_path.as_deref(), Some("/py"));
    assert_eq!(status.message, "Speaker recognition sidecar is running");
}

#[test]
fn a_running_sidecar_is_used() {
    let manager = SpeakerSidecarManager::new();
    match manager.ensure_running(url(), true, Ok(health("ok", true))) {
        Start::Done(Ok(status)) => assert!(!status.managed && status.python_path.is_none()),
        _ => panic!(),
    }
}

#[test]
fn a_service_of_the_user_is_never_replaced() {
    let manager = SpeakerSidecarManager::new();
    match manager.ensure_running("http://h".to_string(), true, Err("down".to_string())) {
        Start::Done(Err(e)) => assert_eq!(
            e,
            "Speaker recognition service is not reachable at http://h. Check MEETILY_DIARIZATION_URL or start the service manually."
        ),
        _ => panic!(),
    }
}

#[test]
fn a_missing_sidecar_is_launched() {
    let mut manager = SpeakerSidecarManager::new();
    assert!(matches!(manager.ensure_running(url(), false, Err("down".to_string())), Start::Launch));
    manager.child_started(config());
    assert!(manager.has_child);
    assert!(matches!(manager.ensure_running(url(), false, Err("down".to_string())), Start::Inspect));
    assert!(matches!(manager.child_inspected(ChildState::Running), Start::Wait));
    assert!(manager.has_child);
    assert!(matches!(manager.child_inspected(ChildState::Unknown), Start::Launch));
    assert!(!manager.has_child);
    manager.child_started(config());
    assert!(matches!(manager.child_inspected(ChildState::Exited), Start::Launch));
    assert!(!manager.has_child);
}

#[test]
fn a_launched_sidecar_is_waited_for() {
    let mut manager = SpeakerSidecarManager::new();
    manager.child_started(config());
    let status = manager.health_waited(url(), Ok(health("ok", true))).ok().unwrap();
    assert!(status.managed);
    assert_eq!(status.sidecar_root.as_deref(), Some("/root"));
    assert_eq!(message(manager.health_waited(url(), Err("late".to_string()))), "late");
}

#[test]
fn the_wait_ends_with_the_last_error() {
    let mut wait = HealthWait::new();
    assert!(matches!(wait.next(0), WaitStep::Check));
    assert!(wait.checked(Err("refused".to_string())).is_none());
    assert!(matches!(wait.next(44_999), WaitStep::Check));
    match wait.next(45_000) {
        WaitStep::Done(Err(e)) => assert_eq!(
            e,
            "Speaker recognition sidecar did not become healthy within 45s: refused"
        ),
        _ => panic!(),
    }
    assert!(wait.checked(Ok(health("ok", true))).is_some());
    match HealthWait::new().next(u64::MAX) {
        WaitStep::Done(Err(e)) => assert!(e.ends_with(": sidecar did not respond yet")),
        _ => panic!(),
    }
}

#[test]
fn a_stopped_sidecar_is_forgotten() {
    let mut manager = SpeakerSidecarManager::new();
    manager.child_started(config());
    assert_eq!(
        manager.shutdown(Err("busy".to_string())),
        Err("Failed to stop speaker sidecar: busy".to_string())
    );
    assert!(!manager.has_child && manager.launch_config.is_some());
    assert_eq!(manager.shutdown(Ok(())), Ok(()));
    assert!(manager.launch_config.is_none());
}

#[test]
fn addresses_are_joined_without_double_slashes() {
    assert_eq!(sidecar_url(None), "http://127.0.0.1:8179");
    assert_eq!(sidecar_url(Some("http://h".to_string())), "http://h");
    assert_eq!(endpoint("http://h//", "/health"), "http://h/health");
}

#[test]
fn the_sidecar_is_started_with_uvicorn() {
    assert_eq!(
        launch_arguments(),
        vec!["-m", "uvicorn", "backend.diarization_service.main:app", "--host", "127.0.0.1", "--port", "8179"]
    );
    let variables: Vec<(String, String)> = launch_environment(&config())
        .into_iter()
        .map(|v| (v.name, v.value))
        .collect();
    assert_eq!(variables[0], ("PYTHONPATH".to_string(), "/root".to_string()));
    assert_eq!(variables[1], ("MEETILY_DIARIZATION_HOST".to_string(), "127.0.0.1".to_string()));
    assert_eq!(variables[2], ("MEETILY_DIARIZATION_PORT".to_string(), "8179".to_string()));
    assert_eq!(sidecar_program(PathStyle::Posix, "/repo"), "/repo/backend/diarization_service/main.py");
}

#[test]
fn the_sidecar_is_looked_for_upwards() {
    assert_eq!(ancestor_candidates(PathStyle::Posix, "/a/b"), vec!["/a/b", "/a", "/"]);
    assert_eq!(
        sidecar_root_candidates(PathStyle::Posix, Some("/w/x"), Some("/opt/bin/app"), "/repo/frontend/src-tauri"),
        vec!["/w/x", "/w", "/", "/opt/bin", "/opt", "/", "/repo"]
    );
    assert_eq!(sidecar_root_candidates(PathStyle::Posix, None, None, "/"), Vec::<String>::new());
    let places = vec!["/a".to_string(), "/b".to_string()];
    assert_eq!(
        resolve_sidecar_root(Some("/mine".to_string()), true, &places, &[true, true]),
        Some("/mine".to_string())
    );
    assert_eq!(
        resolve_sidecar_root(Some("/mine".to_string()), false, &places, &[false, true]),
        Some("/b".to_string())
    );
    assert_eq!(resolve_sidecar_root(None, false, &places, &[false, false]), None);
}

#[test]
fn python_is_found_or_left_to_the_system() {
    let places = python_candidates(PathStyle::Posix, "/repo", Some("  "));
    assert_eq!(places.len(), 2);
    assert_eq!(resolve_python_path(Some("/py".to_string()), &places, &[true, true]), Some("/py".to_string()));
    assert_eq!(resolve_python_path(None, &places, &[false, true]), Some("/repo/.venv/bin/python".to_string()));
    assert_eq!(
        resolve_python_path(Some(" ".to_string()), &places, &[false, false]),
        Some("python3".to_string())
    );
}

#[test]
fn what_is_missing_to_launch_is_said() {
    let c = resolve_launch_config(PathStyle::Posix, Some("/r".to_string()), Some("/py".to_string())).ok().unwrap();
    assert_eq!((c.sidecar_root.as_str(), c.python_path.as_str()), ("/r", "/py"));
    assert_eq!(
        resolve_launch_config(PathStyle::Posix, Some("/r".to_string()), None).err().unwrap(),
        "Could not find a Python runtime for speaker recognition. Create the venv at /r/backend/diarization_service/.venv/bin/python or set MEETILY_DIARIZATION_PYTHON."
    );
    assert_eq!(
        resolve_launch_config(PathStyle::Posix, None, None).err().unwrap(),
        "Could not find backend/diarization_service. Set MEETILY_DIARIZATION_ROOT to the Meetily repository root or start the sidecar manually."
    );
}

#[test]
fn paths_are_taken_apart_as_the_system_does() {
    let samples = [
        "", "/", "//", ".", "./", "..", "a", "a/", "/a", "/a/", "a/b", "a//b", "a/./b", "./a", "././a",
        "a/.", "a/./", "a/..", "/a/b/c.txt", "//a//b//", "/.", "/./", "/./a", ".a", ".a/b", "...", "a/.b/.",
        "..//..", "./.",
    ];
    for s in samples {
        let expected = Path::new(s).parent().map(|p| p.to_str().unwrap());
        assert_eq!(parent(PathStyle::Posix, s), expected, "parent of {:?}", s);
        let expected: Vec<String> =
            Path::new(s).ancestors().map(|p| p.to_str().unwrap().to_string()).collect();
        assert_eq!(ancestors(PathStyle::Posix, s), expected, "ancestors of {:?}", s);
        assert_eq!(is_absolute(PathStyle::Posix, s), Path::new(s).is_absolute());
        for child in samples {
            assert_eq!(join(PathStyle::Posix, s, child), Path::new(s).join(child).to_str().unwrap());
        }
    }
}

#[test]
fn the_first_place_where_something_is_counts() {
    let places = vec!["a".to_string(), "b".to_string(), "c".to_string()];
    assert_eq!(first_present(&places, &[false, true, true]), Some("b".to_string()));
    assert_eq!(first_present(&places, &[false, false, false]), None);
}

#[test]
fn windows_paths_are_joined() {
    let cases = [
        (r"C:", "foo", r"C:foo"),
        (r"C:\", "foo", r"C:\foo"),
        (r"C:\a", "b/c", r"C:\a\b/c"),
        (r"C:/a/", "b", r"C:/a/b"),
        (r"C:\a\b", r"\c", r"C:\c"),
        (r"C:\a", r"D:b", r"D:b"),
        (r"C:\a", r"D:\b", r"D:\b"),
        (r"a\b", "/c", "/c"),
        ("", "a", "a"),
        (r"a", "", r"a\"),
        (r"\\server\share\foo", "bar", r"\\server\share\foo\bar"),
        (r"\\server\share\foo", r"\bar", r"\\server\share\bar"),
        (r"\\server\share", r"C:baz", r"C:baz"),
        (r"\\.\foo\bar", "baz", r"\\.\foo\bar\baz"),
        (r"\\.\foo", r"..\bar", r"\\.\foo\..\bar"),
        (r"C:\a", r"\\server\share\x", r"\\server\share\x"),
        (r"\\?\foo\bar", "baz", r"\\?\foo\bar\baz"),
        (r"\\?\UNC\server\share\foo", "bar", r"\\?\UNC\server\share\foo\bar"),
        (r"\\?\UNC\server", "foo", r"\\?\UNC\server\foo"),
        (r"\\?\UNC\server\share", r"C:a", r"C:a"),
        (r"\\?\C:", "foo", r"\\?\C:\foo"),
        (r"\\?\C:\bar", "../foo", r"\\?\C:\foo"),
        (r"\\?\C:\bar", "../../foo", r"\\?\C:\foo"),
        (r"\\?\C:\", "../foo", r"\\?\C:\foo"),
        (r"\\?\C:", r"D:\foo/./", r"D:\foo/./"),
        (r"\\?\A:\x\y", "/foo", r"\\?\A:\foo"),
        (r"\\?\A:", r"..\foo\.", r"\\?\A:\foo"),
        (r"\\?\A:\x\y", r".\foo\.", r"\\?\A:\x\y\foo"),
        (r"\\?\A:\x\y", "", r"\\?\A:\x\y\"),
        (r"\\?\A:\x", "..", r"\\?\A:\"),
        (r"//?/C:/a", "b", r"//?/C:/a\b"),
    ];
    for (base, child, expected) in cases {
        assert_eq!(join(PathStyle::Windows, base, child), expected, "{base:?} and {child:?}");
    }
}

#[test]
fn windows_paths_are_taken_apart() {
    let cases = [
        ("", None),
        (r"C:", None),
        (r"C:\", None),
        (r"C:a", Some(r"C:")),
        (r"C:\foo.txt", Some(r"C:\")),
        (r"C:/a\b/", Some(r"C:/a")),
        (r"\", None),
        (r"\foo", Some(r"\")),
        (r"foo\bar", Some("foo")),
        (r"foo/./bar\.", Some("foo")),
        (r".\a", Some(".")),
        (r".", Some("")),
        (r"C:.", None),
        (r"C:.\a", Some(r"C:.")),
        (r"\\server", Some(r"\")),
        (r"\\server\share", None),
        (r"\\server\share\foo.txt", Some(r"\\server\share\")),
        (r"\\.\foo\bar", Some(r"\\.\foo\")),
        (r"\\.\foo\bar/baz", Some(r"\\.\foo\bar")),
        (r"\\.\", None),
        (r"\\?\bar\foo.txt", Some(r"\\?\bar\")),
        (r"\\?\bar", None),
        (r"\\?\UNC\server\share\foo.txt", Some(r"\\?\UNC\server\share\")),
        (r"\\?\UNC\server", None),
        (r"\\?\C:\foo.txt", Some(r"\\?\C:\")),
        (r"\\?\C:\", None),
        (r"\\?\C:", None),
        (r"\\?\foo/bar", None),
        (r"\\?\C:/foo/bar", Some(r"\\?\C:/")),
        (r"\\?\C:\a\.", Some(r"\\?\C:\a")),
    ];
    for (path, expected) in cases {
        assert_eq!(parent(PathStyle::Windows, path), expected, "parent of {path:?}");
    }
    assert_eq!(ancestors(PathStyle::Windows, r"C:\a/b"), vec![r"C:\a/b", r"C:\a", r"C:\"]);
    for (path, expected) in [
        (r"C:\a", true),
        (r"C:a", false),
        (r"\a", false),
        (r"/a", false),
        (r"a", false),
        (r"\\server\share", true),
        (r"\\?\C:", true),
        (r"\\.\COM42", true),
    ] {
        assert_eq!(is_absolute(PathStyle::Windows, path), expected, "{path:?}");
    }
    assert_eq!(
        python_candidates(PathStyle::Windows, r"C:\repo", None)[1],
        r"C:\repo\.venv/bin/python"
    );
    assert_eq!(
        repo_root_from_manifest_dir(PathStyle::Windows, r"C:\repo\frontend\src-tauri"),
        Some(r"C:\repo".to_string())
    );
}
