//! The watch loop's filters and its debounce/coalescing state machine, the dev
//! command's defaults, and the local network bootstrap's verdicts.

use loam_cli::bootstrap::{
    health_endpoint, health_poll_seconds, health_request_body, health_verdict, start_outcome,
    startup_wait_seconds, status_is_healthy, HealthVerdict, StartOutcome,
};
use loam_cli::watch::{
    debounce_seconds, is_parent_in_watched_dirs, is_temporary_file, path_shape, should_rebuild,
    watch_step, ChangeKind, Cmd, PathShape, WatchAction, WatchEvent, WatchState,
};

#[test]
fn temporary_files_are_recognized() {
    // editor swap files
    assert!(is_temporary_file(".main.rs.swp"));
    assert!(is_temporary_file("src/.hidden"));
    // backup files
    assert!(is_temporary_file("main.rs~"));
    assert!(is_temporary_file("a/b/notes.txt~"));
    // editor lock files
    assert!(is_temporary_file("#main.rs#"));
    // temporary-file extensions, in any case
    assert!(is_temporary_file("build.tmp"));
    assert!(is_temporary_file("x/y/build.TMP"));
    assert!(is_temporary_file("build.tMp"));
    // a trailing separator does not hide the name
    assert!(is_temporary_file("src/.vim/"));
    assert!(is_temporary_file("notes.txt~/"));
    // ordinary source files are kept
    assert!(!is_temporary_file("main.rs"));
    assert!(!is_temporary_file("src/lib.rs"));
    assert!(!is_temporary_file("a.tmp0"));
    assert!(!is_temporary_file("tmp"));
    assert!(!is_temporary_file(""));
}

#[test]
fn watched_dirs_are_matched_by_name() {
    let dirs = vec!["/w/contracts/a".to_string(), "/w/contracts/b".to_string()];
    assert!(is_parent_in_watched_dirs("/w/contracts/a", &dirs));
    assert!(!is_parent_in_watched_dirs("/w/contracts/c", &dirs));
    assert!(!is_parent_in_watched_dirs("/w", &vec![]));
}

#[test]
fn noise_never_triggers_a_rebuild() {
    let watched = vec!["/w/contracts/a".to_string()];
    for kind in [ChangeKind::Created, ChangeKind::Modified, ChangeKind::Removed] {
        assert!(!should_rebuild(
            kind,
            "/w/contracts/a/src/.lib.rs.swp",
            "/w/environments.toml",
            "/w",
            &watched,
        ));
        assert!(!should_rebuild(
            kind,
            "/w/contracts/a/src/lib.rs~",
            "/w/environments.toml",
            "/w",
            &watched,
        ));
    }
}

#[test]
fn config_parent_events_need_the_config_file() {
    let watched = vec!["/w/contracts/a".to_string()];
    // a source change in a watched package triggers
    assert!(should_rebuild(
        ChangeKind::Modified,
        "/w/contracts/a/src/lib.rs",
        "/w/environments.toml",
        "/w",
        &watched,
    ));
    // the config file itself triggers
    assert!(should_rebuild(
        ChangeKind::Modified,
        "/w/environments.toml",
        "/w/environments.toml",
        "/w",
        &watched,
    ));
    // an unrelated file next to the config does not
    assert!(!should_rebuild(
        ChangeKind::Modified,
        "/w/README.md",
        "/w/environments.toml",
        "/w",
        &watched,
    ));
    // unless the config's directory is itself a watched package directory
    let watched_root = vec!["/w".to_string()];
    assert!(should_rebuild(
        ChangeKind::Modified,
        "/w/README.md",
        "/w/environments.toml",
        "/w",
        &watched_root,
    ));
    // events of no interesting kind are dropped
    assert!(!should_rebuild(
        ChangeKind::Other,
        "/w/contracts/a/src/lib.rs",
        "/w/environments.toml",
        "/w",
        &watched,
    ));
}

fn run_trace(start: WatchState, events: &[WatchEvent]) -> (WatchState, usize) {
    let mut state = start;
    let mut builds: usize = 0;
    for e in events {
        let (next, action) = watch_step(state, *e);
        if matches!(action, WatchAction::RunBuild) {
            builds += 1;
        }
        state = next;
    }
    (state, builds)
}

#[test]
fn burst_of_events_triggers_exactly_one_build() {
    // five events within the debounce window, then the timer fires
    let mut events = vec![WatchEvent::FileChanged; 5];
    events.push(WatchEvent::DebounceElapsed);
    let (state, builds) = run_trace(WatchState::Idle, &events);
    assert_eq!(builds, 1);
    assert!(matches!(state, WatchState::Building { pending: false }));
}

#[test]
fn events_during_a_build_schedule_one_followup() {
    // a build is running; three events arrive; the build finishes; the new
    // debounce window closes: exactly one follow-up build, not three
    let events = [
        WatchEvent::FileChanged,
        WatchEvent::FileChanged,
        WatchEvent::FileChanged,
        WatchEvent::BuildFinished,
        WatchEvent::DebounceElapsed,
    ];
    let (state, builds) = run_trace(WatchState::Building { pending: false }, &events);
    assert_eq!(builds, 1);
    assert!(matches!(state, WatchState::Building { pending: false }));

    // with nothing pending, a finished build goes back to idle
    let (state, builds) = run_trace(
        WatchState::Building { pending: false },
        &[WatchEvent::BuildFinished],
    );
    assert_eq!(builds, 0);
    assert!(matches!(state, WatchState::Idle));
}

#[test]
fn stop_is_absorbing() {
    let (state, builds) = run_trace(
        WatchState::Debouncing,
        &[
            WatchEvent::Stop,
            WatchEvent::FileChanged,
            WatchEvent::DebounceElapsed,
            WatchEvent::BuildFinished,
        ],
    );
    assert_eq!(builds, 0);
    assert!(matches!(state, WatchState::Stopped));
}

#[test]
fn dev_defaults_fill_missing_settings() {
    let mut cmd = Cmd { manifest_path: "Cargo.toml".to_string(), env: None, profile: None };
    let build = cmd.cloned_build_command();
    assert_eq!(build.env.as_deref(), Some("development"));
    assert_eq!(build.profile.as_deref(), Some("debug"));

    let mut cmd = Cmd {
        manifest_path: "Cargo.toml".to_string(),
        env: Some("staging".to_string()),
        profile: Some("release".to_string()),
    };
    let build = cmd.cloned_build_command();
    assert_eq!(build.env.as_deref(), Some("staging"));
    assert_eq!(build.profile.as_deref(), Some("release"));
    assert_eq!(debounce_seconds(), 1);
}

#[test]
fn path_shapes_drive_canonicalization() {
    assert_eq!(path_shape(""), PathShape::Empty);
    assert_eq!(path_shape("Cargo.toml"), PathShape::BareName);
    assert_eq!(path_shape("crates/x/Cargo.toml"), PathShape::Nested);
    // a single directory with a trailing separator is still one component
    assert_eq!(path_shape("target/"), PathShape::BareName);
    assert_eq!(path_shape("a/b/"), PathShape::Nested);
}

#[test]
fn container_start_exit_codes() {
    assert_eq!(start_outcome(Some(0)), StartOutcome::Started);
    // the conflict code: already running, proceed to the health check
    assert_eq!(start_outcome(Some(1)), StartOutcome::AlreadyRunning);
    assert_eq!(start_outcome(Some(2)), StartOutcome::Failed);
    assert_eq!(start_outcome(None), StartOutcome::Failed);
    assert_eq!(startup_wait_seconds(), 10);
}

#[test]
fn health_responses_are_judged_by_their_status() {
    assert_eq!(
        health_verdict("{\"jsonrpc\": \"2.0\", \"result\": {\"status\": \"healthy\"}}"),
        HealthVerdict::Healthy
    );
    assert_eq!(
        health_verdict("{\"result\": {\"status\": \"syncing\"}}"),
        HealthVerdict::NotHealthy
    );
    assert_eq!(health_verdict("{\"result\": {}}"), HealthVerdict::Unreadable);
    assert_eq!(health_verdict("not json at all"), HealthVerdict::Unreadable);
    assert!(status_is_healthy("healthy"));
    assert!(!status_is_healthy("Healthy"));
    assert_eq!(health_endpoint(), "http://localhost:8000/rpc");
    assert_eq!(
        health_request_body(),
        "{\"jsonrpc\": \"2.0\", \"id\": 1, \"method\": \"getHealth\"}"
    );
    assert_eq!(health_poll_seconds(), 5);
}
