use coltec_daemon::backend::{build_storage_backend, EnvVar};
use coltec_daemon::config::{
    PersistenceMode, PersistenceScope, PersistenceSpec, RemoteEntry, RemoteOption, SyncDirection,
    SyncPath, WorkspaceMetadata, WorkspaceSpec,
};
use coltec_daemon::plan::{build_plan, ResolvedRemote, SyncAction, OperationSettings};
use coltec_daemon::state::{advance_health, health_file_path, marker_file_name, HealthStatus, MarkerSet};
use coltec_daemon::text::u64_to_string;
use coltec_daemon::sync::{
    classify_attempt, crypt_env_sources, first_error, on_attempt, prepare_execution,
    rclone_args, resync_needed, summarize_results, AttemptClass, AttemptOutcome, PreCheck,
    SyncResult, SyncStep,
};

fn no_env() -> Vec<EnvVar> {
    Vec::new()
}

fn simple_action(name: &str, remote: Option<ResolvedRemote>) -> SyncAction {
    SyncAction {
        name: name.to_string(),
        local_path: "/local".to_string(),
        remote_path: "remote/path".to_string(),
        direction: SyncDirection::Bidirectional,
        interval_secs: 60,
        priority: 1,
        excludes: Vec::new(),
        remote,
        operation: OperationSettings {
            transfers: None,
            checkers: None,
            bwlimit: None,
        },
    }
}

#[test]
fn retry_exhaustion_runs_three_attempts_with_doubling_backoff() {
    // A simulated always-retryable failure: count attempts and delays.
    let outcome = AttemptOutcome::Finished {
        exit_ok: false,
        stderr: "read tcp: connection reset by peer".to_string(),
    };
    let mut attempts: u32 = 0;
    let mut delays: Vec<u64> = Vec::new();
    let result;
    let mut attempt: u32 = 1;
    loop {
        attempts += 1;
        let class = classify_attempt(&SyncDirection::PushOnly, &outcome);
        match on_attempt("data", false, attempt, class) {
            SyncStep::Done(res) => {
                result = res;
                break;
            }
            SyncStep::Backoff { delay_ms } => {
                delays.push(delay_ms);
                attempt += 1;
            }
        }
    }
    assert_eq!(attempts, 3, "exactly three total attempts");
    assert_eq!(delays.len(), 2, "exactly two inter-attempt delays");
    assert_eq!(delays[0], 1000);
    assert_eq!(delays[1], 2 * delays[0], "second delay twice the first");
    assert!(!result.success);
    assert_eq!(result.attempts, 3);
}

#[test]
fn health_flips_after_three_failures_and_recovers() {
    let s0 = HealthStatus::fresh();
    assert!(s0.healthy);
    let s1 = advance_health(&s0, false, 10, Some("boom".to_string()));
    assert!(s1.healthy);
    assert_eq!(s1.consecutive_failures, 1);
    let s2 = advance_health(&s1, false, 20, Some("boom".to_string()));
    assert!(s2.healthy);
    assert_eq!(s2.consecutive_failures, 2);
    let s3 = advance_health(&s2, false, 30, Some("boom".to_string()));
    assert!(!s3.healthy, "three consecutive failures flip to unhealthy");
    assert_eq!(s3.consecutive_failures, 3);
    assert_eq!(s3.last_error, Some("boom".to_string()));
    let s4 = advance_health(&s3, true, 40, None);
    assert!(s4.healthy, "a successful pass restores health");
    assert_eq!(s4.consecutive_failures, 0);
    assert_eq!(s4.last_success, Some(40));
    assert_eq!(s4.last_error, None);
}

#[test]
fn test_needs_resync_new_workspace() {
    // Use a workspace name that has no state
    let markers = MarkerSet::new();
    let needs = markers.needs_resync("nonexistent-workspace-12345", "test-action");
    assert!(needs, "new workspace should need resync");
}

#[test]
fn test_mark_initialized() {
    let workspace = "test-workspace".to_string();
    let action = "test-action";
    let mut markers = MarkerSet::new();

    // Should need resync initially
    assert!(markers.needs_resync(&workspace, action));

    // Mark as initialized
    markers.mark_initialized(&workspace, action);

    // Should not need resync now
    assert!(!markers.needs_resync(&workspace, action));
}

#[test]
fn marker_set_drives_resync_decisions() {
    let mut markers = MarkerSet::new();
    assert!(markers.needs_resync("ws", "data"), "fresh pair needs a resync");
    assert!(resync_needed(&SyncDirection::Bidirectional, false));
    markers.mark_initialized("ws", "data");
    assert!(!markers.needs_resync("ws", "data"), "marked pair needs none");
    assert!(markers.needs_resync("ws", "other"), "other pairs unaffected");
    assert!(!resync_needed(&SyncDirection::Bidirectional, true));
    assert!(!resync_needed(&SyncDirection::PushOnly, false));
}

#[test]
fn plan_orders_priority_one_before_priority_five() {
    // Two sync entries with priorities 5 and 1, declared in that order.
    let sp = |name: &str, priority: u8| SyncPath {
        name: name.to_string(),
        path: format!("/{}", name),
        remote_path: name.to_string(),
        remote: None,
        direction: SyncDirection::PushOnly,
        interval: 60,
        priority,
        exclude: Vec::new(),
        transfers: None,
        checkers: None,
        bwlimit: None,
    };
    let spec = WorkspaceSpec {
        name: "ws".to_string(),
        version: "1.0.0".to_string(),
        metadata: WorkspaceMetadata {
            org: "o".to_string(),
            project: "p".to_string(),
            environment: "e".to_string(),
            description: None,
            tags: Vec::new(),
        },
        persistence: PersistenceSpec {
            enabled: true,
            mode: PersistenceMode::Replicated,
            scope: PersistenceScope::Project,
            mounts: Vec::new(),
            remotes: Vec::new(),
            default_remote: None,
            defaults: None,
            sync: vec![sp("low", 5), sp("high", 1)],
            multi_scope_volumes: None,
        },
    };
    let plan = build_plan(&spec, None);
    assert_eq!(plan.actions[0].name, "high");
    assert_eq!(plan.actions[0].priority, 1);
    assert_eq!(plan.actions[1].name, "low");
}

#[test]
fn missing_remote_fails_without_attempts() {
    // An action without a resolved remote yields a failed,
    // non-retryable result with zero attempts beyond the initial check.
    let action = simple_action("data", None);
    match prepare_execution(&action, true, &no_env()) {
        PreCheck::NoRemote(res) => {
            assert!(!res.success);
            assert_eq!(
                res.error,
                Some("no remote configured for sync action".to_string())
            );
            assert_eq!(res.attempts, 0);
        }
        _ => panic!("expected the no-remote failure"),
    }
}

#[test]
fn missing_local_path_is_a_successful_skip() {
    let action = simple_action("data", None);
    match prepare_execution(&action, false, &no_env()) {
        PreCheck::MissingLocal(res) => {
            assert!(res.success);
            assert_eq!(res.error, None);
            assert_eq!(res.attempts, 0);
        }
        _ => panic!("expected the missing-local skip"),
    }
}

#[test]
fn storage_backend_quotes_colon_in_endpoint() {
    // Building for bucket `b`, option endpoint=https://x.example.com,
    // path `p`.
    let remote = ResolvedRemote {
        name: "r".to_string(),
        remote_type: "s3".to_string(),
        bucket: Some("b".to_string()),
        path_prefix: None,
        options: vec![RemoteOption {
            key: "endpoint".to_string(),
            value: "https://x.example.com".to_string(),
        }],
        wrap_remote: None,
        wrap_path: None,
        password_env: None,
        password2_env: None,
        filename_encryption: None,
        directory_name_encryption: None,
    };
    let backend = build_storage_backend(&remote, "p", &no_env());
    assert_eq!(backend, ":s3,bucket=b,endpoint='https://x.example.com':p");
}

#[test]
fn classification_covers_every_outcome() {
    let push = SyncDirection::PushOnly;
    let bidi = SyncDirection::Bidirectional;
    let finished = |stderr: &str| AttemptOutcome::Finished {
        exit_ok: false,
        stderr: stderr.to_string(),
    };

    match classify_attempt(&push, &AttemptOutcome::ExecutableMissing) {
        AttemptClass::NotRetryable(m) => {
            assert_eq!(m, "rclone not found - please install rclone")
        }
        _ => panic!("missing executable must be fatal"),
    }
    match classify_attempt(&push, &AttemptOutcome::SpawnFailed("io oddity".to_string())) {
        AttemptClass::Retryable(m) => assert_eq!(m, "failed to execute rclone: io oddity"),
        _ => panic!("other spawn failures are retryable"),
    }
    assert!(matches!(
        classify_attempt(&push, &AttemptOutcome::Finished { exit_ok: true, stderr: String::new() }),
        AttemptClass::Success
    ));
    assert!(matches!(
        classify_attempt(&push, &finished("error: directory not found")),
        AttemptClass::Skipped
    ));
    assert!(matches!(
        classify_attempt(&bidi, &finished("source directory is empty")),
        AttemptClass::Skipped
    ));
    // An empty source only skips on a bidirectional run.
    assert!(matches!(
        classify_attempt(&push, &finished("source directory is empty")),
        AttemptClass::NotRetryable(_)
    ));
    assert!(matches!(
        classify_attempt(&push, &finished("HTTP 503 ServiceUnavailable")),
        AttemptClass::Retryable(_)
    ));
    assert!(matches!(
        classify_attempt(&push, &finished("permission denied")),
        AttemptClass::NotRetryable(_)
    ));
}

#[test]
fn non_retryable_failure_finishes_on_first_attempt() {
    let class = AttemptClass::NotRetryable("permission denied".to_string());
    match on_attempt("data", false, 1, class) {
        SyncStep::Done(res) => {
            assert!(!res.success);
            assert_eq!(res.error, Some("permission denied".to_string()));
            assert_eq!(res.attempts, 1);
        }
        _ => panic!("a permanent failure never backs off"),
    }
}

#[test]
fn success_after_retry_reports_attempt_count() {
    match on_attempt("data", true, 2, AttemptClass::Success) {
        SyncStep::Done(res) => {
            assert!(res.success);
            assert!(res.was_resync);
            assert_eq!(res.attempts, 2);
            assert_eq!(res.error, None);
        }
        _ => panic!("success finishes"),
    }
}

#[test]
fn plan_summary_counts_successes_and_failures() {
    let res = |name: &str, success: bool, error: Option<&str>| SyncResult {
        name: name.to_string(),
        success,
        error: error.map(|e| e.to_string()),
        was_resync: false,
        attempts: 1,
    };
    let summary = summarize_results(vec![
        res("a", true, None),
        res("b", false, Some("first boom")),
        res("c", false, Some("second boom")),
    ]);
    assert_eq!(summary.success_count, 1);
    assert_eq!(summary.failure_count, 2);
    assert!(!summary.all_success());
    assert_eq!(first_error(&summary.results), Some("first boom".to_string()));

    let ok = summarize_results(vec![res("a", true, None)]);
    assert!(ok.all_success());
    assert_eq!(first_error(&ok.results), None);
}

#[test]
fn rclone_args_shape_per_direction() {
    let mut action = simple_action("data", None);
    action.excludes = vec![".git/**".to_string()];

    let args = rclone_args(&action, ":s3,bucket=b:p", false, true);
    assert_eq!(
        args,
        vec![
            "bisync",
            "/local",
            ":s3,bucket=b:p",
            "--resilient",
            "--recover",
            "--max-lock",
            "2m",
            "--resync",
            "--exclude",
            ".git/**",
            "--transfers",
            "8",
            "--checkers",
            "16",
            "--fast-list",
            "-v",
        ]
    );

    action.direction = SyncDirection::PullOnly;
    action.excludes = Vec::new();
    let args = rclone_args(&action, ":s3,bucket=b:p", true, false);
    assert_eq!(
        args,
        vec![
            "sync",
            ":s3,bucket=b:p",
            "/local",
            "--transfers",
            "8",
            "--checkers",
            "16",
            "--fast-list",
            "-v",
            "--dry-run",
        ]
    );
}

#[test]
fn crypt_env_sources_only_for_crypt_remotes() {
    let crypt = ResolvedRemote {
        name: "enc".to_string(),
        remote_type: "crypt".to_string(),
        bucket: None,
        path_prefix: None,
        options: Vec::new(),
        wrap_remote: None,
        wrap_path: None,
        password_env: Some("MY_PW".to_string()),
        password2_env: Some("MY_SALT".to_string()),
        filename_encryption: Some("standard".to_string()),
        directory_name_encryption: Some(true),
    };
    let action = simple_action("data", Some(crypt));
    let (pw, salt) = crypt_env_sources(&action);
    assert_eq!(pw, Some("MY_PW".to_string()));
    assert_eq!(salt, Some("MY_SALT".to_string()));

    let plain = ResolvedRemote {
        name: "r".to_string(),
        remote_type: "s3".to_string(),
        bucket: Some("b".to_string()),
        path_prefix: None,
        options: Vec::new(),
        wrap_remote: None,
        wrap_path: None,
        password_env: None,
        password2_env: None,
        filename_encryption: None,
        directory_name_encryption: None,
    };
    let action = simple_action("data", Some(plain));
    let (pw, salt) = crypt_env_sources(&action);
    assert_eq!(pw, None);
    assert_eq!(salt, None);
}

#[test]
fn state_paths_have_the_expected_shape() {
    let health = health_file_path("ws");
    assert!(health.ends_with("/health.json"));
    assert!(health.contains("/coltec-daemon/ws/"));
    assert_eq!(marker_file_name("data"), "data.bisync");
}

#[test]
fn decimal_rendering_is_exact() {
    assert_eq!(u64_to_string(0), "0");
    assert_eq!(u64_to_string(10), "10");
    assert_eq!(u64_to_string(300), "300");
    assert_eq!(u64_to_string(4294967295), "4294967295");
}
