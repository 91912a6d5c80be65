use coltec_daemon::config::{
    CryptConfig, FilenameEncryption, MultiScopeVolumes, PersistenceMode, PersistenceScope,
    PersistenceSpec, RcloneVolumeConfig, RemoteConfig, RemoteEntry, RemoteOption, SyncDefaults,
    SyncDirection, SyncPath, WorkspaceMetadata, WorkspaceSpec,
};
use coltec_daemon::plan::{build_plan, PlanContext};

fn metadata(org: &str, project: &str, environment: &str) -> WorkspaceMetadata {
    WorkspaceMetadata {
        org: org.to_string(),
        project: project.to_string(),
        environment: environment.to_string(),
        description: None,
        tags: Vec::new(),
    }
}

fn empty_persistence() -> PersistenceSpec {
    PersistenceSpec {
        enabled: false,
        mode: PersistenceMode::Mounted,
        scope: PersistenceScope::Project,
        mounts: Vec::new(),
        remotes: Vec::new(),
        default_remote: None,
        defaults: None,
        sync: Vec::new(),
        multi_scope_volumes: None,
    }
}

fn sync_path(name: &str, path: &str, remote_path: &str, interval: u64, priority: u8) -> SyncPath {
    SyncPath {
        name: name.to_string(),
        path: path.to_string(),
        remote_path: remote_path.to_string(),
        remote: None,
        direction: SyncDirection::Bidirectional,
        interval,
        priority,
        exclude: Vec::new(),
        transfers: None,
        checkers: None,
        bwlimit: None,
    }
}

fn s3_remote(bucket: &str) -> RemoteConfig {
    RemoteConfig {
        remote_type: "s3".to_string(),
        bucket: Some(bucket.to_string()),
        path_prefix: None,
        options: Vec::new(),
        wrap_remote: None,
        wrap_path: None,
        crypt: None,
    }
}

fn workspace(name: &str, md: WorkspaceMetadata, persistence: PersistenceSpec) -> WorkspaceSpec {
    WorkspaceSpec {
        name: name.to_string(),
        version: "1.0.0".to_string(),
        metadata: md,
        persistence,
    }
}

#[test]
fn test_placeholder_resolution() {
    let empty_remotes: Vec<RemoteEntry> = Vec::new();
    let ctx = PlanContext {
        org: "myorg".to_string(),
        project: "myproj".to_string(),
        env: "dev".to_string(),
        remotes: &empty_remotes,
        default_remote: None,
        defaults: None,
    };

    assert_eq!(
        ctx.resolve("workspaces/{org}/{project}/{env}/data"),
        "workspaces/myorg/myproj/dev/data"
    );

    assert_eq!(ctx.resolve("{org}-{project}-{env}"), "myorg-myproj-dev");

    // No placeholders
    assert_eq!(ctx.resolve("static/path"), "static/path");
}

#[test]
fn test_build_plan_from_valid_spec() {
    let mut persistence = empty_persistence();
    persistence.enabled = true;
    persistence.mode = PersistenceMode::Replicated;
    persistence.default_remote = Some("primary".to_string());
    persistence.remotes = vec![RemoteEntry {
        name: "primary".to_string(),
        config: s3_remote("test-bucket"),
    }];
    let mut sp1 = sync_path(
        "workspace",
        "/workspace",
        "workspaces/{org}/{project}/{env}/code",
        120,
        1,
    );
    sp1.exclude = vec![".git/**".to_string(), "node_modules/**".to_string()];
    let mut sp2 = sync_path(
        "config",
        "/home/vscode/.config",
        "workspaces/{org}/{project}/{env}/config",
        300,
        2,
    );
    sp2.direction = SyncDirection::PushOnly;
    persistence.sync = vec![sp1, sp2];

    let spec = workspace(
        "test-workspace",
        metadata("testorg", "testproject", "staging"),
        persistence,
    );
    let plan = build_plan(&spec, None);

    assert_eq!(plan.workspace_name, "test-workspace");
    assert_eq!(plan.actions.len(), 2);

    // Check sorting by priority
    assert_eq!(plan.actions[0].name, "workspace");
    assert_eq!(plan.actions[0].priority, 1);
    assert_eq!(plan.actions[1].name, "config");
    assert_eq!(plan.actions[1].priority, 2);

    // Check placeholder resolution
    assert_eq!(
        plan.actions[0].remote_path,
        "workspaces/testorg/testproject/staging/code"
    );

    // Check remote is resolved
    assert!(plan.actions[0].remote.is_some());
    let remote = plan.actions[0].remote.as_ref().unwrap();
    assert_eq!(remote.remote_type, "s3");
    assert_eq!(remote.bucket.as_deref(), Some("test-bucket"));
}

#[test]
fn test_build_plan_with_interval_override() {
    let mut persistence = empty_persistence();
    persistence.enabled = true;
    persistence.mode = PersistenceMode::Replicated;
    persistence.sync = vec![
        sync_path("fast", "/workspace", "foo/bar", 60, 2),
        sync_path("slow", "/data", "foo/data", 600, 2),
    ];
    let spec = workspace(
        "test-workspace",
        metadata("testorg", "testproject", "dev"),
        persistence,
    );

    // Without override
    let plan = build_plan(&spec, None);
    assert_eq!(plan.actions[0].interval_secs, 60);
    assert_eq!(plan.actions[1].interval_secs, 600);

    // With override
    let plan = build_plan(&spec, Some(30));
    assert_eq!(plan.actions[0].interval_secs, 30);
    assert_eq!(plan.actions[1].interval_secs, 30);
}

#[test]
fn test_build_plan_with_multi_scope_volumes() {
    let mut persistence = empty_persistence();
    persistence.enabled = true;
    persistence.mode = PersistenceMode::Replicated;
    persistence.multi_scope_volumes = Some(MultiScopeVolumes {
        global_refs: Vec::new(),
        project_refs: Vec::new(),
        environment: vec![
            RcloneVolumeConfig {
                name: "agent-context".to_string(),
                remote_path: "workspaces/{org}/{project}/{env}/agent".to_string(),
                mount_path: "/workspace/agent".to_string(),
                sync: SyncDirection::Bidirectional,
                interval: 60,
                priority: 1,
                exclude: Vec::new(),
                read_only: false,
            },
            RcloneVolumeConfig {
                name: "scratch".to_string(),
                remote_path: "workspaces/{org}/{project}/{env}/scratch".to_string(),
                mount_path: "/workspace/scratch".to_string(),
                sync: SyncDirection::PushOnly,
                interval: 300,
                priority: 3,
                exclude: Vec::new(),
                read_only: false,
            },
        ],
    });
    let spec = workspace(
        "test-workspace",
        metadata("testorg", "testproject", "dev"),
        persistence,
    );
    let plan = build_plan(&spec, None);

    assert_eq!(plan.actions.len(), 2);
    assert_eq!(plan.actions[0].name, "agent-context");
    assert_eq!(plan.actions[0].local_path, "/workspace/agent");
    assert_eq!(
        plan.actions[0].remote_path,
        "workspaces/testorg/testproject/dev/agent"
    );
}

#[test]
fn test_plan_filter_by_names() {
    let mut persistence = empty_persistence();
    persistence.enabled = true;
    persistence.mode = PersistenceMode::Replicated;
    persistence.sync = vec![
        sync_path("a", "/a", "a", 60, 2),
        sync_path("b", "/b", "b", 60, 2),
        sync_path("c", "/c", "c", 60, 2),
    ];
    let spec = workspace(
        "test-workspace",
        metadata("testorg", "testproject", "dev"),
        persistence,
    );
    let plan = build_plan(&spec, None);

    // Filter to just "a" and "c"
    let filtered = plan.filter_by_names(&vec!["a".to_string(), "c".to_string()]);
    assert_eq!(filtered.actions.len(), 2);
    assert_eq!(filtered.actions[0].name, "a");
    assert_eq!(filtered.actions[1].name, "c");

    // Empty filter returns all
    let all = plan.filter_by_names(&Vec::new());
    assert_eq!(all.actions.len(), 3);
}

#[test]
fn test_plan_min_interval() {
    let mut persistence = empty_persistence();
    persistence.enabled = true;
    persistence.mode = PersistenceMode::Replicated;
    persistence.sync = vec![
        sync_path("fast", "/fast", "fast", 30, 2),
        sync_path("slow", "/slow", "slow", 600, 2),
    ];
    let spec = workspace(
        "test-workspace",
        metadata("testorg", "testproject", "dev"),
        persistence,
    );
    let plan = build_plan(&spec, None);

    assert_eq!(plan.min_interval(), 30);
}

#[test]
fn test_empty_plan() {
    let spec = workspace(
        "test-workspace",
        metadata("testorg", "testproject", "dev"),
        empty_persistence(),
    );
    let plan = build_plan(&spec, None);

    assert!(plan.is_empty());
    assert_eq!(plan.min_interval(), 300); // Default when empty
}

#[test]
fn test_named_remotes_resolution() {
    let mut primary = s3_remote("my-bucket");
    primary.path_prefix = Some("workspaces".to_string());
    primary.options = vec![
        RemoteOption {
            key: "endpoint".to_string(),
            value: "https://xxx.r2.cloudflarestorage.com".to_string(),
        },
        RemoteOption {
            key: "provider".to_string(),
            value: "Cloudflare".to_string(),
        },
    ];

    let mut persistence = empty_persistence();
    persistence.enabled = true;
    persistence.mode = PersistenceMode::Replicated;
    persistence.default_remote = Some("primary".to_string());
    persistence.remotes = vec![
        RemoteEntry {
            name: "primary".to_string(),
            config: primary,
        },
        RemoteEntry {
            name: "secondary".to_string(),
            config: s3_remote("secondary-bucket"),
        },
    ];
    let sp1 = sync_path("workspace", "/workspace", "{org}/{project}/{env}/code", 60, 2);
    let mut sp2 = sync_path("logs", "/var/log", "{org}/{project}/{env}/logs", 300, 2);
    sp2.remote = Some("secondary".to_string());
    persistence.sync = vec![sp1, sp2];

    let spec = workspace(
        "test-workspace",
        metadata("testorg", "testproject", "dev"),
        persistence,
    );
    let plan = build_plan(&spec, None);

    assert_eq!(plan.actions.len(), 2);

    // First action uses default remote (primary)
    let workspace_action = &plan.actions[0];
    assert_eq!(workspace_action.name, "workspace");
    assert!(workspace_action.remote.is_some());
    let remote = workspace_action.remote.as_ref().unwrap();
    assert_eq!(remote.name, "primary");
    assert_eq!(remote.remote_type, "s3");
    assert_eq!(remote.bucket, Some("my-bucket".to_string()));
    // Check path_prefix is applied
    assert_eq!(
        workspace_action.remote_path,
        "workspaces/testorg/testproject/dev/code"
    );

    // Second action overrides to secondary remote
    let logs_action = &plan.actions[1];
    assert_eq!(logs_action.name, "logs");
    assert!(logs_action.remote.is_some());
    let remote = logs_action.remote.as_ref().unwrap();
    assert_eq!(remote.name, "secondary");
    assert_eq!(remote.bucket, Some("secondary-bucket".to_string()));
    // No path_prefix on secondary
    assert_eq!(logs_action.remote_path, "testorg/testproject/dev/logs");
}

#[test]
fn test_operation_settings_resolution() {
    let mut persistence = empty_persistence();
    persistence.enabled = true;
    persistence.mode = PersistenceMode::Replicated;
    persistence.default_remote = Some("primary".to_string());
    persistence.remotes = vec![RemoteEntry {
        name: "primary".to_string(),
        config: s3_remote("my-bucket"),
    }];
    persistence.defaults = Some(SyncDefaults {
        transfers: Some(8),
        checkers: Some(16),
        bwlimit: Some("10M".to_string()),
    });
    let mut fast = sync_path("fast", "/fast", "fast", 60, 1);
    fast.transfers = Some(16);
    let mut slow = sync_path("slow", "/slow", "slow", 300, 2);
    slow.bwlimit = Some("1M".to_string());
    let dflt = sync_path("default", "/default", "default", 300, 3);
    persistence.sync = vec![fast, slow, dflt];

    let spec = workspace(
        "test-workspace",
        metadata("testorg", "testproject", "dev"),
        persistence,
    );
    let plan = build_plan(&spec, None);

    assert_eq!(plan.actions.len(), 3);

    // "fast" overrides transfers but inherits checkers and bwlimit
    let fast = &plan.actions[0];
    assert_eq!(fast.operation.transfers, Some(16)); // overridden
    assert_eq!(fast.operation.checkers, Some(16)); // from defaults
    assert_eq!(fast.operation.bwlimit, Some("10M".to_string())); // from defaults

    // "slow" overrides bwlimit but inherits transfers and checkers
    let slow = &plan.actions[1];
    assert_eq!(slow.operation.transfers, Some(8)); // from defaults
    assert_eq!(slow.operation.checkers, Some(16)); // from defaults
    assert_eq!(slow.operation.bwlimit, Some("1M".to_string())); // overridden

    // "default" uses all defaults
    let default = &plan.actions[2];
    assert_eq!(default.operation.transfers, Some(8));
    assert_eq!(default.operation.checkers, Some(16));
    assert_eq!(default.operation.bwlimit, Some("10M".to_string()));
}

#[test]
fn test_crypt_remote_resolution() {
    let mut base = s3_remote("my-bucket");
    base.options = vec![RemoteOption {
        key: "provider".to_string(),
        value: "Cloudflare".to_string(),
    }];

    let encrypted = RemoteConfig {
        remote_type: "crypt".to_string(),
        bucket: None,
        path_prefix: None,
        options: Vec::new(),
        wrap_remote: Some("r2-base".to_string()),
        wrap_path: Some("encrypted-data".to_string()),
        crypt: Some(CryptConfig {
            password_env: "RCLONE_CRYPT_PASSWORD".to_string(),
            password2_env: Some("RCLONE_CRYPT_PASSWORD2".to_string()),
            filename_encryption: FilenameEncryption::Standard,
            directory_name_encryption: true,
        }),
    };

    let mut persistence = empty_persistence();
    persistence.enabled = true;
    persistence.mode = PersistenceMode::Replicated;
    persistence.default_remote = Some("encrypted".to_string());
    persistence.remotes = vec![
        RemoteEntry {
            name: "r2-base".to_string(),
            config: base,
        },
        RemoteEntry {
            name: "encrypted".to_string(),
            config: encrypted,
        },
    ];
    persistence.sync = vec![sync_path("secrets", "/secrets", "{org}/secrets", 300, 2)];

    let spec = workspace(
        "test-workspace",
        metadata("testorg", "testproject", "dev"),
        persistence,
    );
    let plan = build_plan(&spec, None);

    assert_eq!(plan.actions.len(), 1);

    let action = &plan.actions[0];
    assert!(action.remote.is_some());
    let remote = action.remote.as_ref().unwrap();
    assert_eq!(remote.name, "encrypted");
    assert_eq!(remote.remote_type, "crypt");
    assert_eq!(remote.wrap_path, Some("encrypted-data".to_string()));
    assert_eq!(remote.password_env, Some("RCLONE_CRYPT_PASSWORD".to_string()));
    assert_eq!(
        remote.password2_env,
        Some("RCLONE_CRYPT_PASSWORD2".to_string())
    );

    // Check the wrapped remote is resolved
    assert!(remote.wrap_remote.is_some());
    let base = remote.wrap_remote.as_ref().unwrap();
    assert_eq!(base.name, "r2-base");
    assert_eq!(base.remote_type, "s3");
    assert_eq!(base.bucket, Some("my-bucket".to_string()));
}

#[test]
fn priority_tie_keeps_declaration_order() {
    let mut persistence = empty_persistence();
    persistence.enabled = true;
    persistence.mode = PersistenceMode::Replicated;
    persistence.sync = vec![
        sync_path("first", "/first", "first", 60, 2),
        sync_path("second", "/second", "second", 60, 2),
        sync_path("third", "/third", "third", 60, 1),
    ];
    let spec = workspace(
        "test-workspace",
        metadata("testorg", "testproject", "dev"),
        persistence,
    );
    let plan = build_plan(&spec, None);
    assert_eq!(plan.actions[0].name, "third");
    assert_eq!(plan.actions[1].name, "first");
    assert_eq!(plan.actions[2].name, "second");
}

#[test]
fn cyclic_wrap_chain_resolves_without_looping() {
    // Two crypt remotes wrapping each other: resolution must finish and
    // fail closed by leaving the innermost wrap absent.
    let crypt = |wrap: &str| RemoteConfig {
        remote_type: "crypt".to_string(),
        bucket: None,
        path_prefix: None,
        options: Vec::new(),
        wrap_remote: Some(wrap.to_string()),
        wrap_path: None,
        crypt: Some(CryptConfig {
            password_env: "PW".to_string(),
            password2_env: None,
            filename_encryption: FilenameEncryption::Standard,
            directory_name_encryption: true,
        }),
    };
    let remotes = vec![
        RemoteEntry {
            name: "a".to_string(),
            config: crypt("b"),
        },
        RemoteEntry {
            name: "b".to_string(),
            config: crypt("a"),
        },
    ];
    let ctx = PlanContext {
        org: "o".to_string(),
        project: "p".to_string(),
        env: "e".to_string(),
        remotes: &remotes,
        default_remote: None,
        defaults: None,
    };
    let resolved = ctx.resolve_remote("a").expect("name exists");
    // The chain is finite: a embeds b, then the lookup budget (one per
    // mapping entry) is spent and the deeper wrap stays absent.
    assert_eq!(resolved.name, "a");
    let level1 = resolved.wrap_remote.expect("b is embedded");
    assert_eq!(level1.name, "b");
    assert!(level1.wrap_remote.is_none());
}

#[test]
fn missing_remote_name_gives_inert_action() {
    let mut persistence = empty_persistence();
    persistence.enabled = true;
    persistence.mode = PersistenceMode::Replicated;
    persistence.default_remote = Some("nonexistent".to_string());
    persistence.remotes = vec![RemoteEntry {
        name: "primary".to_string(),
        config: s3_remote("b"),
    }];
    persistence.sync = vec![sync_path("data", "/data", "data", 60, 2)];
    let spec = workspace(
        "test-workspace",
        metadata("testorg", "testproject", "dev"),
        persistence,
    );
    let plan = build_plan(&spec, None);
    assert_eq!(plan.actions.len(), 1);
    assert!(plan.actions[0].remote.is_none());
    assert_eq!(plan.actions[0].remote_path, "data");
}
