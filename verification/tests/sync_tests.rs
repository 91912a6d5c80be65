use coltec_daemon::backend::{
    build_crypt_backend, build_storage_backend, expand_env_vars, quote_rclone_value, EnvVar,
};
use coltec_daemon::config::RemoteOption;
use coltec_daemon::plan::{OperationSettings, ResolvedRemote};
use coltec_daemon::state::state_dir;
use coltec_daemon::sync::apply_operation_settings;

fn no_env() -> Vec<EnvVar> {
    Vec::new()
}

fn plain_remote(name: &str, remote_type: &str, bucket: Option<&str>) -> ResolvedRemote {
    ResolvedRemote {
        name: name.to_string(),
        remote_type: remote_type.to_string(),
        bucket: bucket.map(|b| b.to_string()),
        path_prefix: None,
        options: Vec::new(),
        wrap_remote: None,
        wrap_path: None,
        password_env: None,
        password2_env: None,
        filename_encryption: None,
        directory_name_encryption: None,
    }
}

#[test]
fn test_state_dir() {
    let dir = state_dir("test-workspace");
    assert!(dir.contains("coltec-daemon"));
    assert!(dir.contains("test-workspace"));
}

#[test]
fn test_build_storage_backend_minimal() {
    let remote = plain_remote("simple", "s3", Some("bucket"));
    let backend = build_storage_backend(&remote, "path", &no_env());
    assert_eq!(backend, ":s3,bucket=bucket:path");
}

#[test]
fn test_build_crypt_backend() {
    let base_remote = plain_remote("r2-base", "s3", Some("my-bucket"));

    let crypt_remote = ResolvedRemote {
        name: "encrypted".to_string(),
        remote_type: "crypt".to_string(),
        bucket: None,
        path_prefix: None,
        options: Vec::new(),
        wrap_remote: Some(Box::new(base_remote)),
        wrap_path: Some("encrypted-data".to_string()),
        password_env: Some("RCLONE_CRYPT_PASSWORD".to_string()),
        password2_env: Some("RCLONE_CRYPT_PASSWORD2".to_string()),
        filename_encryption: Some("standard".to_string()),
        directory_name_encryption: Some(true),
    };

    let backend = build_crypt_backend(&crypt_remote, "secrets", &no_env());
    assert!(backend.starts_with(":crypt,"));
    assert!(backend.contains("filename_encryption=standard"));
    assert!(backend.contains("directory_name_encryption=true"));
    assert!(backend.ends_with(":secrets"));
}

#[test]
fn test_apply_operation_settings_all() {
    let settings = OperationSettings {
        transfers: Some(16),
        checkers: Some(32),
        bwlimit: Some("100M".to_string()),
    };

    let mut args: Vec<String> = Vec::new();
    apply_operation_settings(&mut args, &settings);

    assert!(args.contains(&"--transfers".to_string()));
    assert!(args.contains(&"16".to_string()));
    assert!(args.contains(&"--checkers".to_string()));
    assert!(args.contains(&"32".to_string()));
    assert!(args.contains(&"--bwlimit".to_string()));
    assert!(args.contains(&"100M".to_string()));
}

#[test]
fn test_apply_operation_settings_defaults() {
    let settings = OperationSettings {
        transfers: None,
        checkers: None,
        bwlimit: None,
    };

    let mut args: Vec<String> = Vec::new();
    apply_operation_settings(&mut args, &settings);

    // Should have default transfers and checkers
    assert!(args.contains(&"--transfers".to_string()));
    assert!(args.contains(&"8".to_string()));
    assert!(args.contains(&"--checkers".to_string()));
    assert!(args.contains(&"16".to_string()));
    // Should NOT have bwlimit
    assert!(!args.contains(&"--bwlimit".to_string()));
}

#[test]
fn test_expand_env_vars_braced() {
    let env = vec![EnvVar {
        name: "TEST_VAR_BRACED".to_string(),
        value: "expanded_value".to_string(),
    }];
    assert_eq!(expand_env_vars("${TEST_VAR_BRACED}", &env), "expanded_value");
    assert_eq!(
        expand_env_vars("prefix_${TEST_VAR_BRACED}_suffix", &env),
        "prefix_expanded_value_suffix"
    );
}

#[test]
fn test_expand_env_vars_unbraced() {
    let env = vec![EnvVar {
        name: "TEST_VAR_UNBRACED".to_string(),
        value: "value123".to_string(),
    }];
    assert_eq!(expand_env_vars("$TEST_VAR_UNBRACED", &env), "value123");
    assert_eq!(expand_env_vars("$TEST_VAR_UNBRACED/path", &env), "value123/path");
}

#[test]
fn test_expand_env_vars_missing() {
    // Missing env vars should keep original syntax
    assert_eq!(
        expand_env_vars("${NONEXISTENT_VAR_12345}", &no_env()),
        "${NONEXISTENT_VAR_12345}"
    );
}

#[test]
fn test_expand_env_vars_no_expansion() {
    assert_eq!(expand_env_vars("plain_string", &no_env()), "plain_string");
    assert_eq!(
        expand_env_vars("https://example.com", &no_env()),
        "https://example.com"
    );
}

#[test]
fn expand_env_vars_second_pass_sees_substitution() {
    // The braced pass runs first; the bare pass then runs over its
    // output, so a braced value holding a bare reference is expanded.
    let env = vec![
        EnvVar {
            name: "A".to_string(),
            value: "$B".to_string(),
        },
        EnvVar {
            name: "B".to_string(),
            value: "x".to_string(),
        },
    ];
    assert_eq!(expand_env_vars("${A}", &env), "x");
}

#[test]
fn test_quote_rclone_value_no_special_chars() {
    assert_eq!(quote_rclone_value("simple"), "simple");
    assert_eq!(quote_rclone_value("Cloudflare"), "Cloudflare");
    assert_eq!(quote_rclone_value("auto"), "auto");
}

#[test]
fn test_quote_rclone_value_with_colon() {
    // URLs with colons need quoting
    assert_eq!(
        quote_rclone_value("https://example.com"),
        "'https://example.com'"
    );
    assert_eq!(
        quote_rclone_value("https://xxx.r2.cloudflarestorage.com"),
        "'https://xxx.r2.cloudflarestorage.com'"
    );
}

#[test]
fn test_quote_rclone_value_with_comma() {
    assert_eq!(quote_rclone_value("a,b,c"), "'a,b,c'");
}

#[test]
fn test_quote_rclone_value_with_quotes() {
    // Internal single quotes get doubled
    assert_eq!(quote_rclone_value("it's"), "'it''s'");
    // Double quotes also trigger quoting
    assert_eq!(quote_rclone_value("say \"hi\""), "'say \"hi\"'");
}

#[test]
fn test_build_storage_backend_s3_with_url_endpoint() {
    let mut remote = plain_remote("r2", "s3", Some("my-bucket"));
    remote.options = vec![
        RemoteOption {
            key: "endpoint".to_string(),
            value: "https://xxx.r2.cloudflarestorage.com".to_string(),
        },
        RemoteOption {
            key: "provider".to_string(),
            value: "Cloudflare".to_string(),
        },
    ];

    let backend = build_storage_backend(&remote, "workspaces/org/project/data", &no_env());
    assert!(backend.starts_with(":s3,"));
    assert!(backend.contains("bucket=my-bucket"));
    assert!(backend.contains("provider=Cloudflare"));
    // Endpoint URL should be quoted because of colons
    assert!(backend.contains("endpoint='https://xxx.r2.cloudflarestorage.com'"));
    assert!(backend.ends_with(":workspaces/org/project/data"));
}

#[test]
fn storage_backend_expands_option_values() {
    let env = vec![EnvVar {
        name: "S3_ENDPOINT".to_string(),
        value: "https://s3.example.test".to_string(),
    }];
    let mut remote = plain_remote("r", "s3", Some("b"));
    remote.options = vec![RemoteOption {
        key: "endpoint".to_string(),
        value: "${S3_ENDPOINT}".to_string(),
    }];
    let backend = build_storage_backend(&remote, "p", &env);
    // The value is expanded, then quoted because of the colon.
    assert_eq!(backend, ":s3,bucket=b,endpoint='https://s3.example.test':p");
}
