use coltec_daemon::cli::{Args, LogFormat};

fn args() -> Args {
    Args {
        config: "/workspace/.devcontainer/workspace-spec.yaml".to_string(),
        once: false,
        dry_run: false,
        validate_only: false,
        interval: None,
        only_paths: Vec::new(),
        log_format: LogFormat::Text,
        log_level: "info".to_string(),
    }
}

#[test]
fn continuous_unless_once_or_validate_only() {
    assert!(args().is_continuous());

    let mut once = args();
    once.once = true;
    assert!(!once.is_continuous());

    let mut validate = args();
    validate.validate_only = true;
    assert!(!validate.is_continuous());
}

#[test]
fn path_filter_follows_only_paths() {
    assert!(!args().has_path_filter());

    let mut filtered = args();
    filtered.only_paths = vec!["workspace".to_string(), "config".to_string()];
    assert!(filtered.has_path_filter());
}
