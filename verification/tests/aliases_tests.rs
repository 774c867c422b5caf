use espanso_core::aliases::preprocess_aliases;

#[test]
fn test_preprocess_aliases_service_start() {
    let args = vec!["espanso".to_string(), "start".to_string()];
    let result = preprocess_aliases(args);
    assert_eq!(result, vec!["espanso", "service", "start"]);
}

#[test]
fn test_preprocess_aliases_service_restart() {
    let args = vec!["espanso".to_string(), "restart".to_string()];
    let result = preprocess_aliases(args);
    assert_eq!(result, vec!["espanso", "service", "restart"]);
}

#[test]
fn test_preprocess_aliases_service_stop() {
    let args = vec!["espanso".to_string(), "stop".to_string()];
    let result = preprocess_aliases(args);
    assert_eq!(result, vec!["espanso", "service", "stop"]);
}

#[test]
fn test_preprocess_aliases_service_status() {
    let args = vec!["espanso".to_string(), "status".to_string()];
    let result = preprocess_aliases(args);
    assert_eq!(result, vec!["espanso", "service", "status"]);
}

#[test]
fn test_preprocess_aliases_package_install() {
    let args = vec!["espanso".to_string(), "install".to_string()];
    let result = preprocess_aliases(args);
    assert_eq!(result, vec!["espanso", "package", "install"]);
}

#[test]
fn test_preprocess_aliases_package_uninstall() {
    let args = vec!["espanso".to_string(), "uninstall".to_string()];
    let result = preprocess_aliases(args);
    assert_eq!(result, vec!["espanso", "package", "uninstall"]);
}

#[test]
fn test_preprocess_aliases_with_additional_args() {
    let args = vec![
        "espanso".to_string(),
        "start".to_string(),
        "--unmanaged".to_string(),
    ];
    let result = preprocess_aliases(args);
    assert_eq!(result, vec!["espanso", "service", "start", "--unmanaged"]);
}

#[test]
fn test_preprocess_aliases_no_alias_needed() {
    let args = vec![
        "espanso".to_string(),
        "service".to_string(),
        "start".to_string(),
    ];
    let result = preprocess_aliases(args);
    assert_eq!(result, vec!["espanso", "service", "start"]);
}

#[test]
fn test_preprocess_aliases_unknown_command() {
    let args = vec!["espanso".to_string(), "unknown".to_string()];
    let result = preprocess_aliases(args);
    assert_eq!(result, vec!["espanso", "unknown"]);
}

#[test]
fn test_preprocess_aliases_only_program_name() {
    let args = vec!["espanso".to_string()];
    let result = preprocess_aliases(args);
    assert_eq!(result, vec!["espanso"]);
}

#[test]
fn test_preprocess_aliases_preserves_case() {
    let args = vec!["espanso".to_string(), "START".to_string()];
    let result = preprocess_aliases(args);
    // Should not match since we're checking exact string match
    assert_eq!(result, vec!["espanso", "START"]);
}

#[test]
fn test_preprocess_aliases_install_with_package_name() {
    let args = vec![
        "espanso".to_string(),
        "install".to_string(),
        "my-package".to_string(),
    ];
    let result = preprocess_aliases(args);
    assert_eq!(result, vec!["espanso", "package", "install", "my-package"]);
}

#[test]
fn test_preprocess_aliases_skips_vebose_argument() {
    let args = vec!["espanso".to_string(), "-v".to_string(), "start".to_string()];
    let result = preprocess_aliases(args);
    assert_eq!(result, vec!["espanso", "-v", "service", "start"]);
}
