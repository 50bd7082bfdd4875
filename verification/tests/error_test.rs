use procon_rs::error::ProconError;
use std::io;

fn assert_send_sync<T: Send + Sync>() {}

#[test]
fn test_project_exists_error_display() {
    let project_name = "test_project";
    let error = ProconError::ProjectExists(project_name.to_string());

    let error_message = error.message();

    assert_eq!(error_message, "Project 'test_project' already exists");
}

#[test]
fn test_project_not_found_error_display() {
    let error = ProconError::ProjectNotFound;

    let error_message = error.message();

    assert_eq!(error_message, "Project directory not found");
}

#[test]
fn test_template_not_found_error_display() {
    let template_name = "custom";
    let error = ProconError::TemplateNotFound(template_name.to_string());

    let error_message = error.message();

    assert_eq!(error_message, "Template 'custom' not found");
}

#[test]
fn test_project_creation_failed_error_display() {
    let failure_reason = "permission denied";
    let error = ProconError::ProjectCreationFailed(failure_reason.to_string());

    let error_message = error.message();

    assert_eq!(error_message, "Failed to create project: permission denied");
}

#[test]
fn test_config_error_display() {
    let config_issue = "invalid key";
    let error = ProconError::ConfigError(config_issue.to_string());

    let error_message = error.message();

    assert_eq!(error_message, "Configuration error: invalid key");
}

#[test]
fn test_io_error_conversion() {
    let io_error = io::Error::new(io::ErrorKind::NotFound, "file not found");

    let error: ProconError = io_error.into();

    assert!(matches!(error, ProconError::Io(_)));
}

#[test]
fn test_error_is_send_sync() {
    assert_send_sync::<ProconError>();
}

#[test]
fn test_io_error_conversion_keeps_the_message() {
    let io_error = io::Error::new(io::ErrorKind::NotFound, "file not found");

    let error = ProconError::from(io_error);

    assert_eq!(error, ProconError::Io("file not found".to_string()));
    assert_eq!(error.message(), "IO error: file not found");
}

#[test]
fn test_toml_error_display() {
    let parse = ProconError::TomlParse("expected `=`".to_string());
    let serialize = ProconError::TomlSerialize("unsupported type".to_string());

    assert_eq!(parse.message(), "TOML parse error: expected `=`");
    assert_eq!(serialize.message(), "TOML serialize error: unsupported type");
}

#[test]
fn test_error_display_with_empty_payload() {
    assert_eq!(ProconError::ProjectExists(String::new()).message(), "Project '' already exists");
    assert_eq!(ProconError::Io(String::new()).message(), "IO error: ");
}
