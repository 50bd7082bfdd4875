use procon_rs::config::{templates_root_in, Config, ProjectConfig, TemplateConfig};
use procon_rs::error::ProconError;
use std::path::PathBuf;

#[test]
fn test_config_default_values() {
    let config = Config::default();

    assert_eq!(config.template.default, "default");
    assert_eq!(config.project.cpp_standard, "17");
    assert_eq!(config.project.cmake_minimum_version, "3.16");

    let path_str = config.template.path.clone();
    assert!(path_str.contains("procon_rs"));
    assert!(path_str.contains("templates"));
}

#[test]
fn test_config_get_values() {
    let config = Config::default();

    assert_eq!(config.get("template.default"), Some("default".to_string()));
    assert_eq!(config.get("project.cpp_standard"), Some("17".to_string()));
    assert_eq!(
        config.get("project.cmake_minimum_version"),
        Some("3.16".to_string())
    );
    assert!(config.get("template.path").is_some());

    assert_eq!(config.get("unknown.key"), None);
}

#[test]
fn test_config_set_values() {
    let mut config = Config::default();

    config.set("template.default", "custom").unwrap();
    assert_eq!(config.template.default, "custom");

    config.set("template.path", "/custom/path").unwrap();
    assert_eq!(PathBuf::from(&config.template.path), PathBuf::from("/custom/path"));

    config.set("project.cpp_standard", "20").unwrap();
    assert_eq!(config.project.cpp_standard, "20");

    config.set("project.cmake_minimum_version", "3.20").unwrap();
    assert_eq!(config.project.cmake_minimum_version, "3.20");
}

#[test]
fn test_config_set_unknown_key_returns_error() {
    let mut config = Config::default();

    let result = config.set("unknown.key", "value");

    assert!(result.is_err());

    if let Err(e) = result {
        assert!(e.message().contains("Unknown configuration key"));
    }
}

#[test]
fn test_config_set_unknown_key_changes_nothing() {
    let mut config = Config::default_in(Some("/home/alice/.config"));

    let result = config.set("project.unknown", "value");

    assert_eq!(
        result,
        Err(ProconError::ConfigError("Unknown configuration key: project.unknown".to_string()))
    );
    assert_eq!(config.template.default, "default");
    assert_eq!(config.template.path, "/home/alice/.config/procon_rs/templates");
    assert_eq!(config.project.cpp_standard, "17");
    assert_eq!(config.project.cmake_minimum_version, "3.16");
}

#[test]
fn test_config_default_in_a_known_directory() {
    let config = Config::default_in(Some("/home/alice/.config"));

    assert_eq!(config.template.default, "default");
    assert_eq!(config.template.path, "/home/alice/.config/procon_rs/templates");
    assert_eq!(config.get("template.path"), Some("/home/alice/.config/procon_rs/templates".to_string()));
}

#[test]
fn test_config_default_without_a_configuration_directory() {
    let config = Config::default_in(None);

    assert_eq!(config.template.path, "./procon_rs/templates");
    assert_eq!(config.project.cpp_standard, "17");
    assert_eq!(config.project.cmake_minimum_version, "3.16");
}

#[test]
fn test_config_load_gives_the_defaults() {
    let config = Config::load().unwrap();

    assert_eq!(config.template.default, "default");
    assert_eq!(config.project.cpp_standard, "17");
    assert_eq!(config.project.cmake_minimum_version, "3.16");
    assert_eq!(config.template.path, Config::default().template.path);
}

#[test]
fn test_config_set_leaves_other_keys() {
    let mut config = Config {
        template: TemplateConfig {
            default: "advanced".to_string(),
            path: "/home/user/templates".to_string(),
        },
        project: ProjectConfig {
            cpp_standard: "23".to_string(),
            cmake_minimum_version: "3.25".to_string(),
        },
    };

    config.set("project.cpp_standard", "20").unwrap();

    assert_eq!(config.get("template.default"), Some("advanced".to_string()));
    assert_eq!(config.get("template.path"), Some("/home/user/templates".to_string()));
    assert_eq!(config.get("project.cpp_standard"), Some("20".to_string()));
    assert_eq!(config.get("project.cmake_minimum_version"), Some("3.25".to_string()));
}

#[test]
fn test_config_get_is_exact_about_keys() {
    let config = Config::default();

    assert_eq!(config.get(""), None);
    assert_eq!(config.get("template"), None);
    assert_eq!(config.get("template.default "), None);
    assert_eq!(config.get("Template.Default"), None);
}

#[test]
fn test_templates_root_in() {
    assert_eq!(templates_root_in("/home/alice/.config"), "/home/alice/.config/procon_rs/templates");
    assert_eq!(templates_root_in("/home/alice/.config/"), "/home/alice/.config/procon_rs/templates");
    assert_eq!(templates_root_in(""), "procon_rs/templates");
}
