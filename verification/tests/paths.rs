use arcella::paths::is_valid_toml_file_path;

#[test]
fn test_is_valid_toml_file_path_edge_cases() {
    // Valid cases
    assert!(is_valid_toml_file_path("config.toml"));
    assert!(is_valid_toml_file_path("Config.TOML"));
    assert!(is_valid_toml_file_path("my-config_v2.toml"));

    // Invalid: .template.toml
    assert!(!is_valid_toml_file_path("template.template.toml"));
    assert!(!is_valid_toml_file_path("foo.TEMPLATE.TOML"));

    // Invalid: wrong extension
    assert!(!is_valid_toml_file_path("config.json"));
    assert!(!is_valid_toml_file_path("config.toml.bak"));

    // Edge cases
    assert!(!is_valid_toml_file_path("."));
    assert!(!is_valid_toml_file_path(".."));
    assert!(!is_valid_toml_file_path("/"));
    assert!(!is_valid_toml_file_path(""));
}
