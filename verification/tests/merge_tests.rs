use arcella::config::{
    merge_config, merge_layers, ArcellaConfig, DEFAULT_CONFIG_FILENAME, MAIN_CONFIG_FILENAME,
};
use arcella::integrity::{check_mtimes_changed, IntegrityChecker, Timestamp};
use arcella::error::ArcellaUtilsError;
use arcella::ordered::ConfigValues;
use arcella::types::{ConfigLoadParams, TomlFileData};
use arcella::value::Value as TomlValue;
use arcella::warnings::ConfigLoadWarning;
use indexmap::{IndexMap, IndexSet};

fn join_path(dir: &str, name: &str) -> String {
    format!("{}/{}", dir, name)
}

fn make_toml_value(s: &str) -> TomlValue {
    TomlValue::String(s.to_string())
}

fn params_for(config_dir: &str) -> ConfigLoadParams {
    ConfigLoadParams { prefix: vec!["arcella".to_string()], config_dir: config_dir.to_string() }
}

#[test]
fn test_merge_config_example_from_docs() {
    let config_dir = "config".to_string();
    let mut config_files: IndexSet<String> = IndexSet::new();

    // built-in defaults (layer 0)
    let (idx, _) = config_files.insert_full(DEFAULT_CONFIG_FILENAME.to_string());
    let mut default_values: ConfigValues = IndexMap::new();
    default_values.insert("arcella.log.level".to_string(), (make_toml_value("info"), idx));
    default_values.insert("arcella.log.file".to_string(), (make_toml_value("arcella_default.log"), idx));
    default_values.insert("arcella.server.port".to_string(), (make_toml_value("8080"), idx));
    default_values.insert("arcella.server.host".to_string(), (make_toml_value("0.0.0.0"), idx));

    let default_config = TomlFileData { includes: vec![], values: default_values };

    // arcella.toml (layer 1)
    let (idx, _) = config_files.insert_full(join_path(&config_dir, MAIN_CONFIG_FILENAME));
    let mut main_config_values: ConfigValues = IndexMap::new();
    main_config_values.insert("arcella.log.level#redef".to_string(), (make_toml_value("warn"), idx));
    main_config_values.insert("arcella.log.file".to_string(), (make_toml_value("arcella_main.log"), idx));
    main_config_values.insert("arcella.server.port".to_string(), (make_toml_value("9000"), idx));

    let main_config = TomlFileData { includes: vec![], values: main_config_values };

    // level_1.toml (layer 2)
    let (idx, _) = config_files.insert_full(join_path(&config_dir, "level_1.toml"));
    let mut level_1_values: ConfigValues = IndexMap::new();
    level_1_values.insert("arcella.log.level".to_string(), (make_toml_value("debug"), idx));
    level_1_values.insert("arcella.server.host".to_string(), (make_toml_value("127.0.0.1"), idx));
    level_1_values.insert("arcella.server.name".to_string(), (make_toml_value("www.server.net"), idx));
    level_1_values.insert(
        "arcella.custom.message".to_string(),
        (make_toml_value("Это дополнительный параметр"), idx),
    );

    let level_1_config = TomlFileData { includes: vec![], values: level_1_values };

    let configs = vec![main_config, level_1_config];

    let mut warnings = vec![];

    let result = merge_config(&default_config, &configs, &config_files, &params_for(&config_dir), &mut warnings)
        .expect("merge_config should succeed");

    assert_eq!(result.get("arcella.log.level"), Some(&(make_toml_value("debug"), 2)));
    assert_eq!(result.get("arcella.log.file"), Some(&(make_toml_value("arcella_main.log"), 1)));
    assert_eq!(result.get("arcella.server.port"), Some(&(make_toml_value("9000"), 1)));
    assert_eq!(result.get("arcella.server.host"), Some(&(make_toml_value("0.0.0.0"), 0)));
    assert_eq!(
        result.get("arcella.custom.message"),
        Some(&(make_toml_value("Это дополнительный параметр"), 2))
    );

    assert_eq!(warnings.len(), 2);

    let warning1 = &warnings[0];
    match warning1 {
        ConfigLoadWarning::ValueError { key, error, .. } => {
            assert_eq!(key, "arcella.server.host");
            assert!(error.contains("ignored due to #redef missing in arcella.toml"));
        }
        _ => panic!("Expected ValueError for arcella.server.host"),
    }

    let warning2 = &warnings[1];
    match warning2 {
        ConfigLoadWarning::ValueError { key, error, .. } => {
            assert_eq!(key, "arcella.server.name");
            assert!(error.contains("ignored due to missing in default config"));
        }
        _ => panic!("Expected ValueError for arcella.server.name"),
    }
}

#[test]
fn test_merge_config_no_redef_prevents_override() {
    let config_dir = "config".to_string();
    let mut config_files: IndexSet<String> = IndexSet::new();

    let (idx, _) = config_files.insert_full(DEFAULT_CONFIG_FILENAME.to_string());
    let mut default_values: ConfigValues = IndexMap::new();
    default_values.insert("arcella.server.host".to_string(), (make_toml_value("0.0.0.0"), idx));
    default_values.insert("arcella.server.port".to_string(), (make_toml_value("8090"), idx));
    let default_config = TomlFileData { includes: vec![], values: default_values };

    let (idx, _) = config_files.insert_full(join_path(&config_dir, MAIN_CONFIG_FILENAME));
    let mut main_config_values: ConfigValues = IndexMap::new();
    main_config_values.insert("arcella.server.host".to_string(), (make_toml_value("192.168.1.1"), idx));
    let main_config = TomlFileData { includes: vec![], values: main_config_values };

    let (idx, _) = config_files.insert_full(join_path(&config_dir, "level_1.toml"));
    let mut level_1_values: ConfigValues = IndexMap::new();
    level_1_values.insert("arcella.server.port".to_string(), (make_toml_value("9000"), idx));
    let level_1_config = TomlFileData { includes: vec![], values: level_1_values };

    let (idx, _) = config_files.insert_full(join_path(&config_dir, "level_2.toml"));
    let mut level_2_values: ConfigValues = IndexMap::new();
    level_2_values.insert("arcella.server.host".to_string(), (make_toml_value("127.0.0.1"), idx));
    let level_2_config = TomlFileData { includes: vec![], values: level_2_values };

    let configs = vec![main_config, level_1_config, level_2_config];

    let mut warnings = vec![];

    let result = merge_config(&default_config, &configs, &config_files, &params_for(&config_dir), &mut warnings)
        .expect("merge_config should succeed");

    assert_eq!(result.get("arcella.server.host"), Some(&(make_toml_value("192.168.1.1"), 1)));

    assert_eq!(warnings.len(), 2);
    let warning_1 = &warnings[0];
    match warning_1 {
        ConfigLoadWarning::ValueError { key, error, .. } => {
            assert_eq!(key, "arcella.server.host");
            assert!(error.contains("Value from file 3 ignored due to no #redef flag in layer 0"));
        }
        _ => panic!("Expected ValueError for arcella.server.host"),
    }
    let warning_2 = &warnings[1];
    match warning_2 {
        ConfigLoadWarning::ValueError { key, error, .. } => {
            assert_eq!(key, "arcella.server.port");
            assert!(error.contains("Value from file 2 ignored due to #redef missing in arcella.toml"));
        }
        _ => panic!("Expected ValueError for arcella.server.port"),
    }
}

#[test]
fn test_merge_config_redef_allows_override() {
    let config_dir = "config".to_string();
    let mut config_files: IndexSet<String> = IndexSet::new();

    let (idx, _) = config_files.insert_full(DEFAULT_CONFIG_FILENAME.to_string());
    let mut default_values: ConfigValues = IndexMap::new();
    default_values.insert("arcella.log.level".to_string(), (make_toml_value("info"), idx));
    let default_config = TomlFileData { includes: vec![], values: default_values };

    let (idx, _) = config_files.insert_full(join_path(&config_dir, MAIN_CONFIG_FILENAME));
    let mut main_config_values: ConfigValues = IndexMap::new();
    main_config_values.insert("arcella.log.level#redef".to_string(), (make_toml_value("warn"), idx));
    let main_config = TomlFileData { includes: vec![], values: main_config_values };

    let (idx, _) = config_files.insert_full(join_path(&config_dir, "level_1.toml"));
    let mut level_1_values: ConfigValues = IndexMap::new();
    level_1_values.insert("arcella.log.level#redef".to_string(), (make_toml_value("debug"), idx));
    let level_1_config = TomlFileData { includes: vec![], values: level_1_values };

    let (idx, _) = config_files.insert_full(join_path(&config_dir, "level_2.toml"));
    let mut level_2_values: ConfigValues = IndexMap::new();
    level_2_values.insert("arcella.log.level".to_string(), (make_toml_value("trace"), idx));
    let level_2_config = TomlFileData { includes: vec![], values: level_2_values };

    let configs = vec![main_config, level_1_config, level_2_config];

    let mut warnings = vec![];

    let result = merge_config(&default_config, &configs, &config_files, &params_for(&config_dir), &mut warnings)
        .expect("merge_config should succeed");

    assert_eq!(result.get("arcella.log.level"), Some(&(make_toml_value("trace"), 3)));
    assert!(warnings.is_empty());
}

#[test]
fn test_merge_config_new_key_in_custom_allowed() {
    let config_dir = "config".to_string();
    let mut config_files: IndexSet<String> = IndexSet::new();

    let (idx, _) = config_files.insert_full(DEFAULT_CONFIG_FILENAME.to_string());
    let mut default_values: ConfigValues = IndexMap::new();
    default_values.insert("arcella.log.level".to_string(), (make_toml_value("info"), idx));
    let default_config = TomlFileData { includes: vec![], values: default_values };

    let (_idx, _) = config_files.insert_full(join_path(&config_dir, MAIN_CONFIG_FILENAME));
    let main_config_values: ConfigValues = IndexMap::new();
    let main_config = TomlFileData { includes: vec![], values: main_config_values };

    let (idx, _) = config_files.insert_full(join_path(&config_dir, "level_1.toml"));
    let mut level_1_values: ConfigValues = IndexMap::new();
    level_1_values.insert("arcella.custom.new_key".to_string(), (make_toml_value("new_value"), idx));
    let level_1_config = TomlFileData { includes: vec![], values: level_1_values };

    let configs = vec![main_config, level_1_config];

    let mut warnings = vec![];

    let result = merge_config(&default_config, &configs, &config_files, &params_for(&config_dir), &mut warnings)
        .expect("merge_config should succeed");

    assert_eq!(result.get("arcella.custom.new_key"), Some(&(make_toml_value("new_value"), 2)));
    assert!(warnings.is_empty());
}

#[test]
fn test_merge_config_new_key_in_server_ignored() {
    let mut default_values: ConfigValues = IndexMap::new();
    default_values.insert("arcella.log.level".to_string(), (make_toml_value("info"), 0));
    let default_config = TomlFileData { includes: vec![], values: default_values };

    let main_config_values: ConfigValues = IndexMap::new();
    let main_config = TomlFileData { includes: vec![], values: main_config_values };

    let mut level_1_values: ConfigValues = IndexMap::new();
    level_1_values.insert("arcella.server.new_option".to_string(), (make_toml_value("some_value"), 2));
    let level_1_config = TomlFileData { includes: vec![], values: level_1_values };

    let configs = vec![main_config, level_1_config];

    let mut warnings = vec![];

    let config_dir = "config".to_string();
    let mut config_files: IndexSet<String> = IndexSet::new();
    config_files.insert(DEFAULT_CONFIG_FILENAME.to_string());
    config_files.insert(join_path(&config_dir, MAIN_CONFIG_FILENAME));
    config_files.insert(join_path(&config_dir, "level_1.toml"));

    let result = merge_config(&default_config, &configs, &config_files, &params_for(&config_dir), &mut warnings)
        .expect("merge_config should succeed");

    assert!(!result.contains_key("arcella.server.new_option"));
    assert_eq!(warnings.len(), 1);
    let warning = &warnings[0];
    match warning {
        ConfigLoadWarning::ValueError { key, error, .. } => {
            assert_eq!(key, "arcella.server.new_option");
            assert!(error.contains("ignored due to missing in default config"));
        }
        _ => panic!("Expected ValueError for new key in arcella.server"),
    }
}

fn file_of(entries: Vec<(&str, &str, usize)>) -> TomlFileData {
    let mut values: ConfigValues = IndexMap::new();
    for (key, value, idx) in entries {
        values.insert(key.to_string(), (make_toml_value(value), idx));
    }
    TomlFileData { includes: vec![], values }
}

#[test]
fn redef_in_the_primary_file_lets_an_included_file_set_the_value() {
    let defaults = file_of(vec![("level", "info", 0)]);
    let configs = vec![file_of(vec![("level#redef", "warn", 1)]), file_of(vec![("level", "debug", 2)])];
    let mut warnings = vec![];
    let result = merge_layers(&defaults, &configs, 1, 0, "", &mut warnings);
    assert_eq!(result.get("level"), Some(&(make_toml_value("debug"), 2)));
    assert_eq!(result.len(), 1);
    assert!(warnings.is_empty());
}

#[test]
fn without_redef_the_included_value_is_rejected() {
    let defaults = file_of(vec![("level", "info", 0)]);
    let configs = vec![file_of(vec![]), file_of(vec![("level", "debug", 2)])];
    let mut warnings = vec![];
    let result = merge_layers(&defaults, &configs, 1, 0, "", &mut warnings);
    assert_eq!(result.get("level"), Some(&(make_toml_value("info"), 0)));
    assert_eq!(
        warnings,
        vec![ConfigLoadWarning::ValueError {
            key: "level".to_string(),
            error: "Value from file 2 ignored due to #redef missing in arcella.toml".to_string(),
            file: "layer_1.toml".to_string(),
        }]
    );
}

#[test]
fn new_keys_are_admitted_in_custom_and_modules_only() {
    let defaults = file_of(vec![("level", "info", 0)]);
    let configs = vec![
        file_of(vec![]),
        file_of(vec![
            ("custom.message", "hello", 2),
            ("server.unknown_option", "x", 2),
            ("modules.dir", "/m", 2),
            ("custom", "bare", 2),
            ("customs.x", "y", 2),
        ]),
    ];
    let mut warnings = vec![];
    let result = merge_layers(&defaults, &configs, 1, 0, "", &mut warnings);
    assert_eq!(result.get("custom.message"), Some(&(make_toml_value("hello"), 2)));
    assert_eq!(result.get("modules.dir"), Some(&(make_toml_value("/m"), 2)));
    assert!(!result.contains_key("server.unknown_option"));
    assert!(!result.contains_key("custom"));
    assert!(!result.contains_key("customs.x"));
    assert_eq!(
        warnings,
        vec![
            ConfigLoadWarning::ValueError {
                key: "server.unknown_option".to_string(),
                error: "Value from layer 1 ignored due to missing in default config".to_string(),
                file: "layer_1.toml".to_string(),
            },
            ConfigLoadWarning::ValueError {
                key: "custom".to_string(),
                error: "Value from layer 1 ignored due to missing in default config".to_string(),
                file: "layer_1.toml".to_string(),
            },
            ConfigLoadWarning::ValueError {
                key: "customs.x".to_string(),
                error: "Value from layer 1 ignored due to missing in default config".to_string(),
                file: "layer_1.toml".to_string(),
            },
        ]
    );
}

#[test]
fn new_keys_lie_below_the_configured_prefix() {
    let defaults = file_of(vec![]);
    let configs = vec![file_of(vec![("app.core.custom.a", "1", 1), ("custom.a", "2", 1)])];
    let mut warnings = vec![];
    let result = merge_layers(&defaults, &configs, 1, 0, "app.core", &mut warnings);
    assert_eq!(result.get("app.core.custom.a"), Some(&(make_toml_value("1"), 1)));
    assert!(!result.contains_key("custom.a"));
    assert_eq!(warnings.len(), 1);
}

#[test]
fn a_displaced_value_is_overwritten_and_reported() {
    let defaults = file_of(vec![("k", "d", 0)]);
    let configs = vec![file_of(vec![("k", "main", 1)]), file_of(vec![("k", "deep", 12)])];
    let mut warnings = vec![ConfigLoadWarning::Internal("before".to_string())];
    let result = merge_layers(&defaults, &configs, 1, 0, "", &mut warnings);
    assert_eq!(result.get("k"), Some(&(make_toml_value("main"), 1)));
    assert_eq!(
        warnings,
        vec![
            ConfigLoadWarning::Internal("before".to_string()),
            ConfigLoadWarning::ValueError {
                key: "k".to_string(),
                error: "Value from file 12 ignored due to no #redef flag in layer 0".to_string(),
                file: "layer_0.toml".to_string(),
            },
        ]
    );
}

#[test]
fn every_default_key_is_in_the_result_under_the_default_index() {
    let defaults = file_of(vec![("b", "2", 7), ("a", "1", 7)]);
    let configs: Vec<TomlFileData> = vec![];
    let mut warnings = vec![];
    let result = merge_layers(&defaults, &configs, 1, 5, "", &mut warnings);
    let entries: Vec<(&String, &(TomlValue, usize))> = result.iter().collect();
    assert_eq!(
        entries,
        vec![
            (&"b".to_string(), &(make_toml_value("2"), 5)),
            (&"a".to_string(), &(make_toml_value("1"), 5)),
        ]
    );
    assert!(warnings.is_empty());
}

#[test]
fn merge_is_refused_where_the_primary_file_is_not_registered() {
    let defaults = file_of(vec![("a", "1", 0)]);
    let configs = vec![file_of(vec![("a", "2", 1)])];
    let mut config_files: IndexSet<String> = IndexSet::new();
    config_files.insert(DEFAULT_CONFIG_FILENAME.to_string());
    let mut warnings = vec![];
    let result = merge_config(&defaults, &configs, &config_files, &params_for("config"), &mut warnings);
    assert!(matches!(result, Err(ArcellaUtilsError::Internal(_))));
    assert!(warnings.is_empty());
}

#[test]
fn settings_are_read_from_the_sorted_configuration() {
    let mut values: ConfigValues = IndexMap::new();
    values.insert("arcella.modules.dir".to_string(), (make_toml_value("/m"), 0));
    values.insert("arcella.log.dir".to_string(), (make_toml_value("/l"), 0));
    values.insert("arcella.cache.dir".to_string(), (make_toml_value("/c"), 0));
    values.insert("arcella.alme.socket.path".to_string(), (make_toml_value("/s"), 1));
    let config = ArcellaConfig::from_values("/base".to_string(), "/base/config".to_string(), &mut values).unwrap();
    assert_eq!(
        config,
        ArcellaConfig {
            base_dir: "/base".to_string(),
            config_dir: "/base/config".to_string(),
            log_dir: "/l".to_string(),
            modules_dir: "/m".to_string(),
            cache_dir: "/c".to_string(),
            socket_path: "/s".to_string(),
            integrity_check_paths: vec![],
        }
    );
    let keys: Vec<&String> = values.keys().collect();
    assert_eq!(
        keys,
        vec!["arcella.alme.socket.path", "arcella.cache.dir", "arcella.log.dir", "arcella.modules.dir"]
    );
}

#[test]
fn a_setting_that_is_no_string_fails_with_its_key() {
    let mut values: ConfigValues = IndexMap::new();
    values.insert("arcella.log.dir".to_string(), (make_toml_value("/l"), 0));
    values.insert("arcella.modules.dir".to_string(), (TomlValue::Integer(3), 0));
    let result = ArcellaConfig::from_values("b".to_string(), "c".to_string(), &mut values);
    assert_eq!(result, Err(ArcellaUtilsError::Internal("arcella.modules.dir is not set".to_string())));
}

#[test]
fn a_changed_file_breaks_integrity() {
    let t1 = Timestamp { secs: 10, nanos: 1 };
    let t2 = Timestamp { secs: 10, nanos: 2 };
    let initial = vec![("a".to_string(), t1), ("b".to_string(), t1)];
    assert_eq!(check_mtimes_changed(&initial, &vec![("b".to_string(), t1), ("a".to_string(), t1)]), Ok(()));
    assert_eq!(
        check_mtimes_changed(&initial, &vec![("a".to_string(), t1), ("b".to_string(), t2)]),
        Err(ArcellaUtilsError::Internal(
            "Config integrity violation: file b was modified after startup".to_string()
        ))
    );
    let checker = IntegrityChecker::new(vec!["a".to_string(), "b".to_string()], initial);
    assert_eq!(
        checker.check(&vec![("c".to_string(), t1)]),
        Err(ArcellaUtilsError::Internal(
            "Config integrity violation: file c not found in initial list".to_string()
        ))
    );
}

#[test]
fn the_primary_file_is_found_whatever_the_spelling_of_the_directory() {
    let defaults = file_of(vec![("arcella.a", "1", 0)]);
    let configs = vec![file_of(vec![("arcella.a", "2", 1)])];
    let mut config_files: IndexSet<String> = IndexSet::new();
    config_files.insert(DEFAULT_CONFIG_FILENAME.to_string());
    config_files.insert("base/config/arcella.toml".to_string());
    let mut warnings = vec![];
    let result = merge_config(&defaults, &configs, &config_files, &params_for("base/./config//"), &mut warnings)
        .unwrap();
    assert_eq!(result.get("arcella.a"), Some(&(make_toml_value("2"), 1)));
    assert!(warnings.is_empty());
}
