use arcella::document::TomlNode;
use arcella::error::ArcellaUtilsError;
use arcella::ordered::ConfigValues;
use arcella::toml::{collect_paths, parse, parse_and_collect};
use arcella::types::{TomlFileData, TraversalResult, MAX_TOML_DEPTH};
use arcella::value::Value as TomlValue;
use indexmap::IndexMap;

#[test]
fn test_max_toml_depth_pruned() {
    const MAX_DEPTH: usize = MAX_TOML_DEPTH; // 10

    let mut path = "l0".to_string();
    for i in 1..=MAX_DEPTH + 1 {
        path.push_str(&format!(".l{}", i));
    }
    let content = format!("[{}]\nvalue = \"deep\"", path);

    let (data, result) = parse_and_collect(&content, &[], 0).unwrap();

    assert_eq!(result, TraversalResult::Pruned);

    assert!(!data.values.contains_key(&format!("{}.value", path)));
}

#[test]
fn test_parse_config_and_collect_includes_simple() {
    let config_content = r#"
    [server]
    port = 8080
    host = "localhost"

    includes = ["config.d/*.toml"]
    "#;

    let config = parse_and_collect(config_content, &["root".to_string()], 0).unwrap();

    let expected_includes = vec!["config.d/*.toml".to_string()];

    let mut expected_values: ConfigValues = IndexMap::new();
    expected_values.insert("root.server.port".to_string(), (TomlValue::Integer(8080), 0));
    expected_values.insert(
        "root.server.host".to_string(),
        (TomlValue::String("localhost".to_string()), 0),
    );

    let expected_config = TomlFileData { includes: expected_includes, values: expected_values };

    assert_eq!(config, (expected_config, TraversalResult::Full));
}

#[test]
fn test_parse_config_and_collect_includes_nested() {
    let config_content = r#"
    [database]
    host = "db.example.com"
    port = 5432

    [database.pool]
    max_connections = 10
    timeout = 30.5

    [logging]
    level = "info"
    "#;

    let config = parse_and_collect(config_content, &[], 0).unwrap();

    let expected_includes = Vec::new();

    let mut expected_values: ConfigValues = IndexMap::new();
    expected_values.insert(
        "database.host".to_string(),
        (TomlValue::String("db.example.com".to_string()), 0),
    );
    expected_values.insert("database.port".to_string(), (TomlValue::Integer(5432), 0));
    expected_values.insert("database.pool.max_connections".to_string(), (TomlValue::Integer(10), 0));
    expected_values.insert(
        "database.pool.timeout".to_string(),
        (TomlValue::Float(30.5f64.to_bits()), 0),
    );
    expected_values.insert("logging.level".to_string(), (TomlValue::String("info".to_string()), 0));

    let expected_config = TomlFileData { includes: expected_includes, values: expected_values };

    assert_eq!(config, (expected_config, TraversalResult::Full));
}

#[test]
fn test_parse_config_and_collect_includes_with_single_string_includes() {
    let config_content = r#"
    [app]
    name = "my_app"

    includes = "overrides.toml"
    "#;

    let config = parse_and_collect(config_content, &["config".to_string()], 0).unwrap();

    let expected_includes = vec!["overrides.toml".to_string()];

    let mut expected_values: ConfigValues = IndexMap::new();
    expected_values.insert("config.app.name".to_string(), (TomlValue::String("my_app".to_string()), 0));

    let expected_config = TomlFileData { includes: expected_includes, values: expected_values };

    assert_eq!(config, (expected_config, TraversalResult::Full));
}

#[test]
fn test_parse_config_and_collect_includes_with_array_includes() {
    let config_content = r#"
    [app]
    version = "1.0.0"

    includes = ["config.d/*.toml", "local.toml", "secrets.toml"]
    "#;

    let config = parse_and_collect(config_content, &vec!["config".to_string()], 0).unwrap();

    let expected_includes = vec![
        "config.d/*.toml".to_string(),
        "local.toml".to_string(),
        "secrets.toml".to_string(),
    ];

    let mut expected_values: ConfigValues = IndexMap::new();
    expected_values.insert(
        "config.app.version".to_string(),
        (TomlValue::String("1.0.0".to_string()), 0),
    );

    let expected_config = TomlFileData { includes: expected_includes, values: expected_values };

    assert_eq!(config, (expected_config, TraversalResult::Full));
}

#[test]
fn test_parse_config_and_collect_includes_empty_content() {
    let config_content = "";

    let config = parse_and_collect(config_content, &[], 0).unwrap();

    let expected_includes = Vec::new();
    let expected_values = IndexMap::new();

    let expected_config = TomlFileData { includes: expected_includes, values: expected_values };

    assert_eq!(config, (expected_config, TraversalResult::Full));
}

#[test]
fn test_parse_config_and_collect_includes_only_includes() {
    let config_content = r#"
    includes = ["a.toml", "b.toml"]
    "#;

    let config = parse_and_collect(config_content, &["top".to_string()], 0).unwrap();

    let expected_includes = vec!["a.toml".to_string(), "b.toml".to_string()];
    let expected_values = IndexMap::new();

    let expected_config = TomlFileData { includes: expected_includes, values: expected_values };

    assert_eq!(config, (expected_config, TraversalResult::Full));
}

#[test]
fn test_parse_config_and_collect_includes_invalid_toml() {
    let config_content = r#"
    [app
    name = "broken"
    "#; // Invalid TOML syntax

    let result = parse_and_collect(config_content, &[], 0);

    assert!(result.is_err());
    match result.unwrap_err() {
        ArcellaUtilsError::TOML(_) => {} // OK
        _ => panic!("Expected ArcellaUtilsError::TOML"),
    }
}

#[test]
fn test_parse_config_and_collect_includes_with_boolean_and_array_values() {
    let config_content = r#"
    [features]
    enabled = true
    disabled = false

    [features.flags]
    list = ["flag1", "flag2", "flag3"]

    [server]
    ports = [80, 443, 8080]
    "#;

    let config = parse_and_collect(config_content, &[], 0).unwrap();

    let expected_includes = Vec::new();

    let mut expected_values: ConfigValues = IndexMap::new();
    expected_values.insert("features.enabled".to_string(), (TomlValue::Boolean(true), 0));
    expected_values.insert("features.disabled".to_string(), (TomlValue::Boolean(false), 0));
    expected_values.insert(
        "features.flags.list".to_string(),
        (
            TomlValue::Array(vec![
                TomlValue::String("flag1".to_string()),
                TomlValue::String("flag2".to_string()),
                TomlValue::String("flag3".to_string()),
            ]),
            0,
        ),
    );
    expected_values.insert(
        "server.ports".to_string(),
        (
            TomlValue::Array(vec![
                TomlValue::Integer(80),
                TomlValue::Integer(443),
                TomlValue::Integer(8080),
            ]),
            0,
        ),
    );

    let expected_config = TomlFileData { includes: expected_includes, values: expected_values };

    assert_eq!(config, (expected_config, TraversalResult::Full));
}

#[test]
fn test_array_of_tables_support() {
    let config_content = r#"
    [[servers]]
    name = "alpha"
    port = 8080

    [[servers]]
    name = "beta"
    port = 8081
    "#;

    let config = parse_and_collect(config_content, &[], 0).unwrap();

    let expected_includes = Vec::new();

    let mut expected_values: ConfigValues = IndexMap::new();
    expected_values.insert(
        "servers".to_string(),
        (
            TomlValue::Array(vec![
                TomlValue::Table(vec![
                    ("name".to_string(), TomlValue::String("alpha".to_string())),
                    ("port".to_string(), TomlValue::Integer(8080)),
                ]),
                TomlValue::Table(vec![
                    ("name".to_string(), TomlValue::String("beta".to_string())),
                    ("port".to_string(), TomlValue::Integer(8081)),
                ]),
            ]),
            0,
        ),
    );

    let expected_config = TomlFileData { includes: expected_includes, values: expected_values };

    assert_eq!(config, (expected_config, TraversalResult::Full));
}

fn entry_of<'a>(entries: &'a [(String, TomlValue)], key: &str) -> Option<&'a TomlValue> {
    entries.iter().find(|(k, _)| k == key).map(|(_, v)| v)
}

#[test]
fn test_nested_array_of_tables() {
    let config_content = r#"
    [[clusters]]
    name = "prod"
    [[clusters.nodes]]
    host = "node1"
    [[clusters.nodes]]
    host = "node2"

    [[clusters]]
    name = "dev"
    [[clusters.nodes]]
    host = "dev1"
    "#;

    let (config, _traversal_result) = parse_and_collect(config_content, &[], 0).unwrap();

    assert!(config.values.contains_key("clusters"));
    let val = &config.values["clusters"].0;
    match val {
        TomlValue::Array(arr) => {
            assert_eq!(arr.len(), 2);
            // Check first cluster
            if let TomlValue::Table(map) = &arr[0] {
                assert_eq!(entry_of(map, "name"), Some(&TomlValue::String("prod".to_string())));
                if let Some(TomlValue::Array(nodes)) = entry_of(map, "nodes") {
                    assert_eq!(nodes.len(), 2);
                } else {
                    panic!("Expected nodes array");
                }
            } else {
                panic!("Expected map");
            }
        }
        _ => panic!("Expected array"),
    }
}

#[test]
fn test_max_toml_depth_pruned_inline_table() {
    const MAX_DEPTH: usize = MAX_TOML_DEPTH; // 10
    const START_IDX: usize = 40;

    // An inline table nested down to MAX_DEPTH + 1
    let mut inner = format!("inner = {{ x = {} }}", START_IDX);
    for i in 1..MAX_DEPTH + 1 {
        inner = format!("inner = {{ x = {}, {} }}", START_IDX + i, inner);
    }
    let content = format!("[top]\n{}", inner);

    let (config, traversal_result) = parse_and_collect(&content, &[], 12).unwrap();

    assert_eq!(traversal_result, TraversalResult::Pruned);

    assert_eq!(config.values.len(), 8);

    for (num, (_, (value, idx))) in (&config.values).iter().enumerate() {
        match value {
            TomlValue::Integer(val) => {
                assert_eq!(*val, (START_IDX + MAX_DEPTH - num) as i64);
            }
            _ => {
                panic!("Error values!")
            }
        }
        assert_eq!(*idx, 12);
    }
}

#[test]
fn array_of_tables_keys_are_relative_to_the_element() {
    let content = "[[servers]]\nname = \"a\"\n[[servers]]\nname = \"b\"\n";
    let (data, result) = parse_and_collect(content, &[], 3).unwrap();
    assert_eq!(result, TraversalResult::Full);
    assert_eq!(data.values.len(), 1);
    let keys: Vec<&String> = data.values.keys().collect();
    assert_eq!(keys, vec!["servers"]);
    assert_eq!(
        data.values.get("servers"),
        Some(&(
            TomlValue::Array(vec![
                TomlValue::Table(vec![("name".to_string(), TomlValue::String("a".to_string()))]),
                TomlValue::Table(vec![("name".to_string(), TomlValue::String("b".to_string()))]),
            ]),
            3
        ))
    );
    assert!(!data.values.contains_key("servers.0.name"));
}

#[test]
fn pruning_keeps_the_shallow_siblings() {
    let mut header = "l0".to_string();
    for i in 1..=MAX_TOML_DEPTH + 1 {
        header.push_str(&format!(".l{}", i));
    }
    let content = format!("top = 1\n[l0]\nnear = \"kept\"\n[{}]\nvalue = \"deep\"\n", header);
    let (data, result) = parse_and_collect(&content, &["p".to_string()], 0).unwrap();
    assert_eq!(result, TraversalResult::Pruned);
    assert_eq!(data.values.get("p.top"), Some(&(TomlValue::Integer(1), 0)));
    assert_eq!(data.values.get("p.l0.near"), Some(&(TomlValue::String("kept".to_string()), 0)));
    assert_eq!(data.values.len(), 2);
}

#[test]
fn a_table_at_the_depth_limit_is_still_walked() {
    // [l1.l2. ... .l10] puts its entries at table depth 10, the deepest still walked.
    let mut header = "l1".to_string();
    for i in 2..=MAX_TOML_DEPTH {
        header.push_str(&format!(".l{}", i));
    }
    let content = format!("[{}]\n", header);
    let (data, result) = parse_and_collect(&content, &[], 0).unwrap();
    assert_eq!(result, TraversalResult::Full);
    assert!(data.values.is_empty());
}

#[test]
fn datetime_fails_the_whole_parse() {
    let content = "a = 1\nwhen = 1979-05-27T07:32:00Z\nb = 2\n";
    match parse_and_collect(content, &[], 0) {
        Err(ArcellaUtilsError::TOML(message)) => {
            assert_eq!(message, "Unsupported TOML value type: datetime 1979-05-27T07:32:00Z");
        }
        other => panic!("expected a TOML error, got {:?}", other),
    }
}

#[test]
fn inline_table_inside_an_array_has_no_value() {
    let content = "list = [{ a = 1 }]\n";
    match parse_and_collect(content, &[], 0) {
        Err(ArcellaUtilsError::TOML(message)) => {
            assert_eq!(message, "Unsupported TOML value type: inline table");
        }
        other => panic!("expected a TOML error, got {:?}", other),
    }
}

#[test]
fn includes_is_a_directive_at_every_level() {
    let content = "includes = \"top.toml\"\n[a]\nincludes = [\"x.toml\", 5, \"y.toml\"]\n[a.b]\nincludes = 7\nk = true\n";
    let (data, result) = parse_and_collect(content, &[], 1).unwrap();
    assert_eq!(result, TraversalResult::Full);
    assert_eq!(data.includes, vec!["top.toml", "x.toml", "y.toml"]);
    assert_eq!(data.values.len(), 1);
    assert_eq!(data.values.get("a.b.k"), Some(&(TomlValue::Boolean(true), 1)));
}

#[test]
fn inline_tables_are_walked_like_tables() {
    let content = "point = { x = 1, y = { z = \"deep\" } }\n";
    let (data, _) = parse_and_collect(content, &["cfg".to_string()], 2).unwrap();
    assert_eq!(data.values.get("cfg.point.x"), Some(&(TomlValue::Integer(1), 2)));
    assert_eq!(data.values.get("cfg.point.y.z"), Some(&(TomlValue::String("deep".to_string()), 2)));
    assert_eq!(data.values.len(), 2);
}

#[test]
fn an_absent_node_is_stored_as_null() {
    let doc = TomlNode::Table(vec![
        ("gone".to_string(), TomlNode::Absent),
        ("here".to_string(), TomlNode::Integer(4)),
    ]);
    let (data, result) = collect_paths(&doc, &["r".to_string()], 9).unwrap();
    assert_eq!(result, TraversalResult::Full);
    assert_eq!(data.values.get("r.gone"), Some(&(TomlValue::Null, 9)));
    assert_eq!(data.values.get("r.here"), Some(&(TomlValue::Integer(4), 9)));
}

#[test]
fn parse_copies_the_document_node_for_node() {
    let tree = parse("a = 1\n[t]\nb = [true, 2.5]\n[[r]]\nc = \"x\"\n").unwrap();
    let expected = TomlNode::Table(vec![
        ("a".to_string(), TomlNode::Integer(1)),
        (
            "t".to_string(),
            TomlNode::Table(vec![(
                "b".to_string(),
                TomlNode::Array(vec![TomlNode::Boolean(true), TomlNode::Float(2.5f64.to_bits())]),
            )]),
        ),
        (
            "r".to_string(),
            TomlNode::ArrayOfTables(vec![vec![("c".to_string(), TomlNode::String("x".to_string()))]]),
        ),
    ]);
    assert_eq!(tree, expected);
}

#[test]
fn a_key_met_again_keeps_its_place_and_takes_the_new_value() {
    let doc = TomlNode::Table(vec![
        ("a.b".to_string(), TomlNode::Integer(1)),
        ("z".to_string(), TomlNode::Integer(2)),
        ("a".to_string(), TomlNode::Table(vec![("b".to_string(), TomlNode::Integer(3))])),
    ]);
    let (data, _) = collect_paths(&doc, &[], 0).unwrap();
    let keys: Vec<&String> = data.values.keys().collect();
    assert_eq!(keys, vec!["a.b", "z"]);
    assert_eq!(data.values.get("a.b"), Some(&(TomlValue::Integer(3), 0)));
}

#[test]
fn floats_that_compare_equal_have_the_same_bits() {
    let content = "a = nan\nb = -nan\nc = -0.0\nd = 0.0\ne = -1.5\nf = inf\n";
    let (data, _) = parse_and_collect(content, &[], 0).unwrap();
    let quiet_nan = 0x7ff8_0000_0000_0000u64;
    assert_eq!(data.values.get("a"), Some(&(TomlValue::Float(quiet_nan), 0)));
    assert_eq!(data.values.get("b"), Some(&(TomlValue::Float(quiet_nan), 0)));
    assert_eq!(data.values.get("c"), Some(&(TomlValue::Float(0), 0)));
    assert_eq!(data.values.get("d"), Some(&(TomlValue::Float(0), 0)));
    assert_eq!(data.values.get("e"), Some(&(TomlValue::Float((-1.5f64).to_bits()), 0)));
    assert_eq!(data.values.get("f"), Some(&(TomlValue::Float(f64::INFINITY.to_bits()), 0)));
}
