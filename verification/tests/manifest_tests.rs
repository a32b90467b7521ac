use arcella::manifest::{
    component_identity, component_manifest_from_wasm, interfaces_from_names, validate_compatibility, validate_isolation_constraints, validate_module_id, ArcellaWasmtimeError,
    ComponentBundle, ComponentCapabilities, ComponentManifest, ComponentManifestExt, DeploymentOverrides,
    DeploymentSpec, DeploymentTemplate, FullDeployment, IsolationMode, ResourceRequirements, StartupConfig,
};
use arcella::spec::{
    flatten_component_tree, type_to_string, ComponentItem, ComponentItemSpec, WitType, MAX_RECURSION_DEPTH,
};

fn manifest_of(name: &str, version: &str, exports: Vec<&str>, imports: Vec<&str>) -> ComponentManifest {
    ComponentManifest {
        name: name.to_string(),
        version: version.to_string(),
        description: None,
        exports: exports
            .into_iter()
            .map(|e| (e.to_string(), ComponentItemSpec::Unknown { debug: None }))
            .collect(),
        imports: imports
            .into_iter()
            .map(|e| (e.to_string(), ComponentItemSpec::Unknown { debug: None }))
            .collect(),
        capabilities: ComponentCapabilities::default(),
    }
}

fn manifest_error(text: &str) -> ArcellaWasmtimeError {
    ArcellaWasmtimeError::Manifest(text.to_string())
}

#[test]
fn test_component_manifest_valid() {
    let component = manifest_of(
        "test-component",
        "0.1.0",
        vec!["foo:bar@1.0", "wasi:http/incoming-handler@0.2.0"],
        vec!["wasi:cli@0.2.0"],
    );
    assert!(component.validate().is_ok());
    assert_eq!(component.id(), "test-component@0.1.0");
}

#[test]
fn test_deployment_spec_validation() {
    let spec = DeploymentSpec {
        module_id: "test@1.0.0".to_string(),
        group: "web".to_string(),
        replicas: 3,
        overrides: DeploymentOverrides::default(),
    };
    assert!(spec.validate().is_ok());
}

#[test]
fn test_full_deployment_creation() {
    let template = DeploymentTemplate {
        isolation: IsolationMode::Worker,
        trusted: false,
        is_async: true,
        group: Some("default".to_string()),
        startup: StartupConfig::default(),
        resources: ResourceRequirements::default(),
    };

    let spec = DeploymentSpec {
        module_id: "test@1.0.0".to_string(),
        group: "web".to_string(),
        replicas: 5,
        overrides: DeploymentOverrides::default(),
    };

    let deployment = spec.create_deployment(Some(&template)).unwrap();
    assert_eq!(deployment.group, "web");
    assert_eq!(deployment.replicas, 5);
    assert_eq!(deployment.isolation, IsolationMode::Worker);
}

#[test]
fn test_main_isolation_constraints() {
    let deployment = FullDeployment {
        module_id: "test@1.0.0".to_string(),
        group: "main".to_string(),
        replicas: 2, // This should fail validation
        isolation: IsolationMode::Main,
        trusted: true,
        is_async: true,
        startup: StartupConfig::default(),
        resources: ResourceRequirements::default(),
    };

    assert!(deployment.validate().is_err());
}

#[test]
fn test_invalid_component_name() {
    let component = manifest_of("invalid name!", "0.1.0", vec![], vec![]);
    assert!(component.validate().is_err());
}

#[test]
fn test_validate_module_id() {
    assert!(ComponentManifest::validate_module_id("my-comp@1.0.0"));
    assert!(!ComponentManifest::validate_module_id("my comp@1.0.0"));
}

#[test]
fn manifest_rules_are_reported_in_order() {
    assert_eq!(
        manifest_of("", "", vec![], vec![]).validate(),
        Err(manifest_error("Component name must not be empty"))
    );
    assert_eq!(
        manifest_of("a", "", vec![], vec![]).validate(),
        Err(manifest_error("Component version must not be empty"))
    );
    assert_eq!(
        manifest_of("a b", "x", vec![], vec![]).validate(),
        Err(manifest_error(
            "Component name must contain only alphanumeric characters, hyphens, and underscores"
        ))
    );
    assert_eq!(
        manifest_of("a_b-1", "1.0", vec![], vec![]).validate(),
        Err(manifest_error("Component version must follow semantic versioning format (e.g., 0.1.0)"))
    );
    assert_eq!(manifest_of("a_b-1", "1.0.2-rc.1", vec![], vec![]).validate(), Ok(()));
}

#[test]
fn formats_are_decided_by_their_patterns() {
    assert!(validate_module_id("http-logger@0.1.0+build.5"));
    assert!(!validate_module_id("http-logger"));
    assert!(!validate_module_id("@1.0.0"));
    assert!(ComponentManifest::validate_name_format("Abc_09-x"));
    assert!(!ComponentManifest::validate_name_format(""));
    assert!(ComponentManifest::validate_version_format("10.20.30"));
    assert!(!ComponentManifest::validate_version_format("1.2"));
    assert!(ComponentManifest::validate_interface_format("wasi:http/incoming-handler@0.2.0"));
    assert!(ComponentManifest::validate_interface_format("logger:log"));
    assert!(!ComponentManifest::validate_interface_format("logger"));
}

#[test]
fn isolation_trust_and_asynchrony_must_agree() {
    assert_eq!(
        validate_isolation_constraints(&IsolationMode::Worker, true, true),
        Err(manifest_error("Only 'main' isolation can be trusted"))
    );
    assert_eq!(
        validate_isolation_constraints(&IsolationMode::Main, false, false),
        Err(manifest_error("'main' isolation requires async = true"))
    );
    assert_eq!(validate_isolation_constraints(&IsolationMode::Main, true, true), Ok(()));
    assert_eq!(validate_isolation_constraints(&IsolationMode::Worker, false, false), Ok(()));
}

#[test]
fn template_rules() {
    let mut template = DeploymentTemplate::default();
    assert_eq!(template.isolation, IsolationMode::Worker);
    assert!(!template.trusted && !template.is_async && template.group.is_none());
    assert_eq!(template.validate(), Ok(()));
    template.group = Some("bad group".to_string());
    assert_eq!(template.validate(), Err(manifest_error("Invalid group name format")));
    template.isolation = IsolationMode::Main;
    template.is_async = true;
    assert_eq!(
        template.validate(),
        Err(manifest_error("Group can only be specified for worker isolation"))
    );
    assert_eq!(DeploymentTemplate::from_template_toml(None), Ok(None));
    assert_eq!(
        DeploymentTemplate::from_template_toml(Some(template.clone())),
        Err(manifest_error("Group can only be specified for worker isolation"))
    );
    template.group = None;
    assert_eq!(DeploymentTemplate::from_template_toml(Some(template.clone())), Ok(Some(template)));
}

#[test]
fn spec_rules_are_reported_in_order() {
    let spec = |module_id: &str, group: &str, replicas: u32| DeploymentSpec {
        module_id: module_id.to_string(),
        group: group.to_string(),
        replicas,
        overrides: DeploymentOverrides::default(),
    };
    assert_eq!(spec("", "", 0).validate(), Err(manifest_error("Module ID must not be empty")));
    assert_eq!(spec("x", "", 0).validate(), Err(manifest_error("Group must not be empty")));
    assert_eq!(spec("x", "g", 0).validate(), Err(manifest_error("Replicas must be at least 1")));
    assert_eq!(
        spec("x", "g", 1).validate(),
        Err(manifest_error("Module ID must follow name@version format"))
    );
}

#[test]
fn overrides_win_over_the_template_and_defaults_stand_in_for_none() {
    let startup = StartupConfig {
        entrypoint: Some("run".to_string()),
        shutdown: None,
        timeout_seconds: Some(30),
    };
    let resources = ResourceRequirements { memory_mb: Some(64), fuel: None, cpu_shares: Some(2) };
    let spec = DeploymentSpec {
        module_id: "m@1.0.0".to_string(),
        group: "g".to_string(),
        replicas: 1,
        overrides: DeploymentOverrides {
            isolation: Some(IsolationMode::Main),
            trusted: Some(true),
            is_async: Some(true),
            startup: Some(startup.clone()),
            resources: Some(resources),
        },
    };
    assert_eq!(
        spec.create_deployment(None),
        Ok(FullDeployment {
            module_id: "m@1.0.0".to_string(),
            group: "g".to_string(),
            replicas: 1,
            isolation: IsolationMode::Main,
            trusted: true,
            is_async: true,
            startup,
            resources,
        })
    );
    let plain = DeploymentSpec {
        module_id: "m@1.0.0".to_string(),
        group: "g".to_string(),
        replicas: 4,
        overrides: DeploymentOverrides::default(),
    };
    assert_eq!(
        plain.create_deployment(None),
        Ok(FullDeployment {
            module_id: "m@1.0.0".to_string(),
            group: "g".to_string(),
            replicas: 4,
            isolation: IsolationMode::Worker,
            trusted: false,
            is_async: false,
            startup: StartupConfig::default(),
            resources: ResourceRequirements::default(),
        })
    );
    let trusted_worker = DeploymentSpec {
        module_id: "m@1.0.0".to_string(),
        group: "g".to_string(),
        replicas: 1,
        overrides: DeploymentOverrides { trusted: Some(true), ..DeploymentOverrides::default() },
    };
    assert_eq!(
        trusted_worker.create_deployment(None),
        Err(manifest_error("Only 'main' isolation can be trusted"))
    );
}

#[test]
fn limits_must_not_be_zero() {
    assert_eq!(ResourceRequirements::default().validate(), Ok(()));
    assert_eq!(
        ResourceRequirements { memory_mb: Some(0), fuel: Some(0), cpu_shares: None }.validate(),
        Err(manifest_error("Memory must be at least 1 MB"))
    );
    assert_eq!(
        ResourceRequirements { memory_mb: Some(1), fuel: Some(0), cpu_shares: None }.validate(),
        Err(manifest_error("Fuel must be at least 1"))
    );
}

#[test]
fn a_bundle_is_checked_as_a_whole() {
    let exporting = manifest_of("m", "1.0.0", vec!["a:b"], vec![]);
    let sync_template = DeploymentTemplate::default();
    assert_eq!(
        validate_compatibility(&exporting, &sync_template),
        Err(manifest_error("Component exports but deployment is sync"))
    );
    let bundle = ComponentBundle {
        component: exporting,
        template: Some(sync_template),
        wasm_path: "m@1.0.0.wasm".to_string(),
    };
    assert_eq!(bundle.validate(), Err(manifest_error("Component exports but deployment is sync")));
    let bare = ComponentBundle {
        component: manifest_of("m", "1.0.0", vec!["a:b"], vec![]),
        template: None,
        wasm_path: "m@1.0.0.wasm".to_string(),
    };
    assert_eq!(bare.validate(), Ok(()));
}

#[test]
fn a_component_tree_is_flattened_with_dotted_keys() {
    let log = ComponentItemSpec::ComponentFunc {
        params: vec![("msg".to_string(), "string".to_string())],
        results: vec![],
    };
    let inner = ComponentItemSpec::ComponentInstance { exports: vec![("log".to_string(), log)] };
    let nested = ComponentItemSpec::Component {
        imports: vec![("hidden".to_string(), ComponentItemSpec::Type("t".to_string()))],
        exports: vec![("logger".to_string(), inner)],
    };
    let tree = vec![
        ("app".to_string(), nested),
        ("kind".to_string(), ComponentItemSpec::Resource("r".to_string())),
    ];
    let flat = flatten_component_tree(&tree);
    let keys: Vec<&str> = flat.iter().map(|(k, _)| k.as_str()).collect();
    assert_eq!(keys, vec!["app", "app.logger", "app.logger.log", "kind"]);
    assert_eq!(flat[0].1, &tree[0].1);
    assert_eq!(
        flat[2].1,
        &ComponentItemSpec::ComponentFunc {
            params: vec![("msg".to_string(), "string".to_string())],
            results: vec![],
        }
    );
    assert_eq!(flat[3].1, &ComponentItemSpec::Resource("r".to_string()));
}

#[test]
fn test_simple_component_func() {
    let exports = vec![(
        "greet".to_string(),
        ComponentItem::ComponentFunc { params: vec![], results: vec![WitType::String] },
    )];
    let described: Vec<(String, ComponentItemSpec)> = exports
        .iter()
        .map(|(name, item)| (name.clone(), ComponentItemSpec::from_component_item(item)))
        .collect();
    assert!(described.iter().any(|(name, _)| name == "greet"));
    match &described[0].1 {
        ComponentItemSpec::ComponentFunc { params, results } => {
            assert!(params.is_empty());
            assert_eq!(results, &["string"]);
        }
        _ => panic!("Expected ComponentFunc"),
    }
}

#[test]
fn test_recursion_limit() {
    let item = ComponentItem::Component { imports: vec![], exports: vec![] };
    let spec = ComponentItemSpec::to_spec_with_depth(&item, MAX_RECURSION_DEPTH + 1, MAX_RECURSION_DEPTH);

    assert!(matches!(spec, ComponentItemSpec::Unknown { .. }));
}

#[test]
fn items_are_described_down_to_the_depth_limit() {
    let leaf = ComponentItem::ComponentFunc {
        params: vec![("n".to_string(), WitType::U32), ("x".to_string(), WitType::Other("list".to_string()))],
        results: vec![WitType::Float64, WitType::Bool],
    };
    let item = ComponentItem::Component {
        imports: vec![("t".to_string(), ComponentItem::Type("T".to_string()))],
        exports: vec![(
            "inner".to_string(),
            ComponentItem::ComponentInstance { exports: vec![("f".to_string(), leaf)] },
        )],
    };
    let func = ComponentItemSpec::ComponentFunc {
        params: vec![
            ("n".to_string(), "u32".to_string()),
            ("x".to_string(), "unknown(list)".to_string()),
        ],
        results: vec!["f64".to_string(), "bool".to_string()],
    };
    assert_eq!(
        ComponentItemSpec::from_component_item(&item),
        ComponentItemSpec::Component {
            imports: vec![("t".to_string(), ComponentItemSpec::Type("T".to_string()))],
            exports: vec![(
                "inner".to_string(),
                ComponentItemSpec::ComponentInstance { exports: vec![("f".to_string(), func)] }
            )],
        }
    );
    let too_deep = ComponentItemSpec::Unknown { debug: Some("Exceeded maximum recursion depth".to_string()) };
    assert_eq!(
        ComponentItemSpec::to_spec_with_depth(&item, 0, 1),
        ComponentItemSpec::Component {
            imports: vec![("t".to_string(), ComponentItemSpec::Type("T".to_string()))],
            exports: vec![(
                "inner".to_string(),
                ComponentItemSpec::ComponentInstance { exports: vec![("f".to_string(), too_deep)] }
            )],
        }
    );
}

#[test]
fn descriptions_are_shown_in_one_line() {
    let func = ComponentItemSpec::ComponentFunc {
        params: vec![("msg".to_string(), "string".to_string()), ("n".to_string(), "u8".to_string())],
        results: vec!["bool".to_string(), "s64".to_string()],
    };
    assert_eq!(func.describe(), "func(msg: string, n: u8) -> bool, s64");
    let void = ComponentItemSpec::ComponentFunc { params: vec![], results: vec![] };
    assert_eq!(void.describe(), "func()");
    assert_eq!(ComponentItemSpec::ComponentInstance { exports: vec![] }.describe(), "instance");
    assert_eq!(ComponentItemSpec::Component { imports: vec![], exports: vec![] }.describe(), "component");
    assert_eq!(ComponentItemSpec::Module("m".to_string()).describe(), "module");
    assert_eq!(ComponentItemSpec::CoreFunc("c".to_string()).describe(), "core-func");
    assert_eq!(ComponentItemSpec::Type("t".to_string()).describe(), "type(t)");
    assert_eq!(ComponentItemSpec::Resource("r".to_string()).describe(), "resource(r)");
    assert_eq!(ComponentItemSpec::Unknown { debug: Some("d".to_string()) }.describe(), "unknown(d)");
    assert_eq!(ComponentItemSpec::Unknown { debug: None }.describe(), "unknown");
    assert_eq!(type_to_string(&WitType::Float32), "f32");
    assert_eq!(type_to_string(&WitType::Char), "char");
}

#[test]
fn a_module_without_manifest_is_named_by_its_file() {
    assert_eq!(
        component_identity(Some("http-logger@0.1.0")),
        Ok(("http-logger".to_string(), "0.1.0".to_string()))
    );
    assert_eq!(component_identity(None), Err(manifest_error("Invalid .wasm filename")));
    assert_eq!(
        component_identity(Some("http-logger")),
        Err(manifest_error("Filename must be 'name@version.wasm' for components without component.toml"))
    );
}

#[test]
fn a_manifest_is_made_of_what_the_engine_reports() {
    let exports = vec![(
        "greet".to_string(),
        ComponentItem::ComponentFunc { params: vec![], results: vec![WitType::String] },
    )];
    let imports = vec![("wasi:cli/stdio".to_string(), ComponentItem::ComponentInstance { exports: vec![] })];
    let manifest = component_manifest_from_wasm("greeter".to_string(), "1.2.3".to_string(), &exports, &imports)
        .unwrap();
    assert_eq!(
        manifest,
        ComponentManifest {
            name: "greeter".to_string(),
            version: "1.2.3".to_string(),
            description: None,
            exports: vec![(
                "greet".to_string(),
                ComponentItemSpec::ComponentFunc { params: vec![], results: vec!["string".to_string()] }
            )],
            imports: vec![(
                "wasi:cli/stdio".to_string(),
                ComponentItemSpec::ComponentInstance { exports: vec![] }
            )],
            capabilities: ComponentCapabilities::default(),
        }
    );
    assert_eq!(
        component_manifest_from_wasm("greeter".to_string(), "1.2".to_string(), &exports, &imports),
        Err(manifest_error("Component version must follow semantic versioning format (e.g., 0.1.0)"))
    );
}

#[test]
fn interfaces_listed_by_name_are_not_described() {
    let names = vec!["a:b".to_string(), "c:d@1.0".to_string(), "a:b".to_string()];
    assert_eq!(
        interfaces_from_names(names),
        vec![
            ("a:b".to_string(), ComponentItemSpec::Unknown { debug: None }),
            ("c:d@1.0".to_string(), ComponentItemSpec::Unknown { debug: None }),
        ]
    );
    assert!(interfaces_from_names(vec![]).is_empty());
}
