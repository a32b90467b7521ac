use arcella::config_loader::{
    load_config_recursive_from_content, ConfigLoader, LoadAction, LoadEvent, LoadPhase, MAX_CONFIG_DEPTH,
};
use arcella::error::ArcellaUtilsError;
use arcella::resolver::{classify_include_paths, merge_include_files, select_toml_files, DirEntry, PathKind};
use arcella::types::{ConfigLoadParams, ConfigLoadState, TomlFileData};
use arcella::value::Value;
use arcella::warnings::ConfigLoadWarning;
use std::collections::HashMap;

struct Disk {
    files: HashMap<String, String>,
    dirs: HashMap<String, Vec<DirEntry>>,
}

impl Disk {
    fn new() -> Disk {
        Disk { files: HashMap::new(), dirs: HashMap::new() }
    }

    fn file(mut self, path: &str, content: &str) -> Disk {
        self.files.insert(path.to_string(), content.to_string());
        self
    }

    fn dir(mut self, path: &str, entries: Vec<(&str, bool)>) -> Disk {
        let listing = entries
            .into_iter()
            .map(|(name, is_dir)| DirEntry { path: format!("{}/{}", path, name), is_dir })
            .collect();
        self.dirs.insert(path.to_string(), listing);
        self
    }

    fn kind(&self, path: &str) -> PathKind {
        if self.files.contains_key(path) {
            PathKind::File
        } else if self.dirs.contains_key(path) {
            PathKind::Directory
        } else {
            PathKind::Missing
        }
    }

    fn resolve(&self, paths: Vec<String>) -> (Vec<String>, Vec<ConfigLoadWarning>) {
        let mut warnings = Vec::new();
        let probed: Vec<(String, PathKind)> = paths.into_iter().map(|p| (p.clone(), self.kind(&p))).collect();
        let (files, dirs) = classify_include_paths(&probed, &mut warnings);
        let found: Vec<Vec<String>> = dirs.iter().map(|d| select_toml_files(&self.dirs[d])).collect();
        (merge_include_files(&files, &found), warnings)
    }

    fn load(&self, root: &str) -> Result<(Vec<TomlFileData>, ConfigLoadState), ArcellaUtilsError> {
        self.load_with(root, ConfigLoadState::new())
    }

    fn load_with(
        &self,
        root: &str,
        state: ConfigLoadState,
    ) -> Result<(Vec<TomlFileData>, ConfigLoadState), ArcellaUtilsError> {
        let params = ConfigLoadParams { prefix: vec!["arcella".to_string()], config_dir: "/cfg".to_string() };
        let (mut loader, mut action) = ConfigLoader::start(params, state, root);
        loop {
            let event = match action {
                LoadAction::Finished => return Ok(loader.finish()),
                LoadAction::Read { path } => match self.files.get(&path) {
                    Some(content) => LoadEvent::Content(content.clone()),
                    None => LoadEvent::ReadFailed("No such file or directory".to_string()),
                },
                LoadAction::Resolve { paths } => {
                    let (paths, warnings) = self.resolve(paths);
                    LoadEvent::Resolved { paths, warnings }
                }
            };
            action = loader.step(event)?;
        }
    }
}

fn known(state: &ConfigLoadState) -> Vec<&str> {
    state.config_files.iter().map(|p| p.as_str()).collect()
}

#[test]
fn a_single_file_is_loaded_without_warnings() {
    let disk = Disk::new().file("/cfg/main.toml", "[server]\nport = 8080\n");
    let (configs, state) = disk.load("/cfg/main.toml").unwrap();
    assert_eq!(configs.len(), 1);
    assert!(state.warnings.is_empty());
    assert_eq!(configs[0].values.get("arcella.server.port"), Some(&(Value::Integer(8080), 0)));
    assert_eq!(known(&state), vec!["/cfg/main.toml"]);
    assert_eq!(state.visited_paths, vec!["/cfg/main.toml"]);
}

#[test]
fn included_files_follow_their_includer_in_pre_order() {
    let disk = Disk::new()
        .file("/cfg/main.toml", "includes = [\"b.toml\", \"a.toml\"]\nm = 0\n")
        .file("/cfg/a.toml", "includes = \"a1.toml\"\na = 1\n")
        .file("/cfg/a1.toml", "a1 = 2\n")
        .file("/cfg/b.toml", "b = 3\n");
    let (configs, state) = disk.load("/cfg/main.toml").unwrap();
    assert!(state.warnings.is_empty());
    assert_eq!(known(&state), vec!["/cfg/main.toml", "/cfg/a.toml", "/cfg/a1.toml", "/cfg/b.toml"]);
    let first_keys: Vec<&str> = configs.iter().map(|c| c.values.keys().next().unwrap().as_str()).collect();
    assert_eq!(first_keys, vec!["arcella.m", "arcella.a", "arcella.a1", "arcella.b"]);
    assert_eq!(configs[2].values.get("arcella.a1"), Some(&(Value::Integer(2), 2)));
    assert_eq!(configs[3].values.get("arcella.b"), Some(&(Value::Integer(3), 3)));
}

#[test]
fn a_cycle_is_broken_with_a_duplicate_warning() {
    let disk = Disk::new()
        .file("/cfg/main.toml", "includes = [\"cycle.toml\"]\n")
        .file("/cfg/cycle.toml", "includes = [\"main.toml\"]\nx = 1\n");
    let (configs, state) = disk.load("/cfg/main.toml").unwrap();
    assert_eq!(configs.len(), 2);
    assert_eq!(
        state.warnings,
        vec![ConfigLoadWarning::DuplicateInclude {
            path: "/cfg/main.toml".to_string(),
            included_from: "/cfg/cycle.toml".to_string(),
        }]
    );
    assert_eq!(known(&state), vec!["/cfg/main.toml", "/cfg/cycle.toml"]);
}

#[test]
fn a_file_referenced_twice_is_parsed_once() {
    let disk = Disk::new()
        .file("/cfg/main.toml", "includes = [\"a.toml\", \"b.toml\"]\n")
        .file("/cfg/a.toml", "includes = \"shared.toml\"\n")
        .file("/cfg/b.toml", "includes = \"shared.toml\"\n")
        .file("/cfg/shared.toml", "s = 1\n");
    let (configs, state) = disk.load("/cfg/main.toml").unwrap();
    assert_eq!(configs.len(), 4);
    assert_eq!(known(&state), vec!["/cfg/main.toml", "/cfg/a.toml", "/cfg/shared.toml", "/cfg/b.toml"]);
    assert_eq!(
        state.warnings,
        vec![ConfigLoadWarning::DuplicateInclude {
            path: "/cfg/shared.toml".to_string(),
            included_from: "/cfg/b.toml".to_string(),
        }]
    );
}

fn chain(files: usize) -> Disk {
    let mut disk = Disk::new();
    for i in 0..files {
        let mut content = format!("key_{} = {}\n", i, i);
        if i + 1 < files {
            content.push_str(&format!("includes = [\"level_{}.toml\"]\n", i + 1));
        }
        disk = disk.file(&format!("/cfg/level_{}.toml", i), &content);
    }
    disk
}

#[test]
fn a_chain_longer_than_the_limit_stops_at_the_limit() {
    let (configs, state) = chain(MAX_CONFIG_DEPTH + 3).load("/cfg/level_0.toml").unwrap();
    assert_eq!(configs.len(), MAX_CONFIG_DEPTH + 1);
    assert_eq!(
        state.warnings,
        vec![ConfigLoadWarning::MaxDepthReached { path: "/cfg/level_6.toml".to_string() }]
    );
    let expected: Vec<String> = (0..=MAX_CONFIG_DEPTH).map(|i| format!("/cfg/level_{}.toml", i)).collect();
    assert_eq!(known(&state), expected);
}

#[test]
fn a_chain_within_the_limit_is_loaded_whole() {
    let (configs, state) = chain(MAX_CONFIG_DEPTH + 1).load("/cfg/level_0.toml").unwrap();
    assert_eq!(configs.len(), MAX_CONFIG_DEPTH + 1);
    assert!(state.warnings.is_empty());
}

#[test]
fn an_absent_include_target_is_skipped() {
    let disk = Disk::new().file("/cfg/main.toml", "includes = [\"nonexistent.toml\"]\n");
    let (configs, state) = disk.load("/cfg/main.toml").unwrap();
    assert_eq!(configs.len(), 1);
    assert_eq!(
        state.warnings,
        vec![ConfigLoadWarning::SkippedInvalidFile { path: "/cfg/nonexistent.toml".to_string() }]
    );
}

#[test]
fn an_unreadable_file_fails_the_load_and_does_not_become_known() {
    let disk = Disk::new();
    let params = ConfigLoadParams { prefix: vec![], config_dir: "/cfg".to_string() };
    let (mut loader, action) = ConfigLoader::start(params, ConfigLoadState::new(), "/cfg/main.toml");
    assert!(matches!(action, LoadAction::Read { ref path } if path == "/cfg/main.toml"));
    let failed = loader.step(LoadEvent::ReadFailed("denied".to_string()));
    assert_eq!(
        failed.unwrap_err(),
        ArcellaUtilsError::IoWithPath { source: "denied".to_string(), path: "/cfg/main.toml".to_string() }
    );
    assert!(matches!(loader.phase, LoadPhase::Done));
    let (configs, state) = loader.finish();
    assert!(configs.is_empty());
    assert!(state.config_files.is_empty());
    assert!(disk.load("/cfg/main.toml").is_err());
}

#[test]
fn a_directory_is_expanded_in_sorted_order() {
    let disk = Disk::new()
        .file("/cfg/main.toml", "includes = [\"conf.d\"]\n")
        .dir(
            "/cfg/conf.d",
            vec![
                ("z.toml", false),
                ("notes.txt", false),
                ("a.toml", false),
                ("sub.toml", true),
                ("m.toml", false),
                ("a.template.toml", false),
            ],
        )
        .file("/cfg/conf.d/z.toml", "z = 1\n")
        .file("/cfg/conf.d/a.toml", "a = 1\n")
        .file("/cfg/conf.d/m.toml", "m = 1\n");
    let (configs, state) = disk.load("/cfg/main.toml").unwrap();
    assert_eq!(configs.len(), 4);
    assert!(state.warnings.is_empty());
    assert_eq!(
        known(&state),
        vec!["/cfg/main.toml", "/cfg/conf.d/a.toml", "/cfg/conf.d/m.toml", "/cfg/conf.d/z.toml"]
    );
}

#[test]
fn a_known_root_is_not_read() {
    let mut state = ConfigLoadState::new();
    state.config_files.insert("/cfg/main.toml".to_string());
    let disk = Disk::new().file("/cfg/main.toml", "a = 1\n");
    let (configs, state) = disk.load_with("/cfg/main.toml", state).unwrap();
    assert!(configs.is_empty());
    assert_eq!(
        state.warnings,
        vec![ConfigLoadWarning::DuplicateInclude {
            path: "/cfg/main.toml".to_string(),
            included_from: "/cfg/main.toml".to_string(),
        }]
    );
}

#[test]
fn indices_go_on_from_what_is_known() {
    let mut state = ConfigLoadState::new();
    state.config_files.insert("default_config.toml".to_string());
    let disk = Disk::new().file("/cfg/main.toml", "a = 1\n");
    let (configs, state) = disk.load_with("/cfg/main.toml", state).unwrap();
    assert_eq!(configs[0].values.get("arcella.a"), Some(&(Value::Integer(1), 1)));
    assert_eq!(known(&state), vec!["default_config.toml", "/cfg/main.toml"]);
}

#[test]
fn an_event_out_of_turn_is_refused() {
    let params = ConfigLoadParams { prefix: vec![], config_dir: "/cfg".to_string() };
    let (mut loader, _) = ConfigLoader::start(params, ConfigLoadState::new(), "/cfg/main.toml");
    let refused = loader.step(LoadEvent::Resolved { paths: vec![], warnings: vec![] });
    assert!(matches!(refused, Err(ArcellaUtilsError::Internal(_))));
    assert!(matches!(loader.phase, LoadPhase::Reading { ref path, depth: 0 } if path == "/cfg/main.toml"));
}

#[test]
fn malformed_content_fails_the_load() {
    let disk = Disk::new().file("/cfg/main.toml", "[app\nname = 1\n");
    assert!(matches!(disk.load("/cfg/main.toml"), Err(ArcellaUtilsError::TOML(_))));
}

#[test]
fn pruned_content_and_null_values_are_reported() {
    let mut header = "l0".to_string();
    for i in 1..=11 {
        header.push_str(&format!(".l{}", i));
    }
    let content = format!("[{}]\nvalue = 1\n", header);
    let params = ConfigLoadParams { prefix: vec![], config_dir: "/cfg".to_string() };
    let mut state = ConfigLoadState::new();
    let data = load_config_recursive_from_content(&params, &mut state, &content, 4, "/cfg/deep.toml").unwrap();
    assert!(data.values.is_empty());
    assert_eq!(state.warnings, vec![ConfigLoadWarning::Pruned { path: "/cfg/deep.toml".to_string() }]);
}

#[test]
fn an_io_failure_carries_its_path() {
    assert_eq!(
        ArcellaUtilsError::io_with_path("/cfg/a.toml".to_string(), "denied".to_string()),
        ArcellaUtilsError::IoWithPath { source: "denied".to_string(), path: "/cfg/a.toml".to_string() }
    );
}

#[test]
fn a_failure_to_resolve_includes_fails_the_load() {
    let params = ConfigLoadParams { prefix: vec![], config_dir: "/cfg".to_string() };
    let (mut loader, _) = ConfigLoader::start(params, ConfigLoadState::new(), "/cfg/main.toml");
    let action = loader.step(LoadEvent::Content("includes = \"d\"\n".to_string())).unwrap();
    assert!(matches!(action, LoadAction::Resolve { ref paths } if paths == &vec!["/cfg/d".to_string()]));
    let cause = ArcellaUtilsError::IoWithPath { source: "denied".to_string(), path: "/cfg/d".to_string() };
    assert_eq!(loader.step(LoadEvent::ResolveFailed(cause.clone())).unwrap_err(), cause);
    assert!(matches!(loader.phase, LoadPhase::Done));
}

#[test]
fn targets_of_a_file_at_the_depth_limit_are_each_reported() {
    let mut disk = chain(MAX_CONFIG_DEPTH + 1);
    disk = disk.file(
        &format!("/cfg/level_{}.toml", MAX_CONFIG_DEPTH),
        "includes = [\"x.toml\", \"level_0.toml\"]\n",
    );
    disk = disk.file("/cfg/x.toml", "x = 1\n");
    let (configs, state) = disk.load("/cfg/level_0.toml").unwrap();
    assert_eq!(configs.len(), MAX_CONFIG_DEPTH + 1);
    assert_eq!(
        state.warnings,
        vec![
            ConfigLoadWarning::MaxDepthReached { path: "/cfg/level_0.toml".to_string() },
            ConfigLoadWarning::MaxDepthReached { path: "/cfg/x.toml".to_string() },
        ]
    );
}

#[test]
fn includes_are_resolved_against_the_base_directory() {
    let disk = Disk::new()
        .file("/cfg/main.toml", "includes = [\"sub/a.toml\"]\n")
        .file("/cfg/sub/a.toml", "a = 1\nincludes = [\"b.toml\"]\n")
        .file("/cfg/b.toml", "top = 1\n")
        .file("/cfg/sub/b.toml", "nested = 1\n");
    let (configs, state) = disk.load("/cfg/main.toml").unwrap();
    assert_eq!(configs.len(), 3);
    assert!(configs[1].values.contains_key("arcella.a"));
    let top: Vec<(&String, &(Value, usize))> = configs[2].values.iter().collect();
    assert_eq!(top, vec![(&"arcella.top".to_string(), &(Value::Integer(1), 2))]);
    assert_eq!(known(&state), vec!["/cfg/main.toml", "/cfg/sub/a.toml", "/cfg/b.toml"]);
    assert!(state.warnings.is_empty());
}

#[test]
fn the_loader_hands_out_resolved_paths() {
    let params = ConfigLoadParams { prefix: vec![], config_dir: "/base".to_string() };
    let (mut loader, _) = ConfigLoader::start(params, ConfigLoadState::new(), "/elsewhere/main.toml");
    let content = "includes = [\"x.toml\", \"/abs/y.toml\", \"d//e/./z.toml\", \"conf.d/\"]\n";
    let action = loader.step(LoadEvent::Content(content.to_string())).unwrap();
    match action {
        LoadAction::Resolve { paths } => {
            assert_eq!(paths, vec!["/base/x.toml", "/abs/y.toml", "/base/d/e/z.toml", "/base/conf.d"]);
        }
        other => panic!("expected the paths to look at, got {:?}", other),
    }
}

#[test]
fn a_named_file_that_is_no_live_configuration_is_skipped_with_a_warning() {
    let disk = Disk::new()
        .file("/cfg/main.toml", "includes = [\"file3.txt\", \"x.template.toml\"]\n")
        .file("/cfg/file3.txt", "not = \"loaded\"\n")
        .file("/cfg/x.template.toml", "not = \"loaded\"\n");
    let (configs, state) = disk.load("/cfg/main.toml").unwrap();
    assert_eq!(configs.len(), 1);
    assert_eq!(
        state.warnings,
        vec![
            ConfigLoadWarning::SkippedInvalidFile { path: "/cfg/file3.txt".to_string() },
            ConfigLoadWarning::SkippedInvalidFile { path: "/cfg/x.template.toml".to_string() },
        ]
    );
    assert_eq!(known(&state), vec!["/cfg/main.toml"]);
}

#[test]
fn two_spellings_of_one_path_are_one_file() {
    let disk = Disk::new()
        .file("/cfg/main.toml", "includes = [\"a.toml\", \"./a.toml\", \"sub//..//sub/./b.toml\"]\n")
        .file("/cfg/a.toml", "a = 1\nincludes = \"/cfg//main.toml\"\n")
        .file("/cfg/sub/../sub/b.toml", "b = 1\n");
    let (configs, state) = disk.load("/cfg/./main.toml").unwrap();
    assert_eq!(configs.len(), 3);
    assert_eq!(known(&state), vec!["/cfg/main.toml", "/cfg/a.toml", "/cfg/sub/../sub/b.toml"]);
    assert_eq!(
        state.warnings,
        vec![ConfigLoadWarning::DuplicateInclude {
            path: "/cfg/main.toml".to_string(),
            included_from: "/cfg/a.toml".to_string(),
        }]
    );
}
