//! The recursive loader: reads a file, flattens it, and follows its
//! `includes`, depth first, with guards against cycles and deep chains.
//!
//! Reading files and listing directories is the caller's work. The loader
//! decides: it names the next thing to do as a [`LoadAction`] and takes what
//! came of it as a [`LoadEvent`].

use vstd::prelude::*;
use vstd::string::StringExecFns;
use crate::error::ArcellaUtilsError;
use crate::flat::{flat_view, FlatEntry};
use crate::ordered::{
    item_position, items_distinct, lemma_item_position, lemma_item_position_push, map_get_index, map_len,
    set_get_index_of, set_insert_full, set_items,
};
use crate::document::parsed_toml;
use crate::paths::{normal_path, normalize_path};
use crate::resolver::{normalize_paths, normalized, resolve_include_paths, resolved};
use crate::text::texts;
use crate::toml::{collected, parse_and_collect, Walk};
use crate::types::{ConfigLoadParams, ConfigLoadState, TomlFileData, TraversalResult};
use crate::value::{Value, ValueView};
use crate::warnings::{lemma_warnings_view_push, warnings_view, ConfigLoadWarning, WarningView};

verus! {

/// How long a chain of includes may be below the root file, which stands at
/// depth 0.
pub const MAX_CONFIG_DEPTH: usize = 5;

/// One warning for each entry of `values` whose value is `Null`, in order.
pub open spec fn null_warnings(values: Seq<FlatEntry>, file: Seq<char>) -> Seq<WarningView>
    decreases values.len(),
{
    if values.len() == 0 {
        Seq::empty()
    } else if values.last().value == ValueView::Null {
        null_warnings(values.drop_last(), file).push(
            WarningView::NullValueDetected { key: values.last().key, file },
        )
    } else {
        null_warnings(values.drop_last(), file)
    }
}

/// The warnings that the content of one file gives rise to: one if the walk
/// was pruned, then one for each `Null` value.
pub open spec fn content_warnings(walk: Walk, file: Seq<char>) -> Seq<WarningView> {
    if walk.pruned {
        seq![WarningView::Pruned { path: file }] + null_warnings(walk.values, file)
    } else {
        null_warnings(walk.values, file)
    }
}

/// Turns the content of a file that was read into the file's data.
///
/// The content is parsed and flattened below `params.prefix` for file
/// `file_idx`. A pruned walk and every `Null` value are reported in
/// `state.warnings`. Content that is not TOML, or that holds a node without
/// a value, fails the load and reports nothing.
pub fn load_config_recursive_from_content(
    params: &ConfigLoadParams,
    state: &mut ConfigLoadState,
    content: &str,
    file_idx: usize,
    config_file_path: &str,
) -> (r: Result<TomlFileData, ArcellaUtilsError>)
    ensures
        final(state).config_files == old(state).config_files,
        final(state).visited_paths == old(state).visited_paths,
        match parsed_toml(content@) {
            Ok(doc) => {
                let walk = collected(doc, texts(params.prefix@), file_idx);
                match r {
                    Ok(data) => {
                        &&& walk.error is None
                        &&& texts(data.includes@) == walk.includes
                        &&& flat_view(data.values) == walk.values
                        &&& warnings_view(final(state).warnings@) == warnings_view(old(state).warnings@)
                            + content_warnings(walk, config_file_path@)
                    },
                    Err(ArcellaUtilsError::TOML(message)) => walk.error == Some(message@) && final(state).warnings == old(state).warnings,
                    Err(_) => false,
                }
            },
            Err(message) => match r {
                Err(ArcellaUtilsError::TOML(text)) => text@ == message && final(state).warnings == old(state).warnings,
                _ => false,
            },
        },
{
    let (config, result) = match parse_and_collect(content, params.prefix.as_slice(), file_idx) {
        Ok(found) => found,
        Err(e) => {
            return Err(e);
        },
    };
    let ghost start = warnings_view(state.warnings@);
    let ghost values = flat_view(config.values);
    proof {
        assert(start =~= start + Seq::<WarningView>::empty());
    }
    if result == TraversalResult::Pruned {
        let warning = ConfigLoadWarning::Pruned { path: String::from_str(config_file_path) };
        proof {
            lemma_warnings_view_push(state.warnings@, warning);
        }
        state.warnings.push(warning);
    }
    let ghost head = warnings_view(state.warnings@);
    let count = map_len(&config.values);
    let mut i: usize = 0;
    proof {
        assert(values.subrange(0, 0) =~= Seq::<FlatEntry>::empty());
        assert(head =~= head + null_warnings(values.subrange(0, 0), config_file_path@));
    }
    while i < count
        invariant
            i <= count,
            count == values.len(),
            values == flat_view(config.values),
            state.config_files == old(state).config_files,
            state.visited_paths == old(state).visited_paths,
            warnings_view(state.warnings@) == head + null_warnings(
                values.subrange(0, i as int),
                config_file_path@,
            ),
        decreases count - i,
    {
        proof {
            let upto = values.subrange(0, i + 1);
            assert(upto.drop_last() =~= values.subrange(0, i as int));
            assert(upto.last() == values[i as int]);
        }
        match map_get_index(&config.values, i) {
            Some((key, stored)) => {
                if is_null(&stored.0) {
                    let warning = ConfigLoadWarning::NullValueDetected {
                        key: key.clone(),
                        file: String::from_str(config_file_path),
                    };
                    proof {
                        lemma_warnings_view_push(state.warnings@, warning);
                        assert((head + null_warnings(values.subrange(0, i as int), config_file_path@)).push(
                            warning@,
                        ) =~= head + null_warnings(values.subrange(0, i as int), config_file_path@).push(
                            warning@,
                        ));
                    }
                    state.warnings.push(warning);
                }
            },
            None => {},
        }
        i += 1;
    }
    proof {
        assert(values.subrange(0, count as int) =~= values);
        let walk = collected(parsed_toml(content@)->Ok_0, texts(params.prefix@), file_idx);
        if walk.pruned {
            assert(head =~= start + seq![WarningView::Pruned { path: config_file_path@ }]);
            assert(head + null_warnings(values, config_file_path@) =~= start + (seq![
                WarningView::Pruned { path: config_file_path@ },
            ] + null_warnings(values, config_file_path@)));
        }
    }
    Ok(config)
}

/// Whether `value` is `Null`.
pub fn is_null(value: &Value) -> (r: bool)
    ensures
        r == (value@ == ValueView::Null),
{
    match value {
        Value::Null => true,
        _ => false,
    }
}

/// A file whose include targets are being followed.
#[derive(Debug)]
pub struct PendingFile {
    /// The file that named the targets.
    pub path: String,
    /// The file's depth in the include chain.
    pub depth: usize,
    /// The files its `includes` resolved to, in load order.
    pub targets: Vec<String>,
    /// How many of the targets were dealt with.
    pub next: usize,
}

/// The mathematical content of a [`PendingFile`].
pub ghost struct PendingView {
    pub path: Seq<char>,
    pub depth: usize,
    pub targets: Seq<Seq<char>>,
    pub next: int,
}

impl View for PendingFile {
    type V = PendingView;

    open spec fn view(&self) -> PendingView {
        PendingView { path: self.path@, depth: self.depth, targets: texts(self.targets@), next: self.next as int }
    }
}

/// What the loader asks its caller to do next.
#[derive(Debug)]
pub enum LoadAction {
    /// Read this file and hand back its content, or the failure.
    Read { path: String },
    /// Look at these paths, which are the `includes` entries of the file
    /// just read, resolved against the base directory, and hand back the
    /// files to load.
    Resolve { paths: Vec<String> },
    /// Nothing is left to do.
    Finished,
}

/// What came of the action that the loader asked for.
#[derive(Debug)]
pub enum LoadEvent {
    /// The content of the file that was to be read.
    Content(String),
    /// The file could not be read; the cause, rendered.
    ReadFailed(String),
    /// The files that the `includes` entries resolved to, in load order, and
    /// what was reported while resolving them.
    Resolved { paths: Vec<String>, warnings: Vec<ConfigLoadWarning> },
    /// Resolving the `includes` entries failed.
    ResolveFailed(ArcellaUtilsError),
}

/// What the loader is waiting for.
#[derive(Debug)]
pub enum LoadPhase {
    /// The content of `path`, which stands at `depth`.
    Reading { path: String, depth: usize },
    /// The files that the `includes` of `path` resolve to.
    Resolving { path: String, depth: usize },
    /// Nothing: the load is over.
    Done,
}

/// The mathematical content of a [`LoadPhase`].
pub ghost enum PhaseView {
    Reading { path: Seq<char>, depth: usize },
    Resolving { path: Seq<char>, depth: usize },
    Done,
}

impl View for LoadPhase {
    type V = PhaseView;

    open spec fn view(&self) -> PhaseView {
        match self {
            LoadPhase::Reading { path, depth } => PhaseView::Reading { path: path@, depth: *depth },
            LoadPhase::Resolving { path, depth } => PhaseView::Resolving { path: path@, depth: *depth },
            LoadPhase::Done => PhaseView::Done,
        }
    }
}

/// The mathematical content of the data of one file.
pub ghost struct FileView {
    pub includes: Seq<Seq<char>>,
    pub values: Seq<FlatEntry>,
}

/// The content of the data of one file.
pub open spec fn file_view(data: TomlFileData) -> FileView {
    FileView { includes: texts(data.includes@), values: flat_view(data.values) }
}

/// The content of the data of each file of `files`, in order.
pub open spec fn files_view(files: Seq<TomlFileData>) -> Seq<FileView> {
    Seq::new(files.len(), |i: int| file_view(files[i]))
}

/// The content of each pending file of `stack`, in order.
pub open spec fn stack_view(stack: Seq<PendingFile>) -> Seq<PendingView> {
    Seq::new(stack.len(), |i: int| stack[i]@)
}

/// What looking through the targets of one file comes to.
pub ghost struct Scan {
    /// How many targets were dealt with.
    pub next: int,
    /// The warnings, with those for the targets passed over.
    pub warnings: Seq<WarningView>,
    /// The target to read, if one is left that can be loaded.
    pub read: Option<Seq<char>>,
}

/// Looks through the targets of `file` from `file.next` on for the first
/// one to load. A target that lies too deep and a target that is known
/// already are passed over, each with its warning.
pub open spec fn scan(file: PendingView, known: Seq<Seq<char>>, warnings: Seq<WarningView>) -> Scan
    decreases file.targets.len() - file.next,
{
    if file.next < 0 || file.next >= file.targets.len() {
        Scan { next: file.next, warnings, read: None }
    } else {
        let target = file.targets[file.next];
        let rest = PendingView { path: file.path, depth: file.depth, targets: file.targets, next: file.next + 1 };
        if file.depth >= MAX_CONFIG_DEPTH {
            scan(rest, known, warnings.push(WarningView::MaxDepthReached { path: target }))
        } else if item_position(known, target) >= 0 {
            scan(
                rest,
                known,
                warnings.push(WarningView::DuplicateInclude { path: target, included_from: file.path }),
            )
        } else {
            Scan { next: file.next + 1, warnings, read: Some(target) }
        }
    }
}

/// What going on with the load comes to.
pub ghost struct Advance {
    /// The files still pending.
    pub stack: Seq<PendingView>,
    /// The warnings, with those for the targets passed over.
    pub warnings: Seq<WarningView>,
    /// The file to read next and its depth, if one is left.
    pub read: Option<(Seq<char>, usize)>,
}

/// Goes on with the load: the innermost pending file is looked through for
/// a target to load; where it has none left, the file that included it is
/// looked through, and so on outwards.
pub open spec fn advance(stack: Seq<PendingView>, known: Seq<Seq<char>>, warnings: Seq<WarningView>) -> Advance
    decreases stack.len(),
{
    if stack.len() == 0 {
        Advance { stack, warnings, read: None }
    } else {
        let top = stack.last();
        let found = scan(top, known, warnings);
        match found.read {
            Some(target) => Advance {
                stack: stack.drop_last().push(
                    PendingView { path: top.path, depth: top.depth, targets: top.targets, next: found.next },
                ),
                warnings: found.warnings,
                read: Some((target, (top.depth + 1) as usize)),
            },
            None => advance(stack.drop_last(), known, found.warnings),
        }
    }
}

/// The loader: what is known of the run, what was loaded, and what is
/// still to follow.
pub struct ConfigLoader {
    /// What stays fixed during the run.
    pub params: ConfigLoadParams,
    /// The known files and the warnings of the run.
    pub state: ConfigLoadState,
    /// The files whose targets are being followed, outermost first.
    pub stack: Vec<PendingFile>,
    /// The data of the files loaded so far, in load order.
    pub loaded: Vec<TomlFileData>,
    /// What the loader is waiting for.
    pub phase: LoadPhase,
}

impl ConfigLoader {
    /// The files known to the run, by index.
    pub open spec fn known(&self) -> Seq<Seq<char>> {
        set_items(self.state.config_files)
    }

    /// The warnings of the run.
    pub open spec fn warnings(&self) -> Seq<WarningView> {
        warnings_view(self.state.warnings@)
    }

    /// Whether the loader is consistent: no pending file lies deeper than
    /// files are loaded, none has dealt with more targets than it has, and a
    /// file that is being read is not known yet.
    pub open spec fn wf(&self) -> bool {
        &&& forall|i: int|
            0 <= i < self.stack@.len() ==> (#[trigger] self.stack@[i]).depth <= MAX_CONFIG_DEPTH
                && self.stack@[i].next <= self.stack@[i].targets@.len()
        &&& match self.phase {
            LoadPhase::Reading { path, depth } => depth <= MAX_CONFIG_DEPTH && item_position(
                self.known(),
                path@,
            ) < 0,
            LoadPhase::Resolving { path, depth } => depth <= MAX_CONFIG_DEPTH,
            LoadPhase::Done => true,
        }
    }
}

impl ConfigLoader {
    /// Goes on with the load after a file was dealt with: finds the next
    /// file to read, passing over what lies too deep or is known already.
    fn go_on(&mut self) -> (action: LoadAction)
        requires
            forall|i: int|
                0 <= i < old(self).stack@.len() ==> (#[trigger] old(self).stack@[i]).depth
                    <= MAX_CONFIG_DEPTH && old(self).stack@[i].next <= old(self).stack@[i].targets@.len(),
        ensures
            final(self).wf(),
            final(self).params == old(self).params,
            final(self).loaded == old(self).loaded,
            final(self).state.config_files == old(self).state.config_files,
            final(self).state.visited_paths == old(self).state.visited_paths,
            ({
                let ahead = advance(stack_view(old(self).stack@), old(self).known(), old(self).warnings());
                &&& stack_view(final(self).stack@) == ahead.stack
                &&& final(self).warnings() == ahead.warnings
                &&& match ahead.read {
                    Some((target, depth)) => final(self).phase@ == (PhaseView::Reading { path: target, depth })
                        && match action {
                        LoadAction::Read { path } => path@ == target,
                        _ => false,
                    },
                    None => final(self).phase@ == PhaseView::Done && action is Finished,
                }
            }),
    {
        let ghost goal = advance(stack_view(self.stack@), self.known(), self.warnings());
        loop
            invariant
                self.params == old(self).params,
                self.loaded == old(self).loaded,
                self.state.config_files == old(self).state.config_files,
                self.state.visited_paths == old(self).state.visited_paths,
                forall|i: int|
                    0 <= i < self.stack@.len() ==> (#[trigger] self.stack@[i]).depth <= MAX_CONFIG_DEPTH
                        && self.stack@[i].next <= self.stack@[i].targets@.len(),
                goal == advance(stack_view(old(self).stack@), old(self).known(), old(self).warnings()),
                advance(stack_view(self.stack@), self.known(), self.warnings()) == goal,
            decreases self.stack@.len(),
        {
            let ghost stack_before = stack_view(self.stack@);
            let ghost raw_before = self.stack@;
            let mut frame = match self.stack.pop() {
                Some(frame) => frame,
                None => {
                    self.phase = LoadPhase::Done;
                    return LoadAction::Finished;
                },
            };
            proof {
                assert(stack_view(self.stack@) =~= stack_before.drop_last());
                assert(frame@ == stack_before.last());
                assert(frame == raw_before[raw_before.len() - 1]);
            }
            let ghost top = frame@;
            let ghost warnings_before = self.warnings();
            while frame.next < frame.targets.len()
                invariant
                    self.params == old(self).params,
                    self.loaded == old(self).loaded,
                    self.state.config_files == old(self).state.config_files,
                    self.state.visited_paths == old(self).state.visited_paths,
                    forall|i: int|
                        0 <= i < self.stack@.len() ==> (#[trigger] self.stack@[i]).depth
                            <= MAX_CONFIG_DEPTH && self.stack@[i].next <= self.stack@[i].targets@.len(),
                    stack_view(self.stack@) == stack_before.drop_last(),
                    stack_before.len() > 0,
                    top == stack_before.last(),
                    frame.depth <= MAX_CONFIG_DEPTH,
                    frame.next <= frame.targets@.len(),
                    frame@.path == top.path,
                    frame@.depth == top.depth,
                    frame@.targets == top.targets,
                    scan(frame@, self.known(), self.warnings()) == scan(top, self.known(), warnings_before),
                    goal == advance(stack_view(old(self).stack@), old(self).known(), old(self).warnings()),
                    advance(stack_before, self.known(), warnings_before) == goal,
                decreases frame.targets@.len() - frame.next,
            {
                let target = frame.targets[frame.next].clone();
                let ghost at = frame@;
                assert(at.targets[at.next] == target@);
                frame.next = frame.next + 1;
                if frame.depth >= MAX_CONFIG_DEPTH {
                    let warning = ConfigLoadWarning::MaxDepthReached { path: target };
                    proof {
                        lemma_warnings_view_push(self.state.warnings@, warning);
                    }
                    self.state.warnings.push(warning);
                } else {
                    match set_get_index_of(&self.state.config_files, target.as_str()) {
                        Some(_) => {
                            let warning = ConfigLoadWarning::DuplicateInclude {
                                path: target,
                                included_from: frame.path.clone(),
                            };
                            proof {
                                lemma_warnings_view_push(self.state.warnings@, warning);
                            }
                            self.state.warnings.push(warning);
                        },
                        None => {
                            let depth = frame.depth + 1;
                            let ghost frame_view = frame@;
                            self.stack.push(frame);
                            proof {
                                assert(stack_view(self.stack@) =~= stack_before.drop_last().push(frame_view));
                            }
                            self.phase = LoadPhase::Reading { path: target.clone(), depth };
                            return LoadAction::Read { path: target };
                        },
                    }
                }
            }
        }
    }
}

impl ConfigLoader {
    /// Begins a load at the root file `config_file_path`, with `state` as
    /// what is known before.
    ///
    /// The root file stands at depth 0 and is known by its path in normal
    /// form. Where it is known already it is not read: a duplicate is
    /// reported, with the file itself as the includer, and the load is over
    /// at once. Otherwise the loader asks for the file to be read.
    pub fn start(params: ConfigLoadParams, state: ConfigLoadState, config_file_path: &str) -> (r: (
        ConfigLoader,
        LoadAction,
    ))
        ensures
            r.0.wf(),
            r.0.params == params,
            r.0.stack@.len() == 0,
            r.0.loaded@.len() == 0,
            r.0.state.config_files == state.config_files,
            r.0.state.visited_paths == state.visited_paths,
            item_position(set_items(state.config_files), normal_path(config_file_path@)) >= 0 ==> {
                &&& r.0.warnings() == warnings_view(state.warnings@).push(
                    WarningView::DuplicateInclude {
                        path: normal_path(config_file_path@),
                        included_from: normal_path(config_file_path@),
                    },
                )
                &&& r.0.phase@ == PhaseView::Done
                &&& r.1 is Finished
            },
            item_position(set_items(state.config_files), normal_path(config_file_path@)) < 0 ==> {
                &&& r.0.state.warnings == state.warnings
                &&& r.0.phase@ == (PhaseView::Reading { path: normal_path(config_file_path@), depth: 0 })
                &&& match r.1 {
                    LoadAction::Read { path } => path@ == normal_path(config_file_path@),
                    _ => false,
                }
            },
    {
        let mut loader = ConfigLoader {
            params,
            state,
            stack: Vec::new(),
            loaded: Vec::new(),
            phase: LoadPhase::Done,
        };
        let root = normalize_path(config_file_path);
        match set_get_index_of(&loader.state.config_files, root.as_str()) {
            Some(_) => {
                let warning = ConfigLoadWarning::DuplicateInclude { path: root.clone(), included_from: root };
                proof {
                    lemma_warnings_view_push(loader.state.warnings@, warning);
                }
                loader.state.warnings.push(warning);
                (loader, LoadAction::Finished)
            },
            None => {
                loader.phase = LoadPhase::Reading { path: root.clone(), depth: 0 };
                (loader, LoadAction::Read { path: root })
            },
        }
    }

    /// Takes what came of the last action and names the next one.
    ///
    /// - The content of the file being read: the file becomes known under
    ///   the next index, its content is flattened under that index, and its
    ///   data is added to what was loaded; the loader resolves its
    ///   `includes` against the base directory of the run, not against the
    ///   directory of the file, and asks what the resolved paths stand for.
    ///   Content that cannot be flattened fails the load.
    /// - The failure to read that file: the load fails with the path and the
    ///   cause, and the file does not become known.
    /// - The files that the `includes` resolved to: they are followed in the
    ///   order given, each by its path in normal form, one level deeper; the
    ///   loader asks for the first of them, or of those still pending
    ///   further out, that can be loaded.
    /// - The failure to resolve them: the load fails with it.
    ///
    /// An event that does not answer the last action is refused and changes
    /// nothing. After a failure the load is over.
    pub fn step(&mut self, event: LoadEvent) -> (r: Result<LoadAction, ArcellaUtilsError>)
        requires
            old(self).wf(),
        ensures
            final(self).wf(),
            final(self).params == old(self).params,
            match (old(self).phase, event) {
                (LoadPhase::Reading { path, depth }, LoadEvent::Content(content)) => {
                    let index = old(self).known().len() as usize;
                    &&& final(self).known() == old(self).known().push(path@)
                    &&& items_distinct(final(self).known())
                    &&& final(self).state.visited_paths@ == old(self).state.visited_paths@.push(path)
                    &&& stack_view(final(self).stack@) == stack_view(old(self).stack@)
                    &&& match parsed_toml(content@) {
                        Ok(doc) => {
                            let walk = collected(doc, texts(old(self).params.prefix@), index);
                            match walk.error {
                                None => {
                                    &&& files_view(final(self).loaded@) == files_view(old(self).loaded@).push(
                                        FileView { includes: walk.includes, values: walk.values },
                                    )
                                    &&& final(self).warnings() == old(self).warnings() + content_warnings(
                                        walk,
                                        path@,
                                    )
                                    &&& final(self).phase@ == (PhaseView::Resolving { path: path@, depth })
                                    &&& match r {
                                        Ok(LoadAction::Resolve { paths }) => texts(paths@) == resolved(
                                            walk.includes,
                                            old(self).params.config_dir@,
                                        ),
                                        _ => false,
                                    }
                                },
                                Some(message) => {
                                    &&& final(self).loaded == old(self).loaded
                                    &&& final(self).state.warnings == old(self).state.warnings
                                    &&& final(self).phase@ == PhaseView::Done
                                    &&& match r {
                                        Err(ArcellaUtilsError::TOML(text)) => text@ == message,
                                        _ => false,
                                    }
                                },
                            }
                        },
                        Err(message) => {
                            &&& final(self).loaded == old(self).loaded
                            &&& final(self).state.warnings == old(self).state.warnings
                            &&& final(self).phase@ == PhaseView::Done
                            &&& match r {
                                Err(ArcellaUtilsError::TOML(text)) => text@ == message,
                                _ => false,
                            }
                        },
                    }
                },
                (LoadPhase::Reading { path, depth }, LoadEvent::ReadFailed(cause)) => {
                    &&& final(self).state == old(self).state
                    &&& final(self).stack == old(self).stack
                    &&& final(self).loaded == old(self).loaded
                    &&& final(self).phase@ == PhaseView::Done
                    &&& r == Err::<LoadAction, ArcellaUtilsError>(
                        ArcellaUtilsError::IoWithPath { source: cause, path },
                    )
                },
                (LoadPhase::Resolving { path, depth }, LoadEvent::Resolved { paths, warnings }) => {
                    let ahead = advance(
                        stack_view(old(self).stack@).push(
                            PendingView { path: path@, depth, targets: normalized(texts(paths@)), next: 0 },
                        ),
                        old(self).known(),
                        old(self).warnings() + warnings_view(warnings@),
                    );
                    &&& final(self).state.config_files == old(self).state.config_files
                    &&& final(self).state.visited_paths == old(self).state.visited_paths
                    &&& final(self).loaded == old(self).loaded
                    &&& stack_view(final(self).stack@) == ahead.stack
                    &&& final(self).warnings() == ahead.warnings
                    &&& match ahead.read {
                        Some((target, at)) => final(self).phase@ == (PhaseView::Reading {
                            path: target,
                            depth: at,
                        }) && match r {
                            Ok(LoadAction::Read { path }) => path@ == target,
                            _ => false,
                        },
                        None => final(self).phase@ == PhaseView::Done && r is Ok && r->Ok_0 is Finished,
                    }
                },
                (LoadPhase::Resolving { path, depth }, LoadEvent::ResolveFailed(e)) => {
                    &&& final(self).state == old(self).state
                    &&& final(self).stack == old(self).stack
                    &&& final(self).loaded == old(self).loaded
                    &&& final(self).phase@ == PhaseView::Done
                    &&& r == Err::<LoadAction, ArcellaUtilsError>(e)
                },
                _ => *final(self) == *old(self) && r is Err && r->Err_0 is Internal,
            },
    {
        let mut phase = LoadPhase::Done;
        std::mem::swap(&mut self.phase, &mut phase);
        match (phase, event) {
            (LoadPhase::Reading { path, depth }, LoadEvent::Content(content)) => {
                proof {
                    lemma_item_position(self.known(), path@);
                }
                self.state.visited_paths.push(path.clone());
                let (file_idx, _) = set_insert_full(&mut self.state.config_files, path.clone());
                match load_config_recursive_from_content(
                    &self.params,
                    &mut self.state,
                    content.as_str(),
                    file_idx,
                    path.as_str(),
                ) {
                    Ok(data) => {
                        let paths = resolve_include_paths(&data.includes, self.params.config_dir.as_str());
                        let ghost before = files_view(self.loaded@);
                        let ghost added = file_view(data);
                        self.loaded.push(data);
                        proof {
                            assert(files_view(self.loaded@) =~= before.push(added));
                        }
                        self.phase = LoadPhase::Resolving { path, depth };
                        Ok(LoadAction::Resolve { paths })
                    },
                    Err(e) => Err(e),
                }
            },
            (LoadPhase::Reading { path, depth }, LoadEvent::ReadFailed(cause)) => {
                Err(ArcellaUtilsError::io_with_path(path, cause))
            },
            (LoadPhase::Resolving { path, depth }, LoadEvent::Resolved { paths, warnings }) => {
                let mut reported = warnings;
                let ghost before = stack_view(self.stack@);
                proof {
                    assert(warnings_view(self.state.warnings@ + reported@) =~= warnings_view(
                        self.state.warnings@,
                    ) + warnings_view(reported@));
                }
                self.state.warnings.append(&mut reported);
                let frame = PendingFile { path, depth, targets: normalize_paths(&paths), next: 0 };
                let ghost frame_view = frame@;
                self.stack.push(frame);
                proof {
                    assert(stack_view(self.stack@) =~= before.push(frame_view));
                }
                Ok(self.go_on())
            },
            (LoadPhase::Resolving { path, depth }, LoadEvent::ResolveFailed(e)) => Err(e),
            (other, _) => {
                self.phase = other;
                Err(ArcellaUtilsError::Internal(String::from_str("the event does not answer the last action")))
            },
        }
    }

    /// Ends the load: the data of the files loaded, in load order, and what
    /// is known of the run.
    pub fn finish(self) -> (r: (Vec<TomlFileData>, ConfigLoadState))
        ensures
            r.0 == self.loaded,
            r.1 == self.state,
    {
        (self.loaded, self.state)
    }
}

/// A target that is chosen for reading is not known yet and lies below a
/// file that is not at the depth limit; every target passed over before it
/// was reported.
pub proof fn lemma_scan_reads_new_files_only(file: PendingView, known: Seq<Seq<char>>, warnings: Seq<WarningView>)
    requires
        0 <= file.next <= file.targets.len(),
    ensures
        file.next <= scan(file, known, warnings).next <= file.targets.len(),
        scan(file, known, warnings).warnings.len() >= warnings.len(),
        match scan(file, known, warnings).read {
            Some(target) => {
                &&& item_position(known, target) < 0
                &&& file.depth < MAX_CONFIG_DEPTH
                &&& target == file.targets[scan(file, known, warnings).next - 1]
                &&& scan(file, known, warnings).warnings.len() == warnings.len() + scan(
                    file,
                    known,
                    warnings,
                ).next - 1 - file.next
            },
            None => scan(file, known, warnings).warnings.len() == warnings.len() + file.targets.len()
                - file.next,
        },
    decreases file.targets.len() - file.next,
{
    if file.next < file.targets.len() {
        let target = file.targets[file.next];
        let rest = PendingView { path: file.path, depth: file.depth, targets: file.targets, next: file.next + 1 };
        if file.depth >= MAX_CONFIG_DEPTH {
            lemma_scan_reads_new_files_only(
                rest,
                known,
                warnings.push(WarningView::MaxDepthReached { path: target }),
            );
        } else if item_position(known, target) >= 0 {
            lemma_scan_reads_new_files_only(
                rest,
                known,
                warnings.push(WarningView::DuplicateInclude { path: target, included_from: file.path }),
            );
        }
    }
}

/// No file is read twice and none beyond the depth limit: the file that the
/// loader asks for next is not among the known files, and its depth is at
/// most [`MAX_CONFIG_DEPTH`].
pub proof fn lemma_next_file_is_new_and_within_depth(
    stack: Seq<PendingView>,
    known: Seq<Seq<char>>,
    warnings: Seq<WarningView>,
)
    requires
        forall|i: int|
            0 <= i < stack.len() ==> (#[trigger] stack[i]).depth <= MAX_CONFIG_DEPTH && 0 <= stack[i].next
                <= stack[i].targets.len(),
    ensures
        match advance(stack, known, warnings).read {
            Some((target, depth)) => item_position(known, target) < 0 && depth <= MAX_CONFIG_DEPTH,
            None => true,
        },
    decreases stack.len(),
{
    if stack.len() > 0 {
        let top = stack.last();
        lemma_scan_reads_new_files_only(top, known, warnings);
        let found = scan(top, known, warnings);
        if found.read is None {
            lemma_next_file_is_new_and_within_depth(stack.drop_last(), known, found.warnings);
        }
    }
}

/// A file at the depth limit has none of its targets read: each is passed
/// over with a warning that the depth limit was reached.
pub proof fn lemma_targets_past_depth_limit_are_skipped(
    file: PendingView,
    known: Seq<Seq<char>>,
    warnings: Seq<WarningView>,
)
    requires
        0 <= file.next <= file.targets.len(),
        file.depth >= MAX_CONFIG_DEPTH,
    ensures
        scan(file, known, warnings).read is None,
        scan(file, known, warnings).warnings == warnings + Seq::new(
            (file.targets.len() - file.next) as nat,
            |i: int| WarningView::MaxDepthReached { path: file.targets[file.next + i] },
        ),
    decreases file.targets.len() - file.next,
{
    let expected = warnings + Seq::new(
        (file.targets.len() - file.next) as nat,
        |i: int| WarningView::MaxDepthReached { path: file.targets[file.next + i] },
    );
    if file.next < file.targets.len() {
        let target = file.targets[file.next];
        let rest = PendingView { path: file.path, depth: file.depth, targets: file.targets, next: file.next + 1 };
        let pushed = warnings.push(WarningView::MaxDepthReached { path: target });
        lemma_targets_past_depth_limit_are_skipped(rest, known, pushed);
        assert(scan(rest, known, pushed).warnings =~= expected);
    } else {
        assert(scan(file, known, warnings).warnings =~= expected);
    }
}

/// Registering a file that is not known keeps the known files distinct and
/// gives the file the next index.
pub proof fn lemma_new_file_gets_next_index(known: Seq<Seq<char>>, path: Seq<char>)
    requires
        items_distinct(known),
        item_position(known, path) < 0,
    ensures
        items_distinct(known.push(path)),
        item_position(known.push(path), path) == known.len(),
{
    lemma_item_position(known, path);
    lemma_item_position_push(known, path, path);
}

/// Below a file that is not at the depth limit no target is passed over
/// for its depth: every warning that looking through its targets adds is
/// that of a duplicate.
pub proof fn lemma_within_the_depth_limit_only_duplicates_are_skipped(
    file: PendingView,
    known: Seq<Seq<char>>,
    warnings: Seq<WarningView>,
)
    requires
        0 <= file.next <= file.targets.len(),
        file.depth < MAX_CONFIG_DEPTH,
    ensures
        scan(file, known, warnings).warnings.len() >= warnings.len(),
        scan(file, known, warnings).warnings.subrange(0, warnings.len() as int) == warnings,
        forall|i: int|
            warnings.len() <= i < scan(file, known, warnings).warnings.len() ==> (#[trigger] scan(
                file,
                known,
                warnings,
            ).warnings[i]) is DuplicateInclude,
    decreases file.targets.len() - file.next,
{
    let out = scan(file, known, warnings);
    if file.next < file.targets.len() && item_position(known, file.targets[file.next]) >= 0 {
        let target = file.targets[file.next];
        let rest = PendingView { path: file.path, depth: file.depth, targets: file.targets, next: file.next + 1 };
        let pushed = warnings.push(WarningView::DuplicateInclude { path: target, included_from: file.path });
        lemma_within_the_depth_limit_only_duplicates_are_skipped(rest, known, pushed);
        assert(out.warnings.subrange(0, warnings.len() as int) =~= warnings) by {
            assert forall|i: int| 0 <= i < warnings.len() implies out.warnings[i] == warnings[i] by {
                assert(out.warnings.subrange(0, pushed.len() as int)[i] == pushed[i]);
            }
        }
        assert forall|i: int| warnings.len() <= i < out.warnings.len() implies (#[trigger] out.warnings[i])
            is DuplicateInclude by {
            if i == warnings.len() {
                assert(out.warnings.subrange(0, pushed.len() as int)[i] == pushed[i]);
            }
        }
    } else {
        assert(out.warnings.subrange(0, warnings.len() as int) =~= warnings);
    }
}

} // verus!
