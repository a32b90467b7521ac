//! Component manifests and deployments, and the rules they must meet.
//!
//! A component manifest says what a module is. A deployment template says
//! how it is meant to run. A deployment specification says where and how
//! often it runs, and may override the template.

use vstd::prelude::*;
use vstd::string::StringExecFns;
use crate::spec::{
    named_specs_of, named_specs_view, named_to_spec, ComponentItem, ComponentItemSpec, MAX_RECURSION_DEPTH,
};
use crate::ordered::{item_position, lemma_item_position};
use crate::text::{split_at_first_at_sign, split_once_at_sign, texts};

verus! {

/// What went wrong with a component or a manifest.
#[derive(Debug, Clone, PartialEq, Eq)]
pub enum ArcellaWasmtimeError {
    /// A component could not be inspected.
    Introspection(String),
    /// An I/O failure at `path`, with the rendered cause.
    IoWithPath { source: String, path: String },
    /// A manifest is missing or breaks a rule.
    Manifest(String),
    /// The engine refused a component; its message.
    Wasmtime(String),
}

/// The message of a broken rule, if the outcome is one.
pub open spec fn broken_rule(r: Result<(), ArcellaWasmtimeError>) -> Option<Seq<char>> {
    match r {
        Ok(_) => None,
        Err(ArcellaWasmtimeError::Manifest(message)) => Some(message@),
        Err(_) => Some(Seq::empty()),
    }
}

/// The outcome for a rule that may be broken: `Ok` where `message` is
/// `None`.
pub open spec fn is_outcome(r: Result<(), ArcellaWasmtimeError>, message: Option<Seq<char>>) -> bool {
    &&& broken_rule(r) == message
    &&& r is Err ==> r->Err_0 is Manifest
}

/// A broken rule with its message.
fn broken<T>(message: &str) -> (r: Result<T, ArcellaWasmtimeError>)
    ensures
        match r {
            Err(ArcellaWasmtimeError::Manifest(text)) => text@ == message@,
            _ => false,
        },
{
    Err(ArcellaWasmtimeError::Manifest(String::from_str(message)))
}

/// Whether `text` matches the regular expression `pattern`, as the `regex`
/// crate decides it; `None` where `pattern` is no regular expression.
pub uninterp spec fn pattern_match(pattern: Seq<char>, text: Seq<char>) -> Option<bool>;

/// `regex::Regex::new` and `Regex::is_match`: whether `text` matches
/// `pattern`, or nothing where the pattern does not compile.
#[verifier::external_body]
pub(crate) fn matches_pattern(pattern: &str, text: &str) -> (r: Option<bool>)
    ensures
        r == pattern_match(pattern@, text@),
{
    match regex::Regex::new(pattern) {
        Ok(re) => Some(re.is_match(text)),
        Err(_) => None,
    }
}

/// A module identifier: a name, `@`, and a version.
pub const MODULE_ID_PATTERN: &'static str = r"^[a-zA-Z0-9_-]+@\d+\.\d+\.\d+([+-][a-zA-Z0-9.-]+)?$";

/// A name: letters, digits, hyphens and underscores.
pub const NAME_PATTERN: &'static str = r"^[a-zA-Z0-9_-]+$";

/// A version: three numbers with dots, and an optional suffix.
pub const VERSION_PATTERN: &'static str = r"^\d+\.\d+\.\d+([+-][a-zA-Z0-9.-]+)?$";

/// An interface with a version: `namespace:interface@version`.
pub const VERSIONED_INTERFACE_PATTERN: &'static str = r"^[a-zA-Z0-9_-]+:[a-zA-Z0-9_/-]+@[a-zA-Z0-9.+_-]+$";

/// An interface without a version: `namespace:interface`.
pub const INTERFACE_PATTERN: &'static str = r"^[a-zA-Z0-9_-]+:[a-zA-Z0-9_/-]+$";

/// Whether `text` is known to match `pattern`.
pub open spec fn matches(pattern: Seq<char>, text: Seq<char>) -> bool {
    pattern_match(pattern, text) == Some(true)
}

/// Whether `text` matches `pattern`; an unusable pattern matches nothing.
fn is_match(pattern: &str, text: &str) -> (r: bool)
    ensures
        r == matches(pattern@, text@),
{
    match matches_pattern(pattern, text) {
        Some(found) => found,
        None => false,
    }
}

/// Whether `id` has the form `name@version`.
pub fn validate_module_id(id: &str) -> (r: bool)
    ensures
        r == matches(MODULE_ID_PATTERN@, id@),
{
    is_match(MODULE_ID_PATTERN, id)
}

/// Limits on what a component may use.
#[derive(Debug, Clone, Copy, PartialEq, Eq, Default)]
pub struct ComponentResources {
    /// Most memory, in bytes.
    pub memory_max: Option<u64>,
    /// Relative weight on the processor.
    pub cpu_shares: Option<u32>,
}

/// What a component asks of a trusted environment.
#[derive(Debug, Clone, PartialEq, Eq, Default)]
pub struct ComponentSecurity {
    pub requires_tee: bool,
    pub allowed_syscalls: Vec<String>,
}

/// What a component needs from its host.
#[derive(Debug, Clone, PartialEq, Eq, Default)]
pub struct ComponentCapabilities {
    pub wasi: Vec<String>,
    pub filesystem: Vec<String>,
    pub network: Vec<String>,
    pub environment: Vec<String>,
    pub resources: ComponentResources,
    pub security: ComponentSecurity,
}

/// What a module is: its identity and its interfaces.
#[derive(Debug, PartialEq, Eq, Default)]
pub struct ComponentManifest {
    /// The module's name, such as `http-logger`.
    pub name: String,
    /// The module's version, such as `0.1.0`.
    pub version: String,
    /// A short description.
    pub description: Option<String>,
    /// The interfaces that the module offers, by name.
    pub exports: Vec<(String, ComponentItemSpec)>,
    /// The interfaces that the module needs, by name.
    pub imports: Vec<(String, ComponentItemSpec)>,
    /// What the module needs from its host.
    pub capabilities: ComponentCapabilities,
}

/// The first rule that a manifest with this name and version breaks.
pub open spec fn manifest_error(name: Seq<char>, version: Seq<char>) -> Option<Seq<char>> {
    if name.len() == 0 {
        Some("Component name must not be empty"@)
    } else if version.len() == 0 {
        Some("Component version must not be empty"@)
    } else if !matches(NAME_PATTERN@, name) {
        Some("Component name must contain only alphanumeric characters, hyphens, and underscores"@)
    } else if !matches(VERSION_PATTERN@, version) {
        Some("Component version must follow semantic versioning format (e.g., 0.1.0)"@)
    } else {
        None
    }
}

impl ComponentManifest {
    /// The module's identifier: its name, `@`, and its version.
    pub fn id(&self) -> (r: String)
        ensures
            r@ == self.name@ + "@"@ + self.version@,
    {
        let mut id = self.name.clone();
        id.append("@");
        id.append(self.version.as_str());
        id
    }

    /// Whether `id` has the form `name@version`.
    pub fn validate_module_id(id: &str) -> (r: bool)
        ensures
            r == matches(MODULE_ID_PATTERN@, id@),
    {
        is_match(MODULE_ID_PATTERN, id)
    }

    /// Whether `name` is made of letters, digits, hyphens and underscores.
    pub fn validate_name_format(name: &str) -> (r: bool)
        ensures
            r == matches(NAME_PATTERN@, name@),
    {
        is_match(NAME_PATTERN, name)
    }

    /// Whether `version` is three numbers with dots and an optional suffix.
    pub fn validate_version_format(version: &str) -> (r: bool)
        ensures
            r == matches(VERSION_PATTERN@, version@),
    {
        is_match(VERSION_PATTERN, version)
    }

    /// Whether `s` names an interface, with or without a version.
    pub fn validate_interface_format(s: &str) -> (r: bool)
        ensures
            r == (matches(VERSIONED_INTERFACE_PATTERN@, s@) || matches(INTERFACE_PATTERN@, s@)),
    {
        is_match(VERSIONED_INTERFACE_PATTERN, s) || is_match(INTERFACE_PATTERN, s)
    }
}

/// What a manifest can be asked.
pub trait ComponentManifestExt {
    /// Checks the manifest against its rules.
    fn validate(&self) -> Result<(), ArcellaWasmtimeError>;
}

impl ComponentManifestExt for ComponentManifest {
    /// Checks that name and version are present and well formed; the first
    /// rule broken, in that order, is reported.
    fn validate(&self) -> (r: Result<(), ArcellaWasmtimeError>)
        ensures
            is_outcome(r, manifest_error(self.name@, self.version@)),
    {
        if self.name.as_str().unicode_len() == 0 {
            return broken("Component name must not be empty");
        }
        if self.version.as_str().unicode_len() == 0 {
            return broken("Component version must not be empty");
        }
        if !ComponentManifest::validate_name_format(self.name.as_str()) {
            return broken(
                "Component name must contain only alphanumeric characters, hyphens, and underscores",
            );
        }
        if !ComponentManifest::validate_version_format(self.version.as_str()) {
            return broken("Component version must follow semantic versioning format (e.g., 0.1.0)");
        }
        Ok(())
    }
}

/// Where a module runs.
#[derive(Debug, Clone, Copy, PartialEq, Eq, Structural)]
pub enum IsolationMode {
    /// In the runtime's own thread.
    Main,
    /// In a worker process of its own.
    Worker,
}

/// The entry points of a module's life.
#[derive(Debug, Clone, PartialEq, Eq, Default)]
pub struct StartupConfig {
    /// The function to call when the module starts.
    pub entrypoint: Option<String>,
    /// The function to call before the module stops.
    pub shutdown: Option<String>,
    /// Seconds allowed for the start; 0 for no limit.
    pub timeout_seconds: Option<u32>,
}

/// What a module may use at most.
#[derive(Debug, Clone, Copy, PartialEq, Eq, Default)]
pub struct ResourceRequirements {
    /// Memory in megabytes.
    pub memory_mb: Option<u32>,
    /// Units of fuel.
    pub fuel: Option<u64>,
    /// Relative weight on the processor.
    pub cpu_shares: Option<u32>,
}

/// The first rule that these limits break.
pub open spec fn resources_error(resources: ResourceRequirements) -> Option<Seq<char>> {
    if resources.memory_mb == Some(0u32) {
        Some("Memory must be at least 1 MB"@)
    } else if resources.fuel == Some(0u64) {
        Some("Fuel must be at least 1"@)
    } else {
        None
    }
}

impl ResourceRequirements {
    /// Checks that a limit, where one is given, is not zero.
    pub fn validate(&self) -> (r: Result<(), ArcellaWasmtimeError>)
        ensures
            is_outcome(r, resources_error(*self)),
    {
        match self.memory_mb {
            Some(memory) => {
                if memory == 0 {
                    return broken("Memory must be at least 1 MB");
                }
            },
            None => {},
        }
        match self.fuel {
            Some(fuel) => {
                if fuel == 0 {
                    return broken("Fuel must be at least 1");
                }
            },
            None => {},
        }
        Ok(())
    }
}

/// The rule that isolation, trust and asynchrony break together, if any:
/// only `Main` can be trusted, and `Main` must be asynchronous.
pub open spec fn isolation_error(isolation: IsolationMode, trusted: bool, is_async: bool) -> Option<Seq<char>> {
    if trusted && isolation != IsolationMode::Main {
        Some("Only 'main' isolation can be trusted"@)
    } else if isolation == IsolationMode::Main && !is_async {
        Some("'main' isolation requires async = true"@)
    } else {
        None
    }
}

/// Checks isolation, trust and asynchrony against each other.
pub fn validate_isolation_constraints(isolation: &IsolationMode, trusted: bool, is_async: bool) -> (r: Result<
    (),
    ArcellaWasmtimeError,
>)
    ensures
        is_outcome(r, isolation_error(*isolation, trusted, is_async)),
{
    if trusted && *isolation != IsolationMode::Main {
        return broken("Only 'main' isolation can be trusted");
    }
    if *isolation == IsolationMode::Main && !is_async {
        return broken("'main' isolation requires async = true");
    }
    Ok(())
}

/// What a name is, or that there is none.
pub open spec fn optional_text(text: Option<String>) -> Option<Seq<char>> {
    match text {
        Some(t) => Some(t@),
        None => None,
    }
}

/// The mathematical content of a [`StartupConfig`].
pub ghost struct StartupView {
    pub entrypoint: Option<Seq<char>>,
    pub shutdown: Option<Seq<char>>,
    pub timeout_seconds: Option<u32>,
}

impl View for StartupConfig {
    type V = StartupView;

    open spec fn view(&self) -> StartupView {
        StartupView {
            entrypoint: optional_text(self.entrypoint),
            shutdown: optional_text(self.shutdown),
            timeout_seconds: self.timeout_seconds,
        }
    }
}

/// A copy of a name, if there is one.
fn copy_optional(text: &Option<String>) -> (r: Option<String>)
    ensures
        optional_text(r) == optional_text(*text),
{
    match text {
        Some(t) => Some(t.clone()),
        None => None,
    }
}

impl StartupConfig {
    /// A copy of these entry points.
    pub fn duplicate(&self) -> (r: StartupConfig)
        ensures
            r@ == self@,
    {
        StartupConfig {
            entrypoint: copy_optional(&self.entrypoint),
            shutdown: copy_optional(&self.shutdown),
            timeout_seconds: self.timeout_seconds,
        }
    }
}

/// How a module is meant to run, as it ships with the module.
#[derive(Debug, Clone, PartialEq, Eq)]
pub struct DeploymentTemplate {
    /// Where the module runs.
    pub isolation: IsolationMode,
    /// Whether the module is trusted; only with `Main`.
    pub trusted: bool,
    /// Whether the module is asynchronous; required with `Main`.
    pub is_async: bool,
    /// The worker group to share a process with; only with `Worker`.
    pub group: Option<String>,
    /// The entry points of the module's life.
    pub startup: StartupConfig,
    /// What the module may use at most.
    pub resources: ResourceRequirements,
}

impl Default for DeploymentTemplate {
    /// An untrusted, synchronous worker without limits: safe for any module.
    fn default() -> (r: DeploymentTemplate)
        ensures
            r.isolation == IsolationMode::Worker,
            !r.trusted,
            !r.is_async,
            r.group is None,
            r.startup@ == (StartupView { entrypoint: None, shutdown: None, timeout_seconds: None }),
            r.resources == (ResourceRequirements { memory_mb: None, fuel: None, cpu_shares: None }),
    {
        DeploymentTemplate {
            isolation: IsolationMode::Worker,
            trusted: false,
            is_async: false,
            group: None,
            startup: StartupConfig { entrypoint: None, shutdown: None, timeout_seconds: None },
            resources: ResourceRequirements { memory_mb: None, fuel: None, cpu_shares: None },
        }
    }
}

/// The first rule that a template breaks.
pub open spec fn template_error(template: DeploymentTemplate) -> Option<Seq<char>> {
    if isolation_error(template.isolation, template.trusted, template.is_async) is Some {
        isolation_error(template.isolation, template.trusted, template.is_async)
    } else if template.group is Some && template.isolation != IsolationMode::Worker {
        Some("Group can only be specified for worker isolation"@)
    } else if template.group is Some && !matches(NAME_PATTERN@, template.group->0@) {
        Some("Invalid group name format"@)
    } else {
        None
    }
}

impl DeploymentTemplate {
    /// Checks a template that was found beside a module, if one was.
    ///
    /// No template is no fault. A template that breaks a rule is refused
    /// with the rule.
    pub fn from_template_toml(found: Option<DeploymentTemplate>) -> (r: Result<
        Option<DeploymentTemplate>,
        ArcellaWasmtimeError,
    >)
        ensures
            match found {
                None => r == Ok::<Option<DeploymentTemplate>, ArcellaWasmtimeError>(None),
                Some(template) => match r {
                    Ok(kept) => template_error(template) is None && kept == Some(template),
                    Err(ArcellaWasmtimeError::Manifest(message)) => template_error(template) == Some(
                        message@,
                    ),
                    Err(_) => false,
                },
            },
    {
        match found {
            None => Ok(None),
            Some(template) => {
                match template.validate() {
                    Ok(_) => Ok(Some(template)),
                    Err(e) => Err(e),
                }
            },
        }
    }

    /// Checks the template: isolation, trust and asynchrony must agree, a
    /// group needs worker isolation, and a group's name must be a name.
    pub fn validate(&self) -> (r: Result<(), ArcellaWasmtimeError>)
        ensures
            is_outcome(r, template_error(*self)),
    {
        match validate_isolation_constraints(&self.isolation, self.trusted, self.is_async) {
            Ok(_) => {},
            Err(e) => {
                return Err(e);
            },
        }
        if self.group.is_some() && self.isolation != IsolationMode::Worker {
            return broken("Group can only be specified for worker isolation");
        }
        match &self.group {
            Some(group) => {
                if !ComponentManifest::validate_name_format(group.as_str()) {
                    return broken("Invalid group name format");
                }
            },
            None => {},
        }
        Ok(())
    }
}

/// What a deployment specification sets in place of the template.
#[derive(Debug, Clone, PartialEq, Eq, Default)]
pub struct DeploymentOverrides {
    pub isolation: Option<IsolationMode>,
    pub trusted: Option<bool>,
    pub is_async: Option<bool>,
    pub startup: Option<StartupConfig>,
    pub resources: Option<ResourceRequirements>,
}

/// Where and how often a module runs, as an administrator wrote it.
#[derive(Debug, Clone, PartialEq, Eq)]
pub struct DeploymentSpec {
    /// The module to run, as `name@version`.
    pub module_id: String,
    /// The worker group to run it in.
    pub group: String,
    /// How many instances to run.
    pub replicas: u32,
    /// What to set in place of the template.
    pub overrides: DeploymentOverrides,
}

/// A deployment with nothing left open.
#[derive(Debug, Clone, PartialEq, Eq)]
pub struct FullDeployment {
    pub module_id: String,
    pub group: String,
    pub replicas: u32,
    pub isolation: IsolationMode,
    pub trusted: bool,
    pub is_async: bool,
    pub startup: StartupConfig,
    pub resources: ResourceRequirements,
}

/// The first rule that a deployment breaks.
pub open spec fn deployment_error(isolation: IsolationMode, trusted: bool, is_async: bool, replicas: u32) -> Option<
    Seq<char>,
> {
    if isolation_error(isolation, trusted, is_async) is Some {
        isolation_error(isolation, trusted, is_async)
    } else if isolation == IsolationMode::Main && replicas != 1 {
        Some("Main isolation supports only 1 replica"@)
    } else {
        None
    }
}

impl FullDeployment {
    /// Checks the deployment: isolation, trust and asynchrony must agree,
    /// and main isolation runs exactly one instance.
    pub fn validate(&self) -> (r: Result<(), ArcellaWasmtimeError>)
        ensures
            is_outcome(r, deployment_error(self.isolation, self.trusted, self.is_async, self.replicas)),
    {
        match validate_isolation_constraints(&self.isolation, self.trusted, self.is_async) {
            Ok(_) => {},
            Err(e) => {
                return Err(e);
            },
        }
        if self.isolation == IsolationMode::Main && self.replicas != 1 {
            return broken("Main isolation supports only 1 replica");
        }
        Ok(())
    }
}

/// The first rule that a deployment specification breaks.
pub open spec fn spec_error(module_id: Seq<char>, group: Seq<char>, replicas: u32) -> Option<Seq<char>> {
    if module_id.len() == 0 {
        Some("Module ID must not be empty"@)
    } else if group.len() == 0 {
        Some("Group must not be empty"@)
    } else if replicas == 0 {
        Some("Replicas must be at least 1"@)
    } else if !matches(MODULE_ID_PATTERN@, module_id) {
        Some("Module ID must follow name@version format"@)
    } else {
        None
    }
}

/// The template that stands where none is given.
pub open spec fn default_template() -> DeploymentTemplate {
    DeploymentTemplate {
        isolation: IsolationMode::Worker,
        trusted: false,
        is_async: false,
        group: None,
        startup: StartupConfig { entrypoint: None, shutdown: None, timeout_seconds: None },
        resources: ResourceRequirements { memory_mb: None, fuel: None, cpu_shares: None },
    }
}

/// The isolation that a deployment gets: the override, else the template's.
pub open spec fn chosen_isolation(overrides: DeploymentOverrides, base: DeploymentTemplate) -> IsolationMode {
    match overrides.isolation {
        Some(isolation) => isolation,
        None => base.isolation,
    }
}

/// The trust that a deployment gets: the override, else the template's.
pub open spec fn chosen_trust(overrides: DeploymentOverrides, base: DeploymentTemplate) -> bool {
    match overrides.trusted {
        Some(trusted) => trusted,
        None => base.trusted,
    }
}

/// The asynchrony that a deployment gets: the override, else the template's.
pub open spec fn chosen_async(overrides: DeploymentOverrides, base: DeploymentTemplate) -> bool {
    match overrides.is_async {
        Some(is_async) => is_async,
        None => base.is_async,
    }
}

/// The entry points that a deployment gets: the override, else the
/// template's.
pub open spec fn chosen_startup(overrides: DeploymentOverrides, base: DeploymentTemplate) -> StartupView {
    match overrides.startup {
        Some(startup) => startup@,
        None => base.startup@,
    }
}

/// The limits that a deployment gets: the override, else the template's.
pub open spec fn chosen_resources(overrides: DeploymentOverrides, base: DeploymentTemplate) -> ResourceRequirements {
    match overrides.resources {
        Some(resources) => resources,
        None => base.resources,
    }
}

/// The template on which a deployment is built.
pub open spec fn base_template(template: Option<&DeploymentTemplate>) -> DeploymentTemplate {
    match template {
        Some(t) => *t,
        None => default_template(),
    }
}

impl DeploymentSpec {
    /// Checks the specification: module and group must be named, at least
    /// one instance must run, and the module must be named as
    /// `name@version`.
    pub fn validate(&self) -> (r: Result<(), ArcellaWasmtimeError>)
        ensures
            is_outcome(r, spec_error(self.module_id@, self.group@, self.replicas)),
    {
        if self.module_id.as_str().unicode_len() == 0 {
            return broken("Module ID must not be empty");
        }
        if self.group.as_str().unicode_len() == 0 {
            return broken("Group must not be empty");
        }
        if self.replicas == 0 {
            return broken("Replicas must be at least 1");
        }
        if !validate_module_id(self.module_id.as_str()) {
            return broken("Module ID must follow name@version format");
        }
        Ok(())
    }

    /// Builds the full deployment from the template and the overrides.
    ///
    /// Module, group and number of instances are those of the
    /// specification. Each other setting is the override where there is one,
    /// else the template's; without a template, that of an untrusted,
    /// synchronous worker without limits. A deployment that breaks a rule is
    /// refused with the rule.
    pub fn create_deployment(&self, template: Option<&DeploymentTemplate>) -> (r: Result<
        FullDeployment,
        ArcellaWasmtimeError,
    >)
        ensures
            ({
                let base = base_template(template);
                let isolation = chosen_isolation(self.overrides, base);
                let trusted = chosen_trust(self.overrides, base);
                let is_async = chosen_async(self.overrides, base);
                match r {
                    Ok(d) => {
                        &&& deployment_error(isolation, trusted, is_async, self.replicas) is None
                        &&& d.module_id@ == self.module_id@
                        &&& d.group@ == self.group@
                        &&& d.replicas == self.replicas
                        &&& d.isolation == isolation
                        &&& d.trusted == trusted
                        &&& d.is_async == is_async
                        &&& d.startup@ == chosen_startup(self.overrides, base)
                        &&& d.resources == chosen_resources(self.overrides, base)
                    },
                    Err(ArcellaWasmtimeError::Manifest(message)) => deployment_error(
                        isolation,
                        trusted,
                        is_async,
                        self.replicas,
                    ) == Some(message@),
                    Err(_) => false,
                }
            }),
    {
        let fallback = DeploymentTemplate::default();
        let base = match template {
            Some(t) => t,
            None => &fallback,
        };
        let isolation = match self.overrides.isolation {
            Some(isolation) => isolation,
            None => base.isolation,
        };
        let trusted = match self.overrides.trusted {
            Some(trusted) => trusted,
            None => base.trusted,
        };
        let is_async = match self.overrides.is_async {
            Some(is_async) => is_async,
            None => base.is_async,
        };
        let startup = match &self.overrides.startup {
            Some(startup) => startup.duplicate(),
            None => base.startup.duplicate(),
        };
        let resources = match self.overrides.resources {
            Some(resources) => resources,
            None => base.resources,
        };
        let deployment = FullDeployment {
            module_id: self.module_id.clone(),
            group: self.group.clone(),
            replicas: self.replicas,
            isolation,
            trusted,
            is_async,
            startup,
            resources,
        };
        match deployment.validate() {
            Ok(_) => Ok(deployment),
            Err(e) => Err(e),
        }
    }
}

/// A module with its manifests.
#[derive(Debug)]
pub struct ComponentBundle {
    /// What the module is.
    pub component: ComponentManifest,
    /// How it is meant to run, if its author said.
    pub template: Option<DeploymentTemplate>,
    /// Where the module's binary lies.
    pub wasm_path: String,
}

/// The rule that a component and its template break together, if any: a
/// component that exports anything must run asynchronously.
pub open spec fn compatibility_error(component: ComponentManifest, deployment: DeploymentTemplate) -> Option<
    Seq<char>,
> {
    if component.exports@.len() > 0 && !deployment.is_async {
        Some("Component exports but deployment is sync"@)
    } else {
        None
    }
}

/// Checks a component against the template it ships with.
pub fn validate_compatibility(component: &ComponentManifest, deployment: &DeploymentTemplate) -> (r: Result<
    (),
    ArcellaWasmtimeError,
>)
    ensures
        is_outcome(r, compatibility_error(*component, *deployment)),
{
    if component.exports.len() > 0 && !deployment.is_async {
        return broken("Component exports but deployment is sync");
    }
    Ok(())
}

/// The first rule that a bundle breaks: one of the manifest, then one of
/// the template, then one of both together.
pub open spec fn bundle_error(bundle: ComponentBundle) -> Option<Seq<char>> {
    if manifest_error(bundle.component.name@, bundle.component.version@) is Some {
        manifest_error(bundle.component.name@, bundle.component.version@)
    } else {
        match bundle.template {
            Some(template) => if template_error(template) is Some {
                template_error(template)
            } else {
                compatibility_error(bundle.component, template)
            },
            None => None,
        }
    }
}

impl ComponentBundle {
    /// Checks the bundle: the manifest, the template if there is one, and
    /// that the two agree.
    pub fn validate(&self) -> (r: Result<(), ArcellaWasmtimeError>)
        ensures
            is_outcome(r, bundle_error(*self)),
    {
        match self.component.validate() {
            Ok(_) => {},
            Err(e) => {
                return Err(e);
            },
        }
        match &self.template {
            Some(template) => {
                match template.validate() {
                    Ok(_) => {},
                    Err(e) => {
                        return Err(e);
                    },
                }
                validate_compatibility(&self.component, template)
            },
            None => Ok(()),
        }
    }
}

/// What the name of a module file says of the module, if the file has no
/// manifest beside it: the file must be named `name@version`, and name and
/// version are what stands before and behind the first `@`.
pub open spec fn identity_of(file_stem: Option<Seq<char>>) -> Result<(Seq<char>, Seq<char>), Seq<char>> {
    match file_stem {
        None => Err("Invalid .wasm filename"@),
        Some(stem) => if !matches(MODULE_ID_PATTERN@, stem) {
            Err("Filename must be 'name@version.wasm' for components without component.toml"@)
        } else {
            match split_at_first_at_sign(stem) {
                Some(parts) => Ok(parts),
                None => Err("Expected 'name@version' format"@),
            }
        },
    }
}

/// Reads name and version of a module off the name of its file, given
/// without the extension.
pub fn component_identity(file_stem: Option<&str>) -> (r: Result<(String, String), ArcellaWasmtimeError>)
    ensures
        match r {
            Ok((name, version)) => identity_of(
                match file_stem {
                    Some(stem) => Some(stem@),
                    None => None,
                },
            ) == Ok::<(Seq<char>, Seq<char>), Seq<char>>((name@, version@)),
            Err(ArcellaWasmtimeError::Manifest(message)) => identity_of(
                match file_stem {
                    Some(stem) => Some(stem@),
                    None => None,
                },
            ) == Err::<(Seq<char>, Seq<char>), Seq<char>>(message@),
            Err(_) => false,
        },
{
    let stem = match file_stem {
        Some(stem) => stem,
        None => {
            return broken("Invalid .wasm filename");
        },
    };
    if !ComponentManifest::validate_module_id(stem) {
        return broken("Filename must be 'name@version.wasm' for components without component.toml");
    }
    match split_once_at_sign(stem) {
        Some(parts) => Ok(parts),
        None => broken("Expected 'name@version' format"),
    }
}

/// Makes the manifest of a module out of its name, its version, and what
/// the engine reports of its interfaces, and checks it.
///
/// The manifest has no description and asks for nothing. Each item that the
/// module exports or imports is described as
/// [`ComponentItemSpec::from_component_item`] describes it.
pub fn component_manifest_from_wasm(
    name: String,
    version: String,
    exports: &Vec<(String, ComponentItem)>,
    imports: &Vec<(String, ComponentItem)>,
) -> (r: Result<ComponentManifest, ArcellaWasmtimeError>)
    ensures
        match r {
            Ok(manifest) => {
                &&& manifest_error(name@, version@) is None
                &&& manifest.name == name
                &&& manifest.version == version
                &&& manifest.description is None
                &&& named_specs_view(manifest.exports@) == named_specs_of(
                    exports@,
                    0,
                    MAX_RECURSION_DEPTH as nat,
                )
                &&& named_specs_view(manifest.imports@) == named_specs_of(
                    imports@,
                    0,
                    MAX_RECURSION_DEPTH as nat,
                )
                &&& manifest.capabilities.wasi@.len() == 0
                &&& manifest.capabilities.filesystem@.len() == 0
                &&& manifest.capabilities.network@.len() == 0
                &&& manifest.capabilities.environment@.len() == 0
                &&& manifest.capabilities.resources == (ComponentResources { memory_max: None, cpu_shares: None })
                &&& !manifest.capabilities.security.requires_tee
                &&& manifest.capabilities.security.allowed_syscalls@.len() == 0
            },
            Err(ArcellaWasmtimeError::Manifest(message)) => manifest_error(name@, version@) == Some(message@),
            Err(_) => false,
        },
{
    let manifest = ComponentManifest {
        name,
        version,
        description: None,
        exports: named_to_spec(exports, 0, MAX_RECURSION_DEPTH),
        imports: named_to_spec(imports, 0, MAX_RECURSION_DEPTH),
        capabilities: ComponentCapabilities {
            wasi: Vec::new(),
            filesystem: Vec::new(),
            network: Vec::new(),
            environment: Vec::new(),
            resources: ComponentResources { memory_max: None, cpu_shares: None },
            security: ComponentSecurity { requires_tee: false, allowed_syscalls: Vec::new() },
        },
    };
    match manifest.validate() {
        Ok(_) => Ok(manifest),
        Err(e) => Err(e),
    }
}

/// The names of `entries`, in order.
pub open spec fn interface_names(entries: Seq<(String, ComponentItemSpec)>) -> Seq<Seq<char>> {
    Seq::new(entries.len(), |i: int| entries[i].0@)
}

/// The names of `names` without repetition, in the order in which each is
/// first met.
pub open spec fn first_occurrences(names: Seq<Seq<char>>) -> Seq<Seq<char>>
    decreases names.len(),
{
    if names.len() == 0 {
        Seq::empty()
    } else if item_position(first_occurrences(names.drop_last()), names.last()) >= 0 {
        first_occurrences(names.drop_last())
    } else {
        first_occurrences(names.drop_last()).push(names.last())
    }
}

/// Makes the interfaces of a manifest out of a list of their names.
///
/// Nothing more than the name is known of such an interface: each name
/// stands for an item that is not described. A name that is listed again
/// adds nothing.
pub fn interfaces_from_names(names: Vec<String>) -> (r: Vec<(String, ComponentItemSpec)>)
    ensures
        interface_names(r@) == first_occurrences(texts(names@)),
        forall|i: int| 0 <= i < r@.len() ==> (#[trigger] r@[i]).1 == (ComponentItemSpec::Unknown { debug: None }),
{
    let ghost given = texts(names@);
    let mut out: Vec<(String, ComponentItemSpec)> = Vec::new();
    let mut i: usize = 0;
    proof {
        assert(given.subrange(0, 0) =~= Seq::<Seq<char>>::empty());
        assert(interface_names(out@) =~= Seq::<Seq<char>>::empty());
    }
    while i < names.len()
        invariant
            i <= names.len(),
            given == texts(names@),
            interface_names(out@) == first_occurrences(given.subrange(0, i as int)),
            forall|k: int|
                0 <= k < out@.len() ==> (#[trigger] out@[k]).1 == (ComponentItemSpec::Unknown { debug: None }),
        decreases names.len() - i,
    {
        proof {
            let upto = given.subrange(0, i + 1);
            assert(upto.drop_last() =~= given.subrange(0, i as int));
            assert(upto.last() == names@[i as int]@);
            lemma_item_position(interface_names(out@), names@[i as int]@);
        }
        let mut known = false;
        let mut k: usize = 0;
        while k < out.len()
            invariant
                k <= out.len(),
                i < names.len(),
                known <==> exists|j: int| 0 <= j < k && interface_names(out@)[j] == names@[i as int]@,
            decreases out.len() - k,
        {
            if out[k].0 == names[i] {
                known = true;
                assert(interface_names(out@)[k as int] == names@[i as int]@);
            }
            k += 1;
        }
        if !known {
            let ghost before = interface_names(out@);
            out.push((names[i].clone(), ComponentItemSpec::Unknown { debug: None }));
            assert(interface_names(out@) =~= before.push(names@[i as int]@));
        }
        i += 1;
    }
    proof {
        assert(given.subrange(0, names.len() as int) =~= given);
    }
    out
}

} // verus!
