//! Non-fatal findings collected while configuration is loaded.

use vstd::prelude::*;
use vstd::string::StringExecFns;

verus! {

/// Something worth reporting that did not stop the load.
///
/// Warnings are gathered in order and handed to the caller, because the
/// process logger may not exist yet while configuration is being read.
#[derive(Debug, Clone, PartialEq, Eq)]
pub enum ConfigLoadWarning {
    /// A free-form note.
    Internal(String),
    /// `key` resolved to `Null` in `file`.
    NullValueDetected { key: String, file: String },
    /// A value was displaced or rejected; `error` says why.
    ValueError { key: String, error: String, file: String },
    /// `path` was referenced again, this time from `included_from`.
    DuplicateInclude { path: String, included_from: String },
    /// `path` was processed a second time.
    RetriedProcessing { path: String },
    /// An include target that is absent, special, or not a live TOML file.
    SkippedInvalidFile { path: String },
    /// A TOML construct with no counterpart among the values.
    UnknownTomlType { key: String, kind: String, file: String },
    /// `path` lies deeper in the include chain than is followed.
    MaxDepthReached { path: String },
    /// Part of `path` was nested too deeply and left out.
    Pruned { path: String },
}

/// The mathematical content of a [`ConfigLoadWarning`].
pub ghost enum WarningView {
    Internal(Seq<char>),
    NullValueDetected { key: Seq<char>, file: Seq<char> },
    ValueError { key: Seq<char>, error: Seq<char>, file: Seq<char> },
    DuplicateInclude { path: Seq<char>, included_from: Seq<char> },
    RetriedProcessing { path: Seq<char> },
    SkippedInvalidFile { path: Seq<char> },
    UnknownTomlType { key: Seq<char>, kind: Seq<char>, file: Seq<char> },
    MaxDepthReached { path: Seq<char> },
    Pruned { path: Seq<char> },
}

impl View for ConfigLoadWarning {
    type V = WarningView;

    open spec fn view(&self) -> WarningView {
        match self {
            ConfigLoadWarning::Internal(m) => WarningView::Internal(m@),
            ConfigLoadWarning::NullValueDetected { key, file } => WarningView::NullValueDetected {
                key: key@,
                file: file@,
            },
            ConfigLoadWarning::ValueError { key, error, file } => WarningView::ValueError {
                key: key@,
                error: error@,
                file: file@,
            },
            ConfigLoadWarning::DuplicateInclude { path, included_from } => WarningView::DuplicateInclude {
                path: path@,
                included_from: included_from@,
            },
            ConfigLoadWarning::RetriedProcessing { path } => WarningView::RetriedProcessing { path: path@ },
            ConfigLoadWarning::SkippedInvalidFile { path } => WarningView::SkippedInvalidFile {
                path: path@,
            },
            ConfigLoadWarning::UnknownTomlType { key, kind, file } => WarningView::UnknownTomlType {
                key: key@,
                kind: kind@,
                file: file@,
            },
            ConfigLoadWarning::MaxDepthReached { path } => WarningView::MaxDepthReached { path: path@ },
            ConfigLoadWarning::Pruned { path } => WarningView::Pruned { path: path@ },
        }
    }
}

/// The content of each warning of `ws`, in order.
pub open spec fn warnings_view(ws: Seq<ConfigLoadWarning>) -> Seq<WarningView> {
    Seq::new(ws.len(), |i: int| ws[i]@)
}

/// Appending one warning appends its content.
pub proof fn lemma_warnings_view_push(ws: Seq<ConfigLoadWarning>, w: ConfigLoadWarning)
    ensures
        warnings_view(ws.push(w)) == warnings_view(ws).push(w@),
{
    assert(warnings_view(ws.push(w)) =~= warnings_view(ws).push(w@));
}

/// What `{:?}` makes of a string: the string in double quotes, with what
/// cannot be shown as it is escaped.
pub uninterp spec fn debug_text(s: Seq<char>) -> Seq<char>;

/// The `Debug` form of `str`: the string as `{:?}` shows it.
#[verifier::external_body]
pub(crate) fn quoted(s: &str) -> (r: String)
    ensures
        r@ == debug_text(s@),
{
    format!("{:?}", s)
}

/// The text of a warning.
pub open spec fn warning_text(w: WarningView) -> Seq<char> {
    match w {
        WarningView::Internal(message) => message,
        WarningView::NullValueDetected { key, file } => "Null value found for key '"@ + key + "' in file "@
            + debug_text(file),
        WarningView::ValueError { key, error, file } => "Error processing value for key '"@ + key
            + "' in file "@ + debug_text(file) + ": "@ + error,
        WarningView::DuplicateInclude { path, included_from } => "Duplicate include path '"@ + debug_text(
            path,
        ) + "' found, already included from "@ + debug_text(included_from),
        WarningView::RetriedProcessing { path } => "Retried processing of config file "@ + debug_text(path),
        WarningView::SkippedInvalidFile { path } => "Skipped invalid file in includes: "@ + debug_text(path),
        WarningView::UnknownTomlType { key, kind, file } => "Unknown TOML type '"@ + kind + "' for key '"@
            + key + "' in file "@ + debug_text(file),
        WarningView::MaxDepthReached { path } => "Maximum include depth reached for file "@ + debug_text(
            path,
        ),
        WarningView::Pruned { path } => "Pruned file "@ + debug_text(path),
    }
}

impl ConfigLoadWarning {
    /// The warning as a line of text for a log.
    pub fn message(&self) -> (r: String)
        ensures
            r@ == warning_text(self@),
    {
        match self {
            ConfigLoadWarning::Internal(message) => message.clone(),
            ConfigLoadWarning::NullValueDetected { key, file } => {
                let mut text = String::from_str("Null value found for key '");
                text.append(key.as_str());
                text.append("' in file ");
                text.append(quoted(file.as_str()).as_str());
                text
            },
            ConfigLoadWarning::ValueError { key, error, file } => {
                let mut text = String::from_str("Error processing value for key '");
                text.append(key.as_str());
                text.append("' in file ");
                text.append(quoted(file.as_str()).as_str());
                text.append(": ");
                text.append(error.as_str());
                text
            },
            ConfigLoadWarning::DuplicateInclude { path, included_from } => {
                let mut text = String::from_str("Duplicate include path '");
                text.append(quoted(path.as_str()).as_str());
                text.append("' found, already included from ");
                text.append(quoted(included_from.as_str()).as_str());
                text
            },
            ConfigLoadWarning::RetriedProcessing { path } => {
                let mut text = String::from_str("Retried processing of config file ");
                text.append(quoted(path.as_str()).as_str());
                text
            },
            ConfigLoadWarning::SkippedInvalidFile { path } => {
                let mut text = String::from_str("Skipped invalid file in includes: ");
                text.append(quoted(path.as_str()).as_str());
                text
            },
            ConfigLoadWarning::UnknownTomlType { key, kind, file } => {
                let mut text = String::from_str("Unknown TOML type '");
                text.append(kind.as_str());
                text.append("' for key '");
                text.append(key.as_str());
                text.append("' in file ");
                text.append(quoted(file.as_str()).as_str());
                text
            },
            ConfigLoadWarning::MaxDepthReached { path } => {
                let mut text = String::from_str("Maximum include depth reached for file ");
                text.append(quoted(path.as_str()).as_str());
                text
            },
            ConfigLoadWarning::Pruned { path } => {
                let mut text = String::from_str("Pruned file ");
                text.append(quoted(path.as_str()).as_str());
                text
            },
        }
    }
}

} // verus!
