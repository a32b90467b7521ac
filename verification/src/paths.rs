//! Paths as text, and the rule that tells live configuration files apart.

use vstd::prelude::*;
use vstd::string::StringExecFns;
use crate::error::ArcellaUtilsError;
use crate::text::{ends_with, ends_with_spec};
use crate::types::TEMPLATE_TOML_SUFFIX;

verus! {

/// What `std::path::Path::join` makes of `base` and `rel`, in the path
/// syntax of the system the crate is built for: `rel` itself where it is
/// absolute, else `rel` below `base`.
pub uninterp spec fn joined_path(base: Seq<char>, rel: Seq<char>) -> Seq<char>;

/// What `std::path::Path::file_name` finds in `path`, in the path syntax of
/// the system the crate is built for: its last component, unless the path
/// ends in the root or in `..`.
pub uninterp spec fn file_name_of(path: Seq<char>) -> Option<Seq<char>>;

/// What is left of `path` when it is taken apart by
/// `std::path::Path::components` and put together again, in the path syntax
/// of the system the crate is built for: the path without repeated or
/// trailing separators and without `.` in the middle or at the end. Two
/// paths are equal as paths exactly if this makes the same text of both.
pub uninterp spec fn normal_path(path: Seq<char>) -> Seq<char>;

/// What `str::to_lowercase` makes of `s`.
pub uninterp spec fn lowercase_of(s: Seq<char>) -> Seq<char>;

/// `Path::join`: `rel` resolved against `base`.
#[verifier::external_body]
pub(crate) fn join_path(base: &str, rel: &str) -> (r: String)
    ensures
        r@ == joined_path(base@, rel@),
{
    std::path::Path::new(base).join(rel).to_string_lossy().into_owned()
}

/// `Path::components`: `path` put together again from its components.
#[verifier::external_body]
pub(crate) fn normalize_path(path: &str) -> (r: String)
    ensures
        r@ == normal_path(path@),
{
    std::path::Path::new(path).components().collect::<std::path::PathBuf>().to_string_lossy().into_owned()
}

/// `Path::file_name`: the last component of `path`, if it has one.
#[verifier::external_body]
pub(crate) fn file_name(path: &str) -> (r: Option<String>)
    ensures
        match r {
            Some(name) => file_name_of(path@) == Some(name@),
            None => file_name_of(path@) is None,
        },
{
    std::path::Path::new(path).file_name().map(|name| name.to_string_lossy().into_owned())
}

/// `str::to_lowercase`: `s` in lower case.
#[verifier::external_body]
pub(crate) fn to_lowercase(s: &str) -> (r: String)
    ensures
        r@ == lowercase_of(s@),
{
    s.to_lowercase()
}

/// Whether a lower-cased file name is that of a live configuration file: it
/// ends in `.toml` and not in `.template.toml`.
pub open spec fn is_live_toml_name(lower_name: Seq<char>) -> bool {
    ends_with_spec(lower_name, ".toml"@) && !ends_with_spec(lower_name, TEMPLATE_TOML_SUFFIX@)
}

/// Whether `path` names a live configuration file, judged by its text alone.
pub open spec fn is_valid_toml_path(path: Seq<char>) -> bool {
    match file_name_of(path) {
        Some(name) => is_live_toml_name(lowercase_of(name)),
        None => false,
    }
}

/// Decides from a lower-cased file name whether the file is live
/// configuration.
pub fn is_live_toml_file_name(lower_name: &str) -> (r: bool)
    ensures
        r == is_live_toml_name(lower_name@),
{
    if !ends_with(lower_name, ".toml") {
        return false;
    }
    if ends_with(lower_name, TEMPLATE_TOML_SUFFIX) {
        return false;
    }
    true
}

/// Whether `path` names a `.toml` file that is not a `.template.toml` file,
/// both judged without regard to case.
///
/// Only the text of the path is looked at; nothing is asked of the disk. A
/// path without a file name (`.`, `..`, the root, the empty path) is not
/// valid.
pub fn is_valid_toml_file_path(path: &str) -> (r: bool)
    ensures
        r == is_valid_toml_path(path@),
{
    match file_name(path) {
        Some(name) => {
            let lower = to_lowercase(name.as_str());
            is_live_toml_file_name(lower.as_str())
        },
        None => false,
    }
}

/// What `std::path::Path::parent` finds for `path`, in the path syntax of
/// the system the crate is built for: the path without its last component,
/// unless the path is the root or empty.
pub uninterp spec fn parent_of(path: Seq<char>) -> Option<Seq<char>>;

/// `Path::parent`: `path` without its last component, if it has one.
#[verifier::external_body]
pub(crate) fn parent(path: &str) -> (r: Option<String>)
    ensures
        match r {
            Some(dir) => parent_of(path@) == Some(dir@),
            None => parent_of(path@) is None,
        },
{
    std::path::Path::new(path).parent().map(|dir| dir.to_string_lossy().into_owned())
}

/// The directory in which the runtime keeps its files, for an executable in
/// the directory `exe_dir`.
///
/// Where the executable lies in a directory named `bin` that has a parent,
/// it is that parent. Else, where the executable's directory holds a
/// `config` directory, it is the executable's directory. Else it is
/// `.arcella` in the home directory.
pub open spec fn base_dir_for(exe_dir: Option<Seq<char>>, has_config: bool, home: Option<Seq<char>>) -> Option<
    Seq<char>,
> {
    match exe_dir {
        Some(dir) if file_name_of(dir) == Some("bin"@) && parent_of(dir) is Some => parent_of(dir),
        Some(dir) if has_config => Some(dir),
        _ => match home {
            Some(h) => Some(joined_path(h, ".arcella"@)),
            None => None,
        },
    }
}

/// Chooses the directory in which the runtime keeps its files.
///
/// `exe_dir` is the directory of the executable, if it is known,
/// `has_config` whether that directory holds a `config` directory, and
/// `home` the user's home directory, if there is one. Without a home
/// directory to fall back on the choice fails.
pub fn choose_base_dir(exe_dir: Option<&str>, has_config: bool, home: Option<&str>) -> (r: Result<
    String,
    ArcellaUtilsError,
>)
    ensures
        match r {
            Ok(dir) => base_dir_for(
                match exe_dir {
                    Some(d) => Some(d@),
                    None => None,
                },
                has_config,
                match home {
                    Some(h) => Some(h@),
                    None => None,
                },
            ) == Some(dir@),
            Err(ArcellaUtilsError::Internal(message)) => message@ == "Cannot determine home directory"@
                && base_dir_for(
                match exe_dir {
                    Some(d) => Some(d@),
                    None => None,
                },
                has_config,
                match home {
                    Some(h) => Some(h@),
                    None => None,
                },
            ) is None,
            Err(_) => false,
        },
{
    match exe_dir {
        Some(dir) => {
            let in_bin = match file_name(dir) {
                Some(name) => name == String::from_str("bin"),
                None => false,
            };
            if in_bin {
                match parent(dir) {
                    Some(above) => {
                        return Ok(above);
                    },
                    None => {},
                }
            }
            if has_config {
                return Ok(String::from_str(dir));
            }
        },
        None => {},
    }
    match home {
        Some(h) => Ok(join_path(h, ".arcella")),
        None => Err(ArcellaUtilsError::Internal(String::from_str("Cannot determine home directory"))),
    }
}

} // verus!
