//! Paths as text: where a changed file lies relative to the template
//! directory, and whether it is a template at all.
//!
//! The library holds paths as strings. How a path is taken apart is left to
//! `std::path`, reached through the wrappers below: each result is named, and
//! the contracts of this file speak of these names.

use vstd::prelude::*;
use std::path::Path;
use std::path::StripPrefixError;

verus! {

/// `std::path::StripPrefixError`, the error of `Path::strip_prefix`. It says
/// that the prefix was not found, and holds nothing else to read.
#[verifier::external_type_specification]
#[verifier::external_body]
pub struct ExStripPrefixError(StripPrefixError);

/// Whether `std::path` reads `path` as relative.
pub uninterp spec fn path_is_relative(path: Seq<char>) -> bool;

/// What `std::path` makes of `path` adjoined to `base`.
pub uninterp spec fn path_joined(base: Seq<char>, path: Seq<char>) -> Seq<char>;

/// What `std::path` leaves of `path` once the prefix `base` is taken off;
/// `None` where `base` is no prefix of `path`.
pub uninterp spec fn path_stripped(path: Seq<char>, base: Seq<char>) -> Option<Seq<char>>;

/// The extension that `std::path` finds in the file name of `path`, if any.
pub uninterp spec fn path_extension(path: Seq<char>) -> Option<Seq<char>>;

/// `Path::is_relative` on `path`.
#[verifier::external_body]
fn is_relative(path: &str) -> (relative: bool)
    ensures
        relative == path_is_relative(path@),
{
    Path::new(path).is_relative()
}

/// `Path::join`: `path` adjoined to `base`, as text.
#[verifier::external_body]
fn join(base: &str, path: &str) -> (joined: String)
    ensures
        joined@ == path_joined(base@, path@),
{
    Path::new(base).join(path).to_string_lossy().into_owned()
}

/// `Path::strip_prefix`: the rest of `path` behind `base`, as text, or the
/// error of `std::path` where `base` is no prefix of `path`.
#[verifier::external_body]
fn strip_prefix(path: &str, base: &str) -> (stripped: Result<String, StripPrefixError>)
    ensures
        match stripped {
            Ok(rest) => path_stripped(path@, base@) == Some(rest@),
            Err(_) => path_stripped(path@, base@) is None,
        },
{
    match Path::new(path).strip_prefix(base) {
        Ok(rest) => Ok(rest.to_string_lossy().into_owned()),
        Err(e) => Err(e),
    }
}

/// `Path::extension` on `path`, as text.
#[verifier::external_body]
fn extension(path: &str) -> (found: Option<String>)
    ensures
        match found {
            Some(ext) => path_extension(path@) == Some(ext@),
            None => path_extension(path@) is None,
        },
{
    match Path::new(path).extension() {
        Some(ext) => Some(ext.to_string_lossy().into_owned()),
        None => None,
    }
}

/// The extension of the files that are templates.
pub open spec fn tracked_extension() -> Seq<char> {
    "mjml"@
}

/// The template directory as an absolute path: a relative `template_dir` is
/// taken from the working directory `cwd`.
pub open spec fn absolute_root(cwd: Seq<char>, template_dir: Seq<char>) -> Seq<char> {
    if path_is_relative(template_dir) {
        path_joined(cwd, template_dir)
    } else {
        template_dir
    }
}

/// Where `path` lies below the template directory, if it does.
pub open spec fn relative_path(cwd: Seq<char>, template_dir: Seq<char>, path: Seq<char>) -> Option<
    Seq<char>,
> {
    path_stripped(path, absolute_root(cwd, template_dir))
}

/// Whether `path` names a template: a file with the tracked extension.
pub open spec fn is_template(path: Seq<char>) -> bool {
    path_extension(path) == Some(tracked_extension())
}

/// A path that does not lie below the template directory.
#[derive(Debug, PartialEq, Eq)]
pub struct RelativePathError {
    /// The template directory, absolute.
    pub root: String,
    /// The path that was to be resolved.
    pub path: String,
}

/// The template directory as an absolute path.
pub fn absolute_template_dir(cwd: &str, template_dir: &str) -> (root: String)
    ensures
        root@ == absolute_root(cwd@, template_dir@),
{
    if is_relative(template_dir) {
        join(cwd, template_dir)
    } else {
        template_dir.to_owned()
    }
}

/// Resolves `path` against the template directory `template_dir`, which is
/// taken from the working directory `cwd` where it is relative. Returns the
/// part of `path` below the directory, and an error exactly where `path` does
/// not lie below it.
pub fn get_relative_path(cwd: &str, template_dir: &str, path: &str) -> (resolved: Result<
    String,
    RelativePathError,
>)
    ensures
        match resolved {
            Ok(relative) => relative_path(cwd@, template_dir@, path@) == Some(relative@),
            Err(e) => {
                &&& relative_path(cwd@, template_dir@, path@) is None
                &&& e.root@ == absolute_root(cwd@, template_dir@)
                &&& e.path@ == path@
            },
        },
{
    let root = absolute_template_dir(cwd, template_dir);
    match strip_prefix(path, root.as_str()) {
        Ok(relative) => Ok(relative),
        Err(_) => Err(RelativePathError { root, path: path.to_owned() }),
    }
}

/// Whether an extension, as found in a path, is the tracked one.
pub fn is_tracked_extension(found: Option<&str>) -> (wanted: bool)
    ensures
        wanted == (found matches Some(ext) && ext@ == tracked_extension()),
{
    match found {
        Some(ext) => ext.to_owned() == "mjml".to_owned(),
        None => false,
    }
}

/// Whether `path` names a template.
pub fn has_tracked_extension(path: &str) -> (template: bool)
    ensures
        template == is_template(path@),
{
    match extension(path) {
        Some(ext) => is_tracked_extension(Some(ext.as_str())),
        None => is_tracked_extension(None),
    }
}

} // verus!
