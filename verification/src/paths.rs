//! Paths as text. The operations of `std::path` that the workbench relies on
//! are called through the trusted functions below; what the workbench decides
//! with their results is verified.
use vstd::prelude::*;
use crate::text::{replace_char, replace_char_seq, text_eq, owned};

verus! {

/// Whether `std::path::Path::is_absolute` holds of the path. Path syntax is
/// that of the target the crate is built for.
pub uninterp spec fn absolute_path(path: Seq<char>) -> bool;

/// What `std::path::Path::join` gives for `base` and `rel`, as text.
pub uninterp spec fn joined_path(base: Seq<char>, rel: Seq<char>) -> Seq<char>;

/// Whether `std::path::Path::starts_with` holds: `base` is made of the first
/// components of `path`.
pub uninterp spec fn path_within(path: Seq<char>, base: Seq<char>) -> bool;

/// What `std::path::Path::strip_prefix` leaves of `path` once `base` is taken
/// off, as text; `None` where it fails.
pub uninterp spec fn path_suffix(path: Seq<char>, base: Seq<char>) -> Option<Seq<char>>;

/// The last component of the path (`std::path::Path::file_name`), as text.
pub uninterp spec fn file_name_of(path: Seq<char>) -> Option<Seq<char>>;

/// The last component of the path without its extension (`std::path::Path::file_stem`).
pub uninterp spec fn file_stem_of(path: Seq<char>) -> Option<Seq<char>>;

/// The extension of the path (`std::path::Path::extension`).
pub uninterp spec fn extension_of(path: Seq<char>) -> Option<Seq<char>>;

/// Calls `std::path::Path::is_absolute`; the result is named `absolute_path`.
#[verifier::external_body]
pub(crate) fn path_is_absolute(path: &str) -> (b: bool)
    ensures
        b == absolute_path(path@),
{
    std::path::Path::new(path).is_absolute()
}

/// Calls `std::path::Path::join`; the result, as text, is named `joined_path`.
/// A path made of two texts converts back to text without loss.
#[verifier::external_body]
pub(crate) fn path_join(base: &str, rel: &str) -> (r: String)
    ensures
        r@ == joined_path(base@, rel@),
{
    std::path::Path::new(base).join(rel).to_string_lossy().into_owned()
}

/// Calls `std::path::Path::starts_with`; the result is named `path_within`.
#[verifier::external_body]
pub(crate) fn path_starts_with(path: &str, base: &str) -> (b: bool)
    ensures
        b == path_within(path@, base@),
{
    std::path::Path::new(path).starts_with(base)
}

/// Calls `std::path::Path::strip_prefix`; the result is named `path_suffix`.
/// As its documentation says, it fails exactly where `starts_with` is false.
#[verifier::external_body]
pub(crate) fn path_strip_prefix(path: &str, base: &str) -> (r: Option<String>)
    ensures
        r matches Some(s) ==> path_suffix(path@, base@) == Some(s@),
        r is None ==> path_suffix(path@, base@) is None,
        r is Some <==> path_within(path@, base@),
{
    match std::path::Path::new(path).strip_prefix(base) {
        Ok(rest) => Some(rest.to_string_lossy().into_owned()),
        Err(_) => None,
    }
}

/// Calls `std::path::Path::file_name`; the result is named `file_name_of`.
#[verifier::external_body]
pub(crate) fn path_file_name(path: &str) -> (r: Option<String>)
    ensures
        r matches Some(s) ==> file_name_of(path@) == Some(s@),
        r is None ==> file_name_of(path@) is None,
{
    std::path::Path::new(path).file_name().map(|name| name.to_string_lossy().into_owned())
}

/// Calls `std::path::Path::file_stem`; the result is named `file_stem_of`.
#[verifier::external_body]
pub(crate) fn path_file_stem(path: &str) -> (r: Option<String>)
    ensures
        r matches Some(s) ==> file_stem_of(path@) == Some(s@),
        r is None ==> file_stem_of(path@) is None,
{
    std::path::Path::new(path).file_stem().map(|stem| stem.to_string_lossy().into_owned())
}

/// Calls `std::path::Path::extension`; the result is named `extension_of`.
#[verifier::external_body]
pub(crate) fn path_extension(path: &str) -> (r: Option<String>)
    ensures
        r matches Some(s) ==> extension_of(path@) == Some(s@),
        r is None ==> extension_of(path@) is None,
{
    std::path::Path::new(path).extension().map(|ext| ext.to_string_lossy().into_owned())
}

/// A directory named in the configuration: taken as it is when absolute,
/// else below `root_dir`.
pub open spec fn configured_dir(root_dir: Seq<char>, value: Seq<char>) -> Seq<char> {
    if absolute_path(value) {
        value
    } else {
        joined_path(root_dir, value)
    }
}

/// Resolves a directory named in the configuration against the application root.
pub fn resolve_configured_dir(root_dir: &str, value: &str) -> (r: String)
    ensures
        r@ == configured_dir(root_dir@, value@),
{
    if path_is_absolute(value) {
        owned(value)
    } else {
        path_join(root_dir, value)
    }
}

/// A path as it is shown: with `/` in place of every `\`.
pub open spec fn display_seq(path: Seq<char>) -> Seq<char> {
    replace_char_seq(path, '\\', '/')
}

/// Writes a path with forward slashes only.
pub fn display_path(path: &str) -> (r: String)
    ensures
        r@ == display_seq(path@),
{
    replace_char(path, '\\', '/')
}

/// The path relative to `root` when it lies below it, else the whole path,
/// shown with forward slashes.
pub open spec fn relative_seq(root: Seq<char>, path: Seq<char>) -> Seq<char> {
    match path_suffix(path, root) {
        Some(rest) => display_seq(rest),
        None => display_seq(path),
    }
}

/// The path as it is named in messages to the agent.
pub fn relative_path(root: &str, path: &str) -> (r: String)
    ensures
        r@ == relative_seq(root@, path@),
{
    match path_strip_prefix(path, root) {
        Some(rest) => display_path(rest.as_str()),
        None => display_path(path),
    }
}

/// Directory entries that the project file tree leaves out.
pub open spec fn skipped_name(name: Seq<char>) -> bool {
    ||| name == ".git"@
    ||| name == "node_modules"@
    ||| name == "target"@
    ||| name == "dist"@
    ||| name == "release"@
    ||| name == ".run"@
    ||| name == ".next"@
    ||| name == ".cache"@
}

/// Whether the file tree leaves out an entry of this name.
pub fn should_skip(name: &str) -> (b: bool)
    ensures
        b == skipped_name(name@),
{
    text_eq(name, ".git") || text_eq(name, "node_modules") || text_eq(name, "target")
        || text_eq(name, "dist") || text_eq(name, "release") || text_eq(name, ".run")
        || text_eq(name, ".next") || text_eq(name, ".cache")
}

/// The name a project gets: the last component of its path, or nothing.
pub open spec fn project_name_seq(path: Seq<char>) -> Seq<char> {
    match file_name_of(path) {
        Some(name) => name,
        None => Seq::empty(),
    }
}

/// The display name of the project at `path`.
pub fn project_name(path: &str) -> (r: String)
    ensures
        r@ == project_name_seq(path@),
{
    match path_file_name(path) {
        Some(name) => name,
        None => String::new(),
    }
}

/// Whether the file at `path` is a skill file (extension `md`).
pub fn is_markdown(path: &str) -> (b: bool)
    ensures
        b == (extension_of(path@) == Some("md"@)),
{
    match path_extension(path) {
        Some(ext) => text_eq(ext.as_str(), "md"),
        None => false,
    }
}

} // verus!
