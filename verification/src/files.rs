//! Paths of notebooks as text, which files are left out, and why a notebook
//! could not be read or written.
use crate::json::text_eq;
use path_absolutize::Absolutize;
use std::path::Path;
use vstd::prelude::*;
use vstd::string::StrSliceExecFns;

verus! {

/// The path starts at the root of the file system.
pub open spec fn is_rooted(path: Seq<char>) -> bool {
    path.len() > 0 && path[0] == '/'
}

/// Whether the path starts at the root of the file system.
pub fn has_root(path: &str) -> (rooted: bool)
    ensures
        rooted == is_rooted(path@),
{
    path.unicode_len() > 0 && path.get_char(0) == '/'
}

/// `Absolutize::absolutize_from`: the path made absolute from the directory
/// `root_path`, without looking at the file system; the path as it is
/// where that fails. The directory starts at the root: from one that does
/// not, a path that leads above it cannot be made absolute. What comes
/// back depends on the platform's path syntax, so nothing is stated of it.
#[verifier::external_body]
pub fn normalize_path_to(path: &str, root_path: &str) -> (absolute: String)
    requires
        is_rooted(root_path@),
{
    match Path::new(path).absolutize_from(Path::new(root_path)) {
        Ok(made) => made.to_string_lossy().into_owned(),
        Err(_) => path.to_owned(),
    }
}

/// What a set of file patterns says of one file: whether the set is
/// empty, and whether it matches the name of the file and its path.
#[derive(Debug, Clone, Copy, PartialEq, Eq, Structural)]
pub struct GlobAnswer {
    pub is_empty: bool,
    pub matches_name: bool,
    pub matches_path: bool,
}

impl GlobAnswer {
    /// The set leaves the file out: it is not empty and matches the name
    /// or the path.
    pub open spec fn excludes(self) -> bool {
        !self.is_empty && (self.matches_name || self.matches_path)
    }
}

/// Whether a file is left out: it has a name, and the patterns to leave
/// out or the additional ones say so.
pub fn check_exclusions(has_file_name: bool, exclude: GlobAnswer, extend_exclude: GlobAnswer) -> (out:
    bool)
    ensures
        out == (has_file_name && (exclude.excludes() || extend_exclude.excludes())),
{
    if has_file_name {
        if !exclude.is_empty && (exclude.matches_name || exclude.matches_path) {
            return true;
        }
        if !extend_exclude.is_empty && (extend_exclude.matches_name
            || extend_exclude.matches_path) {
            return true;
        }
    }
    false
}

#[verifier::external_type_specification]
#[verifier::external_body]
pub struct ExIoError(std::io::Error);

#[verifier::external_type_specification]
#[verifier::external_body]
pub struct ExJsonError(serde_json::Error);

/// Why a notebook could not be read.
#[derive(Debug)]
pub enum NBReadError {
    IO(std::io::Error),
    Serde(serde_json::Error),
}

/// Why a notebook could not be written.
#[derive(Debug)]
pub enum NBWriteError {
    IO(std::io::Error),
    Serde(serde_json::Error),
}

/// `to_string` on `std::io::Error`: the error as text. The text depends
/// on the platform, so nothing is stated of it.
#[verifier::external_body]
pub(crate) fn io_error_text(e: &std::io::Error) -> (text: String) {
    e.to_string()
}

/// `to_string` on `serde_json::Error`: the error as text, with the line
/// and the column where it has them. Nothing is stated of it.
#[verifier::external_body]
pub(crate) fn json_error_text(e: &serde_json::Error) -> (text: String) {
    e.to_string()
}

impl NBReadError {
    /// The error as text.
    pub fn text(&self) -> (text: String) {
        match self {
            NBReadError::IO(e) => io_error_text(e),
            NBReadError::Serde(e) => json_error_text(e),
        }
    }
}

impl NBWriteError {
    /// The error as text.
    pub fn text(&self) -> (text: String) {
        match self {
            NBWriteError::IO(e) => io_error_text(e),
            NBWriteError::Serde(e) => json_error_text(e),
        }
    }
}

/// Where the notebooks of a run come from.
#[derive(Debug, PartialEq, Eq)]
pub enum FoundNotebooks {
    /// One notebook, on standard input.
    Stdin,
    NoFiles,
    Files(Vec<String>),
}

/// Whether the paths given name standard input alone: the single path `-`.
pub fn is_stdin(paths: &Vec<String>) -> (stdin: bool)
    ensures
        stdin == (paths.len() == 1 && paths[0]@ == "-"@),
{
    paths.len() == 1 && text_eq(paths[0].as_str(), "-")
}

} // verus!
