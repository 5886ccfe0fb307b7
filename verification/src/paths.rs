//! The parts of a file path: its folder, its file name, its stem and its extension.
//!
//! `std::path::Path` splits a path by the rules of the platform the program is built for, so
//! within one build its answers depend on the text alone; they are named here rather than
//! written out.
use vstd::prelude::*;

use crate::text::{ascii_lower_seq, ascii_lowercase, chars_of, lowercase, to_lowercase};

verus! {

/// What `Path::parent` gives for a path: the path without its final component, or `None`
/// when the path ends in a root or prefix or is empty.
pub uninterp spec fn path_parent(path: Seq<char>) -> Option<Seq<char>>;

/// What `Path::file_name` gives for a path: its final component, unless that is `..`.
pub uninterp spec fn path_file_name(path: Seq<char>) -> Option<Seq<char>>;

/// What `Path::file_stem` gives for a path: the file name without its extension.
pub uninterp spec fn path_file_stem(path: Seq<char>) -> Option<Seq<char>>;

/// What `Path::extension` gives for a path: what follows the last `.` of the file name.
pub uninterp spec fn path_extension(path: Seq<char>) -> Option<Seq<char>>;

/// Calls `Path::parent`; the result is named `path_parent`.
#[verifier::external_body]
pub(crate) fn parent_dir(path: &str) -> (parent: Option<String>)
    ensures
        parent.deep_view() == path_parent(path@),
{
    match std::path::Path::new(path).parent() {
        Some(parent) => Some(parent.to_string_lossy().into_owned()),
        None => None,
    }
}

/// Calls `Path::file_name`; the result is named `path_file_name`.
#[verifier::external_body]
fn file_name_part(path: &str) -> (name: Option<String>)
    ensures
        name.deep_view() == path_file_name(path@),
{
    match std::path::Path::new(path).file_name() {
        Some(name) => Some(name.to_string_lossy().into_owned()),
        None => None,
    }
}

/// Calls `Path::file_stem`; the result is named `path_file_stem`.
#[verifier::external_body]
fn file_stem_part(path: &str) -> (stem: Option<String>)
    ensures
        stem.deep_view() == path_file_stem(path@),
{
    match std::path::Path::new(path).file_stem() {
        Some(stem) => Some(stem.to_string_lossy().into_owned()),
        None => None,
    }
}

/// Calls `Path::extension`; the result is named `path_extension`.
#[verifier::external_body]
fn extension_part(path: &str) -> (extension: Option<String>)
    ensures
        extension.deep_view() == path_extension(path@),
{
    match std::path::Path::new(path).extension() {
        Some(extension) => Some(extension.to_string_lossy().into_owned()),
        None => None,
    }
}

pub open spec fn or_empty(part: Option<Seq<char>>) -> Seq<char> {
    match part {
        Some(text) => text,
        None => Seq::empty(),
    }
}

/// The folder of a path, or an empty text when it has none.
pub fn folder_of(path: &str) -> (folder: String)
    ensures
        folder@ == or_empty(path_parent(path@)),
{
    match parent_dir(path) {
        Some(parent) => parent,
        None => String::new(),
    }
}

/// The file name of a path, or an empty text when it has none.
pub fn file_name(path: &str) -> (name: String)
    ensures
        name@ == or_empty(path_file_name(path@)),
{
    match file_name_part(path) {
        Some(name) => name,
        None => String::new(),
    }
}

/// The file name without its extension, or an empty text when there is none.
pub fn file_stem(path: &str) -> (stem: String)
    ensures
        stem@ == or_empty(path_file_stem(path@)),
{
    match file_stem_part(path) {
        Some(stem) => stem,
        None => String::new(),
    }
}

/// The extension in lowercase.
pub fn lowercase_extension(path: &str) -> (extension: Option<String>)
    ensures
        extension.deep_view() == match path_extension(path@) {
            Some(ext) => Some(lowercase(ext)),
            None => None,
        },
{
    match extension_part(path) {
        Some(extension) => Some(to_lowercase(extension.as_str())),
        None => None,
    }
}

/// Whether the extension is `exe`, ignoring ASCII case.
pub open spec fn exe_extension(path: Seq<char>) -> bool {
    path_extension(path) matches Some(ext) && ascii_lower_seq(ext) == "exe"@
}

pub fn has_exe_extension(path: &str) -> (is_exe: bool)
    ensures
        is_exe == exe_extension(path@),
{
    match extension_part(path) {
        Some(extension) => {
            let chars = chars_of(extension.as_str());
            let lower = ascii_lowercase(chars.as_slice());
            crate::text::same_text(crate::text::string_of(lower.as_slice()).as_str(), "exe")
        },
        None => false,
    }
}

} // verus!
