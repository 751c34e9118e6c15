//! Normalized absolute paths.
//!
//! A [`NormarizedPath`] stores the absolute, dot-free spelling of a path as a
//! UTF-8 string. The spelling itself is computed by `path-dedot`, `pathdiff`
//! and `std::path`, by the path syntax of the platform that the library is
//! built for; this module fixes how those results are combined.

use path_dedot::ParseDot;
use std::path::Path;
use vstd::prelude::*;

verus! {

/// The spelling that `Path::join` gives for `rel` appended to `base`.
pub uninterp spec fn joined_path(base: Seq<char>, rel: Seq<char>) -> Seq<char>;

/// The spelling that `path_dedot::ParseDot::parse_dot_from` gives for `path`
/// when a leading `.` or `..` is read against `cwd`.
pub uninterp spec fn dedotted_path(path: Seq<char>, cwd: Seq<char>) -> Seq<char>;

/// What `pathdiff::diff_paths` answers for `path` seen from `base`.
pub uninterp spec fn path_difference(path: Seq<char>, base: Seq<char>) -> Option<Seq<char>>;

/// What `Path::parent` answers for `path`.
pub uninterp spec fn parent_path(path: Seq<char>) -> Option<Seq<char>>;

/// Calls `std::path::Path::join`. Both arguments are UTF-8, so the lossy
/// conversion of the result changes nothing. The contract only names the
/// result.
#[verifier::external_body]
fn join_paths(base: &str, rel: &str) -> (joined: String)
    ensures
        joined@ == joined_path(base@, rel@),
{
    Path::new(base).join(rel).to_string_lossy().into_owned()
}

/// Calls `path_dedot::ParseDot::parse_dot_from`, which removes `.` and `..`
/// components without touching the file system. The contract only names the
/// result.
#[verifier::external_body]
fn remove_dots(path: &str, cwd: &str) -> (clean: String)
    ensures
        clean@ == dedotted_path(path@, cwd@),
{
    Path::new(path).parse_dot_from(cwd).to_string_lossy().into_owned()
}

/// Calls `pathdiff::diff_paths`, which compares the two paths component by
/// component without touching the file system. The contract only names the
/// result.
#[verifier::external_body]
fn diff_paths(path: &str, base: &str) -> (diff: Option<String>)
    ensures
        diff.is_some() == path_difference(path@, base@).is_some(),
        diff.is_some() ==> diff.unwrap()@ == path_difference(path@, base@).unwrap(),
{
    match pathdiff::diff_paths(path, base) {
        Some(p) => Some(p.to_string_lossy().into_owned()),
        None => None,
    }
}

/// Calls `std::path::Path::parent`. The contract only names the result.
#[verifier::external_body]
fn parent_of(path: &str) -> (parent: Option<String>)
    ensures
        parent.is_some() == parent_path(path@).is_some(),
        parent.is_some() ==> parent.unwrap()@ == parent_path(path@).unwrap(),
{
    match Path::new(path).parent() {
        Some(p) => Some(p.to_string_lossy().into_owned()),
        None => None,
    }
}

/// The absolute spelling of `path` for a process whose working directory is
/// `cwd`: dots are removed first, then the result is anchored at `cwd`.
pub open spec fn normalized(path: Seq<char>, cwd: Seq<char>) -> Seq<char> {
    joined_path(cwd, dedotted_path(path, cwd))
}

/// A normalized path.
/// - It holds the absolute spelling of the path, without dot components.
/// - It is encoded in UTF-8.
/// - `anchor` marks the path that stands for the working directory itself.
#[derive(Debug)]
pub struct NormarizedPath {
    anchor: bool,
    abs: String,
}

impl View for NormarizedPath {
    type V = Seq<char>;

    open spec fn view(&self) -> Seq<char> {
        self.abs_view()
    }
}

impl NormarizedPath {
    /// The absolute spelling, as a sequence of characters.
    pub closed spec fn abs_view(&self) -> Seq<char> {
        self.abs@
    }

    /// Whether this value stands for the working directory itself.
    pub closed spec fn is_anchor(&self) -> bool {
        self.anchor
    }

    /// Wraps the absolute spelling of the working directory.
    pub fn current_dir(abs: String) -> (dir: NormarizedPath)
        ensures
            dir@ == abs@,
            dir.is_anchor(),
    {
        NormarizedPath { anchor: true, abs }
    }

    /// Normalizes `path` for a process whose working directory is `cwd`.
    pub fn normalize(path: &str, cwd: &NormarizedPath) -> (norm: NormarizedPath)
        ensures
            norm@ == normalized(path@, cwd@),
            !norm.is_anchor(),
    {
        let clean = remove_dots(path, cwd.abs.as_str());
        let abs = join_paths(cwd.abs.as_str(), clean.as_str());
        NormarizedPath { anchor: false, abs }
    }

    /// Appends `rel` to this directory and normalizes the result.
    pub fn join(&self, rel: &str) -> (norm: NormarizedPath)
        ensures
            norm@ == normalized(joined_path(self@, rel@), self@),
            !norm.is_anchor(),
    {
        let joined = join_paths(self.abs.as_str(), rel);
        NormarizedPath::normalize(joined.as_str(), self)
    }

    /// The directory that holds this path, when it has one.
    pub fn into_parent(self) -> (parent: Option<NormarizedPath>)
        ensures
            parent.is_some() == parent_path(self@).is_some(),
            parent.is_some() ==> parent.unwrap()@ == parent_path(self@).unwrap(),
            parent.is_some() ==> !parent.unwrap().is_anchor(),
    {
        match parent_of(self.abs.as_str()) {
            Some(abs) => Some(NormarizedPath { anchor: false, abs }),
            None => None,
        }
    }

    /// Returns the absolute path as a string slice.
    pub fn as_abs_str(&self) -> (s: &str)
        ensures
            s@ == self@,
    {
        self.abs.as_str()
    }

    /// Returns the absolute path as the string that holds it.
    pub fn as_abs_string(&self) -> (s: &String)
        ensures
            s@ == self@,
    {
        &self.abs
    }

    /// Returns the path as seen from `cwd`: `"."` for the working directory
    /// itself, otherwise the difference between the two paths, when there is
    /// one.
    pub fn as_rel_str(&self, cwd: &NormarizedPath) -> (rel: Option<String>)
        ensures
            self.is_anchor() ==> rel.is_some() && rel.unwrap()@ == "."@,
            !self.is_anchor() ==> rel.is_some() == path_difference(self@, cwd@).is_some(),
            !self.is_anchor() && rel.is_some() ==> rel.unwrap()@ == path_difference(
                self@,
                cwd@,
            ).unwrap(),
    {
        if self.anchor {
            Some(".".to_string())
        } else {
            diff_paths(self.abs.as_str(), cwd.abs.as_str())
        }
    }

    /// The relative path that leads from `rhs` to this path, when there is
    /// one.
    pub fn sub(&self, rhs: &NormarizedPath) -> (rel: Option<String>)
        ensures
            rel.is_some() == path_difference(self@, rhs@).is_some(),
            rel.is_some() ==> rel.unwrap()@ == path_difference(self@, rhs@).unwrap(),
    {
        diff_paths(self.abs.as_str(), rhs.abs.as_str())
    }

    /// Whether two paths have the same absolute spelling.
    pub fn same_as(&self, other: &NormarizedPath) -> (same: bool)
        ensures
            same == (self@ == other@),
    {
        self.abs == other.abs
    }

    /// A copy with the same spelling and the same anchor mark.
    pub fn duplicate(&self) -> (copy: NormarizedPath)
        ensures
            copy@ == self@,
            copy.is_anchor() == self.is_anchor(),
    {
        NormarizedPath { anchor: self.anchor, abs: self.abs.clone() }
    }
}

} // verus!
