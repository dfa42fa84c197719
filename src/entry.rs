//! One child of a listed directory, and how its name is classed for display.

use vstd::prelude::*;
use crate::time::Timestamp;

verus! {

/// Whether a name marks a hidden entry: it starts with a dot.
pub open spec fn starts_with_dot(name: Seq<char>) -> bool {
    name.len() > 0 && name[0] == '.'
}

/// Whether a name carries the source-file extension `.rs`.
pub open spec fn has_source_extension(name: Seq<char>) -> bool {
    name.len() >= 3 && name[name.len() - 3] == '.' && name[name.len() - 2] == 'r'
        && name[name.len() - 1] == 's'
}

/// One entry of a directory: its name (the last path component), whether it
/// is a directory, whether it is hidden, its size in bytes and its
/// modification time, if the file system gave one.
#[derive(Debug)]
pub struct FileInfo {
    pub name: String,
    pub is_dir: bool,
    pub is_hidden: bool,
    pub size: u64,
    pub modified: Option<Timestamp>,
}

impl FileInfo {
    /// An entry whose hidden flag agrees with its name.
    pub open spec fn wf(&self) -> bool {
        self.is_hidden == starts_with_dot(self.name@)
    }

    /// Builds an entry from its metadata; it is hidden when its name starts
    /// with a dot.
    pub fn new(name: String, is_dir: bool, size: u64, modified: Option<Timestamp>) -> (r: FileInfo)
        ensures
            r.name == name,
            r.is_dir == is_dir,
            r.size == size,
            r.modified == modified,
            r.is_hidden == starts_with_dot(name@),
            r.wf(),
    {
        let is_hidden = name_starts_with_dot(name.as_str());
        FileInfo { name, is_dir, is_hidden, size, modified }
    }
}

/// Whether `s` starts with a dot.
pub fn name_starts_with_dot(s: &str) -> (r: bool)
    ensures
        r == starts_with_dot(s@),
{
    s.unicode_len() > 0 && s.get_char(0) == '.'
}

/// Whether `s` ends with `.rs`.
pub fn name_has_source_extension(s: &str) -> (r: bool)
    ensures
        r == has_source_extension(s@),
{
    let n = s.unicode_len();
    n >= 3 && s.get_char(n - 3) == '.' && s.get_char(n - 2) == 'r' && s.get_char(n - 1) == 's'
}

/// How an entry's name is styled: directories, source files, hidden names,
/// and the rest.
#[derive(Clone, Copy, Debug, PartialEq, Eq, Structural)]
pub enum NameClass {
    Directory,
    Source,
    Hidden,
    Plain,
}

/// The class of an entry, checked in this order: directory, source
/// extension, leading dot.
pub open spec fn class_of(e: FileInfo) -> NameClass {
    if e.is_dir {
        NameClass::Directory
    } else if has_source_extension(e.name@) {
        NameClass::Source
    } else if starts_with_dot(e.name@) {
        NameClass::Hidden
    } else {
        NameClass::Plain
    }
}

/// Classifies an entry for display.
pub fn name_class(e: &FileInfo) -> (r: NameClass)
    ensures
        r == class_of(*e),
{
    if e.is_dir {
        NameClass::Directory
    } else if name_has_source_extension(e.name.as_str()) {
        NameClass::Source
    } else if name_starts_with_dot(e.name.as_str()) {
        NameClass::Hidden
    } else {
        NameClass::Plain
    }
}

} // verus!
