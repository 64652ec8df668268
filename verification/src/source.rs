//! Source files: identifiers, spans and the map from identifiers to text.

use vstd::prelude::*;

verus! {

/// Identifies one loaded source file.
#[derive(Debug, Clone, Copy, PartialEq, Eq, PartialOrd, Ord, Hash)]
pub struct FileId(pub usize);

/// A byte range in one source file.
#[derive(Debug, Clone, Copy, PartialEq, Eq)]
pub struct Span {
    pub file: FileId,
    pub start: usize,
    pub end: usize,
}

impl Span {
    pub fn new(file: usize, start: usize, end: usize) -> (s: Span)
        ensures
            s.file == FileId(file),
            s.start == start,
            s.end == end,
    {
        Span { file: FileId(file), start, end }
    }
}

/// A loaded source file.
#[derive(Debug, Clone)]
pub struct SourceFile {
    pub id: FileId,
    pub path: String,
    pub text: String,
}

/// The loaded source files, each under the identifier it was given.
pub struct SourceMap {
    files: Vec<SourceFile>,
}

impl SourceMap {
    /// The files, in loading order; a file's identifier is its position.
    pub closed spec fn files_spec(&self) -> Seq<SourceFile> {
        self.files@
    }

    pub fn new() -> (m: SourceMap)
        ensures
            m.files_spec().len() == 0,
    {
        SourceMap { files: Vec::new() }
    }

    /// Records a file read from `path` and returns its fresh identifier.
    pub fn add(&mut self, path: String, text: String) -> (id: FileId)
        ensures
            id.0 as int == old(self).files_spec().len(),
            final(self).files_spec() == old(self).files_spec().push(SourceFile { id, path, text }),
    {
        let id = FileId(self.files.len());
        self.files.push(SourceFile { id, path, text });
        id
    }

    /// The file with the given identifier.
    pub fn get(&self, id: FileId) -> (r: Option<&SourceFile>)
        ensures
            match r {
                Some(f) => id.0 < self.files_spec().len() && *f == self.files_spec()[id.0 as int],
                None => id.0 >= self.files_spec().len(),
            },
    {
        if id.0 < self.files.len() {
            Some(&self.files[id.0])
        } else {
            None
        }
    }
}

} // verus!
