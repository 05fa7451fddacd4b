//! Paths to files.
use vstd::prelude::*;
use crate::abs::PathAbs;
use crate::dir::{wrong_kind_error, PathDir};
use crate::error::{Error, ErrorKind, IoError};
use crate::ops::{PathInfo, PathOps};
use crate::path::{has_parent, PathBuf, SpecComponent};

verus! {

/// An absolute path that was a file when it was checked.
#[derive(Debug)]
pub struct PathFile(pub(crate) PathAbs);

impl View for PathFile {
    type V = Seq<SpecComponent>;

    closed spec fn view(&self) -> Seq<SpecComponent> {
        self.0@
    }
}

impl PathFile {
    /// The directory that holds this file, if the path has a parent.
    pub fn parent_dir(&self) -> (r: Option<PathDir>)
        ensures
            r is Some <==> has_parent(self@),
            r matches Some(d) ==> d@ == self@.drop_last(),
    {
        match PathInfo::parent(self) {
            Ok(path) => Some(PathDir::new_unchecked(path)),
            Err(_) => None,
        }
    }

    /// A `PathFile` from an absolute path, given whether it is a file.
    pub fn from_abs(abs: PathAbs, is_file: bool) -> (r: Result<PathFile, Error>)
        ensures
            r is Ok <==> is_file,
            r matches Ok(f) ==> f@ == abs@,
            r matches Err(e) ==> wrong_kind_error(e@, "path is not a file"@, abs@),
    {
        if is_file {
            Ok(PathFile::from_abs_unchecked(abs))
        } else {
            Err(
                Error::new(
                    IoError::new(ErrorKind::InvalidInput, "path is not a file"),
                    "resolving",
                    abs.into_path_buf(),
                ),
            )
        }
    }

    /// A `PathFile` holding `abs` as it is, unchecked.
    pub fn from_abs_unchecked(abs: PathAbs) -> (f: PathFile)
        ensures
            f@ == abs@,
    {
        PathFile(abs)
    }

    /// A `PathFile` for a path that is only used as a name, never checked.
    pub fn mock(path: PathBuf) -> (f: PathFile)
        ensures
            f@ == path@,
    {
        PathFile(PathAbs::new_unchecked(path))
    }

    /// The path as a `PathBuf`.
    pub fn as_path(&self) -> (p: &PathBuf)
        ensures
            p@ == self@,
    {
        self.0.as_path()
    }

    /// The absolute path.
    pub fn as_abs(&self) -> (a: &PathAbs)
        ensures
            a@ == self@,
    {
        &self.0
    }

    /// An equal path.
    pub fn duplicate(&self) -> (f: PathFile)
        ensures
            f@ == self@,
    {
        PathFile(self.0.duplicate())
    }

    /// The absolute path held.
    pub fn into_abs(self) -> (a: PathAbs)
        ensures
            a@ == self@,
    {
        self.0
    }
}

impl PathInfo for PathFile {
    fn as_path(&self) -> (p: &PathBuf) {
        self.0.as_path()
    }
}

impl PathOps for PathFile {
    type Output = PathAbs;

    fn concat(&self, path: &PathBuf) -> (r: Result<PathAbs, Error>) {
        self.0.concat(path)
    }

    fn join(&self, path: &PathBuf) -> (r: PathAbs) {
        PathAbs::new_unchecked(self.as_path().join(path))
    }

    fn with_file_name(&self, file_name: &[u8]) -> (r: PathAbs) {
        self.0.with_file_name(file_name)
    }

    fn with_extension(&self, extension: &[u8]) -> (r: PathAbs) {
        self.0.with_extension(extension)
    }
}

} // verus!
