//! Paths to directories.
use vstd::prelude::*;
use crate::abs::PathAbs;
use crate::error::{Error, ErrorKind, IoError};
use crate::ops::{appended, extension_replaced, file_name_replaced, root_error, PathInfo, PathOps};
use crate::path::{has_parent, pushed, PathBuf, SpecComponent, SEP};

verus! {

/// The error of a path that was expected to be of a kind and is not.
pub open spec fn wrong_kind_error(e: crate::error::ErrorView, message: Seq<char>, p: Seq<SpecComponent>) -> bool {
    &&& e.kind == ErrorKind::InvalidInput
    &&& e.message == message
    &&& e.action == "resolving"@
    &&& e.path == p
}

/// An absolute path that was a directory when it was checked.
#[derive(Debug)]
pub struct PathDir(pub(crate) PathAbs);

impl View for PathDir {
    type V = Seq<SpecComponent>;

    closed spec fn view(&self) -> Seq<SpecComponent> {
        self.0@
    }
}

impl PathDir {
    /// A `PathDir` holding `path` as it is, unchecked.
    pub fn new_unchecked(path: PathBuf) -> (d: PathDir)
        ensures
            d@ == path@,
    {
        PathDir(PathAbs::new_unchecked(path))
    }

    /// A `PathDir` holding `abs` as it is, unchecked.
    pub fn from_abs_unchecked(abs: PathAbs) -> (d: PathDir)
        ensures
            d@ == abs@,
    {
        PathDir(abs)
    }

    /// A `PathDir` from an absolute path, given whether it is a directory.
    pub fn try_from(abs: PathAbs, is_dir: bool) -> (r: Result<PathDir, Error>)
        ensures
            r is Ok <==> is_dir,
            r matches Ok(d) ==> d@ == abs@,
            r matches Err(e) ==> wrong_kind_error(e@, "path is not a dir"@, abs@),
    {
        if is_dir {
            Ok(PathDir(abs))
        } else {
            Err(
                Error::new(
                    IoError::new(ErrorKind::InvalidInput, "path is not a dir"),
                    "resolving",
                    abs.into_path_buf(),
                ),
            )
        }
    }

    /// The outcome of creating the directory `path`: a failure is an error for the action
    /// "creating", except that a directory that already exists is fine.
    pub fn check_create(result: Result<(), IoError>, path: &PathBuf) -> (r: Result<(), Error>)
        ensures
            match result {
                Ok(()) => r is Ok,
                Err(e) => if e@.kind == ErrorKind::AlreadyExists {
                    r is Ok
                } else {
                    r matches Err(err) && err@.kind == e@.kind && err@.message == e@.message
                        && err@.action == "creating"@ && err@.path == path@
                },
            },
    {
        match result {
            Ok(()) => Ok(()),
            Err(e) => {
                if e.kind() == ErrorKind::AlreadyExists {
                    Ok(())
                } else {
                    Err(Error::new(e, "creating", path.duplicate()))
                }
            },
        }
    }

    /// The path as a `PathBuf`.
    pub fn as_path(&self) -> (p: &PathBuf)
        ensures
            p@ == self@,
    {
        self.0.as_path()
    }

    /// The absolute path.
    pub fn as_abs(&self) -> (a: &PathAbs)
        ensures
            a@ == self@,
    {
        &self.0
    }

    /// The directory that holds this one, if the path has a parent.
    pub fn parent_dir(&self) -> (r: Option<PathDir>)
        ensures
            r is Some <==> has_parent(self@),
            r matches Some(d) ==> d@ == self@.drop_last(),
    {
        match PathInfo::parent(self) {
            Ok(path) => Some(PathDir(PathAbs::new_unchecked(path))),
            Err(_) => None,
        }
    }

    /// An equal path.
    pub fn duplicate(&self) -> (d: PathDir)
        ensures
            d@ == self@,
    {
        PathDir(self.0.duplicate())
    }

    /// The absolute path held.
    pub fn into_abs(self) -> (a: PathAbs)
        ensures
            a@ == self@,
    {
        self.0
    }
}

impl PathInfo for PathDir {
    fn as_path(&self) -> (p: &PathBuf) {
        self.0.as_path()
    }
}

impl PathOps for PathDir {
    type Output = PathAbs;

    fn concat(&self, path: &PathBuf) -> (r: Result<PathAbs, Error>) {
        self.0.concat(path)
    }

    fn join(&self, path: &PathBuf) -> (r: PathAbs) {
        PathAbs::new_unchecked(self.as_path().join(path))
    }

    fn with_file_name(&self, file_name: &[u8]) -> (r: PathAbs) {
        self.0.with_file_name(file_name)
    }

    fn with_extension(&self, extension: &[u8]) -> (r: PathAbs) {
        self.0.with_extension(extension)
    }
}

} // verus!
