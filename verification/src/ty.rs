//! A path that is either a file or a directory.
use vstd::prelude::*;
use crate::abs::PathAbs;
use crate::dir::{wrong_kind_error, PathDir};
use crate::error::{Error, ErrorKind, IoError};
use crate::file::PathFile;
use crate::ops::{PathInfo, PathOps};
use crate::path::{PathBuf, SpecComponent};

verus! {

/// What the file system says a path is (following symlinks).
#[derive(Clone, Copy, Debug, PartialEq, Eq, Structural)]
pub enum FileKind {
    File,
    Dir,
    Other,
}

/// An absolute path that was a file or a directory when it was checked.
#[derive(Debug)]
pub enum PathType {
    File(PathFile),
    Dir(PathDir),
}

impl View for PathType {
    type V = Seq<SpecComponent>;

    open spec fn view(&self) -> Seq<SpecComponent> {
        match self {
            PathType::File(f) => f@,
            PathType::Dir(d) => d@,
        }
    }
}

impl PathType {
    /// A `PathType` from an absolute path, given what it is; an `InvalidInput` error when it is
    /// neither a file nor a directory.
    pub fn try_from(abs: PathAbs, kind: FileKind) -> (r: Result<PathType, Error>)
        ensures
            r is Ok <==> kind != FileKind::Other,
            r matches Ok(t) ==> t@ == abs@ && (t is File <==> kind == FileKind::File),
            r matches Err(e) ==> wrong_kind_error(e@, "path is not a file or dir"@, abs@),
    {
        match kind {
            FileKind::File => Ok(PathType::File(PathFile::from_abs_unchecked(abs))),
            FileKind::Dir => Ok(PathType::Dir(PathDir::from_abs_unchecked(abs))),
            FileKind::Other => Err(
                Error::new(
                    IoError::new(ErrorKind::InvalidInput, "path is not a file or dir"),
                    "resolving",
                    abs.into_path_buf(),
                ),
            ),
        }
    }

    /// The file; the path must be one.
    pub fn unwrap_file(self) -> (f: PathFile)
        requires
            self is File,
        ensures
            f@ == self@,
    {
        match self {
            PathType::File(f) => f,
            PathType::Dir(_) => {
                proof {
                    assert(false);
                }
                PathFile::mock(PathBuf::new())
            },
        }
    }

    /// The directory; the path must be one.
    pub fn unwrap_dir(self) -> (d: PathDir)
        requires
            self is Dir,
        ensures
            d@ == self@,
    {
        match self {
            PathType::Dir(d) => d,
            PathType::File(_) => {
                proof {
                    assert(false);
                }
                PathDir::new_unchecked(PathBuf::new())
            },
        }
    }

    /// The path is a directory.
    pub fn is_dir(&self) -> (b: bool)
        ensures
            b == (self is Dir),
    {
        if let PathType::Dir(_) = *self {
            true
        } else {
            false
        }
    }

    /// The path is a file.
    pub fn is_file(&self) -> (b: bool)
        ensures
            b == (self is File),
    {
        if let PathType::File(_) = *self {
            true
        } else {
            false
        }
    }

    /// The absolute path.
    pub fn as_abs(&self) -> (a: &PathAbs)
        ensures
            a@ == self@,
    {
        match self {
            PathType::File(f) => f.as_abs(),
            PathType::Dir(d) => d.as_abs(),
        }
    }
}

impl PathInfo for PathType {
    fn as_path(&self) -> (p: &PathBuf) {
        self.as_abs().as_path()
    }
}

impl PathOps for PathType {
    type Output = PathAbs;

    fn concat(&self, path: &PathBuf) -> (r: Result<PathAbs, Error>) {
        match self {
            PathType::File(p) => p.concat(path),
            PathType::Dir(p) => p.concat(path),
        }
    }

    fn join(&self, path: &PathBuf) -> (r: PathAbs) {
        PathAbs::new_unchecked(self.as_path().join(path))
    }

    fn with_file_name(&self, file_name: &[u8]) -> (r: PathAbs) {
        match self {
            PathType::File(p) => p.with_file_name(file_name),
            PathType::Dir(p) => p.with_file_name(file_name),
        }
    }

    fn with_extension(&self, extension: &[u8]) -> (r: PathAbs) {
        match self {
            PathType::File(p) => p.with_extension(extension),
            PathType::Dir(p) => p.with_extension(extension),
        }
    }
}

} // verus!
