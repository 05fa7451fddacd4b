//! The absolute path type: a path resolved against the current directory,
//! with `.` removed and `..` resolved lexically.
use vstd::prelude::*;
use crate::error::{Error, ErrorKind, IoError};
use crate::ops::{
    appended, extension_replaced, file_name_replaced, root_error, truncated_to_root, up, PathInfo,
    PathMut, PathOps,
};
use crate::path::{file_name, has_parent, pushed, Component, PathBuf, SpecComponent, SEP};

verus! {

/// How resolving a path against a current directory ends.
pub enum Resolution {
    /// The absolute path.
    Resolved(Seq<SpecComponent>),
    /// A `..` went above the root.
    ConsumedRoot,
    /// The current directory was needed and could not be had.
    NoCurrentDir,
}

/// The path that relative components build on: `res` once it has started,
/// else the current directory.
pub open spec fn base(res: Seq<SpecComponent>, cwd: Option<Seq<SpecComponent>>) -> Option<Seq<SpecComponent>> {
    if res.len() == 0 {
        cwd
    } else {
        Some(res)
    }
}

/// One step of resolution: the root restarts from the root, `.` changes nothing,
/// `..` removes the last component of the base and a name is added to the base.
pub open spec fn resolve_one(
    res: Seq<SpecComponent>,
    c: SpecComponent,
    cwd: Option<Seq<SpecComponent>>,
) -> Resolution {
    match c {
        SpecComponent::RootDir => Resolution::Resolved(seq![SpecComponent::RootDir]),
        SpecComponent::CurDir => Resolution::Resolved(res),
        SpecComponent::ParentDir => match base(res, cwd) {
            None => Resolution::NoCurrentDir,
            Some(b) => if has_parent(b) {
                Resolution::Resolved(b.drop_last())
            } else {
                Resolution::ConsumedRoot
            },
        },
        SpecComponent::Normal(_) => match base(res, cwd) {
            None => Resolution::NoCurrentDir,
            Some(b) => Resolution::Resolved(b.push(c)),
        },
    }
}

/// The resolution of the path `p` against the current directory `cwd` (`None` when it cannot be had),
/// taking the components from first to last.
pub open spec fn resolved(p: Seq<SpecComponent>, cwd: Option<Seq<SpecComponent>>) -> Resolution
    decreases p.len(),
{
    if p.len() == 0 {
        Resolution::Resolved(seq![])
    } else {
        match resolved(p.drop_last(), cwd) {
            Resolution::Resolved(r) => resolve_one(r, p.last(), cwd),
            other => other,
        }
    }
}

/// The outcome of `PathAbs::new` on `p`: the resolution of its components, which starts from
/// the current directory when no component has started it (a path of `.` components only,
/// or the empty path, is the current directory).
pub open spec fn resolved_path(p: Seq<SpecComponent>, cwd: Option<Seq<SpecComponent>>) -> Resolution {
    match resolved(p, cwd) {
        Resolution::Resolved(r) => if r.len() == 0 {
            match cwd {
                Some(c) => Resolution::Resolved(c),
                None => Resolution::NoCurrentDir,
            }
        } else {
            Resolution::Resolved(r)
        },
        other => other,
    }
}

/// The first component other than `.` is the root.
pub open spec fn starts_at_root(p: Seq<SpecComponent>) -> bool {
    exists|i: int|
        0 <= i < p.len() && p[i] == SpecComponent::RootDir && forall|j: int|
            0 <= j < i ==> #[trigger] p[j] == SpecComponent::CurDir
}

/// Resolution consults the current directory: the path does not start at the root
/// (leading `.` components aside).
pub open spec fn needs_cwd(p: Seq<SpecComponent>) -> bool {
    !starts_at_root(p)
}

/// The error that a `..` above the root gives while resolving the path `p`.
pub open spec fn consumed_root_error(e: crate::error::ErrorView, p: Seq<SpecComponent>) -> bool {
    &&& e.kind == ErrorKind::NotFound
    &&& e.message == ".. consumed root"@
    &&& e.action == "resolving absolute"@
    &&& e.path == p
}

/// The view of the current directory handed to `PathAbs::new`.
pub open spec fn cwd_view(cwd: &Result<PathBuf, Error>) -> Option<Seq<SpecComponent>> {
    match cwd {
        Ok(p) => Some(p@),
        Err(_) => None,
    }
}

/// An absolute (not necessarily canonicalized) path that may or may not exist.
#[derive(Debug)]
pub struct PathAbs(pub(crate) PathBuf);

impl View for PathAbs {
    type V = Seq<SpecComponent>;

    closed spec fn view(&self) -> Seq<SpecComponent> {
        self.0@
    }
}

impl PathAbs {
    /// Whether resolving `path` consults the current directory; when it does not,
    /// the current directory handed to `new` is not used.
    pub fn needs_current_dir(path: &PathBuf) -> (b: bool)
        ensures
            b == needs_cwd(path@),
    {
        let mut i: usize = 0;
        while i < path.len() && path.component(i).is_cur_dir()
            invariant
                i <= path@.len(),
                forall|j: int| 0 <= j < i ==> #[trigger] path@[j] == SpecComponent::CurDir,
            decreases path@.len() - i,
        {
            i += 1;
        }
        if i < path.len() && path.component(i).is_root() {
            assert(path@[i as int] == SpecComponent::RootDir);
            false
        } else {
            assert forall|k: int|
                0 <= k < path@.len() && path@[k] == SpecComponent::RootDir implies !(forall|j: int|
                0 <= j < k ==> #[trigger] path@[j] == SpecComponent::CurDir) by {
                if k > i {
                    assert(path@[i as int] != SpecComponent::CurDir);
                }
            }
            true
        }
    }

    /// Constructs an absolute path from an arbitrary (absolute or relative) one:
    /// relative paths are resolved against `cwd`, the canonicalized current directory
    /// (or the error of getting it), `.` components are removed and `..` components are
    /// resolved lexically, without consulting the file system.
    pub fn new(path: &PathBuf, cwd: &Result<PathBuf, Error>) -> (r: Result<PathAbs, Error>)
        ensures
            match resolved_path(path@, cwd_view(cwd)) {
                Resolution::Resolved(s) => r matches Ok(a) && a@ == s,
                Resolution::ConsumedRoot => r matches Err(e) && consumed_root_error(e@, path@),
                Resolution::NoCurrentDir => r matches Err(e) && cwd matches Err(ce) && e@ == ce@,
            },
    {
        let mut res = PathBuf::new();
        let n = path.len();
        let mut i: usize = 0;
        assert(path@.subrange(0, 0) =~= Seq::<SpecComponent>::empty());
        while i < n
            invariant
                i <= n == path@.len(),
                resolved(path@.subrange(0, i as int), cwd_view(cwd)) == Resolution::Resolved(res@),
            decreases n - i,
        {
            assert(path@.subrange(0, i + 1).drop_last() =~= path@.subrange(0, i as int));
            let ghost prev = res@;
            match path.component(i) {
                Component::RootDir => {
                    res = PathBuf::new();
                    res.push_component(Component::RootDir);
                    assert(res@ =~= seq![SpecComponent::RootDir]);
                },
                Component::CurDir => {},
                Component::ParentDir => {
                    if let Err(e) = maybe_init_res(&mut res, cwd) {
                        proof {
                            lemma_resolved_stops(path@, cwd_view(cwd), i as int + 1);
                        }
                        return Err(e);
                    }
                    if !res.pop() {
                        proof {
                            lemma_resolved_stops(path@, cwd_view(cwd), i as int + 1);
                        }
                        return Err(
                            Error::new(
                                IoError::new(ErrorKind::NotFound, ".. consumed root"),
                                "resolving absolute",
                                path.duplicate(),
                            ),
                        );
                    }
                },
                Component::Normal(c) => {
                    if let Err(e) = maybe_init_res(&mut res, cwd) {
                        proof {
                            lemma_resolved_stops(path@, cwd_view(cwd), i as int + 1);
                        }
                        return Err(e);
                    }
                    res.push_component(Component::Normal(crate::path::copy_bytes(c.as_slice())));
                },
            }
            i += 1;
        }
        assert(path@.subrange(0, n as int) =~= path@);
        if res.is_empty() {
            // nothing started the path: it is the current directory
            if let Err(e) = maybe_init_res(&mut res, cwd) {
                return Err(e);
            }
        }
        Ok(PathAbs(res))
    }

    /// A `PathAbs` holding `path` as it is, unchecked.
    pub fn new_unchecked(path: PathBuf) -> (r: PathAbs)
        ensures
            r@ == path@,
    {
        PathAbs(path)
    }

    /// The path as a `PathBuf`.
    pub fn as_path(&self) -> (p: &PathBuf)
        ensures
            p@ == self@,
    {
        &self.0
    }

    /// The path held.
    pub fn into_path_buf(self) -> (p: PathBuf)
        ensures
            p@ == self@,
    {
        self.0
    }

    /// An equal path.
    pub fn duplicate(&self) -> (r: PathAbs)
        ensures
            r@ == self@,
    {
        PathAbs(self.0.duplicate())
    }
}

/// Starts `res` from the current directory if nothing has been resolved yet.
fn maybe_init_res(res: &mut PathBuf, cwd: &Result<PathBuf, Error>) -> (r: Result<(), Error>)
    ensures
        r is Ok <==> base(old(res)@, cwd_view(cwd)) is Some,
        r is Ok ==> Some(final(res)@) == base(old(res)@, cwd_view(cwd)),
        r matches Err(e) ==> cwd matches Err(ce) && e@ == ce@,
{
    if !res.is_empty() {
        return Ok(());
    }
    match cwd {
        Ok(c) => {
            *res = c.duplicate();
            Ok(())
        },
        Err(e) => Err(e.duplicate()),
    }
}

proof fn lemma_resolved_stops(p: Seq<SpecComponent>, cwd: Option<Seq<SpecComponent>>, k: int)
    requires
        0 < k <= p.len(),
        !(resolved(p.subrange(0, k), cwd) is Resolved),
    ensures
        resolved(p, cwd) == resolved(p.subrange(0, k), cwd),
    decreases p.len() - k,
{
    if k < p.len() {
        assert(p.subrange(0, k + 1).drop_last() =~= p.subrange(0, k));
        lemma_resolved_stops(p, cwd, k + 1);
    } else {
        assert(p.subrange(0, k) =~= p);
    }
}

impl PathInfo for PathAbs {
    fn as_path(&self) -> (p: &PathBuf) {
        &self.0
    }
}

impl PathMut for PathAbs {
    fn append(&mut self, path: &PathBuf) -> (r: Result<(), Error>) {
        self.0.append_path(path)
    }

    fn pop_up(&mut self) -> (r: Result<(), Error>) {
        self.0.pop_up_path()
    }

    fn truncate_to_root(&mut self) {
        self.0.truncate_path_to_root()
    }

    fn set_file_name(&mut self, file_name: &[u8]) {
        self.0.set_file_name_bytes(file_name)
    }

    fn set_extension(&mut self, extension: &[u8]) -> (b: bool) {
        self.0.set_extension_bytes(extension)
    }
}

impl PathOps for PathAbs {
    type Output = PathAbs;

    fn concat(&self, path: &PathBuf) -> (r: Result<PathAbs, Error>) {
        match self.0.concat(path) {
            Ok(p) => Ok(PathAbs(p)),
            Err(e) => Err(e),
        }
    }

    fn join(&self, path: &PathBuf) -> (r: PathAbs) {
        PathAbs::new_unchecked(self.0.join(path))
    }

    fn with_file_name(&self, file_name: &[u8]) -> (r: PathAbs) {
        PathAbs(PathOps::with_file_name(&self.0, file_name))
    }

    fn with_extension(&self, extension: &[u8]) -> (r: PathAbs) {
        PathAbs(PathOps::with_extension(&self.0, extension))
    }
}

impl PartialEq for PathAbs {
    fn eq(&self, other: &Self) -> (r: bool) {
        self.0.same_path(&other.0)
    }
}

impl vstd::std_specs::cmp::PartialEqSpecImpl for PathAbs {
    open spec fn obeys_eq_spec() -> bool {
        true
    }

    open spec fn eq_spec(&self, other: &Self) -> bool {
        self@ == other@
    }
}

} // verus!
