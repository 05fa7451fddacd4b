//! `PathArc`: a path with errors that name the action and the path, and its own
//! stack-based way of making a path absolute.
use vstd::prelude::*;
use crate::abs::PathAbs;
use crate::error::{Error, ErrorKind, IoError};
use crate::path::{comps_view, Component, PathBuf, SpecComponent};

verus! {

/// How resolving a path with `PathArc::absolute` ends.
pub enum ArcResolution {
    /// The stack of components built.
    Stack(Seq<SpecComponent>),
    /// A `..` found the stack empty.
    ConsumedRoot,
    /// The current directory was needed and could not be had.
    NoCurrentDir,
}

/// One component on the stack: `..` pops one entry but never the root (it fails on the root
/// or on an empty stack), a name is pushed, `.` changes nothing.
pub open spec fn arc_step(stack: Seq<SpecComponent>, c: SpecComponent) -> ArcResolution {
    match c {
        SpecComponent::CurDir => ArcResolution::Stack(stack),
        SpecComponent::ParentDir => if stack.len() == 0 || stack.last() == SpecComponent::RootDir {
            ArcResolution::ConsumedRoot
        } else {
            ArcResolution::Stack(stack.drop_last())
        },
        _ => ArcResolution::Stack(stack.push(c)),
    }
}

/// The components of `q` applied to the stack one after another.
pub open spec fn arc_fold(stack: Seq<SpecComponent>, q: Seq<SpecComponent>) -> ArcResolution
    decreases q.len(),
{
    if q.len() == 0 {
        ArcResolution::Stack(stack)
    } else {
        match arc_fold(stack, q.drop_last()) {
            ArcResolution::Stack(s) => arc_step(s, q.last()),
            other => other,
        }
    }
}

/// The index of the first component that is not `.` (the length when there is none).
pub open spec fn first_non_cur(p: Seq<SpecComponent>) -> int
    decreases p.len(),
{
    if p.len() > 0 && p[0] == SpecComponent::CurDir {
        1 + first_non_cur(p.drop_first())
    } else {
        0
    }
}

/// The stack that `PathArc::absolute` builds for the path `p`: leading `.` components are
/// skipped; a root starts the stack; otherwise (a path of `.` components only included) the
/// current directory `cwd` starts it.
pub open spec fn arc_resolved(p: Seq<SpecComponent>, cwd: Option<Seq<SpecComponent>>) -> ArcResolution {
    let k = first_non_cur(p);
    if k >= p.len() {
        match cwd {
            None => ArcResolution::NoCurrentDir,
            Some(c) => ArcResolution::Stack(c),
        }
    } else if p[k] == SpecComponent::RootDir {
        arc_fold(seq![SpecComponent::RootDir], p.skip(k + 1))
    } else {
        match cwd {
            None => ArcResolution::NoCurrentDir,
            Some(c) => arc_fold(c, p.skip(k)),
        }
    }
}

/// A root stands only at the start of the path, after nothing but `.` components.
pub open spec fn root_only_leading(p: Seq<SpecComponent>) -> bool {
    forall|i: int, j: int|
        0 <= j < i < p.len() && #[trigger] p[i] == SpecComponent::RootDir ==> #[trigger] p[j]
            == SpecComponent::CurDir
}

/// Whether every root in the path stands after nothing but `.` components.
pub fn root_only_leading_path(path: &PathBuf) -> (b: bool)
    ensures
        b == root_only_leading(path@),
{
    let n = path.len();
    let mut i: usize = 0;
    while i < n && path.component(i).is_cur_dir()
        invariant
            i <= n,
            n == path@.len(),
            forall|k: int| 0 <= k < i ==> #[trigger] path@[k] == SpecComponent::CurDir,
        decreases n - i,
    {
        i = i + 1;
    }
    let ghost c = i as int;
    if i < n && path.component(i).is_root() {
        i = i + 1;
    }
    let start = i;
    while i < n
        invariant
            0 <= c <= start <= c + 1,
            start <= i <= n,
            n == path@.len(),
            forall|k: int| 0 <= k < c ==> #[trigger] path@[k] == SpecComponent::CurDir,
            c < n ==> path@[c] != SpecComponent::CurDir,
            start == c + 1 ==> path@[c] == SpecComponent::RootDir,
            start == c && c < n ==> path@[c] != SpecComponent::RootDir,
            forall|k: int| start <= k < i ==> #[trigger] path@[k] != SpecComponent::RootDir,
        decreases n - i,
    {
        if path.component(i).is_root() {
            assert(c < i as int);
            assert(path@[c] != SpecComponent::CurDir && path@[i as int] == SpecComponent::RootDir);
            assert(!root_only_leading(path@));
            return false;
        }
        i = i + 1;
    }
    true
}

/// The error that `PathArc::absolute` gives for the path `p` with the given message.
pub open spec fn resolving_error(e: crate::error::ErrorView, message: Seq<char>, p: Seq<SpecComponent>) -> bool {
    &&& e.kind == ErrorKind::NotFound
    &&& e.message == message
    &&& e.action == "resolving absolute"@
    &&& e.path == p
}

/// A path that reimplements the path methods with errors that give the action and the path.
#[derive(Debug)]
pub struct PathArc(pub(crate) PathBuf);

impl View for PathArc {
    type V = Seq<SpecComponent>;

    closed spec fn view(&self) -> Seq<SpecComponent> {
        self.0@
    }
}

proof fn lemma_first_non_cur(p: Seq<SpecComponent>, k: int)
    requires
        0 <= k <= p.len(),
        forall|i: int| 0 <= i < k ==> p[i] == SpecComponent::CurDir,
        k == p.len() || p[k] != SpecComponent::CurDir,
    ensures
        first_non_cur(p) == k,
    decreases k,
{
    if k > 0 {
        let q = p.drop_first();
        assert forall|i: int| 0 <= i < k - 1 implies q[i] == SpecComponent::CurDir by {
            assert(q[i] == p[i + 1]);
        }
        lemma_first_non_cur(q, k - 1);
    }
}

proof fn lemma_arc_fold_stops(s: Seq<SpecComponent>, q: Seq<SpecComponent>, k: int)
    requires
        0 < k <= q.len(),
        !(arc_fold(s, q.subrange(0, k)) is Stack),
    ensures
        arc_fold(s, q) == arc_fold(s, q.subrange(0, k)),
    decreases q.len() - k,
{
    if k < q.len() {
        assert(q.subrange(0, k + 1).drop_last() =~= q.subrange(0, k));
        lemma_arc_fold_stops(s, q, k + 1);
    } else {
        assert(q.subrange(0, k) =~= q);
    }
}

/// Applies the components `path[from..]` to the stack.
fn arc_apply(resolving: &PathArc, stack: &mut Vec<Component>, path: &PathBuf, from: usize) -> (r: Result<(), Error>)
    requires
        from <= path@.len(),
        forall|i: int| from <= i < path@.len() ==> path@[i] != SpecComponent::RootDir,
    ensures
        match arc_fold(comps_view(old(stack)@), path@.skip(from as int)) {
            ArcResolution::Stack(s) => r is Ok && comps_view(final(stack)@) == s,
            _ => r matches Err(e) && resolving_error(e@, ".. consumed root"@, resolving@),
        },
{
    let ghost s0 = comps_view(stack@);
    let ghost q = path@.skip(from as int);
    let n = path.len();
    let mut i = from;
    assert(q.subrange(0, 0) =~= Seq::<SpecComponent>::empty());
    while i < n
        invariant
            from <= i <= n == path@.len(),
            q == path@.skip(from as int),
            arc_fold(s0, q.subrange(0, i - from)) == ArcResolution::Stack(comps_view(stack@)),
            s0 == comps_view(old(stack)@),
            forall|j: int| from <= j < path@.len() ==> path@[j] != SpecComponent::RootDir,
        decreases n - i,
    {
        assert(q.subrange(0, i - from + 1).drop_last() =~= q.subrange(0, i - from));
        assert(q[i - from] == path@[i as int]);
        let ghost before = stack@;
        match path.component(i) {
            Component::CurDir => {},
            Component::ParentDir => {
                let m = stack.len();
                if m > 0 && !stack[m - 1].is_root() {
                    let _ = stack.pop();
                    assert(comps_view(stack@) =~= comps_view(before).drop_last());
                } else {
                    proof {
                        if m > 0 {
                            assert(comps_view(before).last() == before[m - 1]@);
                        }
                        lemma_arc_fold_stops(s0, q, i - from + 1);
                    }
                    return Err(
                        Error::new(
                            IoError::new(ErrorKind::NotFound, ".. consumed root"),
                            "resolving absolute",
                            resolving.0.duplicate(),
                        ),
                    );
                }
            },
            Component::RootDir => {
                stack.push(Component::RootDir);
                assert(comps_view(stack@) =~= comps_view(before).push(SpecComponent::RootDir));
            },
            Component::Normal(c) => {
                stack.push(Component::Normal(crate::path::copy_bytes(c.as_slice())));
                assert(comps_view(stack@) =~= comps_view(before).push(path@[i as int]));
            },
        }
        i += 1;
    }
    assert(q.subrange(0, n - from) =~= q);
    Ok(())
}

/// Handles the start of the path: skips leading `.` components and starts the stack from
/// the root, or from the current directory `cwd` for a path that starts with `..` or a name.
/// Returns the index of the first component not yet handled.
fn handle_prefix(
    resolving: &PathArc,
    stack: &mut Vec<Component>,
    path: &PathBuf,
    cwd: &Result<PathBuf, Error>,
) -> (r: Result<usize, Error>)
    requires
        old(stack)@.len() == 0,
        cwd matches Ok(c) ==> c@.len() == 0 || c@[0] == SpecComponent::RootDir,
    ensures
        ({
            let final_stack = comps_view(final(stack)@);
            let k = first_non_cur(path@);
            if k < path@.len() && path@[k] == SpecComponent::RootDir {
                r matches Ok(j) && j == k + 1 && final_stack == seq![SpecComponent::RootDir]
            } else {
                match cwd {
                    Err(ce) => r matches Err(e) && e@ == ce@,
                    Ok(c) => if k >= path@.len() {
                        r matches Ok(j) && j == path@.len() && final_stack == c@
                    } else { match arc_step(c@, path@[k]) {
                        ArcResolution::Stack(s) => r matches Ok(j) && j == k + 1 && final_stack == s,
                        _ => r matches Err(e) && resolving_error(e@, ".. consumed root"@, resolving@),
                    } },
                }
            }
        }),
{
    let n = path.len();
    let mut k: usize = 0;
    while k < n && path.component(k).is_cur_dir()
        invariant
            k <= n == path@.len(),
            forall|i: int| 0 <= i < k ==> path@[i] == SpecComponent::CurDir,
        decreases n - k,
    {
        k += 1;
    }
    proof {
        lemma_first_non_cur(path@, k as int);
    }
    if k < n && path.component(k).is_root() {
        stack.push(Component::RootDir);
        assert(comps_view(stack@) =~= seq![SpecComponent::RootDir]);
        return Ok(k + 1);
    }
    // The first component is `..` or a name, or there is none: start from the current
    // directory.
    match cwd {
        Err(e) => Err(e.duplicate()),
        Ok(c) => {
            let cwd_arc = PathArc(c.duplicate());
            let j = match start_from_cwd(stack, &cwd_arc.0) {
                Ok(j) => j,
                Err(e) => return Err(e),
            };
            // the rest of the current directory
            let m = c.len();
            let mut i = j;
            while i < m
                invariant
                    j <= i <= m == c@.len(),
                    j == 0 || j == 1,
                    j == 1 ==> c@[0] == SpecComponent::RootDir,
                    j == 0 ==> m == 0,
                    comps_view(stack@) =~= c@.subrange(0, i as int),
                decreases m - i,
            {
                let ghost before = stack@;
                stack.push(c.component(i).duplicate());
                assert(comps_view(stack@) =~= comps_view(before).push(c@[i as int]));
                assert(c@.subrange(0, i + 1) =~= c@.subrange(0, i as int).push(c@[i as int]));
                i += 1;
            }
            assert(c@.subrange(0, m as int) =~= c@);
            if k == n {
                return Ok(n);
            }
            let ghost before = stack@;
            match path.component(k) {
                Component::ParentDir => {
                    let top = stack.len();
                    if top > 0 && !stack[top - 1].is_root() {
                        let _ = stack.pop();
                        assert(comps_view(stack@) =~= comps_view(before).drop_last());
                    } else {
                        proof {
                            if top > 0 {
                                assert(comps_view(before).last() == before[top - 1]@);
                            }
                        }
                        return Err(
                            Error::new(
                                IoError::new(ErrorKind::NotFound, ".. consumed root"),
                                "resolving absolute",
                                resolving.0.duplicate(),
                            ),
                        );
                    }
                },
                Component::Normal(name) => {
                    stack.push(Component::Normal(crate::path::copy_bytes(name.as_slice())));
                    assert(comps_view(stack@) =~= comps_view(before).push(path@[k as int]));
                },
                _ => {},
            }
            Ok(k + 1)
        },
    }
}

/// The head of the current directory: its root (which must come first), or nothing
/// when it is empty. Returns the index after the head.
fn start_from_cwd(stack: &mut Vec<Component>, cwd: &PathBuf) -> (r: Result<usize, Error>)
    requires
        old(stack)@.len() == 0,
        cwd@.len() == 0 || cwd@[0] == SpecComponent::RootDir,
    ensures
        r matches Ok(j) && (if cwd@.len() == 0 {
            j == 0 && comps_view(final(stack)@).len() == 0
        } else {
            j == 1 && comps_view(final(stack)@) == seq![SpecComponent::RootDir]
        }),
{
    if cwd.is_empty() {
        return Ok(0);
    }
    stack.push(Component::RootDir);
    assert(comps_view(stack@) =~= seq![SpecComponent::RootDir]);
    Ok(1)
}

impl PathArc {
    /// A new `PathArc` holding `path`.
    pub fn new(path: &PathBuf) -> (r: PathArc)
        ensures
            r@ == path@,
    {
        PathArc(path.duplicate())
    }

    /// This path with `path` adjoined, as `std::path::Path::join` does.
    pub fn join(&self, path: &PathBuf) -> (r: PathArc)
        ensures
            r@ == crate::path::pushed(self@, path@),
    {
        PathArc(self.0.join(path))
    }

    /// This path with the given file name.
    pub fn with_file_name(&self, file_name: &[u8]) -> (r: PathArc)
        ensures
            r@ == crate::ops::file_name_replaced(self@, file_name@),
    {
        PathArc(crate::ops::PathOps::with_file_name(&self.0, file_name))
    }

    /// This path with the given extension.
    pub fn with_extension(&self, extension: &[u8]) -> (r: PathArc)
        requires
            forall|i: int| 0 <= i < extension@.len() ==> extension@[i] != crate::path::SEP,
        ensures
            r@ == crate::ops::extension_replaced(self@, extension@),
    {
        PathArc(crate::ops::PathOps::with_extension(&self.0, extension))
    }

    /// The path as a `PathBuf`.
    pub fn as_path(&self) -> (p: &PathBuf)
        ensures
            p@ == self@,
    {
        &self.0
    }

    /// Converts the path to an absolute one, given the current directory `cwd` (or the error of
    /// getting it): a stack starts from the root or from `cwd`, `.` is skipped, `..` pops an entry
    /// other than the root and a name is pushed. Fails when a `..` finds only the root (or
    /// nothing) on the stack, or the stack ends empty.
    pub fn absolute(&self, cwd: &Result<PathBuf, Error>) -> (r: Result<PathAbs, Error>)
        requires
            root_only_leading(self@),
            cwd matches Ok(c) ==> c@.len() == 0 || c@[0] == SpecComponent::RootDir,
        ensures
            match arc_resolved(self@, match cwd { Ok(c) => Some(c@), Err(_) => None }) {
                ArcResolution::Stack(s) => if s.len() == 0 {
                    r matches Err(e) && resolving_error(e@, "resolving resulted in empty path"@, self@)
                } else {
                    r matches Ok(a) && a@ == s
                },
                ArcResolution::ConsumedRoot => r matches Err(e) && resolving_error(
                    e@,
                    ".. consumed root"@,
                    self@,
                ),
                ArcResolution::NoCurrentDir => r matches Err(e) && cwd matches Err(ce) && e@ == ce@,
            },
    {
        let mut stack: Vec<Component> = Vec::new();
        let ghost p = self@;
        let ghost k = first_non_cur(p);
        let ghost cv: Option<Seq<SpecComponent>> = match cwd {
            Ok(c) => Some(c@),
            Err(_) => None,
        };
        proof {
            lemma_first_non_cur_bounds(p);
            if k < p.len() {
                assert(p.skip(k)[0] == p[k]);
                assert(p.skip(k).drop_first() =~= p.skip(k + 1));
                if let Some(c) = cv {
                    lemma_arc_fold_first(c, p.skip(k));
                }
            } else {
                assert(p.skip(k) =~= Seq::<SpecComponent>::empty());
            }
        }
        let j = match handle_prefix(self, &mut stack, &self.0, cwd) {
            Ok(j) => j,
            Err(e) => {
                return Err(e);
            },
        };
        proof {
            if k < p.len() {
                assert(j == k + 1);
                assert forall|i: int| j <= i < p.len() implies p[i] != SpecComponent::RootDir by {
                    if p[i] == SpecComponent::RootDir {
                        assert(p[k] == SpecComponent::CurDir);
                    }
                }
            }
            assert(p.skip(j as int) =~= if k < p.len() { p.skip(k + 1) } else { p.skip(k) });
        }
        let ghost st = comps_view(stack@);
        proof {
            lemma_arc_fold_never_needs_cwd(st, p.skip(j as int));
        }
        let r = arc_apply(self, &mut stack, &self.0, j);
        if let Err(e) = r {
            return Err(e);
        }
        if stack.len() == 0 {
            return Err(
                Error::new(
                    IoError::new(ErrorKind::NotFound, "resolving resulted in empty path"),
                    "resolving absolute",
                    self.0.duplicate(),
                ),
            );
        }
        Ok(PathAbs::new_unchecked(PathBuf::from_components(stack)))
    }
}

proof fn lemma_arc_fold_never_needs_cwd(s: Seq<SpecComponent>, q: Seq<SpecComponent>)
    ensures
        !(arc_fold(s, q) is NoCurrentDir),
    decreases q.len(),
{
    if q.len() > 0 {
        lemma_arc_fold_never_needs_cwd(s, q.drop_last());
    }
}

proof fn lemma_first_non_cur_bounds(p: Seq<SpecComponent>)
    ensures
        0 <= first_non_cur(p) <= p.len(),
        forall|i: int| 0 <= i < first_non_cur(p) ==> p[i] == SpecComponent::CurDir,
        first_non_cur(p) < p.len() ==> p[first_non_cur(p)] != SpecComponent::CurDir,
    decreases p.len(),
{
    if p.len() > 0 && p[0] == SpecComponent::CurDir {
        let q = p.drop_first();
        lemma_first_non_cur_bounds(q);
        assert forall|i: int| 0 <= i < first_non_cur(p) implies p[i] == SpecComponent::CurDir by {
            if i > 0 {
                assert(p[i] == q[i - 1]);
            }
        }
        if first_non_cur(p) < p.len() {
            assert(p[first_non_cur(p)] == q[first_non_cur(q)]);
        }
    }
}

/// Folding a non-empty sequence starts with its first component.
proof fn lemma_arc_fold_first(s: Seq<SpecComponent>, q: Seq<SpecComponent>)
    requires
        q.len() > 0,
    ensures
        match arc_step(s, q[0]) {
            ArcResolution::Stack(t) => arc_fold(s, q) == arc_fold(t, q.drop_first()),
            other => arc_fold(s, q) == other,
        },
    decreases q.len(),
{
    if q.len() == 1 {
        assert(q.drop_last() =~= Seq::<SpecComponent>::empty());
        assert(q.drop_first() =~= Seq::<SpecComponent>::empty());
    } else {
        lemma_arc_fold_first(s, q.drop_last());
        assert(q.drop_last()[0] == q[0]);
        assert(q.drop_last().drop_first() =~= q.drop_first().drop_last());
        assert(q.drop_first().last() == q.last());
    }
}

} // verus!
