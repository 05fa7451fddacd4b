//! Cleaned-up paths: `Absolute` paths that run straight from the root and
//! `Relative` paths made only of names, so that joining them needs no re-normalization.
use vstd::prelude::*;
use crate::error::IoError;
use std::collections::VecDeque;
use crate::path::{comps_view, has_parent, popped, pushed, render, Component, PathBuf, SpecComponent};

verus! {

/// An error encountered during path handling.
#[derive(Debug)]
pub enum Error {
    /// An error returned by the operating system, with the path that provoked it.
    IoError { err: IoError, at: PathBuf },
    /// Resolving a symlink led back to a symlink already resolved.
    SymlinkLoops(PathBuf),
    /// `Relative::new` was given a path with a root.
    PathIsAbsolute(PathBuf),
    /// `Relative::new` was given a path with a `..` that escapes its start.
    RelativePathEscapesPrefix(PathBuf),
}

/// The content of an `Error`.
pub enum SpecError {
    IoError { kind: crate::error::ErrorKind, message: Seq<char>, at: Seq<SpecComponent> },
    SymlinkLoops(Seq<SpecComponent>),
    PathIsAbsolute(Seq<SpecComponent>),
    RelativePathEscapesPrefix(Seq<SpecComponent>),
}

impl View for Error {
    type V = SpecError;

    open spec fn view(&self) -> SpecError {
        match self {
            Error::IoError { err, at } => SpecError::IoError {
                kind: err@.kind,
                message: err@.message,
                at: at@,
            },
            Error::SymlinkLoops(p) => SpecError::SymlinkLoops(p@),
            Error::PathIsAbsolute(p) => SpecError::PathIsAbsolute(p@),
            Error::RelativePathEscapesPrefix(p) => SpecError::RelativePathEscapesPrefix(p@),
        }
    }
}

impl Error {
    /// A short description of the error: the input/output error's message, or a fixed text
    /// for each of the other kinds.
    pub fn description(&self) -> (d: &str)
        ensures
            d@ == match self@ {
                SpecError::IoError { message, .. } => message,
                SpecError::SymlinkLoops(_) => "Found an infinite symlink loop"@,
                SpecError::PathIsAbsolute(_) => "Tried to make a relative path from an absolute path"@,
                SpecError::RelativePathEscapesPrefix(_) => "Tried to make a relative path with leading '..'"@,
            },
    {
        match self {
            Error::IoError { err, .. } => err.message(),
            Error::SymlinkLoops(_) => "Found an infinite symlink loop",
            Error::PathIsAbsolute(_) => "Tried to make a relative path from an absolute path",
            Error::RelativePathEscapesPrefix(_) => "Tried to make a relative path with leading '..'",
        }
    }
}

/// Every component is a name.
pub open spec fn all_normal(s: Seq<SpecComponent>) -> bool {
    forall|i: int| 0 <= i < s.len() ==> #[trigger] s[i] is Normal
}

/// The root followed by names only.
pub open spec fn is_monotonic_absolute(s: Seq<SpecComponent>) -> bool {
    &&& s.len() >= 1
    &&& s[0] == SpecComponent::RootDir
    &&& forall|i: int| 1 <= i < s.len() ==> #[trigger] s[i] is Normal
}

/// How `Relative::new` ends.
pub enum RelativeResult {
    Relative(Seq<SpecComponent>),
    IsAbsolute,
    Escapes,
}

/// The relative path that `p` denotes: names are kept, `.` is dropped, `..` cancels the
/// name before it; a root makes it absolute and a `..` with nothing to cancel escapes.
pub open spec fn relative_of(p: Seq<SpecComponent>) -> RelativeResult
    decreases p.len(),
{
    if p.len() == 0 {
        RelativeResult::Relative(seq![])
    } else {
        match relative_of(p.drop_last()) {
            RelativeResult::Relative(r) => match p.last() {
                SpecComponent::RootDir => RelativeResult::IsAbsolute,
                SpecComponent::CurDir => RelativeResult::Relative(r),
                SpecComponent::ParentDir => if r.len() == 0 {
                    RelativeResult::Escapes
                } else {
                    RelativeResult::Relative(r.drop_last())
                },
                SpecComponent::Normal(_) => RelativeResult::Relative(r.push(p.last())),
            },
            other => other,
        }
    }
}

/// The error, if any, that `Relative::new` gives on the path `p`.
pub open spec fn relative_error(p: Seq<SpecComponent>) -> Option<SpecError> {
    match relative_of(p) {
        RelativeResult::Relative(_) => None,
        RelativeResult::IsAbsolute => Some(SpecError::PathIsAbsolute(p)),
        RelativeResult::Escapes => Some(SpecError::RelativePathEscapesPrefix(p)),
    }
}

/// A relative path that may be joined to an absolute path: names only, no root, no `.` or `..`.
#[derive(Debug)]
pub struct Relative(PathBuf);

impl View for Relative {
    type V = Seq<SpecComponent>;

    closed spec fn view(&self) -> Seq<SpecComponent> {
        self.0@
    }
}

impl Relative {
    #[verifier::type_invariant]
    spec fn names_only(self) -> bool {
        all_normal(self.0@)
    }

    /// Converts an arbitrary path to follow the rules of a `Relative` path:
    /// `.` components are removed and a name followed by `..` cancel out.
    /// Fails with `PathIsAbsolute` on a path with a root and with
    /// `RelativePathEscapesPrefix` when a `..` has no name to cancel.
    pub fn new(path: &PathBuf) -> (r: Result<Relative, Error>)
        ensures
            match relative_of(path@) {
                RelativeResult::Relative(s) => r matches Ok(rel) && rel@ == s,
                _ => r matches Err(e) && relative_error(path@) == Some(e@),
            },
            r matches Ok(rel) ==> all_normal(rel@),
    {
        let mut res = PathBuf::new();
        let n = path.len();
        let mut i: usize = 0;
        assert(path@.subrange(0, 0) =~= Seq::<SpecComponent>::empty());
        while i < n
            invariant
                i <= n == path@.len(),
                relative_of(path@.subrange(0, i as int)) == RelativeResult::Relative(res@),
                all_normal(res@),
            decreases n - i,
        {
            assert(path@.subrange(0, i + 1).drop_last() =~= path@.subrange(0, i as int));
            match path.component(i) {
                Component::RootDir => {
                    proof {
                        lemma_relative_stops(path@, i as int + 1);
                    }
                    return Err(Error::PathIsAbsolute(path.duplicate()));
                },
                Component::Normal(name) => {
                    res.push_component(Component::Normal(crate::path::copy_bytes(name.as_slice())));
                },
                Component::ParentDir => {
                    if res.is_empty() {
                        proof {
                            lemma_relative_stops(path@, i as int + 1);
                        }
                        return Err(Error::RelativePathEscapesPrefix(path.duplicate()));
                    }
                    let _ = res.pop();
                },
                Component::CurDir => {},
            }
            i += 1;
        }
        assert(path@.subrange(0, n as int) =~= path@);
        Ok(Relative(res))
    }

    /// This path with the path `path` added at the end, once made a `Relative`.
    pub fn join(&self, path: &PathBuf) -> (r: Result<Relative, Error>)
        ensures
            match relative_of(path@) {
                RelativeResult::Relative(s) => r matches Ok(rel) && rel@ == self@ + s,
                _ => r matches Err(e) && relative_error(path@) == Some(e@),
            },
    {
        match Relative::new(path) {
            Ok(tail) => Ok(self.join_relative(&tail)),
            Err(e) => Err(e),
        }
    }

    /// This path with `tail` added at the end.
    pub fn join_relative(&self, tail: &Relative) -> (r: Relative)
        ensures
            r@ == self@ + tail@,
            all_normal(r@),
    {
        proof {
            use_type_invariant(self);
            use_type_invariant(tail);
        }
        let joined = self.0.join(&tail.0);
        proof {
            lemma_join_names(self.0@, tail.0@);
        }
        Relative(joined)
    }

    /// The path as a `PathBuf`.
    pub fn as_path(&self) -> (p: &PathBuf)
        ensures
            p@ == self@,
            all_normal(p@),
    {
        proof {
            use_type_invariant(self);
        }
        &self.0
    }

    /// The bytes that spell the path.
    pub fn as_os_str(&self) -> (b: Vec<u8>)
        ensures
            b@ == render(self@),
    {
        self.0.to_bytes()
    }
}

/// Joining names onto a path that has no `.` to drop is concatenation.
proof fn lemma_join_names(s: Seq<SpecComponent>, t: Seq<SpecComponent>)
    requires
        all_normal(t),
        s.len() == 0 ==> all_normal(s),
    ensures
        pushed(s, t) =~= s + t,
{
    if s.len() == 0 {
        assert(s + t =~= t);
    } else if t.len() > 0 {
        assert(t[0] is Normal);
    }
}

proof fn lemma_relative_stops(p: Seq<SpecComponent>, k: int)
    requires
        0 < k <= p.len(),
        !(relative_of(p.subrange(0, k)) is Relative),
    ensures
        relative_of(p) == relative_of(p.subrange(0, k)),
    decreases p.len() - k,
{
    if k < p.len() {
        assert(p.subrange(0, k + 1).drop_last() =~= p.subrange(0, k));
        lemma_relative_stops(p, k + 1);
    } else {
        assert(p.subrange(0, k) =~= p);
    }
}

/// The number of roots at the start of `p`.
pub open spec fn head_len(p: Seq<SpecComponent>) -> nat
    decreases p.len(),
{
    if p.len() > 0 && p[0] == SpecComponent::RootDir {
        1 + head_len(p.drop_first())
    } else {
        0
    }
}

/// The head of a path before canonicalization: the root if it has one, else `.`.
pub open spec fn raw_head(p: Seq<SpecComponent>) -> Seq<SpecComponent> {
    if head_len(p) > 0 {
        seq![SpecComponent::RootDir]
    } else {
        seq![SpecComponent::CurDir]
    }
}

/// The components after the head.
pub open spec fn tail_of(p: Seq<SpecComponent>) -> Seq<SpecComponent> {
    p.skip(head_len(p) as int)
}

proof fn lemma_head_len_bound(p: Seq<SpecComponent>)
    ensures
        head_len(p) <= p.len(),
        forall|i: int| 0 <= i < head_len(p) ==> p[i] == SpecComponent::RootDir,
        head_len(p) < p.len() ==> p[head_len(p) as int] != SpecComponent::RootDir,
    decreases p.len(),
{
    if p.len() > 0 && p[0] == SpecComponent::RootDir {
        lemma_head_len_bound(p.drop_first());
        assert forall|i: int| 0 <= i < head_len(p) implies p[i] == SpecComponent::RootDir by {
            if i > 0 {
                assert(p[i] == p.drop_first()[i - 1]);
            }
        }
    }
}

/// Whether a path is the root followed by names only, as a canonical path is.
pub fn is_straight_from_root(path: &PathBuf) -> (b: bool)
    ensures
        b == is_monotonic_absolute(path@),
{
    let n = path.len();
    if n == 0 || !path.component(0).is_root() {
        return false;
    }
    let mut i: usize = 1;
    while i < n
        invariant
            1 <= i <= n,
            n == path@.len(),
            path@[0] == SpecComponent::RootDir,
            forall|k: int| 1 <= k < i ==> #[trigger] path@[k] is Normal,
        decreases n - i,
    {
        if !path.component(i).is_normal() {
            return false;
        }
        i = i + 1;
    }
    true
}

/// Splits a path into a head, the root (or `.` for a relative path), which the caller
/// canonicalizes, and a tail, the components that follow it.
pub fn split_head_and_tail(path: &PathBuf) -> (r: (PathBuf, PathBuf))
    ensures
        r.0@ == raw_head(path@),
        r.1@ == tail_of(path@),
{
    let n = path.len();
    let mut k: usize = 0;
    while k < n && path.component(k).is_root()
        invariant
            k <= n == path@.len(),
            forall|i: int| 0 <= i < k ==> path@[i] == SpecComponent::RootDir,
        decreases n - k,
    {
        k += 1;
    }
    proof {
        lemma_head_len_is_first_non_root(path@, k as int);
    }
    let mut head = PathBuf::new();
    if k > 0 {
        head.push_component(Component::RootDir);
    } else {
        head.push_component(Component::CurDir);
    }
    assert(head@ =~= raw_head(path@));
    let mut tail = PathBuf::new();
    let mut i = k;
    while i < n
        invariant
            k <= i <= n == path@.len(),
            k == head_len(path@),
            tail@ =~= path@.subrange(k as int, i as int),
        decreases n - i,
    {
        tail.push_component(path.component(i).duplicate());
        i += 1;
    }
    assert(path@.subrange(k as int, n as int) =~= tail_of(path@));
    (head, tail)
}

proof fn lemma_head_len_is_first_non_root(p: Seq<SpecComponent>, k: int)
    requires
        0 <= k <= p.len(),
        forall|i: int| 0 <= i < k ==> p[i] == SpecComponent::RootDir,
        k == p.len() || p[k] != SpecComponent::RootDir,
    ensures
        head_len(p) == k,
    decreases k,
{
    if k > 0 {
        let q = p.drop_first();
        assert forall|i: int| 0 <= i < k - 1 implies q[i] == SpecComponent::RootDir by {
            assert(q[i] == p[i + 1]);
        }
        lemma_head_len_is_first_non_root(q, k - 1);
    }
}

/// An absolute path that may or may not exist: the root followed by names only.
#[derive(Debug)]
pub struct Absolute(PathBuf);

impl View for Absolute {
    type V = Seq<SpecComponent>;

    closed spec fn view(&self) -> Seq<SpecComponent> {
        self.0@
    }
}

impl Absolute {
    #[verifier::type_invariant]
    spec fn straight_from_root(self) -> bool {
        is_monotonic_absolute(self.0@)
    }

    /// This path with the path `path` added at the end, once made a `Relative`.
    pub fn join(&self, path: &PathBuf) -> (r: Result<Absolute, Error>)
        ensures
            match relative_of(path@) {
                RelativeResult::Relative(s) => r matches Ok(a) && a@ == self@ + s,
                _ => r matches Err(e) && relative_error(path@) == Some(e@),
            },
    {
        match Relative::new(path) {
            Ok(tail) => Ok(self.join_relative(&tail)),
            Err(e) => Err(e),
        }
    }

    /// This path with `tail` added at the end.
    pub fn join_relative(&self, tail: &Relative) -> (r: Absolute)
        ensures
            r@ == self@ + tail@,
            is_monotonic_absolute(r@),
    {
        proof {
            use_type_invariant(self);
        }
        let t = tail.as_path();
        let joined = self.0.join(t);
        proof {
            lemma_join_names(self.0@, t@);
        }
        Absolute(joined)
    }

    /// The path as a `PathBuf`.
    pub fn as_path(&self) -> (p: &PathBuf)
        ensures
            p@ == self@,
            is_monotonic_absolute(p@),
    {
        proof {
            use_type_invariant(self);
        }
        &self.0
    }

    /// The bytes that spell the path.
    pub fn as_os_str(&self) -> (b: Vec<u8>)
        ensures
            b@ == render(self@),
    {
        self.0.to_bytes()
    }
}

/// What the resolution of an absolute path asks for next.
pub enum Next {
    /// No component is left: the path is resolved.
    Done,
    /// A `..` follows the path resolved so far: is that a symlink?
    CheckLink,
    /// A `..` follows a path whose symlink was already resolved.
    Loop,
}

/// Takes components from the front of `tail`: `.` is dropped, a name is added to `res`,
/// a root restarts `res`, and a `..` stops the walk. The `..` is consumed; when the path before
/// it is a symlink already resolved (it is in `seen`), that is a loop.
pub open spec fn advance(
    res: Seq<SpecComponent>,
    tail: Seq<SpecComponent>,
    seen: Seq<Seq<SpecComponent>>,
) -> (Seq<SpecComponent>, Seq<SpecComponent>, Seq<Seq<SpecComponent>>, Next)
    decreases tail.len(),
{
    if tail.len() == 0 {
        (res, tail, seen, Next::Done)
    } else {
        let rest = tail.drop_first();
        match tail[0] {
            SpecComponent::CurDir => advance(res, rest, seen),
            SpecComponent::ParentDir => if seen.contains(res) {
                (res, rest, seen, Next::Loop)
            } else {
                (res, rest, seen, Next::CheckLink)
            },
            SpecComponent::RootDir => advance(seq![SpecComponent::RootDir], rest, seen),
            SpecComponent::Normal(_) => advance(res.push(tail[0]), rest, seen),
        }
    }
}

/// Whether the path `at` is a symlink, from the outcome of reading its own metadata (whether
/// it is a symlink, or the error): a path that does not exist is not a symlink; any other
/// error is reported with the path.
pub fn symlink_check(outcome: Result<bool, IoError>, at: &PathBuf) -> (r: Result<bool, Error>)
    ensures
        match outcome {
            Ok(b) => r == Ok::<bool, Error>(b),
            Err(e) => if e@.kind == crate::error::ErrorKind::NotFound {
                r == Ok::<bool, Error>(false)
            } else {
                r matches Err(err) && err@ == SpecError::IoError { kind: e@.kind, message: e@.message, at: at@ }
            },
        },
{
    match outcome {
        Ok(b) => Ok(b),
        Err(e) => {
            if e.kind() == crate::error::ErrorKind::NotFound {
                Ok(false)
            } else {
                Err(Error::IoError { err: e, at: at.duplicate() })
            }
        },
    }
}

/// What the file system says of the path before a `..`.
pub enum LinkTarget {
    /// It is not a symlink (or does not exist).
    NotALink,
    /// It is a symlink with a relative target, given by its components.
    Relative(PathBuf),
    /// It is a symlink with an absolute target: its canonicalized head and its tail.
    Absolute { head: PathBuf, tail: PathBuf },
}

/// The content of a `LinkTarget`.
pub enum SpecLinkTarget {
    NotALink,
    Relative(Seq<SpecComponent>),
    Absolute { head: Seq<SpecComponent>, tail: Seq<SpecComponent> },
}

impl View for LinkTarget {
    type V = SpecLinkTarget;

    open spec fn view(&self) -> SpecLinkTarget {
        match self {
            LinkTarget::NotALink => SpecLinkTarget::NotALink,
            LinkTarget::Relative(t) => SpecLinkTarget::Relative(t@),
            LinkTarget::Absolute { head, tail } => SpecLinkTarget::Absolute { head: head@, tail: tail@ },
        }
    }
}

/// After the answer about the path before a `..`: the last component of `res` is dropped
/// (the `..` cancels it), and a symlink's target is put back in front of the tail, followed by
/// the `..`, to be walked in its place; an absolute target also restarts `res` from its head.
/// A symlink is recorded as resolved (see `resumed_seen`).
pub open spec fn resumed(
    res: Seq<SpecComponent>,
    tail: Seq<SpecComponent>,
    link: SpecLinkTarget,
) -> (Seq<SpecComponent>, Seq<SpecComponent>) {
    match link {
        SpecLinkTarget::NotALink => (popped(res), tail),
        SpecLinkTarget::Relative(t) => (popped(res), t + seq![SpecComponent::ParentDir] + tail),
        SpecLinkTarget::Absolute { head, tail: t } => (
            popped(head),
            t + seq![SpecComponent::ParentDir] + tail,
        ),
    }
}

/// The symlinks resolved so far once the answer about `res` is in: `res` is added when it is
/// a symlink.
pub open spec fn resumed_seen(
    seen: Seq<Seq<SpecComponent>>,
    res: Seq<SpecComponent>,
    link: SpecLinkTarget,
) -> Seq<Seq<SpecComponent>> {
    match link {
        SpecLinkTarget::NotALink => seen,
        _ => seen.push(res),
    }
}

/// The state of resolving a path into an `Absolute`: the monotonic path built so far,
/// the components still to check, and the paths whose symlinks were already resolved.
pub struct AbsoluteBuilder {
    res: PathBuf,
    pending: VecDeque<Component>,
    seen: Vec<PathBuf>,
}

/// The content of an `AbsoluteBuilder`.
pub struct BuilderView {
    pub res: Seq<SpecComponent>,
    pub tail: Seq<SpecComponent>,
    pub seen: Seq<Seq<SpecComponent>>,
}

/// What resolving asks for, or its outcome.
pub enum Step {
    /// The resolved path.
    Done(Absolute),
    /// The caller checks whether this path is a symlink and answers with `resume`.
    CheckLink(PathBuf),
    /// Resolution failed.
    Failed(Error),
}

impl View for AbsoluteBuilder {
    type V = BuilderView;

    closed spec fn view(&self) -> BuilderView {
        BuilderView {
            res: self.res@,
            tail: comps_view(self.pending@),
            seen: self.seen@.map_values(|p: PathBuf| p@),
        }
    }
}

impl AbsoluteBuilder {
    /// The builder is ready: the path built so far runs straight from the root.
    pub closed spec fn wf(&self) -> bool {
        is_monotonic_absolute(self.res@)
    }

    /// Starts resolving from a canonicalized head (the root followed by names) and the
    /// components that follow it.
    pub fn new(head: PathBuf, tail: &PathBuf) -> (b: AbsoluteBuilder)
        requires
            is_monotonic_absolute(head@),
        ensures
            b.wf(),
            b@.res == head@,
            b@.tail == tail@,
            b@.seen == Seq::<Seq<SpecComponent>>::empty(),
    {
        let mut pending: VecDeque<Component> = VecDeque::new();
        let n = tail.len();
        let mut i: usize = 0;
        while i < n
            invariant
                i <= n == tail@.len(),
                comps_view(pending@) =~= tail@.subrange(0, i as int),
            decreases n - i,
        {
            let ghost before = pending@;
            pending.push_back(tail.component(i).duplicate());
            assert(comps_view(pending@) =~= comps_view(before).push(tail@[i as int]));
            i += 1;
        }
        assert(tail@.subrange(0, n as int) =~= tail@);
        let b = AbsoluteBuilder { res: head, pending, seen: Vec::new() };
        assert(b@.seen =~= Seq::<Seq<SpecComponent>>::empty());
        b
    }

    /// `path` was already recorded.
    fn seen_contains(&self, path: &PathBuf) -> (b: bool)
        ensures
            b == self@.seen.contains(path@),
    {
        let mut i: usize = 0;
        while i < self.seen.len()
            invariant
                i <= self.seen@.len(),
                forall|j: int| 0 <= j < i ==> self.seen@[j]@ != path@,
            decreases self.seen@.len() - i,
        {
            if self.seen[i].same_path(path) {
                assert(self@.seen[i as int] == path@);
                return true;
            }
            i += 1;
        }
        assert(!self@.seen.contains(path@)) by {
            if self@.seen.contains(path@) {
                let j = choose|j: int| 0 <= j < self@.seen.len() && self@.seen[j] == path@;
                assert(self.seen@[j]@ == path@);
            }
        }
        false
    }

    /// Walks the components still to check until the path is resolved or a `..` needs
    /// the answer whether the path before it is a symlink; see `advance`.
    pub fn next(&mut self) -> (step: Step)
        requires
            old(self).wf(),
        ensures
            final(self).wf(),
            ({
                let (r, t, s, k) = advance(old(self)@.res, old(self)@.tail, old(self)@.seen);
                &&& final(self)@.res == r
                &&& final(self)@.tail == t
                &&& final(self)@.seen == s
                &&& match k {
                    Next::Done => step matches Step::Done(a) && a@ == r,
                    Next::CheckLink => step matches Step::CheckLink(p) && p@ == r,
                    Next::Loop => step matches Step::Failed(e) && e@ == SpecError::SymlinkLoops(r),
                }
            }),
    {
        let ghost goal = advance(old(self)@.res, old(self)@.tail, old(self)@.seen);
        loop
            invariant
                self.wf(),
                goal == advance(old(self)@.res, old(self)@.tail, old(self)@.seen),
                advance(self@.res, self@.tail, self@.seen) == goal,
            decreases self.pending@.len(),
        {
            let ghost before = self@;
            match self.pending.pop_front() {
                None => {
                    assert(self@.tail.len() == 0);
                    return Step::Done(Absolute(self.res.duplicate()));
                },
                Some(c) => {
                    assert(before.tail[0] == c@);
                    assert(self@.tail =~= before.tail.drop_first());
                    match c {
                        Component::CurDir => {},
                        Component::ParentDir => {
                            if self.seen_contains(&self.res) {
                                return Step::Failed(Error::SymlinkLoops(self.res.duplicate()));
                            }
                            return Step::CheckLink(self.res.duplicate());
                        },
                        Component::RootDir => {
                            self.res = PathBuf::new();
                            self.res.push_component(Component::RootDir);
                            assert(self.res@ =~= seq![SpecComponent::RootDir]);
                        },
                        Component::Normal(name) => {
                            self.res.push_component(Component::Normal(name));
                        },
                    }
                },
            }
        }
    }

    /// Takes the answer about the path before the last `..`; see `resumed`.
    pub fn resume(&mut self, link: LinkTarget)
        requires
            old(self).wf(),
            link matches LinkTarget::Absolute { head, .. } ==> is_monotonic_absolute(head@),
        ensures
            final(self).wf(),
            (final(self)@.res, final(self)@.tail) == resumed(old(self)@.res, old(self)@.tail, link@),
            final(self)@.seen == resumed_seen(old(self)@.seen, old(self)@.res, link@),
    {
        let ghost l = link@;
        match link {
            LinkTarget::NotALink => {},
            LinkTarget::Relative(target) => {
                self.record_seen();
                self.push_front(&target);
            },
            LinkTarget::Absolute { head, tail } => {
                self.record_seen();
                self.push_front(&tail);
                self.res = head;
            },
        }
        let _ = self.res.pop();
    }

    /// Records the path built so far as a resolved symlink.
    fn record_seen(&mut self)
        ensures
            final(self)@.seen == old(self)@.seen.push(old(self)@.res),
            final(self)@.res == old(self)@.res,
            final(self)@.tail == old(self)@.tail,
            final(self).wf() == old(self).wf(),
    {
        let r = self.res.duplicate();
        self.seen.push(r);
        assert(self@.seen =~= old(self)@.seen.push(old(self)@.res));
    }

    /// Puts `target` followed by a `..` in front of the components still to check.
    fn push_front(&mut self, target: &PathBuf)
        ensures
            final(self)@.tail == target@ + seq![SpecComponent::ParentDir] + old(self)@.tail,
            final(self)@.res == old(self)@.res,
            final(self)@.seen == old(self)@.seen,
            final(self).wf() == old(self).wf(),
    {
        let ghost t0 = self@.tail;
        let ghost p0 = self.pending@;
        self.pending.push_front(Component::ParentDir);
        assert(comps_view(self.pending@) =~= seq![SpecComponent::ParentDir] + comps_view(p0));
        assert(self@.tail =~= seq![SpecComponent::ParentDir] + t0);
        assert(target@.subrange(target@.len() as int, target@.len() as int) + seq![SpecComponent::ParentDir] + t0 =~= seq![SpecComponent::ParentDir] + t0);
        let n = target.len();
        let mut i = n;
        while i > 0
            invariant
                i <= n == target@.len(),
                self@.tail =~= target@.subrange(i as int, n as int) + seq![SpecComponent::ParentDir] + t0,
                self.res@ == old(self).res@,
                self@.seen == old(self)@.seen,
            decreases i,
        {
            let ghost before = self.pending@;
            self.pending.push_front(target.component(i - 1).duplicate());
            assert(comps_view(self.pending@) =~= seq![target@[i - 1]] + comps_view(before));
            assert(target@.subrange(i - 1, n as int) =~= seq![target@[i - 1]] + target@.subrange(i as int, n as int));
            i -= 1;
        }
        assert(target@.subrange(0, n as int) =~= target@);
    }
}

} // verus!
