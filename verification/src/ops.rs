//! Lexical path arithmetic: appending, going up, truncating to the root,
//! and the traits that give these operations to every path type.
use vstd::prelude::*;
use crate::error::{Error, ErrorKind, IoError};
use vstd::string::StringSliceAdditionalSpecFns;
use vstd::utf8::{encode_utf8, valid_utf8};
use crate::path::{
    comp_text, comps_view, dot, dot_dot, file_name, has_parent, has_root, parse, pushed, render, Component,
    PathBuf, SpecComponent, DOT, SEP,
};

verus! {

/// `c` parent components.
pub open spec fn parents(c: nat) -> Seq<SpecComponent> {
    Seq::new(c, |i: int| SpecComponent::ParentDir)
}

/// Going up `c` levels from the end of `s`. Scanning from the last component,
/// a name cancels one pending level, a `..` adds one and a `.` is dropped;
/// levels still pending when the path runs out become leading `..` components.
/// Reaching the root with a level pending fails (`false`), leaving what remains.
pub open spec fn up(s: Seq<SpecComponent>, c: nat) -> (Seq<SpecComponent>, bool)
    decreases s.len(),
{
    if c == 0 {
        (s, true)
    } else if s.len() == 0 {
        (parents(c), true)
    } else {
        match s.last() {
            SpecComponent::RootDir => (s, false),
            SpecComponent::CurDir => up(s.drop_last(), c),
            SpecComponent::ParentDir => up(s.drop_last(), c + 1),
            SpecComponent::Normal(_) => up(s.drop_last(), (c - 1) as nat),
        }
    }
}

/// The effect of appending one component: a name is added, `..` goes up one level,
/// the root and `.` change nothing.
pub open spec fn append_one(s: Seq<SpecComponent>, c: SpecComponent) -> (Seq<SpecComponent>, bool) {
    match c {
        SpecComponent::Normal(_) => (s.push(c), true),
        SpecComponent::ParentDir => up(s, 1),
        _ => (s, true),
    }
}

/// Appending the components of `p` one after another, stopping at the first failure.
pub open spec fn appended(s: Seq<SpecComponent>, p: Seq<SpecComponent>) -> (Seq<SpecComponent>, bool)
    decreases p.len(),
{
    if p.len() == 0 {
        (s, true)
    } else {
        let (t, ok) = appended(s, p.drop_last());
        if !ok {
            (t, false)
        } else {
            append_one(t, p.last())
        }
    }
}

/// The path truncated to its root: the root alone, or nothing for a relative path.
pub open spec fn truncated_to_root(s: Seq<SpecComponent>) -> Seq<SpecComponent> {
    if has_root(s) {
        seq![SpecComponent::RootDir]
    } else {
        seq![]
    }
}

/// The error that going above the root gives, for the path `p` where it stopped.
pub open spec fn root_error(e: crate::error::ErrorView, p: Seq<SpecComponent>) -> bool {
    &&& e.kind == ErrorKind::NotFound
    &&& e.message == "cannot get parent of root path"@
    &&& e.action == "truncating to parent"@
    &&& e.path == p
}

/// The error that asking for the parent of a path without one gives.
pub open spec fn no_parent_error(e: crate::error::ErrorView, p: Seq<SpecComponent>) -> bool {
    &&& e.kind == ErrorKind::NotFound
    &&& e.message == "path has no parent"@
    &&& e.action == "truncating to parent"@
    &&& e.path == p
}

/// Trailing `.` and `..` components removed, with the number of `..` among them.
pub open spec fn strip_trailing(s: Seq<SpecComponent>) -> (Seq<SpecComponent>, nat)
    decreases s.len(),
{
    if s.len() > 0 && (s.last() == SpecComponent::CurDir || s.last() == SpecComponent::ParentDir) {
        let (t, k) = strip_trailing(s.drop_last());
        (t, k + if s.last() == SpecComponent::ParentDir { 1nat } else { 0nat })
    } else {
        (s, 0)
    }
}

proof fn lemma_strip_trailing(s: Seq<SpecComponent>, c: nat)
    requires
        c >= 1,
    ensures
        up(s, c) == up(strip_trailing(s).0, c + strip_trailing(s).1),
        strip_trailing(s).0.len() + strip_trailing(s).1 <= s.len(),
        strip_trailing(s).0.len() == 0 || (strip_trailing(s).0.last() != SpecComponent::CurDir
            && strip_trailing(s).0.last() != SpecComponent::ParentDir),
    decreases s.len(),
{
    if s.len() > 0 && (s.last() == SpecComponent::CurDir || s.last() == SpecComponent::ParentDir) {
        if s.last() == SpecComponent::ParentDir {
            lemma_strip_trailing(s.drop_last(), c + 1);
        } else {
            lemma_strip_trailing(s.drop_last(), c);
        }
    }
}

proof fn lemma_parents_push(c: nat)
    ensures
        parents(c + 1) =~= parents(c).push(SpecComponent::ParentDir),
{
}

/// Pops the trailing `.` and `..` components, returning how many `..` there were.
fn pop_parent_components(p: &mut PathBuf) -> (n: usize)
    ensures
        final(p)@ == strip_trailing(old(p)@).0,
        n == strip_trailing(old(p)@).1,
{
    let ghost s0 = old(p)@;
    let n0 = p.len();
    let mut parents_seen: usize = 0;
    proof {
        lemma_strip_len(s0);
    }
    while p.len() > 0 && (p.component(p.len() - 1).is_cur_dir() || p.component(p.len() - 1).is_parent_dir())
        invariant
            strip_trailing(p@) == (strip_trailing(s0).0, (strip_trailing(s0).1 - parents_seen) as nat),
            parents_seen <= strip_trailing(s0).1,
            strip_trailing(s0).1 <= s0.len(),
            s0.len() == n0,
            p@.len() + parents_seen <= s0.len(),
        decreases p@.len(),
    {
        let is_parent = p.component(p.len() - 1).is_parent_dir();
        proof {
            lemma_strip_len(p@);
        }
        let _ = p.pop();
        if is_parent {
            parents_seen = parents_seen + 1;
        }
    }
    parents_seen
}

proof fn lemma_strip_len(s: Seq<SpecComponent>)
    ensures
        strip_trailing(s).0.len() + strip_trailing(s).1 <= s.len(),
    decreases s.len(),
{
    if s.len() > 0 && (s.last() == SpecComponent::CurDir || s.last() == SpecComponent::ParentDir) {
        lemma_strip_len(s.drop_last());
    }
}

impl PathBuf {
    /// Goes up one level, resolving `..` components at the end of the path
    /// until a name can be removed; see `up`.
    pub fn pop_up_path(&mut self) -> (r: Result<(), Error>)
        ensures
            final(self)@ == up(old(self)@, 1).0,
            r is Ok <==> up(old(self)@, 1).1,
            r matches Err(e) ==> root_error(e@, final(self)@),
    {
        let ghost s0 = self@;
        let n0 = self.len();
        let mut ending: usize = 0;
        loop
            invariant
                s0.len() == n0,
                up(self@, (ending + 1) as nat) == up(s0, 1),
                ending + self@.len() <= s0.len(),
            ensures
                up(self@, (ending + 1) as nat) == up(s0, 1),
                ending + self@.len() <= s0.len(),
                self@.len() == 0 || (self@.last() != SpecComponent::CurDir
                    && self@.last() != SpecComponent::ParentDir),
                ending == 0 || !(self@.last() is Normal) || self@.len() == 0,
            decreases self@.len(),
        {
            proof {
                lemma_strip_trailing(self@, (ending + 1) as nat);
            }
            let k = pop_parent_components(self);
            ending = ending + k;
            let n = self.len();
            if ending == 0 || n == 0 || !self.component(n - 1).is_normal() {
                break;
            }
            let _ = self.pop();
            ending = ending - 1;
        }
        let ghost before_pop = self@;
        proof {
            if ending == 0 && self@.len() > 0 && self@.last() is Normal {
                assert(up(self@.drop_last(), 0) == (self@.drop_last(), true));
            }
        }
        if self.pop() {
        } else if !self.is_empty() {
            // the last component is the root
            return Err(
                Error::new(
                    IoError::new(ErrorKind::NotFound, "cannot get parent of root path"),
                    "truncating to parent",
                    self.duplicate(),
                ),
            );
        } else {
            self.push_component(Component::ParentDir);
            assert(self@ =~= parents(1));
        }
        assert(before_pop.len() == 0 ==> up(s0, 1).0 == parents((ending + 1) as nat));
        let mut i: usize = 0;
        while i < ending
            invariant
                i <= ending,
                before_pop.len() == 0 ==> self@ =~= parents((i + 1) as nat),
                before_pop.len() > 0 ==> self@ =~= before_pop.drop_last() + parents(i as nat),
                ending == 0 || before_pop.len() == 0,
            decreases ending - i,
        {
            self.push_component(Component::ParentDir);
            proof {
                lemma_parents_push((i + 1) as nat);
                lemma_parents_push(i as nat);
            }
            i += 1;
        }
        assert(before_pop.len() > 0 ==> self@ =~= before_pop.drop_last());
        Ok(())
    }
}

/// The path after `set_file_name(name)`: the last name, if any, is replaced by the path `name`.
pub open spec fn file_name_replaced(s: Seq<SpecComponent>, name: Seq<u8>) -> Seq<SpecComponent> {
    pushed(if file_name(s) is Some { s.drop_last() } else { s }, parse(name))
}

/// The index of the last `.` in `name`, or -1.
pub open spec fn last_dot(name: Seq<u8>) -> int
    decreases name.len(),
{
    if name.len() == 0 {
        -1
    } else if name.last() == DOT {
        name.len() - 1
    } else {
        last_dot(name.drop_last())
    }
}

/// The stem of a file name: the part before the final `.`, or the whole name when it has no `.`
/// except possibly a leading one (and for `..`).
pub open spec fn file_stem(name: Seq<u8>) -> Seq<u8> {
    if name == dot_dot() || last_dot(name) <= 0 {
        name
    } else {
        name.subrange(0, last_dot(name))
    }
}

/// The file name once its extension is set to `ext` (removed when `ext` is empty).
pub open spec fn with_extension_name(name: Seq<u8>, ext: Seq<u8>) -> Seq<u8> {
    if ext.len() == 0 {
        file_stem(name)
    } else {
        file_stem(name).push(DOT) + ext
    }
}

/// The path after `set_extension(ext)`: unchanged when there is no file name.
pub open spec fn extension_replaced(s: Seq<SpecComponent>, ext: Seq<u8>) -> Seq<SpecComponent> {
    match file_name(s) {
        Some(name) => pushed(s.drop_last(), parse(with_extension_name(name, ext))),
        None => s,
    }
}

pub(crate) proof fn lemma_last_dot_bounds(name: Seq<u8>)
    ensures
        -1 <= last_dot(name) < name.len(),
        last_dot(name) >= 0 ==> name[last_dot(name)] == DOT,
        forall|k: int| last_dot(name) < k < name.len() ==> name[k] != DOT,
    decreases name.len(),
{
    if name.len() > 0 {
        let init = name.drop_last();
        lemma_last_dot_bounds(init);
        if name.last() != DOT {
            assert forall|k: int| last_dot(name) < k < name.len() implies name[k] != DOT by {
                if k < name.len() - 1 {
                    assert(name[k] == init[k]);
                }
            }
        }
    }
}

/// The index of the last `.` in `name`, or -1.
fn find_last_dot(name: &[u8]) -> (r: Option<usize>)
    ensures
        r matches Some(i) ==> i == last_dot(name@),
        r is None ==> last_dot(name@) == -1,
{
    let mut i: usize = name.len();
    proof {
        lemma_last_dot_bounds(name@);
        assert(name@.subrange(0, name@.len() as int) =~= name@);
    }
    while i > 0
        invariant
            i <= name@.len(),
            last_dot(name@) == last_dot(name@.subrange(0, i as int)),
        decreases i,
    {
        assert(name@.subrange(0, i as int).drop_last() =~= name@.subrange(0, i - 1));
        if name[i - 1] == DOT {
            return Some(i - 1);
        }
        i = i - 1;
    }
    assert(name@.subrange(0, 0) =~= Seq::<u8>::empty());
    None
}

impl PathBuf {
    /// Appends the components of `path` one after another: names are added, `..` goes up
    /// with `pop_up_path`, the root and `.` are ignored. Stops at the first failure.
    pub fn append_path(&mut self, path: &PathBuf) -> (r: Result<(), Error>)
        ensures
            final(self)@ == appended(old(self)@, path@).0,
            r is Ok <==> appended(old(self)@, path@).1,
            r matches Err(e) ==> root_error(e@, final(self)@),
    {
        let ghost s0 = self@;
        let n = path.len();
        let mut i: usize = 0;
        assert(path@.subrange(0, 0) =~= Seq::<SpecComponent>::empty());
        while i < n
            invariant
                i <= n == path@.len(),
                s0 == old(self)@,
                appended(s0, path@.subrange(0, i as int)) == (self@, true),
            decreases n - i,
        {
            assert(path@.subrange(0, i + 1).drop_last() =~= path@.subrange(0, i as int));
            match path.component(i) {
                Component::Normal(c) => {
                    self.push_component(Component::Normal(crate::path::copy_bytes(c.as_slice())));
                },
                Component::ParentDir => {
                    let ghost prev = self@;
                    let r = self.pop_up_path();
                    assert(appended(s0, path@.subrange(0, i + 1)) == up(prev, 1));
                    if r.is_err() {
                        assert(!up(prev, 1).1);
                        assert(up(prev, 1).0 == self@);
                        proof {
                            lemma_appended_stops(s0, path@, i as int + 1);
                        }
                        assert(appended(s0, path@) == (self@, false));
                        assert(path@.subrange(0, n as int) =~= path@);
                        return r;
                    }
                },
                _ => {},
            }
            i += 1;
        }
        assert(path@.subrange(0, n as int) =~= path@);
        Ok(())
    }

    /// Removes all components after the root, if any.
    pub fn truncate_path_to_root(&mut self)
        ensures
            final(self)@ == truncated_to_root(old(self)@),
    {
        let mut res = PathBuf::new();
        let mut i: usize = 0;
        // only the leading root is kept
        while i < 2 && i < self.len() && self.component(i).is_root()
            invariant
                i <= 2,
                i <= self@.len(),
                i > 0 ==> self@[0] == SpecComponent::RootDir,
                i > 0 ==> res@ =~= seq![SpecComponent::RootDir],
                i == 0 ==> res@.len() == 0,
            decreases 2 - i,
        {
            res = PathBuf::new();
            res.push_component(Component::RootDir);
            i += 1;
        }
        *self = res;
        assert(self@ =~= truncated_to_root(old(self)@));
    }

    /// Replaces the file name, the way `std::path::PathBuf::set_file_name` does.
    pub fn set_file_name_bytes(&mut self, name: &[u8])
        ensures
            final(self)@ == file_name_replaced(old(self)@, name@),
    {
        if self.file_name().is_some() {
            let _ = self.pop();
        }
        let p = PathBuf::from_bytes(name);
        self.push(&p);
    }

    /// Sets or removes the extension of the file name, the way
    /// `std::path::PathBuf::set_extension` does; false when there is no file name.
    pub fn set_extension_bytes(&mut self, ext: &[u8]) -> (b: bool)
        requires
            forall|i: int| 0 <= i < ext@.len() ==> ext@[i] != SEP,
        ensures
            b == (file_name(old(self)@) is Some),
            final(self)@ == extension_replaced(old(self)@, ext@),
    {
        let name = match self.file_name() {
            Some(n) => n,
            None => return false,
        };
        let _ = self.pop();
        let d = find_last_dot(name.as_slice());
        proof {
            lemma_last_dot_bounds(name@);
        }
        let mut stem_len: usize = name.len();
        let is_dot_dot = name.len() == 2 && name[0] == DOT && name[1] == DOT;
        if !is_dot_dot {
            if let Some(k) = d {
                if k > 0 {
                    stem_len = k;
                }
            }
        }
        let mut new_name: Vec<u8> = Vec::new();
        let mut i: usize = 0;
        while i < stem_len
            invariant
                stem_len <= name@.len(),
                i <= stem_len,
                new_name@ =~= name@.subrange(0, i as int),
            decreases stem_len - i,
        {
            new_name.push(name[i]);
            i += 1;
        }
        proof {
            if is_dot_dot {
                assert(name@ =~= dot_dot());
            }
            assert(name@.subrange(0, name@.len() as int) =~= name@);
            assert(new_name@ =~= file_stem(name@));
        }
        if ext.len() > 0 {
            new_name.push(DOT);
            let mut j: usize = 0;
            let ghost base = new_name@;
            while j < ext.len()
                invariant
                    j <= ext@.len(),
                    new_name@ =~= base + ext@.subrange(0, j as int),
                decreases ext.len() - j,
            {
                new_name.push(ext[j]);
                j += 1;
            }
            assert(ext@.subrange(0, ext@.len() as int) =~= ext@);
        }
        assert(new_name@ =~= with_extension_name(name@, ext@));
        let p = PathBuf::from_bytes(new_name.as_slice());
        self.push(&p);
        true
    }
}

proof fn lemma_appended_stops(s: Seq<SpecComponent>, p: Seq<SpecComponent>, k: int)
    requires
        0 < k <= p.len(),
        !appended(s, p.subrange(0, k)).1,
    ensures
        appended(s, p) == appended(s, p.subrange(0, k)),
    decreases p.len() - k,
{
    if k < p.len() {
        assert(p.subrange(0, k + 1).drop_last() =~= p.subrange(0, k));
        lemma_appended_stops(s, p, k + 1);
    } else {
        assert(p.subrange(0, k) =~= p);
    }
}

/// The extension of a file name: the part after the final `.`, when the name has a `.`
/// other than a leading one.
pub open spec fn extension_of(name: Seq<u8>) -> Option<Seq<u8>> {
    if name == dot_dot() || last_dot(name) <= 0 {
        None
    } else {
        Some(name.subrange(last_dot(name) + 1, name.len() as int))
    }
}

/// Calls `std::str::from_utf8`. Claimed, as its documentation says: it succeeds exactly when
/// the bytes are valid UTF-8, and the text it gives is made of those bytes.
#[verifier::external_body]
fn str_from_utf8(b: &[u8]) -> (r: Option<&str>)
    ensures
        r is Some <==> valid_utf8(b@),
        r matches Some(s) ==> s.spec_bytes() == b@,
{
    std::str::from_utf8(b).ok()
}

/// How many paths `Path::ancestors` yields: the path itself, then each parent in turn
/// for as long as there is one.
pub open spec fn ancestor_count(s: Seq<SpecComponent>) -> nat
    decreases s.len(),
{
    if has_parent(s) {
        1 + ancestor_count(s.drop_last())
    } else {
        1
    }
}

/// Methods that return information about a path.
pub trait PathInfo: View<V = Seq<SpecComponent>> + Sized {
    /// The path as a `PathBuf`.
    fn as_path(&self) -> (p: &PathBuf)
        ensures
            p@ == self@,
    ;

    /// A copy of the path.
    fn to_arc_pathbuf(&self) -> (p: PathBuf)
        ensures
            p@ == self@,
    {
        self.as_path().duplicate()
    }

    /// The bytes that spell the path (its `OsStr` on Unix).
    fn as_os_str(&self) -> (b: Vec<u8>)
        ensures
            b@ == render(self@),
    {
        self.as_path().to_bytes()
    }

    /// The text of the path, when its bytes are valid UTF-8.
    fn to_str(&self) -> (r: Option<String>)
        ensures
            r is Some <==> valid_utf8(render(self@)),
            r matches Some(s) ==> encode_utf8(s@) == render(self@),
    {
        let bytes = self.as_path().to_bytes();
        match str_from_utf8(bytes.as_slice()) {
            Some(s) => Some(s.to_owned()),
            None => None,
        }
    }

    /// The components of the path, in order.
    fn components(&self) -> (v: Vec<Component>)
        ensures
            comps_view(v@) == self@,
    {
        self.as_path().components()
    }

    /// The text of each component, in order: `/` for the root, `.`, `..` or the name.
    fn iter(&self) -> (v: Vec<Vec<u8>>)
        ensures
            v@.len() == self@.len(),
            forall|i: int| 0 <= i < v@.len() ==> #[trigger] v@[i]@ == comp_text(self@[i]),
    {
        let p = self.as_path();
        let mut v: Vec<Vec<u8>> = Vec::new();
        let mut i: usize = 0;
        while i < p.len()
            invariant
                p@ == self@,
                i <= p@.len(),
                v@.len() == i,
                forall|k: int| 0 <= k < i ==> #[trigger] v@[k]@ == comp_text(self@[k]),
            decreases p@.len() - i,
        {
            let t: Vec<u8> = match p.component(i) {
                Component::RootDir => vec![SEP],
                Component::CurDir => vec![DOT],
                Component::ParentDir => vec![DOT, DOT],
                Component::Normal(name) => crate::path::copy_bytes(name.as_slice()),
            };
            proof {
                match self@[i as int] {
                    SpecComponent::CurDir => assert(t@ =~= dot()),
                    SpecComponent::ParentDir => assert(t@ =~= dot_dot()),
                    SpecComponent::RootDir => assert(t@ =~= seq![SEP]),
                    _ => {},
                }
            }
            v.push(t);
            i += 1;
        }
        v
    }

    /// The path, then each of its parents in turn, as `Path::ancestors` yields them.
    fn ancestors(&self) -> (v: Vec<PathBuf>)
        ensures
            v@.len() == ancestor_count(self@),
            forall|i: int| 0 <= i < v@.len() ==> #[trigger] v@[i]@ == self@.take(self@.len() - i),
    {
        let mut cur = self.as_path().duplicate();
        let ghost s = self@;
        let mut v: Vec<PathBuf> = Vec::new();
        assert(s.take(s.len() as int) =~= s);
        v.push(cur.duplicate());
        while cur.pop()
            invariant
                v@.len() >= 1,
                v@.len() <= s.len() + 1,
                cur@ == s.take(s.len() - (v@.len() - 1)),
                forall|i: int| 0 <= i < v@.len() ==> #[trigger] v@[i]@ == s.take(s.len() - i),
                ancestor_count(s) == v@.len() - 1 + ancestor_count(cur@),
            decreases cur@.len(),
        {
            assert(cur@ =~= s.take(s.len() - v@.len()));
            v.push(cur.duplicate());
        }
        v
    }

    /// The rest of the path after the components of `base`, when it starts with them.
    fn strip_prefix(&self, base: &PathBuf) -> (r: Option<PathBuf>)
        ensures
            r is Some <==> base@.is_prefix_of(self@),
            r matches Some(p) ==> p@ == self@.skip(base@.len() as int),
    {
        if !self.starts_with(base) {
            return None;
        }
        let p = self.as_path();
        let mut rest: Vec<Component> = Vec::new();
        let mut i: usize = base.len();
        while i < p.len()
            invariant
                p@ == self@,
                base@.len() <= i <= p@.len(),
                comps_view(rest@) =~= self@.subrange(base@.len() as int, i as int),
            decreases p@.len() - i,
        {
            let c = p.component(i).duplicate();
            let ghost before = rest@;
            rest.push(c);
            assert(comps_view(rest@) =~= comps_view(before).push(c@));
            i += 1;
        }
        Some(PathBuf::from_components(rest))
    }

    /// The path is absolute (on Unix: it starts with the root).
    fn is_absolute(&self) -> (b: bool)
        ensures
            b == has_root(self@),
    {
        self.as_path().is_absolute()
    }

    /// The path is relative.
    fn is_relative(&self) -> (b: bool)
        ensures
            b == !has_root(self@),
    {
        self.as_path().is_relative()
    }

    /// The path starts with the root.
    fn has_root(&self) -> (b: bool)
        ensures
            b == has_root(self@),
    {
        self.as_path().has_root()
    }

    /// The name in the last component, if it is a name.
    fn file_name(&self) -> (r: Option<Vec<u8>>)
        ensures
            r matches Some(n) ==> file_name(self@) == Some(n@),
            r is None ==> file_name(self@) is None,
    {
        self.as_path().file_name()
    }

    /// The file name without its extension.
    fn file_stem(&self) -> (r: Option<Vec<u8>>)
        ensures
            r matches Some(n) ==> file_name(self@) matches Some(f) && n@ == file_stem(f),
            r is None ==> file_name(self@) is None,
    {
        match self.as_path().file_name() {
            None => None,
            Some(name) => {
                let d = find_last_dot(name.as_slice());
                proof {
                    lemma_last_dot_bounds(name@);
                }
                let is_dot_dot = name.len() == 2 && name[0] == DOT && name[1] == DOT;
                if is_dot_dot {
                    assert(name@ =~= dot_dot());
                }
                match d {
                    Some(k) => {
                        if k > 0 && !is_dot_dot {
                            Some(crate::path::copy_bytes(slice_prefix(name.as_slice(), k)))
                        } else {
                            Some(name)
                        }
                    },
                    None => Some(name),
                }
            },
        }
    }

    /// The extension of the file name, if it has one.
    fn extension(&self) -> (r: Option<Vec<u8>>)
        ensures
            r matches Some(n) ==> file_name(self@) matches Some(f) && extension_of(f) == Some(n@),
            r is None ==> file_name(self@) is None || extension_of(file_name(self@)->0) is None,
    {
        match self.as_path().file_name() {
            None => None,
            Some(name) => {
                let d = find_last_dot(name.as_slice());
                proof {
                    lemma_last_dot_bounds(name@);
                }
                let is_dot_dot = name.len() == 2 && name[0] == DOT && name[1] == DOT;
                if is_dot_dot {
                    assert(name@ =~= dot_dot());
                }
                match d {
                    Some(k) => {
                        if k > 0 && !is_dot_dot {
                            let mut ext: Vec<u8> = Vec::new();
                            let mut i = k + 1;
                            while i < name.len()
                                invariant
                                    k + 1 <= i <= name@.len(),
                                    ext@ =~= name@.subrange(k + 1, i as int),
                                decreases name.len() - i,
                            {
                                ext.push(name[i]);
                                i += 1;
                            }
                            Some(ext)
                        } else {
                            None
                        }
                    },
                    None => None,
                }
            },
        }
    }

    /// The path starts with the components of `base`.
    fn starts_with(&self, base: &PathBuf) -> (b: bool)
        ensures
            b == base@.is_prefix_of(self@),
    {
        let p = self.as_path();
        if base.len() > p.len() {
            return false;
        }
        let mut i: usize = 0;
        while i < base.len()
            invariant
                base@.len() <= p@.len(),
                p@ == self@,
                i <= base@.len(),
                base@.subrange(0, i as int) =~= p@.subrange(0, i as int),
            decreases base@.len() - i,
        {
            if !base.component(i).same_as(p.component(i)) {
                assert(base@[i as int] != p@[i as int]);
                return false;
            }
            i += 1;
        }
        assert(base@ =~= base@.subrange(0, i as int));
        true
    }

    /// The path ends with the components of `child`.
    fn ends_with(&self, child: &PathBuf) -> (b: bool)
        ensures
            b == child@.is_suffix_of(self@),
    {
        let p = self.as_path();
        if child.len() > p.len() {
            return false;
        }
        let n = p.len();
        let off = n - child.len();
        let mut i: usize = 0;
        while i < child.len()
            invariant
                off + child@.len() == p@.len() == n,
                p@ == self@,
                i <= child@.len(),
                child@.subrange(0, i as int) =~= p@.subrange(off as int, off + i),
            decreases child@.len() - i,
        {
            if !child.component(i).same_as(p.component(off + i)) {
                assert(child@[i as int] != p@[off + i]);
                return false;
            }
            i += 1;
        }
        assert(child@ =~= child@.subrange(0, i as int));
        true
    }

    /// The path without its final component, or an error when it has no parent
    /// (it is empty or is the root).
    fn parent(&self) -> (r: Result<PathBuf, Error>)
        ensures
            r is Ok <==> has_parent(self@),
            r matches Ok(p) ==> p@ == self@.drop_last(),
            r matches Err(e) ==> no_parent_error(e@, self@),
    {
        match self.as_path().parent() {
            Some(p) => Ok(p),
            None => Err(
                Error::new(
                    IoError::new(ErrorKind::NotFound, "path has no parent"),
                    "truncating to parent",
                    self.to_arc_pathbuf(),
                ),
            ),
        }
    }
}

/// The first `k` elements of a slice.
fn slice_prefix(b: &[u8], k: usize) -> (r: &[u8])
    requires
        k <= b@.len(),
    ensures
        r@ == b@.subrange(0, k as int),
{
    let (front, _) = b.split_at(k);
    front
}

/// Methods that modify a path.
pub trait PathMut: PathInfo {
    /// Appends `path` to this path: pure concatenation, where `..` components go up with
    /// `pop_up` and may consume components of this path. Fails when that would go above the root.
    fn append(&mut self, path: &PathBuf) -> (r: Result<(), Error>)
        ensures
            final(self)@ == appended(old(self)@, path@).0,
            r is Ok <==> appended(old(self)@, path@).1,
            r matches Err(e) ==> root_error(e@, final(self)@),
    ;

    /// Goes up one directory, resolving `..` components at the end of the path first;
    /// a relative path that runs out gets `..` components. Fails at the root.
    fn pop_up(&mut self) -> (r: Result<(), Error>)
        ensures
            final(self)@ == up(old(self)@, 1).0,
            r is Ok <==> up(old(self)@, 1).1,
            r matches Err(e) ==> root_error(e@, final(self)@),
    ;

    /// Removes all components after the root, if any.
    fn truncate_to_root(&mut self)
        ensures
            final(self)@ == truncated_to_root(old(self)@),
    ;

    /// Replaces the file name (or adds one).
    fn set_file_name(&mut self, file_name: &[u8])
        ensures
            final(self)@ == file_name_replaced(old(self)@, file_name@),
    ;

    /// Sets or removes the extension; false, and no change, when there is no file name.
    fn set_extension(&mut self, extension: &[u8]) -> (b: bool)
        requires
            forall|i: int| 0 <= i < extension@.len() ==> extension@[i] != SEP,
        ensures
            b == (file_name(old(self)@) is Some),
            final(self)@ == extension_replaced(old(self)@, extension@),
    ;
}

/// Methods that return new path-like values.
pub trait PathOps: PathInfo {
    type Output: PathInfo;

    /// The concatenation of this path and `path`, as `append` computes it.
    fn concat(&self, path: &PathBuf) -> (r: Result<Self::Output, Error>)
        ensures
            r is Ok <==> appended(self@, path@).1,
            r matches Ok(o) ==> o@ == appended(self@, path@).0,
            r matches Err(e) ==> root_error(e@, appended(self@, path@).0),
    ;

    /// This path with `path` adjoined, as `std::path::Path::join` does: a rooted `path`
    /// replaces it.
    fn join(&self, path: &PathBuf) -> (r: Self::Output)
        ensures
            r@ == pushed(self@, path@),
    ;

    /// This path with the given file name.
    fn with_file_name(&self, file_name: &[u8]) -> (r: Self::Output)
        ensures
            r@ == file_name_replaced(self@, file_name@),
    ;

    /// This path with the given extension.
    fn with_extension(&self, extension: &[u8]) -> (r: Self::Output)
        requires
            forall|i: int| 0 <= i < extension@.len() ==> extension@[i] != SEP,
        ensures
            r@ == extension_replaced(self@, extension@),
    ;
}

impl PathInfo for PathBuf {
    fn as_path(&self) -> (p: &PathBuf) {
        self
    }
}

impl PathMut for PathBuf {
    fn append(&mut self, path: &PathBuf) -> (r: Result<(), Error>) {
        self.append_path(path)
    }

    fn pop_up(&mut self) -> (r: Result<(), Error>) {
        self.pop_up_path()
    }

    fn truncate_to_root(&mut self) {
        self.truncate_path_to_root()
    }

    fn set_file_name(&mut self, file_name: &[u8]) {
        self.set_file_name_bytes(file_name)
    }

    fn set_extension(&mut self, extension: &[u8]) -> (b: bool) {
        self.set_extension_bytes(extension)
    }
}

impl PathOps for PathBuf {
    type Output = PathBuf;

    fn concat(&self, path: &PathBuf) -> (r: Result<PathBuf, Error>) {
        let mut res = self.duplicate();
        match res.append_path(path) {
            Ok(()) => Ok(res),
            Err(e) => Err(e),
        }
    }

    fn join(&self, path: &PathBuf) -> (r: PathBuf) {
        PathBuf::join(self, path)
    }

    fn with_file_name(&self, file_name: &[u8]) -> (r: PathBuf) {
        let mut res = self.duplicate();
        res.set_file_name_bytes(file_name);
        res
    }

    fn with_extension(&self, extension: &[u8]) -> (r: PathBuf) {
        let mut res = self.duplicate();
        res.set_extension_bytes(extension);
        res
    }
}

} // verus!
