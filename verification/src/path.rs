//! The component model of a Unix path and the primitive operations on it.
use vstd::prelude::*;
use vstd::string::StringSliceAdditionalSpecFns;

verus! {

/// The byte that separates the components of a path.
pub const SEP: u8 = 0x2f;

/// The byte `.`.
pub const DOT: u8 = 0x2e;

/// One component of a path, as a mathematical value.
pub enum SpecComponent {
    RootDir,
    CurDir,
    ParentDir,
    Normal(Seq<u8>),
}

/// One component of a path: the leading `/`, a leading `.`, a `..` or a name.
#[derive(Debug)]
pub enum Component {
    RootDir,
    CurDir,
    ParentDir,
    Normal(Vec<u8>),
}

impl View for Component {
    type V = SpecComponent;

    open spec fn view(&self) -> SpecComponent {
        match self {
            Component::RootDir => SpecComponent::RootDir,
            Component::CurDir => SpecComponent::CurDir,
            Component::ParentDir => SpecComponent::ParentDir,
            Component::Normal(name) => SpecComponent::Normal(name@),
        }
    }
}

/// The segments of `b` between separators, from first to last (there is always at least one).
pub open spec fn segments(b: Seq<u8>) -> Seq<Seq<u8>>
    decreases b.len(),
{
    if b.len() == 0 {
        seq![Seq::<u8>::empty()]
    } else {
        let init = segments(b.drop_last());
        if b.last() == SEP {
            init.push(Seq::<u8>::empty())
        } else {
            init.update(init.len() - 1, init.last().push(b.last()))
        }
    }
}

/// The bytes `.`.
pub open spec fn dot() -> Seq<u8> {
    seq![DOT]
}

/// The bytes `..`.
pub open spec fn dot_dot() -> Seq<u8> {
    seq![DOT, DOT]
}

/// What one segment contributes: nothing for an empty segment or `.`,
/// a parent component for `..`, and a name otherwise.
pub open spec fn segment_components(seg: Seq<u8>) -> Seq<SpecComponent> {
    if seg.len() == 0 || seg == dot() {
        seq![]
    } else if seg == dot_dot() {
        seq![SpecComponent::ParentDir]
    } else {
        seq![SpecComponent::Normal(seg)]
    }
}

/// The components that a sequence of segments contributes, in order.
pub open spec fn segments_components(segs: Seq<Seq<u8>>) -> Seq<SpecComponent>
    decreases segs.len(),
{
    if segs.len() == 0 {
        seq![]
    } else {
        segments_components(segs.drop_last()) + segment_components(segs.last())
    }
}

/// The leading component that the start of `b` yields: `/` for a rooted path,
/// `.` for a path whose first segment is `.`, nothing otherwise.
pub open spec fn leading_components(b: Seq<u8>) -> Seq<SpecComponent> {
    if b.len() > 0 && b[0] == SEP {
        seq![SpecComponent::RootDir]
    } else if segments(b)[0] == dot() {
        seq![SpecComponent::CurDir]
    } else {
        seq![]
    }
}

/// The components of the path spelled by the bytes `b` on Unix: repeated separators and
/// `.` segments are dropped, except that a leading `/` is the root and a leading `.` is kept.
pub open spec fn parse(b: Seq<u8>) -> Seq<SpecComponent> {
    leading_components(b) + segments_components(segments(b))
}

proof fn lemma_segments_nonempty(b: Seq<u8>)
    ensures
        segments(b).len() >= 1,
    decreases b.len(),
{
    if b.len() > 0 {
        lemma_segments_nonempty(b.drop_last());
    }
}

/// The components that one segment of a path yields, as exec values.
fn segment_to_components(b: &[u8], start: usize, end: usize, out: &mut Vec<Component>)
    requires
        start <= end <= b@.len(),
    ensures
        final(out)@.map_values(|c: Component| c@) == old(out)@.map_values(|c: Component| c@)
            + segment_components(b@.subrange(start as int, end as int)),
{
    let ghost seg = b@.subrange(start as int, end as int);
    let len = end - start;
    if len == 0 {
        assert(out@.map_values(|c: Component| c@) =~= old(out)@.map_values(|c: Component| c@) + segment_components(seg));
    } else if len == 1 && b[start] == DOT {
        assert(seg =~= dot());
        assert(out@.map_values(|c: Component| c@) =~= old(out)@.map_values(|c: Component| c@) + segment_components(seg));
    } else if len == 2 && b[start] == DOT && b[start + 1] == DOT {
        assert(seg =~= dot_dot());
        out.push(Component::ParentDir);
        assert(out@.map_values(|c: Component| c@) =~= old(out)@.map_values(|c: Component| c@) + segment_components(seg));
    } else {
        assert(seg != dot()) by {
            if len == 1 { assert(seg[0] != DOT); } else { assert(seg.len() != 1); }
        }
        assert(seg != dot_dot()) by {
            if len == 2 { assert(seg[0] != DOT || seg[1] != DOT); } else { assert(seg.len() != 2); }
        }
        let mut name: Vec<u8> = Vec::new();
        let mut i = start;
        while i < end
            invariant
                start <= i <= end <= b@.len(),
                name@ =~= b@.subrange(start as int, i as int),
            decreases end - i,
        {
            name.push(b[i]);
            i += 1;
        }
        out.push(Component::Normal(name));
        assert(out@.map_values(|c: Component| c@) =~= old(out)@.map_values(|c: Component| c@) + segment_components(seg));
    }
}

/// Splits the bytes of a path into its components.
pub fn parse_components(b: &[u8]) -> (out: Vec<Component>)
    ensures
        out@.map_values(|c: Component| c@) == parse(b@),
{
    let mut out: Vec<Component> = Vec::new();
    let n = b.len();
    // the leading component
    if n > 0 && b[0] == SEP {
        out.push(Component::RootDir);
    } else {
        let mut j: usize = 0;
        while j < n && b[j] != SEP
            invariant
                j <= n == b@.len(),
                forall|k: int| 0 <= k < j ==> b@[k] != SEP,
            decreases n - j,
        {
            j += 1;
        }
        proof {
            lemma_first_segment(b@, j as int);
        }
        if j == 1 && b[0] == DOT {
            out.push(Component::CurDir);
            assert(segments(b@)[0] =~= dot());
        } else {
            assert(segments(b@)[0] != dot()) by {
                if j == 1 { assert(segments(b@)[0][0] != DOT); } else { assert(segments(b@)[0].len() != 1); }
            }
        }
    }
    assert(out@.map_values(|c: Component| c@) =~= leading_components(b@));
    let ghost lead = leading_components(b@);
    let mut start: usize = 0;
    let mut i: usize = 0;
    proof {
        assert(b@.subrange(0, 0) =~= Seq::<u8>::empty());
    }
    while i < n
        invariant
            start <= i <= n == b@.len(),
            segments(b@.subrange(0, i as int)) =~= segments(b@.subrange(0, start as int)).drop_last()
                .push(b@.subrange(start as int, i as int)) || start == i,
            segments(b@.subrange(0, i as int)).last() =~= b@.subrange(start as int, i as int),
            out@.map_values(|c: Component| c@) =~= lead + segments_components(
                segments(b@.subrange(0, i as int)).drop_last(),
            ),
        decreases n - i,
    {
        let ghost pre = b@.subrange(0, i as int);
        let ghost pre1 = b@.subrange(0, i + 1);
        assert(pre1.drop_last() =~= pre);
        proof {
            lemma_segments_nonempty(pre);
        }
        if b[i] == SEP {
            segment_to_components(b, start, i, &mut out);
            assert(segments(pre1) =~= segments(pre).push(Seq::<u8>::empty()));
            assert(segments(pre1).drop_last() =~= segments(pre));
            assert(segments(pre) =~= segments(pre).drop_last().push(segments(pre).last()));
            start = i + 1;
        } else {
            assert(segments(pre1) =~= segments(pre).update(segments(pre).len() - 1, segments(pre).last().push(b[i as int])));
            assert(segments(pre1).drop_last() =~= segments(pre).drop_last());
        }
        i += 1;
        assert(b@.subrange(start as int, i as int) =~= segments(b@.subrange(0, i as int)).last());
    }
    assert(b@.subrange(0, n as int) =~= b@);
    proof {
        lemma_segments_nonempty(b@);
    }
    segment_to_components(b, start, n, &mut out);
    assert(segments(b@) =~= segments(b@).drop_last().push(segments(b@).last()));
    out
}

/// Before the first separator there is a single segment.
proof fn lemma_segments_before_sep(b: Seq<u8>, k: int)
    requires
        0 <= k <= b.len(),
        forall|i: int| 0 <= i < k ==> b[i] != SEP,
    ensures
        segments(b.subrange(0, k)) =~= seq![b.subrange(0, k)],
    decreases k,
{
    let p = b.subrange(0, k);
    if k > 0 {
        lemma_segments_before_sep(b, k - 1);
        assert(p.drop_last() =~= b.subrange(0, k - 1));
        assert(p.last() != SEP);
        assert(b.subrange(0, k - 1).push(p.last()) =~= p);
        assert(segments(p) =~= seq![b.subrange(0, k - 1)].update(0, b.subrange(0, k - 1).push(p.last())));
        assert(seq![b.subrange(0, k - 1)].update(0, p) =~= seq![p]);
    } else {
        assert(p =~= Seq::<u8>::empty());
    }
}

/// After the first separator the first segment stays fixed.
proof fn lemma_segments_after_sep(b: Seq<u8>, j: int, k: int)
    requires
        0 <= j < k <= b.len(),
        forall|i: int| 0 <= i < j ==> b[i] != SEP,
        b[j] == SEP,
    ensures
        segments(b.subrange(0, k)).len() >= 2,
        segments(b.subrange(0, k))[0] =~= b.subrange(0, j),
    decreases k,
{
    let p = b.subrange(0, k);
    assert(p.drop_last() =~= b.subrange(0, k - 1));
    if k == j + 1 {
        lemma_segments_before_sep(b, j);
    } else {
        lemma_segments_after_sep(b, j, k - 1);
    }
}

/// The first segment of `b` is everything before the first separator.
proof fn lemma_first_segment(b: Seq<u8>, j: int)
    requires
        0 <= j <= b.len(),
        forall|k: int| 0 <= k < j ==> b[k] != SEP,
        j == b.len() || b[j] == SEP,
    ensures
        segments(b)[0] =~= b.subrange(0, j),
{
    assert(b.subrange(0, b.len() as int) =~= b);
    if j == b.len() {
        lemma_segments_before_sep(b, j);
    } else {
        lemma_segments_after_sep(b, j, b.len() as int);
    }
}


/// A name component holds at least one byte, no separator, and is neither `.` nor `..`.
pub open spec fn wf_name(n: Seq<u8>) -> bool {
    &&& n.len() > 0
    &&& n != dot()
    &&& n != dot_dot()
    &&& forall|i: int| 0 <= i < n.len() ==> n[i] != SEP
}

/// A sequence of components that some path yields: the root and `.` only come first,
/// and names are well formed.
pub open spec fn wf(s: Seq<SpecComponent>) -> bool {
    forall|i: int|
        0 <= i < s.len() ==> match #[trigger] s[i] {
            SpecComponent::RootDir => i == 0,
            SpecComponent::CurDir => i == 0,
            SpecComponent::ParentDir => true,
            SpecComponent::Normal(n) => wf_name(n),
        }
}

/// The path starts with the root (on Unix this is also what makes it absolute).
pub open spec fn has_root(s: Seq<SpecComponent>) -> bool {
    s.len() > 0 && s[0] == SpecComponent::RootDir
}

/// The path has a parent: its last component is something other than the root.
pub open spec fn has_parent(s: Seq<SpecComponent>) -> bool {
    s.len() > 0 && s.last() != SpecComponent::RootDir
}

/// The path after `PathBuf::pop`: the parent if there is one, else unchanged.
pub open spec fn popped(s: Seq<SpecComponent>) -> Seq<SpecComponent> {
    if has_parent(s) {
        s.drop_last()
    } else {
        s
    }
}

/// The last component, when it is a name.
pub open spec fn file_name(s: Seq<SpecComponent>) -> Option<Seq<u8>> {
    if s.len() > 0 && s.last() is Normal {
        Some(s.last()->Normal_0)
    } else {
        None
    }
}

/// The components of `p` once it stands after others: a leading `.` disappears.
pub open spec fn without_leading_cur(p: Seq<SpecComponent>) -> Seq<SpecComponent> {
    if p.len() > 0 && p[0] == SpecComponent::CurDir {
        p.drop_first()
    } else {
        p
    }
}

/// The path after `PathBuf::push(p)`: a rooted `p` (or any `p` on an empty path) replaces it,
/// else `p` is added after it.
pub open spec fn pushed(s: Seq<SpecComponent>, p: Seq<SpecComponent>) -> Seq<SpecComponent> {
    if has_root(p) || s.len() == 0 {
        p
    } else {
        s + without_leading_cur(p)
    }
}

/// Copies a byte slice.
pub fn copy_bytes(b: &[u8]) -> (out: Vec<u8>)
    ensures
        out@ == b@,
{
    let mut out: Vec<u8> = Vec::new();
    let mut i: usize = 0;
    while i < b.len()
        invariant
            i <= b@.len(),
            out@ =~= b@.subrange(0, i as int),
        decreases b.len() - i,
    {
        out.push(b[i]);
        i += 1;
    }
    assert(b@.subrange(0, b@.len() as int) =~= b@);
    out
}

impl Component {
    /// A component equal to this one.
    pub fn duplicate(&self) -> (out: Component)
        ensures
            out@ == self@,
    {
        match self {
            Component::RootDir => Component::RootDir,
            Component::CurDir => Component::CurDir,
            Component::ParentDir => Component::ParentDir,
            Component::Normal(n) => Component::Normal(copy_bytes(n.as_slice())),
        }
    }

    /// The component is the root.
    pub fn is_root(&self) -> (b: bool)
        ensures
            b == (self@ == SpecComponent::RootDir),
    {
        match self {
            Component::RootDir => true,
            _ => false,
        }
    }

    /// The component is `.`.
    pub fn is_cur_dir(&self) -> (b: bool)
        ensures
            b == (self@ == SpecComponent::CurDir),
    {
        match self {
            Component::CurDir => true,
            _ => false,
        }
    }

    /// The component is `..`.
    pub fn is_parent_dir(&self) -> (b: bool)
        ensures
            b == (self@ == SpecComponent::ParentDir),
    {
        match self {
            Component::ParentDir => true,
            _ => false,
        }
    }

    /// The component is a name.
    pub fn is_normal(&self) -> (b: bool)
        ensures
            b == (self@ is Normal),
    {
        match self {
            Component::Normal(_) => true,
            _ => false,
        }
    }

    /// Two components are equal.
    pub fn same_as(&self, other: &Component) -> (b: bool)
        ensures
            b == (self@ == other@),
    {
        match (self, other) {
            (Component::RootDir, Component::RootDir) => true,
            (Component::CurDir, Component::CurDir) => true,
            (Component::ParentDir, Component::ParentDir) => true,
            (Component::Normal(a), Component::Normal(b)) => bytes_equal(a.as_slice(), b.as_slice()),
            _ => false,
        }
    }
}

/// Two byte strings are equal.
pub fn bytes_equal(a: &[u8], b: &[u8]) -> (r: bool)
    ensures
        r == (a@ == b@),
{
    if a.len() != b.len() {
        return false;
    }
    let mut i: usize = 0;
    while i < a.len()
        invariant
            i <= a@.len() == b@.len(),
            a@.subrange(0, i as int) =~= b@.subrange(0, i as int),
        decreases a.len() - i,
    {
        if a[i] != b[i] {
            assert(a@[i as int] != b@[i as int]);
            return false;
        }
        i += 1;
    }
    assert(a@ =~= a@.subrange(0, i as int));
    assert(b@ =~= b@.subrange(0, i as int));
    true
}

/// The view of a vector of components.
pub open spec fn comps_view(v: Seq<Component>) -> Seq<SpecComponent> {
    v.map_values(|c: Component| c@)
}

/// A path, held as the sequence of its components.
#[derive(Debug)]
pub struct PathBuf {
    comps: Vec<Component>,
}

impl View for PathBuf {
    type V = Seq<SpecComponent>;

    closed spec fn view(&self) -> Seq<SpecComponent> {
        comps_view(self.comps@)
    }
}

impl PathBuf {
    /// The empty path.
    pub fn new() -> (p: PathBuf)
        ensures
            p@ == Seq::<SpecComponent>::empty(),
    {
        let p = PathBuf { comps: Vec::new() };
        assert(p@ =~= Seq::<SpecComponent>::empty());
        p
    }

    /// The path spelled by the bytes `b`.
    pub fn from_bytes(b: &[u8]) -> (p: PathBuf)
        ensures
            p@ == parse(b@),
    {
        PathBuf { comps: parse_components(b) }
    }

    /// The path spelled by the text `s`.
    pub fn from_str(s: &str) -> (p: PathBuf)
        ensures
            p@ == parse(s.spec_bytes()),
    {
        PathBuf::from_bytes(s.as_bytes())
    }

    /// The path made of the given components.
    pub fn from_components(v: Vec<Component>) -> (p: PathBuf)
        ensures
            p@ == comps_view(v@),
    {
        PathBuf { comps: v }
    }

    /// The number of components.
    pub fn len(&self) -> (n: usize)
        ensures
            n == self@.len(),
    {
        self.comps.len()
    }

    /// The path has no components.
    pub fn is_empty(&self) -> (b: bool)
        ensures
            b == (self@.len() == 0),
    {
        self.comps.len() == 0
    }

    /// The `i`-th component.
    pub fn component(&self, i: usize) -> (c: &Component)
        requires
            i < self@.len(),
        ensures
            c@ == self@[i as int],
    {
        &self.comps[i]
    }

    /// A copy of the components.
    pub fn components(&self) -> (v: Vec<Component>)
        ensures
            comps_view(v@) == self@,
    {
        let mut v: Vec<Component> = Vec::new();
        let mut i: usize = 0;
        while i < self.comps.len()
            invariant
                i <= self.comps@.len(),
                comps_view(v@) =~= comps_view(self.comps@).subrange(0, i as int),
            decreases self.comps.len() - i,
        {
            let c = self.comps[i].duplicate();
            let ghost before = v@;
            v.push(c);
            assert(comps_view(v@) =~= comps_view(before).push(c@));
            i += 1;
        }
        assert(comps_view(self.comps@).subrange(0, i as int) =~= comps_view(self.comps@));
        v
    }

    /// An equal path.
    pub fn duplicate(&self) -> (p: PathBuf)
        ensures
            p@ == self@,
    {
        PathBuf { comps: self.components() }
    }

    /// The path starts with the root.
    pub fn has_root(&self) -> (b: bool)
        ensures
            b == has_root(self@),
    {
        self.comps.len() > 0 && self.comps[0].is_root()
    }

    /// The path is absolute: on Unix, it starts with the root.
    pub fn is_absolute(&self) -> (b: bool)
        ensures
            b == has_root(self@),
    {
        self.has_root()
    }

    /// The path is relative: it does not start with the root.
    pub fn is_relative(&self) -> (b: bool)
        ensures
            b == !has_root(self@),
    {
        !self.has_root()
    }

    /// Adds one component at the end.
    pub fn push_component(&mut self, c: Component)
        ensures
            final(self)@ == old(self)@.push(c@),
    {
        self.comps.push(c);
        assert(comps_view(self.comps@) =~= comps_view(old(self).comps@).push(c@));
    }

    /// Removes the last component unless it is the root or there is none; says whether it did.
    pub fn pop(&mut self) -> (b: bool)
        ensures
            b == has_parent(old(self)@),
            final(self)@ == popped(old(self)@),
    {
        let n = self.comps.len();
        if n > 0 && !self.comps[n - 1].is_root() {
            let _ = self.comps.pop();
            assert(comps_view(self.comps@) =~= comps_view(old(self).comps@).drop_last());
            true
        } else {
            false
        }
    }

    /// The name in the last component, if the last component is a name.
    pub fn file_name(&self) -> (r: Option<Vec<u8>>)
        ensures
            r matches Some(n) ==> file_name(self@) == Some(n@),
            r is None ==> file_name(self@) is None,
    {
        let n = self.comps.len();
        if n == 0 {
            return None;
        }
        match &self.comps[n - 1] {
            Component::Normal(name) => Some(copy_bytes(name.as_slice())),
            _ => None,
        }
    }

    /// The path without its last component, if it has a parent.
    pub fn parent(&self) -> (r: Option<PathBuf>)
        ensures
            r is Some <==> has_parent(self@),
            r matches Some(p) ==> p@ == self@.drop_last(),
    {
        let mut p = self.duplicate();
        if p.pop() {
            Some(p)
        } else {
            None
        }
    }

    /// Adds the path `p` at the end, the way `std::path::PathBuf::push` does.
    pub fn push(&mut self, p: &PathBuf)
        ensures
            final(self)@ == pushed(old(self)@, p@),
    {
        if p.has_root() || self.is_empty() {
            *self = p.duplicate();
        } else {
            let n = p.len();
            let mut i: usize = 0;
            if n > 0 && p.component(0).is_cur_dir() {
                i = 1;
            }
            let ghost start: int = i as int;
            assert(without_leading_cur(p@) =~= p@.subrange(start, n as int));
            assert(self@ =~= old(self)@ + p@.subrange(start, start));
            while i < n
                invariant
                    0 <= start <= i <= n == p@.len(),
                    self@ =~= old(self)@ + p@.subrange(start, i as int),
                decreases n - i,
            {
                let c = p.component(i).duplicate();
                self.push_component(c);
                assert(p@.subrange(start, i + 1) =~= p@.subrange(start, i as int).push(p@[i as int]));
                i += 1;
            }
        }
    }

    /// This path with `p` added at the end, the way `std::path::Path::join` does.
    pub fn join(&self, p: &PathBuf) -> (r: PathBuf)
        ensures
            r@ == pushed(self@, p@),
    {
        let mut r = self.duplicate();
        r.push(p);
        r
    }
}

impl PathBuf {
    /// The two paths have the same components (the equality of `std::path::PathBuf`).
    pub fn same_path(&self, other: &PathBuf) -> (b: bool)
        ensures
            b == (self@ == other@),
    {
        if self.len() != other.len() {
            return false;
        }
        let n = self.len();
        let mut i: usize = 0;
        while i < n
            invariant
                i <= n == self@.len() == other@.len(),
                self@.subrange(0, i as int) =~= other@.subrange(0, i as int),
            decreases n - i,
        {
            if !self.component(i).same_as(other.component(i)) {
                assert(self@[i as int] != other@[i as int]);
                return false;
            }
            i += 1;
        }
        assert(self@ =~= self@.subrange(0, n as int));
        assert(other@ =~= other@.subrange(0, n as int));
        true
    }
}

/// The bytes that spell one component.
pub open spec fn comp_text(c: SpecComponent) -> Seq<u8> {
    match c {
        SpecComponent::RootDir => seq![SEP],
        SpecComponent::CurDir => dot(),
        SpecComponent::ParentDir => dot_dot(),
        SpecComponent::Normal(n) => n,
    }
}

/// Text `t` added to the text `buf` of a path: a separator goes between them unless
/// `buf` is empty or already ends with one.
pub open spec fn push_text(buf: Seq<u8>, t: Seq<u8>) -> Seq<u8> {
    if buf.len() == 0 {
        t
    } else if buf.last() == SEP {
        buf + t
    } else {
        buf.push(SEP) + t
    }
}

/// The text of a path: its components spelled one after another.
pub open spec fn render(s: Seq<SpecComponent>) -> Seq<u8>
    decreases s.len(),
{
    if s.len() == 0 {
        seq![]
    } else {
        push_text(render(s.drop_last()), comp_text(s.last()))
    }
}

impl PathBuf {
    /// The bytes that spell the path (its `OsStr` on Unix).
    pub fn to_bytes(&self) -> (b: Vec<u8>)
        ensures
            b@ == render(self@),
    {
        let mut out: Vec<u8> = Vec::new();
        let n = self.len();
        let mut i: usize = 0;
        assert(self@.subrange(0, 0) =~= Seq::<SpecComponent>::empty());
        while i < n
            invariant
                i <= n == self@.len(),
                out@ == render(self@.subrange(0, i as int)),
            decreases n - i,
        {
            let ghost before = out@;
            assert(self@.subrange(0, i + 1).drop_last() =~= self@.subrange(0, i as int));
            if out.len() > 0 && out[out.len() - 1] != SEP {
                out.push(SEP);
            }
            let ghost mid = out@;
            match self.component(i) {
                Component::RootDir => {
                    out.push(SEP);
                },
                Component::CurDir => {
                    out.push(DOT);
                },
                Component::ParentDir => {
                    out.push(DOT);
                    out.push(DOT);
                },
                Component::Normal(name) => {
                    let mut j: usize = 0;
                    while j < name.len()
                        invariant
                            j <= name@.len(),
                            out@ =~= mid + name@.subrange(0, j as int),
                        decreases name@.len() - j,
                    {
                        out.push(name[j]);
                        j += 1;
                    }
                    assert(name@.subrange(0, name@.len() as int) =~= name@);
                },
            }
            assert(out@ =~= push_text(before, comp_text(self@[i as int])));
            i += 1;
        }
        assert(self@.subrange(0, n as int) =~= self@);
        out
    }
}

/// No segment holds a separator.
proof fn lemma_segments_no_sep(b: Seq<u8>)
    ensures
        forall|i: int, j: int|
            0 <= i < segments(b).len() && 0 <= j < segments(b)[i].len() ==> #[trigger] segments(b)[i][j]
                != SEP,
    decreases b.len(),
{
    lemma_segments_nonempty(b);
    if b.len() > 0 {
        let init = segments(b.drop_last());
        lemma_segments_no_sep(b.drop_last());
        lemma_segments_nonempty(b.drop_last());
        if b.last() != SEP {
            assert forall|i: int, j: int|
                0 <= i < segments(b).len() && 0 <= j < segments(b)[i].len() implies #[trigger] segments(b)[i][j]
                    != SEP by {
                if i == init.len() - 1 && j == init.last().len() {
                } else if i == init.len() - 1 {
                    assert(segments(b)[i][j] == init[i][j]);
                } else {
                    assert(segments(b)[i] == init[i]);
                }
            }
        } else {
            assert forall|i: int, j: int|
                0 <= i < segments(b).len() && 0 <= j < segments(b)[i].len() implies #[trigger] segments(b)[i][j]
                    != SEP by {
                if i < init.len() {
                    assert(segments(b)[i] == init[i]);
                }
            }
        }
    }
}

/// The components of segments free of separators are `..` and well-formed names.
proof fn lemma_segments_components_wf(segs: Seq<Seq<u8>>)
    requires
        forall|i: int, j: int| 0 <= i < segs.len() && 0 <= j < segs[i].len() ==> #[trigger] segs[i][j] != SEP,
    ensures
        forall|k: int|
            0 <= k < segments_components(segs).len() ==> match #[trigger] segments_components(segs)[k] {
                SpecComponent::ParentDir => true,
                SpecComponent::Normal(n) => wf_name(n),
                _ => false,
            },
    decreases segs.len(),
{
    if segs.len() > 0 {
        let init = segs.drop_last();
        assert forall|i: int, j: int| 0 <= i < init.len() && 0 <= j < init[i].len() implies #[trigger] init[i][j] != SEP by {
            assert(init[i] == segs[i]);
        }
        lemma_segments_components_wf(init);
        let last = segs.last();
        assert forall|j: int| 0 <= j < last.len() implies last[j] != SEP by {
            assert(last[j] == segs[segs.len() - 1][j]);
        }
    }
}

/// The components of any text are well formed.
pub proof fn lemma_parse_wf(b: Seq<u8>)
    ensures
        wf(parse(b)),
{
    lemma_segments_no_sep(b);
    lemma_segments_components_wf(segments(b));
    let lead = leading_components(b);
    let rest = segments_components(segments(b));
    assert forall|i: int| 0 <= i < parse(b).len() implies match #[trigger] parse(b)[i] {
        SpecComponent::RootDir => i == 0,
        SpecComponent::CurDir => i == 0,
        SpecComponent::ParentDir => true,
        SpecComponent::Normal(n) => wf_name(n),
    } by {
        if i >= lead.len() {
            assert(parse(b)[i] == rest[i - lead.len()]);
        }
    }
}

/// Adding separator-free text to a path's text extends its last segment.
proof fn lemma_segments_append(x: Seq<u8>, t: Seq<u8>)
    requires
        forall|i: int| 0 <= i < t.len() ==> t[i] != SEP,
    ensures
        segments(x + t) =~= segments(x).update(
            segments(x).len() - 1,
            segments(x).last() + t,
        ),
    decreases t.len(),
{
    lemma_segments_nonempty(x);
    let segs = segments(x);
    if t.len() == 0 {
        assert(x + t =~= x);
        assert(segs.last() + t =~= segs.last());
        assert(segs.update(segs.len() - 1, segs.last()) =~= segs);
    } else {
        let t1 = t.drop_last();
        let c = t[t.len() - 1];
        assert(forall|i: int| 0 <= i < t1.len() ==> t1[i] != SEP) by {
            assert(forall|i: int| 0 <= i < t1.len() ==> t1[i] == t[i]);
        }
        lemma_segments_append(x, t1);
        assert((x + t).drop_last() =~= x + t1);
        assert((x + t).last() == c);
        assert(c != SEP);
        let mid = segments(x + t1);
        assert(mid.len() == segs.len());
        assert(mid.last() =~= segs.last() + t1);
        assert(segments(x + t) == mid.update(mid.len() - 1, mid.last().push(c)));
        assert((segs.last() + t1).push(c) =~= segs.last() + t);
    }
}

/// The text of a non-empty well-formed path is not empty; it ends with a separator only
/// for the root alone, and starts with one only when the path is rooted.
proof fn lemma_render_nonempty(s: Seq<SpecComponent>)
    requires
        s.len() > 0,
        wf(s),
    ensures
        render(s).len() > 0,
        render(s).last() == SEP <==> s == seq![SpecComponent::RootDir],
        s[0] != SpecComponent::RootDir ==> render(s)[0] != SEP,
    decreases s.len(),
{
    let init = s.drop_last();
    let t = comp_text(s.last());
    if s.len() > 1 {
        assert forall|i: int| 0 <= i < init.len() implies match #[trigger] init[i] {
            SpecComponent::RootDir => i == 0,
            SpecComponent::CurDir => i == 0,
            SpecComponent::ParentDir => true,
            SpecComponent::Normal(n) => wf_name(n),
        } by {
            assert(init[i] == s[i]);
        }
        lemma_render_nonempty(init);
        assert(s.last() == s[s.len() - 1]);
        assert(t.len() > 0 && t.last() != SEP) by {
            match s[s.len() - 1] {
                SpecComponent::Normal(n) => {
                    assert(wf_name(n));
                    assert(n[n.len() - 1] != SEP);
                },
                _ => {},
            }
        }
        assert(s != seq![SpecComponent::RootDir]);
        assert(render(s)[0] == render(init)[0]);
    } else {
        assert(s == seq![s[0]]);
        assert(init =~= Seq::<SpecComponent>::empty());
        assert(render(init) =~= Seq::<u8>::empty());
        assert(render(s) == t);
        assert(s.last() == s[0]);
        match s[0] {
            SpecComponent::Normal(n) => {
                assert(wf_name(n));
                assert(n[0] != SEP);
                assert(n[n.len() - 1] != SEP);
            },
            _ => {},
        }
    }
}

/// Spelling a well-formed path and splitting the text gives back the path.
pub proof fn lemma_render_parse_roundtrip(s: Seq<SpecComponent>)
    requires
        wf(s),
    ensures
        parse(render(s)) == s,
    decreases s.len(),
{
    if s.len() == 0 {
        assert(render(s) =~= Seq::<u8>::empty());
        lemma_segcomps_of_empty_segment();
        assert(parse(render(s)) =~= s);
    } else {
        let init = s.drop_last();
        let last = s.last();
        let t = comp_text(last);
        let b = render(init);
        let big = render(s);
        assert(last == s[s.len() - 1]);
        // the text of the last component holds no separator, unless it is the root
        if s.len() == 1 {
            lemma_roundtrip_single(s[0]);
            assert(s =~= seq![s[0]]);
            assert(render(s) == push_text(render(init), t));
            assert(init =~= Seq::<SpecComponent>::empty());
            assert(render(init) =~= Seq::<u8>::empty());
        } else {
            assert forall|i: int| 0 <= i < init.len() implies match #[trigger] init[i] {
                SpecComponent::RootDir => i == 0,
                SpecComponent::CurDir => i == 0,
                SpecComponent::ParentDir => true,
                SpecComponent::Normal(n) => wf_name(n),
            } by {
                assert(init[i] == s[i]);
            }
            lemma_render_parse_roundtrip(init);
            lemma_render_nonempty(init);
            assert(forall|i: int| 0 <= i < t.len() ==> t[i] != SEP) by {
                match s[s.len() - 1] {
                    SpecComponent::Normal(n) => {
                        assert(wf_name(n));
                    },
                    SpecComponent::ParentDir => {},
                    _ => {},
                }
            }
            assert(segment_components(t) =~= seq![last]) by {
                match s[s.len() - 1] {
                    SpecComponent::Normal(n) => {
                        assert(wf_name(n));
                    },
                    _ => {},
                }
            }
            lemma_segments_nonempty(b);
            if b.last() == SEP {
                // init is the root alone
                assert(init =~= seq![SpecComponent::RootDir]);
                assert(big == b + t);
                lemma_segments_append(b, t);
                lemma_render_root();
                assert(b =~= seq![SEP]);
                lemma_segments_of_sep();
                let e = Seq::<u8>::empty();
                assert(segments(big) =~= seq![e, t]);
                assert(seq![e, t].drop_last() =~= seq![e]);
                lemma_segcomps_of_empty_segment();
                assert(segments_components(seq![e, t]) == segments_components(seq![e]) + segment_components(t));
                assert(segments_components(segments(big)) =~= seq![last]);
                assert(big[0] == SEP);
                assert(parse(big) =~= s);
            } else {
                let x = b.push(SEP);
                assert(big == x + t);
                lemma_segments_append(x, t);
                assert(x.drop_last() =~= b);
                assert(segments(x) =~= segments(b).push(Seq::<u8>::empty()));
                assert(segments(big) =~= segments(b).push(t));
                assert(segments(big).drop_last() =~= segments(b));
                assert(big[0] == b[0]);
                assert(segments(big)[0] == segments(b)[0]);
                assert(leading_components(big) == leading_components(b));
                assert(parse(big) =~= parse(b) + seq![last]);
                assert(init.push(last) =~= s);
            }
        }
    }
}

/// The text of the root alone.
proof fn lemma_render_root()
    ensures
        render(seq![SpecComponent::RootDir]) =~= seq![SEP],
{
    let r = seq![SpecComponent::RootDir];
    assert(r.drop_last() =~= Seq::<SpecComponent>::empty());
    assert(render(r.drop_last()) =~= Seq::<u8>::empty());
}

/// The segments of a lone separator.
proof fn lemma_segments_of_sep()
    ensures
        segments(seq![SEP]) =~= seq![Seq::<u8>::empty(), Seq::<u8>::empty()],
{
    let t = seq![SEP];
    assert(t.drop_last() =~= Seq::<u8>::empty());
    assert(segments(t.drop_last()) =~= seq![Seq::<u8>::empty()]);
}

/// An empty segment contributes nothing.
proof fn lemma_segcomps_of_empty_segment()
    ensures
        segments_components(seq![Seq::<u8>::empty()]) =~= Seq::<SpecComponent>::empty(),
        segments(Seq::<u8>::empty()) =~= seq![Seq::<u8>::empty()],
{
    let segs = seq![Seq::<u8>::empty()];
    assert(segs.drop_last() =~= Seq::<Seq<u8>>::empty());
    assert(segments_components(segs.drop_last()) =~= Seq::<SpecComponent>::empty());
    assert(segment_components(segs.last()) =~= Seq::<SpecComponent>::empty());
}

/// The text of a well-formed name parses to that one name.
pub proof fn law_parse_name(n: Seq<u8>)
    requires
        wf_name(n),
    ensures
        parse(n) == seq![SpecComponent::Normal(n)],
{
    lemma_roundtrip_single(SpecComponent::Normal(n));
}

/// A single component spells text that parses back to it.
proof fn lemma_roundtrip_single(c: SpecComponent)
    requires
        match c {
            SpecComponent::Normal(n) => wf_name(n),
            _ => true,
        },
    ensures
        parse(comp_text(c)) == seq![c],
{
    let t = comp_text(c);
    let e = Seq::<u8>::empty();
    match c {
        SpecComponent::RootDir => {
            lemma_segments_of_sep();
            assert(seq![e, e].drop_last() =~= seq![e]);
            lemma_segcomps_of_empty_segment();
            assert(segments_components(seq![e, e]) == segments_components(seq![e]) + segment_components(e));
            assert(parse(t) =~= seq![c]);
        },
        _ => {
            assert(forall|i: int| 0 <= i < t.len() ==> t[i] != SEP);
            lemma_segments_before_sep(t, t.len() as int);
            assert(t.subrange(0, t.len() as int) =~= t);
            assert(segments(t) =~= seq![t]);
            assert(seq![t].drop_last() =~= Seq::<Seq<u8>>::empty());
            assert(segments_components(seq![t]) == segments_components(Seq::<Seq<u8>>::empty()) + segment_components(t));
            assert(t.len() > 0);
            if c == SpecComponent::CurDir {
                assert(t =~= dot());
                assert(parse(t) =~= seq![c]);
            } else {
                assert(segments(t)[0] != dot()) by {
                    if t == dot() {
                        assert(t.len() == 1);
                    }
                }
                if c == SpecComponent::ParentDir {
                    assert(t =~= dot_dot());
                }
                assert(parse(t) =~= seq![c]);
            }
        },
    }
}

impl PartialEq for PathBuf {
    fn eq(&self, other: &Self) -> (r: bool) {
        self.same_path(other)
    }
}

impl vstd::std_specs::cmp::PartialEqSpecImpl for PathBuf {
    open spec fn obeys_eq_spec() -> bool {
        true
    }

    open spec fn eq_spec(&self, other: &Self) -> bool {
        self@ == other@
    }
}

} // verus!
