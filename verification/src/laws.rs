//! Properties of the path operations that hold for all inputs.
use vstd::prelude::*;
use crate::abs::{needs_cwd, resolve_one, resolved, resolved_path, Resolution};
use crate::monotonic_path_preview::{advance, all_normal, is_monotonic_absolute, relative_of, Next, RelativeResult};
use crate::ops::{
    appended, append_one, extension_of, lemma_last_dot_bounds, file_name_replaced, file_stem, last_dot, truncated_to_root, up,
    with_extension_name,
};
use crate::path::{
    dot_dot, file_name, has_root, law_parse_name, pushed, without_leading_cur, wf, wf_name, SpecComponent, DOT, SEP,
};

verus! {

/// Resolution continued from an earlier outcome with the components of `q`.
pub open spec fn resolved_from(
    start: Resolution,
    q: Seq<SpecComponent>,
    cwd: Option<Seq<SpecComponent>>,
) -> Resolution
    decreases q.len(),
{
    if q.len() == 0 {
        start
    } else {
        match resolved_from(start, q.drop_last(), cwd) {
            Resolution::Resolved(r) => resolve_one(r, q.last(), cwd),
            other => other,
        }
    }
}

/// Resolving `a + b` resolves `a`, then continues with `b`.
pub proof fn lemma_resolved_concat(
    a: Seq<SpecComponent>,
    b: Seq<SpecComponent>,
    cwd: Option<Seq<SpecComponent>>,
)
    ensures
        resolved(a + b, cwd) == resolved_from(resolved(a, cwd), b, cwd),
    decreases b.len(),
{
    if b.len() == 0 {
        assert(a + b =~= a);
    } else {
        lemma_resolved_concat(a, b.drop_last(), cwd);
        assert((a + b).drop_last() =~= a + b.drop_last());
        assert((a + b).last() == b.last());
    }
}

/// Resolving a path ignores its `.` components: removing one changes nothing.
pub proof fn law_resolve_ignores_cur_dir(
    a: Seq<SpecComponent>,
    b: Seq<SpecComponent>,
    cwd: Option<Seq<SpecComponent>>,
)
    ensures
        resolved_path(a + seq![SpecComponent::CurDir] + b, cwd) == resolved_path(a + b, cwd),
{
    let c = seq![SpecComponent::CurDir];
    lemma_resolved_concat(a + c, b, cwd);
    lemma_resolved_concat(a, b, cwd);
    lemma_resolved_concat(a, c, cwd);
    assert(c.drop_last() =~= Seq::<SpecComponent>::empty());
    assert(c.last() == SpecComponent::CurDir);
    let start = resolved(a, cwd);
    assert(resolved_from(start, c.drop_last(), cwd) == start);
    assert(resolved_from(start, c, cwd) == start);
    assert(resolved(a + c, cwd) == start);
    assert(resolved(a + c + b, cwd) == resolved(a + b, cwd));
}

/// A path that runs straight from the root resolves to itself, whatever the current directory:
/// making an absolute path absolute again changes nothing.
pub proof fn law_resolve_idempotent(s: Seq<SpecComponent>, cwd: Option<Seq<SpecComponent>>)
    requires
        is_monotonic_absolute(s),
    ensures
        resolved_path(s, cwd) == Resolution::Resolved(s),
{
    lemma_resolve_monotonic(s, cwd);
}

proof fn lemma_resolve_monotonic(s: Seq<SpecComponent>, cwd: Option<Seq<SpecComponent>>)
    requires
        is_monotonic_absolute(s),
    ensures
        resolved(s, cwd) == Resolution::Resolved(s),
    decreases s.len(),
{
    if s.len() == 1 {
        assert(s =~= seq![SpecComponent::RootDir]);
        assert(s.drop_last() =~= Seq::<SpecComponent>::empty());
    } else {
        let init = s.drop_last();
        assert forall|i: int| 1 <= i < init.len() implies #[trigger] init[i] is Normal by {
            assert(init[i] == s[i]);
        }
        lemma_resolve_monotonic(init, cwd);
        assert(s.last() == s[s.len() - 1]);
        assert(init.push(s.last()) =~= s);
    }
}

/// Resolving a path whose first component other than `.` is the root (or that has none)
/// does not depend on the current directory.
pub proof fn law_resolve_without_cwd(
    p: Seq<SpecComponent>,
    c1: Option<Seq<SpecComponent>>,
    c2: Option<Seq<SpecComponent>>,
)
    requires
        !needs_cwd(p),
    ensures
        resolved_path(p, c1) == resolved_path(p, c2),
{
    lemma_resolve_without_cwd_prefix(p, c1, c2, p.len() as int);
    assert(p.subrange(0, p.len() as int) =~= p);
    let i = choose|i: int|
        0 <= i < p.len() && p[i] == SpecComponent::RootDir && forall|j: int|
            0 <= j < i ==> #[trigger] p[j] == SpecComponent::CurDir;
    assert(p[i] != SpecComponent::CurDir);
}

proof fn lemma_resolve_without_cwd_prefix(
    p: Seq<SpecComponent>,
    c1: Option<Seq<SpecComponent>>,
    c2: Option<Seq<SpecComponent>>,
    k: int,
)
    requires
        !needs_cwd(p),
        0 <= k <= p.len(),
    ensures
        resolved(p.subrange(0, k), c1) == resolved(p.subrange(0, k), c2),
        (forall|j: int| 0 <= j < k ==> p[j] == SpecComponent::CurDir) ==> resolved(p.subrange(0, k), c1)
            == Resolution::Resolved(Seq::<SpecComponent>::empty()),
        !(forall|j: int| 0 <= j < k ==> p[j] == SpecComponent::CurDir) ==> (resolved(p.subrange(0, k), c1) matches Resolution::Resolved(r) ==> r.len() > 0 && r[0] == SpecComponent::RootDir),
    decreases k,
{
    if k > 0 {
        let q = p.subrange(0, k);
        lemma_resolve_without_cwd_prefix(p, c1, c2, k - 1);
        assert(q.drop_last() =~= p.subrange(0, k - 1));
        assert(q.last() == p[k - 1]);
        if forall|j: int| 0 <= j < k - 1 ==> p[j] == SpecComponent::CurDir {
            if p[k - 1] is ParentDir || p[k - 1] is Normal {
                assert(needs_cwd(p));
            }
        }
        if let Resolution::Resolved(r) = resolved(p.subrange(0, k - 1), c1) {
            if r.len() > 0 {
                match p[k - 1] {
                    SpecComponent::ParentDir => {
                        if r.len() > 1 {
                            assert(r.drop_last()[0] == r[0]);
                        }
                    },
                    SpecComponent::Normal(_) => {
                        assert(r.push(p[k - 1])[0] == r[0]);
                    },
                    _ => {},
                }
            }
        }
    } else {
        assert(p.subrange(0, 0) =~= Seq::<SpecComponent>::empty());
    }
}

/// Resolving against an absolute current directory gives a path that runs straight from the root.
pub proof fn law_resolve_is_absolute(p: Seq<SpecComponent>, cwd: Seq<SpecComponent>)
    requires
        is_monotonic_absolute(cwd),
    ensures
        resolved_path(p, Some(cwd)) matches Resolution::Resolved(r) ==> is_monotonic_absolute(r),
{
    lemma_resolve_absolute_prefix(p, cwd, p.len() as int);
    assert(p.subrange(0, p.len() as int) =~= p);
}

proof fn lemma_resolve_absolute_prefix(p: Seq<SpecComponent>, cwd: Seq<SpecComponent>, k: int)
    requires
        is_monotonic_absolute(cwd),
        0 <= k <= p.len(),
    ensures
        resolved(p.subrange(0, k), Some(cwd)) matches Resolution::Resolved(r) ==> (r.len() == 0
            || is_monotonic_absolute(r)),
    decreases k,
{
    if k > 0 {
        let q = p.subrange(0, k);
        lemma_resolve_absolute_prefix(p, cwd, k - 1);
        assert(q.drop_last() =~= p.subrange(0, k - 1));
        assert(q.last() == p[k - 1]);
        if let Resolution::Resolved(r) = resolved(p.subrange(0, k - 1), Some(cwd)) {
            let b = if r.len() == 0 { cwd } else { r };
            match p[k - 1] {
                SpecComponent::ParentDir => {
                    if b.len() > 1 {
                        assert forall|i: int| 1 <= i < b.drop_last().len() implies #[trigger] b.drop_last()[i] is Normal by {
                            assert(b.drop_last()[i] == b[i]);
                        }
                    }
                },
                SpecComponent::Normal(_) => {
                    assert forall|i: int| 1 <= i < b.push(p[k - 1]).len() implies #[trigger] b.push(p[k - 1])[i] is Normal by {
                        if i < b.len() {
                            assert(b.push(p[k - 1])[i] == b[i]);
                        }
                    }
                },
                _ => {},
            }
        }
    } else {
        assert(p.subrange(0, 0) =~= Seq::<SpecComponent>::empty());
    }
}

/// Going up from a path whose last component is a name removes that name:
/// `pop_up` undoes appending a name.
pub proof fn law_pop_up_removes_name(s: Seq<SpecComponent>, n: Seq<u8>)
    ensures
        up(s.push(SpecComponent::Normal(n)), 1) == (s, true),
{
    let t = s.push(SpecComponent::Normal(n));
    assert(t.drop_last() =~= s);
    assert(t.last() == SpecComponent::Normal(n));
    assert(up(s, 0) == (s, true));
}

/// Going up from the root fails and leaves the root.
pub proof fn law_pop_up_root_fails()
    ensures
        up(seq![SpecComponent::RootDir], 1) == (seq![SpecComponent::RootDir], false),
{
}

/// Appending in two steps is appending the concatenation (as long as the first step succeeds).
pub proof fn law_append_concat(s: Seq<SpecComponent>, a: Seq<SpecComponent>, b: Seq<SpecComponent>)
    requires
        appended(s, a).1,
    ensures
        appended(appended(s, a).0, b) == appended(s, a + b),
    decreases b.len(),
{
    if b.len() == 0 {
        assert(a + b =~= a);
    } else {
        law_append_concat(s, a, b.drop_last());
        assert((a + b).drop_last() =~= a + b.drop_last());
        assert((a + b).last() == b.last());
    }
}

/// Appending `..` is going up.
pub proof fn law_append_parent_is_pop_up(s: Seq<SpecComponent>)
    ensures
        appended(s, seq![SpecComponent::ParentDir]) == up(s, 1),
{
    let p = seq![SpecComponent::ParentDir];
    assert(p.drop_last() =~= Seq::<SpecComponent>::empty());
    assert(appended(s, Seq::<SpecComponent>::empty()) == (s, true));
    assert(p.last() == SpecComponent::ParentDir);
}

/// Appending ignores a root: `concat` with `/etc/passwd` adds `etc/passwd`.
pub proof fn law_append_ignores_root(s: Seq<SpecComponent>, b: Seq<SpecComponent>)
    ensures
        appended(s, seq![SpecComponent::RootDir] + b) == appended(s, b),
{
    let r = seq![SpecComponent::RootDir];
    assert(r.drop_last() =~= Seq::<SpecComponent>::empty());
    assert(appended(s, Seq::<SpecComponent>::empty()) == (s, true));
    assert(r.last() == SpecComponent::RootDir);
    assert(appended(s, r) == (s, true));
    law_append_concat(s, r, b);
}

/// Truncating to the root twice is truncating once.
pub proof fn law_truncate_idempotent(s: Seq<SpecComponent>)
    ensures
        truncated_to_root(truncated_to_root(s)) == truncated_to_root(s),
{
}

/// Joining a rooted path replaces the path.
pub proof fn law_join_rooted_replaces(s: Seq<SpecComponent>, p: Seq<SpecComponent>)
    requires
        has_root(p),
    ensures
        pushed(s, p) == p,
{
}

/// Going up keeps a path well formed, and keeps an absolute path absolute.
pub proof fn law_up_keeps_wf(s: Seq<SpecComponent>, c: nat)
    requires
        wf(s),
    ensures
        wf(up(s, c).0),
        has_root(s) ==> has_root(up(s, c).0),
    decreases s.len(),
{
    if c > 0 && s.len() > 0 {
        let init = s.drop_last();
        assert forall|i: int| 0 <= i < init.len() implies match #[trigger] init[i] {
            SpecComponent::RootDir => i == 0,
            SpecComponent::CurDir => i == 0,
            SpecComponent::ParentDir => true,
            SpecComponent::Normal(n) => wf_name(n),
        } by {
            assert(init[i] == s[i]);
        }
        match s.last() {
            SpecComponent::RootDir => {},
            _ => {
                if has_root(s) && s.len() == 1 {
                    assert(s.last() == s[0]);
                }
                if has_root(s) {
                    assert(init[0] == s[0]);
                }
                law_up_keeps_wf(init, (if s.last() is ParentDir { c + 1 } else if s.last() is Normal { (c - 1) as nat } else { c }) as nat);
            },
        }
    }
}

/// Appending a well-formed path keeps a path well formed, and keeps an absolute path absolute.
pub proof fn law_append_keeps_wf(s: Seq<SpecComponent>, p: Seq<SpecComponent>)
    requires
        wf(s),
        wf(p),
    ensures
        wf(appended(s, p).0),
        has_root(s) ==> has_root(appended(s, p).0),
    decreases p.len(),
{
    if p.len() > 0 {
        let init = p.drop_last();
        assert forall|i: int| 0 <= i < init.len() implies match #[trigger] init[i] {
            SpecComponent::RootDir => i == 0,
            SpecComponent::CurDir => i == 0,
            SpecComponent::ParentDir => true,
            SpecComponent::Normal(n) => wf_name(n),
        } by {
            assert(init[i] == p[i]);
        }
        law_append_keeps_wf(s, init);
        let t = appended(s, init).0;
        law_up_keeps_wf(t, 1);
        assert(p.last() == p[p.len() - 1]);
        match p.last() {
            SpecComponent::Normal(n) => {
                assert(wf_name(n));
                assert forall|i: int| 0 <= i < t.push(p.last()).len() implies match #[trigger] t.push(p.last())[i] {
                    SpecComponent::RootDir => i == 0,
                    SpecComponent::CurDir => i == 0,
                    SpecComponent::ParentDir => true,
                    SpecComponent::Normal(n) => wf_name(n),
                } by {
                    if i < t.len() {
                        assert(t.push(p.last())[i] == t[i]);
                    }
                }
                if has_root(s) {
                    assert(t.push(p.last())[0] == t[0]);
                }
            },
            _ => {},
        }
    }
}

/// A path made of names is already a `Relative` path: `Relative::new` gives it back unchanged.
pub proof fn law_relative_idempotent(s: Seq<SpecComponent>)
    requires
        all_normal(s),
    ensures
        relative_of(s) == RelativeResult::Relative(s),
    decreases s.len(),
{
    if s.len() > 0 {
        let init = s.drop_last();
        assert forall|i: int| 0 <= i < init.len() implies #[trigger] init[i] is Normal by {
            assert(init[i] == s[i]);
        }
        law_relative_idempotent(init);
        assert(s.last() == s[s.len() - 1]);
        assert(s[s.len() - 1] is Normal);
        assert(init.push(s.last()) =~= s);
    } else {
        assert(s =~= Seq::<SpecComponent>::empty());
    }
}

/// `Relative::new` gives a path made of names only.
pub proof fn law_relative_names_only(p: Seq<SpecComponent>)
    ensures
        relative_of(p) matches RelativeResult::Relative(r) ==> all_normal(r),
    decreases p.len(),
{
    if p.len() > 0 {
        law_relative_names_only(p.drop_last());
        if let RelativeResult::Relative(r) = relative_of(p.drop_last()) {
            match p.last() {
                SpecComponent::Normal(_) => {
                    assert forall|i: int| 0 <= i < r.push(p.last()).len() implies #[trigger] r.push(p.last())[i] is Normal by {
                        if i < r.len() {
                            assert(r.push(p.last())[i] == r[i]);
                        }
                    }
                },
                SpecComponent::ParentDir => {
                    if r.len() > 0 {
                        assert forall|i: int| 0 <= i < r.drop_last().len() implies #[trigger] r.drop_last()[i] is Normal by {
                            assert(r.drop_last()[i] == r[i]);
                        }
                    }
                },
                _ => {},
            }
        }
    }
}

/// Appending ignores a `.`: `concat` with `./bar` adds `bar`.
pub proof fn law_append_ignores_cur_dir(s: Seq<SpecComponent>, b: Seq<SpecComponent>)
    ensures
        appended(s, seq![SpecComponent::CurDir] + b) == appended(s, b),
{
    let c = seq![SpecComponent::CurDir];
    assert(c.drop_last() =~= Seq::<SpecComponent>::empty());
    assert(appended(s, Seq::<SpecComponent>::empty()) == (s, true));
    assert(c.last() == SpecComponent::CurDir);
    assert(appended(s, c) == (s, true));
    law_append_concat(s, c, b);
}

/// Appending names adds them at the end: nothing is removed and nothing fails.
pub proof fn law_append_names(s: Seq<SpecComponent>, b: Seq<SpecComponent>)
    requires
        all_normal(b),
    ensures
        appended(s, b) == (s + b, true),
    decreases b.len(),
{
    if b.len() == 0 {
        assert(s + b =~= s);
    } else {
        let init = b.drop_last();
        assert forall|i: int| 0 <= i < init.len() implies #[trigger] init[i] is Normal by {
            assert(init[i] == b[i]);
        }
        law_append_names(s, init);
        assert(b.last() == b[b.len() - 1]);
        assert((s + init).push(b.last()) =~= s + b);
    }
}

/// The index of the last `.` in `x` followed by a `.` and dot-free text `e` is `x.len()`.
proof fn lemma_last_dot_after(x: Seq<u8>, e: Seq<u8>)
    requires
        forall|i: int| 0 <= i < e.len() ==> e[i] != DOT,
    ensures
        last_dot(x.push(DOT) + e) == x.len(),
    decreases e.len(),
{
    if e.len() == 0 {
        assert(x.push(DOT) + e =~= x.push(DOT));
        assert(x.push(DOT).last() == DOT);
    } else {
        let e1 = e.drop_last();
        assert forall|i: int| 0 <= i < e1.len() implies e1[i] != DOT by {
            assert(e1[i] == e[i]);
        }
        lemma_last_dot_after(x, e1);
        assert((x.push(DOT) + e).drop_last() =~= x.push(DOT) + e1);
        assert((x.push(DOT) + e).last() == e[e.len() - 1]);
    }
}

/// Setting an extension (one without `.` or separator) to a file name keeps the name's stem
/// and makes the extension the new one: only the last extension is replaced.
pub proof fn law_set_extension_keeps_stem(name: Seq<u8>, e: Seq<u8>)
    requires
        name.len() > 0,
        e.len() > 0,
        forall|i: int| 0 <= i < e.len() ==> e[i] != DOT && e[i] != SEP,
    ensures
        file_stem(with_extension_name(name, e)) == file_stem(name),
        extension_of(with_extension_name(name, e)) == Some(e),
{
    let st = file_stem(name);
    let r = st.push(DOT) + e;
    assert(st.len() > 0) by {
        lemma_last_dot_bounds(name);
        if !(name == dot_dot() || last_dot(name) <= 0) {
            assert(st.len() == last_dot(name));
        }
    }
    lemma_last_dot_after(st, e);
    assert(r.len() >= 3);
    assert(r != dot_dot());
    assert(r.subrange(0, st.len() as int) =~= st);
    assert(r.subrange(st.len() as int + 1, r.len() as int) =~= e);
}

/// Setting the file name of a path that has one to a single well-formed name replaces the last
/// component and keeps the rest.
pub proof fn law_set_file_name_replaces(s: Seq<SpecComponent>, n: Seq<u8>)
    requires
        file_name(s) is Some,
        wf_name(n),
    ensures
        file_name_replaced(s, n) == s.drop_last().push(SpecComponent::Normal(n)),
        file_name(file_name_replaced(s, n)) == Some(n),
        file_name_replaced(s, n).len() == s.len(),
{
    law_parse_name(n);
    let t = s.drop_last();
    let q = seq![SpecComponent::Normal(n)];
    assert(!has_root(q));
    assert(without_leading_cur(q) == q);
    if t.len() == 0 {
        assert(t.push(SpecComponent::Normal(n)) =~= q);
    } else {
        assert(t + q =~= t.push(SpecComponent::Normal(n)));
    }
}

/// Relative resolution continued from an earlier outcome with the components of `q`.
pub open spec fn relative_from(start: RelativeResult, q: Seq<SpecComponent>) -> RelativeResult
    decreases q.len(),
{
    if q.len() == 0 {
        start
    } else {
        match relative_from(start, q.drop_last()) {
            RelativeResult::Relative(r) => relative_of_step(r, q.last()),
            other => other,
        }
    }
}

/// One step of `relative_of`.
pub open spec fn relative_of_step(r: Seq<SpecComponent>, c: SpecComponent) -> RelativeResult {
    match c {
        SpecComponent::RootDir => RelativeResult::IsAbsolute,
        SpecComponent::CurDir => RelativeResult::Relative(r),
        SpecComponent::ParentDir => if r.len() == 0 {
            RelativeResult::Escapes
        } else {
            RelativeResult::Relative(r.drop_last())
        },
        SpecComponent::Normal(_) => RelativeResult::Relative(r.push(c)),
    }
}

/// Making `a + b` relative makes `a` relative, then continues with `b`.
proof fn lemma_relative_concat(a: Seq<SpecComponent>, b: Seq<SpecComponent>)
    ensures
        relative_of(a + b) == relative_from(relative_of(a), b),
    decreases b.len(),
{
    if b.len() == 0 {
        assert(a + b =~= a);
    } else {
        lemma_relative_concat(a, b.drop_last());
        assert((a + b).drop_last() =~= a + b.drop_last());
        assert((a + b).last() == b.last());
    }
}

/// `Relative::new` ignores `.` components: removing one changes nothing.
pub proof fn law_relative_ignores_cur_dir(a: Seq<SpecComponent>, b: Seq<SpecComponent>)
    ensures
        relative_of(a + seq![SpecComponent::CurDir] + b) == relative_of(a + b),
{
    let c = seq![SpecComponent::CurDir];
    lemma_relative_concat(a + c, b);
    lemma_relative_concat(a, b);
    assert((a + c).drop_last() =~= a);
    assert((a + c).last() == SpecComponent::CurDir);
    assert(relative_of(a + c) == relative_of(a));
}

/// A path of `.` components and names is made relative to its names, in order.
pub proof fn law_relative_keeps_names(p: Seq<SpecComponent>)
    requires
        forall|i: int| 0 <= i < p.len() ==> (#[trigger] p[i] is Normal || p[i] == SpecComponent::CurDir),
    ensures
        relative_of(p) == RelativeResult::Relative(p.filter(|c: SpecComponent| c is Normal)),
    decreases p.len(),
{
    reveal(Seq::filter);
    if p.len() > 0 {
        let init = p.drop_last();
        assert forall|i: int| 0 <= i < init.len() implies (#[trigger] init[i] is Normal || init[i]
            == SpecComponent::CurDir) by {
            assert(init[i] == p[i]);
        }
        law_relative_keeps_names(init);
        assert(p.last() == p[p.len() - 1]);
    } else {
        assert(p.filter(|c: SpecComponent| c is Normal) =~= Seq::<SpecComponent>::empty());
    }
}

/// Resolving an absolute path skips a `.` at the front of what remains to check.
pub proof fn law_advance_skips_cur_dir(
    res: Seq<SpecComponent>,
    t: Seq<SpecComponent>,
    seen: Seq<Seq<SpecComponent>>,
)
    ensures
        advance(res, seq![SpecComponent::CurDir] + t, seen) == advance(res, t, seen),
{
    let q = seq![SpecComponent::CurDir] + t;
    assert(q[0] == SpecComponent::CurDir);
    assert(q.drop_first() =~= t);
}

/// Resolving a tail of names (no `..`) adds them to the path built so far and is done,
/// asking nothing.
pub proof fn law_advance_names(res: Seq<SpecComponent>, t: Seq<SpecComponent>, seen: Seq<Seq<SpecComponent>>)
    requires
        all_normal(t),
    ensures
        advance(res, t, seen) == (res + t, Seq::<SpecComponent>::empty(), seen, Next::Done),
    decreases t.len(),
{
    if t.len() == 0 {
        assert(res + t =~= res);
        assert(t =~= Seq::<SpecComponent>::empty());
    } else {
        let rest = t.drop_first();
        assert forall|i: int| 0 <= i < rest.len() implies #[trigger] rest[i] is Normal by {
            assert(rest[i] == t[i + 1]);
        }
        assert(t[0] is Normal);
        law_advance_names(res.push(t[0]), rest, seen);
        assert(res.push(t[0]) + rest =~= res + t);
    }
}

} // verus!
