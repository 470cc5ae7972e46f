//! Which paths under the game's asset directory an asset group accounts for,
//! and in which order the paths it does not account for are deleted.
use vstd::prelude::*;
use crate::paths::{
    FsPath, PathView, join_path, parse_path, path_depth, path_parent, path_starts_with, strings_view,
};

verus! {

/// The views of a sequence of paths.
pub open spec fn paths_view(s: Seq<FsPath>) -> Seq<PathView> {
    s.map_values(|p: FsPath| p@)
}

/// `a` is a strict ancestor of `q`.
pub open spec fn proper_ancestor(a: PathView, q: PathView) -> bool {
    path_starts_with(q, a) && a.components.len() < q.components.len()
}

/// `p` is one of the paths that the assets `names` account for under `base`:
/// `base` itself, an asset's target `base/name`, or a strict ancestor of a
/// target that lies at or below `base`.
pub open spec fn is_expected_path(base: PathView, names: Seq<Seq<char>>, p: PathView) -> bool {
    ||| p == base
    ||| exists|i: int| 0 <= i < names.len() && p == join_path(base, #[trigger] names[i])
    ||| exists|i: int|
        0 <= i < names.len() && #[trigger] proper_ancestor(p, join_path(base, names[i]))
            && path_starts_with(p, base)
}

/// The paths of `s` in order of deletion: every one, children before parents.
pub open spec fn deletion_ordered(s: Seq<PathView>) -> bool {
    forall|i: int, j: int| 0 <= i < j < s.len() ==> path_depth(#[trigger] s[i]) >= path_depth(#[trigger] s[j])
}

proof fn lemma_starts_with_trans(p: PathView, a: PathView, base: PathView)
    requires
        path_starts_with(p, a),
        path_starts_with(a, base),
    ensures
        path_starts_with(p, base),
{
    let n = base.components.len() as int;
    let m = a.components.len() as int;
    assert forall|k: int| 0 <= k < n implies p.components.subrange(0, n)[k] == base.components[k] by {
        assert(a.components.subrange(0, n)[k] == base.components[k]);
        assert(p.components.subrange(0, m)[k] == a.components[k]);
    }
    assert(p.components.subrange(0, n) =~= base.components);
}

proof fn lemma_parent_step(c: PathView, p: PathView)
    requires
        path_parent(c) == Some(p),
    ensures
        proper_ancestor(p, c),
        forall|a: PathView| proper_ancestor(a, c) ==> a == p || proper_ancestor(a, p),
        forall|q: PathView| proper_ancestor(c, q) ==> proper_ancestor(p, q),
{
    let n = p.components.len() as int;
    assert(c.components.subrange(0, n) =~= p.components);
    assert forall|a: PathView| proper_ancestor(a, c) implies a == p || proper_ancestor(a, p) by {
        let m = a.components.len() as int;
        if m == n {
            assert(a.components =~= p.components);
        } else {
            assert forall|k: int| 0 <= k < m implies p.components.subrange(0, m)[k]
                == a.components[k] by {
                assert(c.components.subrange(0, m)[k] == a.components[k]);
            }
            assert(p.components.subrange(0, m) =~= a.components);
        }
    }
    assert forall|q: PathView| proper_ancestor(c, q) implies proper_ancestor(p, q) by {
        lemma_starts_with_trans(q, c, p);
    }
}

/// Whether `v` holds a path equal to `p`.
pub fn contains_path(v: &Vec<FsPath>, p: &FsPath) -> (r: bool)
    ensures
        r == paths_view(v@).contains(p@),
{
    let mut i: usize = 0;
    while i < v.len()
        invariant
            i <= v.len(),
            forall|j: int| 0 <= j < i ==> v@[j]@ != p@,
        decreases v.len() - i,
    {
        if v[i].same_path(p) {
            proof {
                assert(paths_view(v@)[i as int] == p@);
            }
            return true;
        }
        i = i + 1;
    }
    proof {
        if paths_view(v@).contains(p@) {
            let k = choose|k: int| 0 <= k < paths_view(v@).len() && paths_view(v@)[k] == p@;
            assert(v@[k]@ == p@);
        }
    }
    false
}

proof fn lemma_paths_view_push(v: Seq<FsPath>, x: FsPath)
    ensures
        paths_view(v.push(x)) == paths_view(v).push(x@),
{
    assert(paths_view(v.push(x)) =~= paths_view(v).push(x@));
}

/// The view of an optional path.
pub open spec fn opt_view(o: &Option<FsPath>) -> Option<PathView> {
    match o {
        Some(c) => Some(c@),
        None => None,
    }
}

/// Every strict ancestor below `base` of a path of `s` is in `s`.
pub open spec fn closed_below(s: Seq<PathView>, base: PathView) -> bool {
    forall|q: PathView, a: PathView|
        #![trigger s.contains(q), proper_ancestor(a, q)]
        s.contains(q) && proper_ancestor(a, q) && path_starts_with(a, base) ==> s.contains(a)
}

/// Like `closed_below`, except for the ancestors of `c` (and `c` itself) that
/// paths strictly below `c` are still missing.
pub open spec fn closed_below_except(s: Seq<PathView>, base: PathView, c: PathView) -> bool {
    forall|q: PathView, a: PathView|
        #![trigger s.contains(q), proper_ancestor(a, q)]
        s.contains(q) && proper_ancestor(a, q) && path_starts_with(a, base) && !s.contains(a) ==> (
        a == c || proper_ancestor(a, c)) && proper_ancestor(c, q)
}

/// The state of the walk up from a target towards the base.
pub open spec fn walk_invariant(s: Seq<PathView>, base: PathView, cur: Option<PathView>) -> bool {
    match cur {
        Some(c) => closed_below_except(s, base, c),
        None => closed_below(s, base),
    }
}

proof fn lemma_push_contains(v: Seq<FsPath>, x: FsPath)
    ensures
        forall|q: PathView|
            paths_view(v.push(x)).contains(q) <==> (paths_view(v).contains(q) || q == x@),
{
    lemma_paths_view_push(v, x);
    let old = paths_view(v);
    let new = paths_view(v.push(x));
    assert forall|q: PathView| new.contains(q) <==> (old.contains(q) || q == x@) by {
        if old.contains(q) {
            let k = choose|k: int| 0 <= k < old.len() && old[k] == q;
            assert(new[k] == q);
        }
        if q == x@ {
            assert(new[old.len() as int] == q);
        }
        if new.contains(q) {
            let k = choose|k: int| 0 <= k < new.len() && new[k] == q;
            if k < old.len() {
                assert(old[k] == q);
            }
        }
    }
}

/// Adds `p` to `set` unless a path equal to it is there already.
fn insert_path(set: &mut Vec<FsPath>, p: FsPath)
    requires
        paths_view(old(set)@).no_duplicates(),
    ensures
        paths_view(final(set)@).no_duplicates(),
        forall|q: PathView|
            paths_view(final(set)@).contains(q) <==> (paths_view(old(set)@).contains(q) || q == p@),
{
    if !contains_path(set, &p) {
        proof {
            lemma_push_contains(set@, p);
            lemma_paths_view_push(set@, p);
            let s = paths_view(set@);
            assert forall|i: int, j: int|
                0 <= i < s.push(p@).len() && 0 <= j < s.push(p@).len() && i != j implies s.push(
                p@,
            )[i] != s.push(p@)[j] by {
                if i < s.len() && j < s.len() {
                } else if i < s.len() {
                    assert(s[i] != p@);
                } else {
                    assert(s[j] != p@);
                }
            }
        }
        set.push(p);
    }
}

/// `a == base`, or `a` lies strictly below `base` (at the base's depth a path
/// that starts with the base is the base).
fn at_or_below(a: &FsPath, base: &FsPath) -> (r: bool)
    ensures
        r == path_starts_with(a@, base@),
{
    let r = a.same_path(base) || (a.starts_with(base) && a.components.len() > base.components.len());
    proof {
        if a@ == base@ {
            assert(base@.components.subrange(0, base@.components.len() as int) =~= base@.components);
        }
        if path_starts_with(a@, base@) && a@.components.len() == base@.components.len() {
            assert(a@.components =~= a@.components.subrange(0, base@.components.len() as int));
            assert(a@ == base@);
        }
    }
    r
}

#[verifier::loop_isolation(false)]
/// Records the directories from `current` up to `base`, stopping at the first
/// one that lies outside `base` or is recorded already.
fn record_ancestors(set: &mut Vec<FsPath>, base: &FsPath, current: Option<FsPath>)
    requires
        paths_view(old(set)@).no_duplicates(),
        walk_invariant(paths_view(old(set)@), base@, opt_view(&current)),
    ensures
        paths_view(final(set)@).no_duplicates(),
        closed_below(paths_view(final(set)@), base@),
        forall|q: PathView| #[trigger]
            paths_view(old(set)@).contains(q) ==> paths_view(final(set)@).contains(q),
        forall|q: PathView| #[trigger]
            paths_view(final(set)@).contains(q) ==> paths_view(old(set)@).contains(q) || (
            current matches Some(c) && (q == c@ || proper_ancestor(q, c@)) && path_starts_with(
                q,
                base@,
            )),
{
    let ghost start = opt_view(&current);
    let ghost first = paths_view(set@);
    let mut current = current;
    loop
        invariant
            paths_view(set@).no_duplicates(),
            walk_invariant(paths_view(set@), base@, opt_view(&current)),
            forall|q: PathView| #[trigger] first.contains(q) ==> paths_view(set@).contains(q),
            forall|q: PathView| #[trigger]
                paths_view(set@).contains(q) ==> first.contains(q) || (start matches Some(s0) && (q
                    == s0 || proper_ancestor(q, s0)) && path_starts_with(q, base@)),
            current matches Some(c) ==> (start matches Some(s0) && (c@ == s0 || proper_ancestor(
                c@,
                s0,
            ))),
        decreases
            (match current {
                Some(c) => c.components.len() + 1,
                None => 0int,
            }),
    {
        match current {
            None => {
                break ;
            },
            Some(c) => {
                let ghost cv = c@;
                let ghost sv = paths_view(set@);
                if !at_or_below(&c, base) {
                    proof {
                        assert forall|q: PathView, a: PathView|
                            sv.contains(q) && proper_ancestor(a, q) && path_starts_with(
                                a,
                                base@,
                            ) implies sv.contains(a) by {
                            if !sv.contains(a) {
                                assert(a == cv || proper_ancestor(a, cv));
                                if a != cv {
                                    lemma_starts_with_trans(cv, a, base@);
                                }
                            }
                        }
                    }
                    return ;
                }
                if contains_path(set, &c) {
                    proof {
                        assert forall|q: PathView, a: PathView|
                            sv.contains(q) && proper_ancestor(a, q) && path_starts_with(
                                a,
                                base@,
                            ) implies sv.contains(a) by {
                            if !sv.contains(a) {
                                assert(a == cv || proper_ancestor(a, cv));
                                assert(a != cv);
                                assert(sv.contains(cv) && proper_ancestor(a, cv));
                                assert(proper_ancestor(cv, cv));
                            }
                        }
                    }
                    return ;
                }
                let next = c.parent();
                proof {
                    if let Some(np) = &next {
                        lemma_parent_step(cv, np@);
                    }
                }
                insert_path(set, c);
                proof {
                    let nv = paths_view(set@);
                    let nxt = opt_view(&next);
                    assert forall|q: PathView, a: PathView|
                        nv.contains(q) && proper_ancestor(a, q) && path_starts_with(a, base@)
                            && !nv.contains(a) implies (nxt matches Some(np) && (a == np
                        || proper_ancestor(a, np)) && proper_ancestor(np, q)) by {
                        assert(a != cv);
                        if q == cv {
                            assert(proper_ancestor(a, cv));
                        } else {
                            assert(sv.contains(q) && proper_ancestor(a, q));
                            assert(a == cv || proper_ancestor(a, cv));
                        }
                        if next is None {
                            assert(cv.components.len() == 0);
                        }
                    }
                    assert(walk_invariant(nv, base@, nxt));
                    if let Some(np) = &next {
                        if let Some(s0) = start {
                            if cv != s0 {
                                lemma_starts_with_trans(s0, cv, np@);
                            }
                        }
                    }
                }
                current = next;
            },
        }
    }
}

/// The paths under `target_base_dir` that an asset group with the asset names
/// `names` accounts for: the base directory, the target of every asset and
/// every directory between the base directory and a target.
pub fn expected_paths_for_group(target_base_dir: &FsPath, names: &Vec<String>) -> (r: Vec<FsPath>)
    ensures
        paths_view(r@).no_duplicates(),
        forall|p: PathView|
            paths_view(r@).contains(p) <==> is_expected_path(
                target_base_dir@,
                strings_view(names@),
                p,
            ),
{
    let ghost base = target_base_dir@;
    let ghost ns = strings_view(names@);
    let mut set: Vec<FsPath> = Vec::new();
    let mut idx: usize = 0;
    while idx < names.len()
        invariant
            idx <= names.len(),
            base == target_base_dir@,
            ns == strings_view(names@),
            paths_view(set@).no_duplicates(),
            closed_below(paths_view(set@), base),
            forall|k: int|
                0 <= k < idx ==> paths_view(set@).contains(join_path(base, #[trigger] ns[k])),
            forall|q: PathView|
                #[trigger] paths_view(set@).contains(q) ==> is_expected_path(base, ns, q),
        decreases names.len() - idx,
    {
        let target = target_base_dir.join_str(names[idx].as_str());
        let ghost t = target@;
        let ghost before = paths_view(set@);
        proof {
            assert(ns[idx as int] == names@[idx as int]@);
            assert(t == join_path(base, ns[idx as int]));
            assert(is_expected_path(base, ns, t));
        }
        let parent = target.parent();
        insert_path(&mut set, target);
        proof {
            let sv = paths_view(set@);
            let cur = opt_view(&parent);
            if let Some(p) = &parent {
                lemma_parent_step(t, p@);
            }
            assert forall|q: PathView, a: PathView|
                sv.contains(q) && proper_ancestor(a, q) && path_starts_with(a, base) && !sv.contains(
                    a,
                ) implies (cur matches Some(c) && (a == c || proper_ancestor(a, c))
                && proper_ancestor(c, q)) by {
                if q != t {
                    assert(before.contains(q) && proper_ancestor(a, q));
                }
                if parent is None {
                    assert(t.components.len() == 0);
                }
            }
            assert(walk_invariant(sv, base, cur));
        }
        let ghost mid = paths_view(set@);
        record_ancestors(&mut set, target_base_dir, parent);
        proof {
            let sv = paths_view(set@);
            assert(mid.contains(t));
            assert forall|k: int| 0 <= k <= idx implies sv.contains(
                join_path(base, #[trigger] ns[k]),
            ) by {
                if k < idx {
                    assert(before.contains(join_path(base, ns[k])));
                    assert(mid.contains(join_path(base, ns[k])));
                }
            }
            assert forall|q: PathView| #[trigger] sv.contains(q) implies is_expected_path(
                base,
                ns,
                q,
            ) by {
                if !mid.contains(q) {
                    if let Some(p) = &parent {
                        lemma_parent_step(t, p@);
                        if q != p@ {
                            lemma_starts_with_trans(t, p@, q);
                        }
                    }
                    assert(proper_ancestor(q, t));
                    assert(proper_ancestor(q, join_path(base, ns[idx as int])));
                } else if !before.contains(q) {
                    assert(q == t);
                }
            }
        }
        idx = idx + 1;
    }
    let ghost before = paths_view(set@);
    insert_path(&mut set, target_base_dir.duplicate());
    proof {
        let sv = paths_view(set@);
        assert forall|q: PathView, a: PathView|
            sv.contains(q) && proper_ancestor(a, q) && path_starts_with(a, base) implies sv.contains(
            a,
        ) by {
            if q != base {
                assert(before.contains(q) && proper_ancestor(a, q));
            }
        }
        assert(sv.contains(base));
        assert forall|p: PathView| is_expected_path(base, ns, p) implies sv.contains(p) by {
            if p != base {
                if exists|i: int| 0 <= i < ns.len() && p == join_path(base, #[trigger] ns[i]) {
                    let i = choose|i: int| 0 <= i < ns.len() && p == join_path(base, #[trigger] ns[i]);
                    assert(before.contains(join_path(base, ns[i])));
                } else {
                    let i = choose|i: int|
                        0 <= i < ns.len() && #[trigger] proper_ancestor(p, join_path(base, ns[i]))
                            && path_starts_with(p, base);
                    assert(before.contains(join_path(base, ns[i])));
                    assert(sv.contains(join_path(base, ns[i])));
                }
            }
        }
    }
    set
}

/// Whether `a` has fewer components than `b` (`Path::components().count()`).
pub fn shallower(a: &FsPath, b: &FsPath) -> (r: bool)
    ensures
        r == (path_depth(a@) < path_depth(b@)),
{
    let la = a.components.len();
    let lb = b.components.len();
    if a.absolute == b.absolute {
        la < lb
    } else if a.absolute {
        // depth(a) = la + 1, depth(b) = lb
        la < lb && lb - la > 1
    } else {
        // depth(a) = la, depth(b) = lb + 1
        la <= lb
    }
}

proof fn lemma_paths_view_insert(v: Seq<FsPath>, i: int, x: FsPath)
    requires
        0 <= i <= v.len(),
    ensures
        paths_view(v.insert(i, x)) == paths_view(v).insert(i, x@),
{
    assert(paths_view(v.insert(i, x)) =~= paths_view(v).insert(i, x@));
}

/// The order in which the orphan cleanup deletes: every path of `found` that
/// `expected` does not hold, deepest first, so that a directory comes after
/// everything inside it.
pub fn orphan_deletion_order(found: &Vec<FsPath>, expected: &Vec<FsPath>) -> (r: Vec<FsPath>)
    ensures
        forall|p: PathView|
            paths_view(r@).contains(p) <==> (paths_view(found@).contains(p) && !paths_view(
                expected@,
            ).contains(p)),
        deletion_ordered(paths_view(r@)),
        paths_view(found@).no_duplicates() ==> paths_view(r@).no_duplicates(),
{
    let mut order: Vec<FsPath> = Vec::new();
    let mut i: usize = 0;
    while i < found.len()
        invariant
            i <= found.len(),
            deletion_ordered(paths_view(order@)),
            forall|p: PathView|
                paths_view(order@).contains(p) <==> (paths_view(found@.take(i as int)).contains(p)
                    && !paths_view(expected@).contains(p)),
            paths_view(found@).no_duplicates() ==> paths_view(order@).no_duplicates(),
        decreases found.len() - i,
    {
        let ghost fi = paths_view(found@.take(i as int));
        let ghost fi1 = paths_view(found@.take(i + 1));
        proof {
            assert(found@.take(i + 1) =~= found@.take(i as int).push(found@[i as int]));
            lemma_paths_view_push(found@.take(i as int), found@[i as int]);
            assert(fi1 == fi.push(found@[i as int]@));
        }
        let x = &found[i];
        if contains_path(expected, x) {
            proof {
                assert forall|p: PathView| fi1.contains(p) && !paths_view(expected@).contains(
                    p,
                ) implies fi.contains(p) by {
                    let k = choose|k: int| 0 <= k < fi1.len() && fi1[k] == p;
                    if k < fi.len() {
                        assert(fi[k] == p);
                    }
                }
                assert forall|p: PathView| fi.contains(p) implies fi1.contains(p) by {
                    let k = choose|k: int| 0 <= k < fi.len() && fi[k] == p;
                    assert(fi1[k] == p);
                }
            }
        } else {
            let ghost ov = paths_view(order@);
            let mut pos: usize = 0;
            while pos < order.len() && !shallower(&order[pos], x)
                invariant
                    pos <= order.len(),
                    ov == paths_view(order@),
                    forall|k: int| 0 <= k < pos ==> path_depth(#[trigger] ov[k]) >= path_depth(x@),
                decreases order.len() - pos,
            {
                pos = pos + 1;
            }
            let item = x.duplicate();
            proof {
                lemma_paths_view_insert(order@, pos as int, item);
            }
            order.insert(pos, item);
            proof {
                let nv = paths_view(order@);
                assert(nv == ov.insert(pos as int, x@));
                assert forall|a: int, b: int| 0 <= a < b < nv.len() implies path_depth(
                    #[trigger] nv[a],
                ) >= path_depth(#[trigger] nv[b]) by {
                    if pos < ov.len() {
                        assert(path_depth(ov[pos as int]) < path_depth(x@));
                    }
                    if b < pos {
                        assert(nv[a] == ov[a] && nv[b] == ov[b]);
                    } else if b == pos {
                        assert(nv[a] == ov[a]);
                    } else if a < pos {
                        assert(nv[a] == ov[a] && nv[b] == ov[b - 1]);
                    } else if a == pos {
                        assert(nv[b] == ov[b - 1]);
                        assert(path_depth(ov[b - 1]) <= path_depth(ov[pos as int]));
                    } else {
                        assert(nv[a] == ov[a - 1] && nv[b] == ov[b - 1]);
                    }
                }
                assert forall|p: PathView| nv.contains(p) <==> (ov.contains(p) || p == x@) by {
                    if ov.contains(p) {
                        let k = choose|k: int| 0 <= k < ov.len() && ov[k] == p;
                        if k < pos {
                            assert(nv[k] == p);
                        } else {
                            assert(nv[k + 1] == p);
                        }
                    }
                    if p == x@ {
                        assert(nv[pos as int] == p);
                    }
                    if nv.contains(p) {
                        let k = choose|k: int| 0 <= k < nv.len() && nv[k] == p;
                        if k < pos {
                            assert(ov[k] == p);
                        } else if k > pos {
                            assert(ov[k - 1] == p);
                        }
                    }
                }
                assert forall|p: PathView| nv.contains(p) <==> (fi1.contains(p) && !paths_view(
                    expected@,
                ).contains(p)) by {
                    if fi1.contains(p) {
                        let k = choose|k: int| 0 <= k < fi1.len() && fi1[k] == p;
                        if k < fi.len() {
                            assert(fi[k] == p);
                        }
                    }
                    if fi.contains(p) {
                        let k = choose|k: int| 0 <= k < fi.len() && fi[k] == p;
                        assert(fi1[k] == p);
                    }
                    assert(fi1[fi.len() as int] == x@);
                }
                if paths_view(found@).no_duplicates() {
                    assert(!ov.contains(x@)) by {
                        if ov.contains(x@) {
                            assert(fi.contains(x@));
                            let k = choose|k: int| 0 <= k < fi.len() && fi[k] == x@;
                            assert(paths_view(found@)[k] == paths_view(found@)[i as int]);
                        }
                    }
                    assert forall|a: int, b: int|
                        0 <= a < nv.len() && 0 <= b < nv.len() && a != b implies nv[a] != nv[b] by {
                        if a == pos {
                            if b < pos {
                                assert(nv[b] == ov[b]);
                            } else {
                                assert(nv[b] == ov[b - 1]);
                            }
                        } else if b == pos {
                            if a < pos {
                                assert(nv[a] == ov[a]);
                            } else {
                                assert(nv[a] == ov[a - 1]);
                            }
                        } else {
                            let a0 = if a < pos { a } else { a - 1 };
                            let b0 = if b < pos { b } else { b - 1 };
                            assert(nv[a] == ov[a0] && nv[b] == ov[b0]);
                        }
                    }
                }
            }
        }
        i = i + 1;
    }
    proof {
        assert(found@.take(found.len() as int) =~= found@);
    }
    order
}

proof fn lemma_take_push_contains(g: Seq<FsPath>, i: int)
    requires
        0 <= i < g.len(),
    ensures
        forall|p: PathView|
            paths_view(g.take(i + 1)).contains(p) <==> (paths_view(g.take(i)).contains(p) || p
                == g[i]@),
{
    assert(g.take(i + 1) =~= g.take(i).push(g[i]));
    lemma_push_contains(g.take(i), g[i]);
}

/// The expected paths of the asset groups so far, `all`, together with those
/// of one more group (a set union).
pub fn merge_expected_paths(all: Vec<FsPath>, group: &Vec<FsPath>) -> (r: Vec<FsPath>)
    requires
        paths_view(all@).no_duplicates(),
    ensures
        paths_view(r@).no_duplicates(),
        forall|p: PathView|
            paths_view(r@).contains(p) <==> (paths_view(all@).contains(p) || paths_view(
                group@,
            ).contains(p)),
{
    let ghost first = paths_view(all@);
    let mut acc = all;
    let mut i: usize = 0;
    while i < group.len()
        invariant
            i <= group.len(),
            paths_view(acc@).no_duplicates(),
            forall|p: PathView|
                #![trigger paths_view(acc@).contains(p)]
                paths_view(acc@).contains(p) <==> (first.contains(p) || paths_view(
                    group@.take(i as int),
                ).contains(p)),
        decreases group.len() - i,
    {
        let item = group[i].duplicate();
        let ghost prev = paths_view(acc@);
        let ghost i0 = i as int;
        proof {
            lemma_take_push_contains(group@, i0);
        }
        insert_path(&mut acc, item);
        proof {
            assert forall|p: PathView| #[trigger]
                paths_view(acc@).contains(p) <==> (prev.contains(p) || p == group@[i0]@) by {}
            assert forall|p: PathView| #[trigger]
                prev.contains(p) <==> (first.contains(p) || paths_view(group@.take(i0)).contains(
                    p,
                )) by {}
            assert forall|p: PathView| #[trigger]
                paths_view(group@.take(i0 + 1)).contains(p) <==> (paths_view(
                    group@.take(i0),
                ).contains(p) || p == group@[i0]@) by {}
        }
        i = i + 1;
        proof {
            assert(group@.take(i as int) == group@.take(i0 + 1));
        }
    }
    proof {
        assert(group@.take(group.len() as int) =~= group@);
        assert(paths_view(group@.take(group.len() as int)) == paths_view(group@));
    }
    acc
}

/// The cleanup deletes bottom-up: when a path and one of its ancestors are
/// both deleted, the path is deleted first.
pub proof fn lemma_children_deleted_first(order: Seq<PathView>, i: int, j: int)
    requires
        deletion_ordered(order),
        0 <= i < order.len(),
        0 <= j < order.len(),
        proper_ancestor(order[i], order[j]),
    ensures
        j < i,
{
    if i < j {
        assert(path_depth(order[i]) >= path_depth(order[j]));
    }
}

/// The cleanup never deletes what an asset group accounts for: not the base
/// directory, not the target of any asset, and not any directory between the
/// base directory and a target; whatever else it found, it deletes.
pub proof fn lemma_cleanup_keeps_group_paths(
    base: PathView,
    names: Seq<Seq<char>>,
    expected: Seq<PathView>,
    found: Seq<PathView>,
    order: Seq<PathView>,
)
    requires
        forall|p: PathView| expected.contains(p) <==> is_expected_path(base, names, p),
        forall|p: PathView| order.contains(p) <==> (found.contains(p) && !expected.contains(p)),
    ensures
        !order.contains(base),
        forall|i: int| 0 <= i < names.len() ==> !order.contains(join_path(base, #[trigger] names[i])),
        forall|i: int, a: PathView|
            0 <= i < names.len() && #[trigger] proper_ancestor(a, join_path(base, names[i]))
                && path_starts_with(a, base) ==> !order.contains(a),
        forall|p: PathView|
            found.contains(p) && !is_expected_path(base, names, p) ==> order.contains(p),
{
    assert(is_expected_path(base, names, base));
    assert forall|i: int| 0 <= i < names.len() implies !order.contains(
        join_path(base, #[trigger] names[i]),
    ) by {
        assert(is_expected_path(base, names, join_path(base, names[i])));
    }
    assert forall|i: int, a: PathView|
        0 <= i < names.len() && #[trigger] proper_ancestor(a, join_path(base, names[i]))
            && path_starts_with(a, base) implies !order.contains(a) by {
        assert(is_expected_path(base, names, a));
    }
}

/// What an asset group accounts for is closed upwards: every directory
/// between the base directory and an accounted-for path is accounted for.
pub proof fn lemma_expected_paths_closed(base: PathView, names: Seq<Seq<char>>, p: PathView, a: PathView)
    requires
        is_expected_path(base, names, p),
        proper_ancestor(a, p),
        path_starts_with(a, base),
    ensures
        is_expected_path(base, names, a),
{
    if p != base {
        if exists|i: int| 0 <= i < names.len() && p == join_path(base, #[trigger] names[i]) {
            let i = choose|i: int| 0 <= i < names.len() && p == join_path(base, #[trigger] names[i]);
            assert(proper_ancestor(a, join_path(base, names[i])));
        } else {
            let i = choose|i: int|
                0 <= i < names.len() && #[trigger] proper_ancestor(p, join_path(base, names[i]))
                    && path_starts_with(p, base);
            lemma_starts_with_trans(join_path(base, names[i]), p, a);
            assert(proper_ancestor(a, join_path(base, names[i])));
        }
    }
}

/// An asset with a relative name lands at or below the directory it is
/// joined to.
pub proof fn lemma_relative_join_stays_below(base: PathView, name: Seq<char>)
    requires
        !parse_path(name).absolute,
    ensures
        path_starts_with(join_path(base, name), base),
{
    let j = join_path(base, name);
    assert(j.components.subrange(0, base.components.len() as int) =~= base.components);
}

} // verus!
