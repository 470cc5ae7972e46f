//! File-system paths as the download services see them: an optional root and a
//! list of normal components, with the joining, parent and prefix rules that
//! `std::path::Path` has on Unix targets (`/` is the only separator; there are
//! no drive or UNC prefixes).
use vstd::prelude::*;
use vstd::string::*;

verus! {

/// The mathematical value of a path.
#[verifier::ext_equal]
pub struct PathView {
    pub absolute: bool,
    pub components: Seq<Seq<char>>,
}

/// A path: `absolute` tells whether it starts at the root, `components` are
/// its normal components (never empty, never `.`).
pub struct FsPath {
    pub absolute: bool,
    pub components: Vec<String>,
}

impl View for FsPath {
    type V = PathView;

    open spec fn view(&self) -> PathView {
        PathView { absolute: self.absolute, components: strings_view(self.components@) }
    }
}

/// The character sequences of a sequence of strings.
pub open spec fn strings_view(s: Seq<String>) -> Seq<Seq<char>> {
    s.map_values(|x: String| x@)
}

/// A segment between separators that survives as a component: empty segments
/// (doubled or trailing separators) and `.` segments are dropped.
pub open spec fn keep_component(seg: Seq<char>) -> bool {
    seg.len() > 0 && seg != seq!['.']
}

/// The characters after the last `/` of `s`.
pub open spec fn last_segment(s: Seq<char>) -> Seq<char>
    decreases s.len(),
{
    if s.len() == 0 {
        seq![]
    } else if s.last() == '/' {
        seq![]
    } else {
        last_segment(s.drop_last()).push(s.last())
    }
}

/// The kept components of the segments of `s` that a `/` closes.
pub open spec fn closed_components(s: Seq<char>) -> Seq<Seq<char>>
    decreases s.len(),
{
    if s.len() == 0 {
        seq![]
    } else if s.last() == '/' {
        let seg = last_segment(s.drop_last());
        if keep_component(seg) {
            closed_components(s.drop_last()).push(seg)
        } else {
            closed_components(s.drop_last())
        }
    } else {
        closed_components(s.drop_last())
    }
}

/// The components of the path written as `s`.
pub open spec fn path_components(s: Seq<char>) -> Seq<Seq<char>> {
    let seg = last_segment(s);
    if keep_component(seg) {
        closed_components(s).push(seg)
    } else {
        closed_components(s)
    }
}

/// A path value as parsing produces it: every component is kept (non-empty,
/// not `.`) and holds no separator.
pub open spec fn path_wf(p: PathView) -> bool {
    forall|i: int|
        0 <= i < p.components.len() ==> keep_component(#[trigger] p.components[i]) && !p.components[i].contains('/')
}

/// The path written as `s`.
pub open spec fn parse_path(s: Seq<char>) -> PathView {
    PathView { absolute: s.len() > 0 && s[0] == '/', components: path_components(s) }
}

/// `base` joined with the path written as `rel`: an absolute `rel` replaces
/// `base`, a relative one is appended to it.
pub open spec fn join_path(base: PathView, rel: Seq<char>) -> PathView {
    let r = parse_path(rel);
    if r.absolute {
        r
    } else {
        PathView { absolute: base.absolute, components: base.components + r.components }
    }
}

/// The number of components that `Path::components` yields (the root counts).
pub open spec fn path_depth(p: PathView) -> nat {
    if p.absolute {
        p.components.len() + 1
    } else {
        p.components.len()
    }
}

/// `p` lies at or below `base`.
pub open spec fn path_starts_with(p: PathView, base: PathView) -> bool {
    p.absolute == base.absolute && base.components.len() <= p.components.len()
        && p.components.subrange(0, base.components.len() as int) == base.components
}

/// The parent of `p`: `None` for the root and the empty path.
pub open spec fn path_parent(p: PathView) -> Option<PathView> {
    if p.components.len() == 0 {
        None
    } else {
        Some(PathView { absolute: p.absolute, components: p.components.drop_last() })
    }
}

proof fn lemma_last_segment_no_separator(s: Seq<char>)
    ensures
        !last_segment(s).contains('/'),
    decreases s.len(),
{
    if s.len() > 0 && s.last() != '/' {
        lemma_last_segment_no_separator(s.drop_last());
        let t = last_segment(s.drop_last());
        assert forall|k: int| 0 <= k < t.push(s.last()).len() implies t.push(s.last())[k] != '/' by {
            if k < t.len() {
                assert(t.push(s.last())[k] == t[k]);
            }
        }
    }
}

proof fn lemma_closed_components_wf(s: Seq<char>)
    ensures
        forall|i: int|
            0 <= i < closed_components(s).len() ==> keep_component(#[trigger] closed_components(s)[i])
                && !closed_components(s)[i].contains('/'),
    decreases s.len(),
{
    if s.len() > 0 {
        let t = s.drop_last();
        lemma_closed_components_wf(t);
        lemma_last_segment_no_separator(t);
        let seg = last_segment(t);
        if s.last() == '/' && keep_component(seg) {
            let c = closed_components(t).push(seg);
            assert forall|i: int| 0 <= i < c.len() implies keep_component(#[trigger] c[i])
                && !c[i].contains('/') by {
                if i < closed_components(t).len() {
                    assert(c[i] == closed_components(t)[i]);
                }
            }
        }
    }
}

/// Parsing yields a well-formed path.
pub proof fn lemma_parse_wf(s: Seq<char>)
    ensures
        path_wf(parse_path(s)),
{
    lemma_closed_components_wf(s);
    lemma_last_segment_no_separator(s);
}

/// Joining well-formed paths yields a well-formed path.
pub proof fn lemma_join_wf(base: PathView, rel: Seq<char>)
    requires
        path_wf(base),
    ensures
        path_wf(join_path(base, rel)),
{
    lemma_parse_wf(rel);
    let r = parse_path(rel);
    if !r.absolute {
        let c = base.components + r.components;
        assert forall|i: int| 0 <= i < c.len() implies keep_component(#[trigger] c[i]) && !c[i].contains('/') by {
            if i < base.components.len() {
                assert(c[i] == base.components[i]);
            } else {
                assert(c[i] == r.components[i - base.components.len()]);
            }
        }
    }
}

proof fn lemma_take_step(s: Seq<char>, i: int)
    requires
        0 <= i < s.len(),
    ensures
        s.take(i + 1).drop_last() == s.take(i),
        s.take(i + 1).last() == s[i],
{
    assert(s.take(i + 1).drop_last() =~= s.take(i));
}

/// The view of `v` after pushing `x`.
proof fn lemma_strings_view_push(v: Seq<String>, x: String)
    ensures
        strings_view(v.push(x)) == strings_view(v).push(x@),
{
    assert(strings_view(v.push(x)) =~= strings_view(v).push(x@));
}

/// Splits `s` into its path components.
fn split_components(s: &str) -> (r: Vec<String>)
    ensures
        strings_view(r@) == path_components(s@),
{
    let n = s.unicode_len();
    let mut comps: Vec<String> = Vec::new();
    let mut start: usize = 0;
    let mut i: usize = 0;
    while i < n
        invariant
            n == s@.len(),
            start <= i <= n,
            strings_view(comps@) == closed_components(s@.take(i as int)),
            s@.subrange(start as int, i as int) == last_segment(s@.take(i as int)),
        decreases n - i,
    {
        let c = s.get_char(i);
        proof {
            lemma_take_step(s@, i as int);
        }
        if c == '/' {
            let seg = s.substring_char(start, i);
            let keep = i > start && !(i - start == 1 && s.get_char(start) == '.');
            proof {
                if i - start == 1 && s@[start as int] != '.' {
                    assert(seg@[0] != '.');
                    assert(seg@ != seq!['.']);
                }
                if i - start == 1 && s@[start as int] == '.' {
                    assert(seg@ =~= seq!['.']);
                }
                if i - start > 1 {
                    assert(seg@.len() != seq!['.'].len());
                }
                assert(seg@ == last_segment(s@.take(i as int)));
                assert(keep == keep_component(seg@));
            }
            if keep {
                let owned = seg.to_owned();
                proof {
                    lemma_strings_view_push(comps@, owned);
                }
                comps.push(owned);
            }
            start = i + 1;
            proof {
                assert(s@.subrange(start as int, (i + 1) as int) =~= seq![]);
            }
        } else {
            proof {
                assert(s@.subrange(start as int, (i + 1) as int) =~= s@.subrange(
                    start as int,
                    i as int,
                ).push(c));
            }
        }
        i = i + 1;
    }
    proof {
        assert(s@.take(n as int) =~= s@);
    }
    let seg = s.substring_char(start, n);
    let keep = n > start && !(n - start == 1 && s.get_char(start) == '.');
    proof {
        if n - start == 1 && s@[start as int] != '.' {
            assert(seg@[0] != '.');
            assert(seg@ != seq!['.']);
        }
        if n - start == 1 && s@[start as int] == '.' {
            assert(seg@ =~= seq!['.']);
        }
        assert(keep == keep_component(last_segment(s@)));
    }
    if keep {
        let owned = seg.to_owned();
        proof {
            lemma_strings_view_push(comps@, owned);
        }
        comps.push(owned);
    }
    comps
}

/// Copies a vector of strings.
fn clone_strings(v: &Vec<String>) -> (r: Vec<String>)
    ensures
        strings_view(r@) == strings_view(v@),
{
    let mut r: Vec<String> = Vec::new();
    let mut i: usize = 0;
    while i < v.len()
        invariant
            i <= v.len(),
            strings_view(r@) == strings_view(v@.take(i as int)),
        decreases v.len() - i,
    {
        let x = v[i].clone();
        proof {
            lemma_strings_view_push(r@, x);
            assert(v@.take(i + 1) =~= v@.take(i as int).push(v@[i as int]));
        }
        r.push(x);
        i = i + 1;
    }
    proof {
        assert(v@.take(v.len() as int) =~= v@);
    }
    r
}

impl FsPath {
    /// The path written as `s`.
    pub fn parse(s: &str) -> (r: FsPath)
        ensures
            r@ == parse_path(s@),
            path_wf(r@),
    {
        proof {
            lemma_parse_wf(s@);
        }
        let n = s.unicode_len();
        let absolute = n > 0 && s.get_char(0) == '/';
        let components = split_components(s);
        FsPath { absolute, components }
    }

    /// A copy of this path.
    pub fn duplicate(&self) -> (r: FsPath)
        ensures
            r@ == self@,
    {
        FsPath { absolute: self.absolute, components: clone_strings(&self.components) }
    }

    /// This path joined with the path written as `rel` (`Path::join`).
    pub fn join_str(&self, rel: &str) -> (r: FsPath)
        ensures
            r@ == join_path(self@, rel@),
            path_wf(self@) ==> path_wf(r@),
    {
        proof {
            if path_wf(self@) {
                lemma_join_wf(self@, rel@);
            }
        }
        let n = rel.unicode_len();
        let rel_absolute = n > 0 && rel.get_char(0) == '/';
        let rel_components = split_components(rel);
        if rel_absolute {
            FsPath { absolute: true, components: rel_components }
        } else {
            let mut components = clone_strings(&self.components);
            let mut i: usize = 0;
            while i < rel_components.len()
                invariant
                    i <= rel_components.len(),
                    strings_view(components@) == strings_view(self.components@) + strings_view(
                        rel_components@.take(i as int),
                    ),
                decreases rel_components.len() - i,
            {
                let x = rel_components[i].clone();
                proof {
                    lemma_strings_view_push(components@, x);
                    assert(rel_components@.take(i + 1) =~= rel_components@.take(i as int).push(
                        rel_components@[i as int],
                    ));
                    lemma_strings_view_push(rel_components@.take(i as int), x);
                }
                components.push(x);
                i = i + 1;
            }
            proof {
                assert(rel_components@.take(rel_components.len() as int) =~= rel_components@);
            }
            FsPath { absolute: self.absolute, components }
        }
    }

    /// The number of components that `Path::components` yields.
    pub fn depth(&self) -> (r: usize)
        requires
            self.components.len() < usize::MAX,
        ensures
            r == path_depth(self@),
    {
        if self.absolute {
            self.components.len() + 1
        } else {
            self.components.len()
        }
    }

    /// `Path::parent`.
    pub fn parent(&self) -> (r: Option<FsPath>)
        ensures
            r matches Some(p) ==> path_parent(self@) == Some(p@) && (path_wf(self@) ==> path_wf(p@)),
            r is None <==> path_parent(self@) is None,
    {
        let n = self.components.len();
        if n == 0 {
            None
        } else {
            let mut components: Vec<String> = Vec::new();
            let mut i: usize = 0;
            while i < n - 1
                invariant
                    n == self.components.len(),
                    i <= n - 1,
                    strings_view(components@) == strings_view(self.components@.take(i as int)),
                decreases n - 1 - i,
            {
                let x = self.components[i].clone();
                proof {
                    lemma_strings_view_push(components@, x);
                    assert(self.components@.take(i + 1) =~= self.components@.take(i as int).push(
                        self.components@[i as int],
                    ));
                }
                components.push(x);
                i = i + 1;
            }
            proof {
                assert(strings_view(self.components@.take(n - 1)) =~= strings_view(
                    self.components@,
                ).drop_last());
            }
            Some(FsPath { absolute: self.absolute, components })
        }
    }

    /// Whether the two paths are the same path.
    pub fn same_path(&self, other: &FsPath) -> (r: bool)
        ensures
            r == (self@ == other@),
    {
        if self.absolute != other.absolute || self.components.len() != other.components.len() {
            proof {
                if self@ == other@ {
                    assert(self@.components.len() == other@.components.len());
                }
            }
            return false;
        }
        let n = self.components.len();
        let mut i: usize = 0;
        while i < n
            invariant
                n == self.components.len(),
                n == other.components.len(),
                i <= n,
                forall|j: int| 0 <= j < i ==> self.components@[j]@ == other.components@[j]@,
            decreases n - i,
        {
            if self.components[i] != other.components[i] {
                proof {
                    if self@ == other@ {
                        assert(self@.components[i as int] == other@.components[i as int]);
                    }
                }
                return false;
            }
            i = i + 1;
        }
        proof {
            assert(self@.components =~= other@.components);
        }
        true
    }

    /// `Path::starts_with`: whether this path lies at or below `base`.
    pub fn starts_with(&self, base: &FsPath) -> (r: bool)
        ensures
            r == path_starts_with(self@, base@),
    {
        if self.absolute != base.absolute || base.components.len() > self.components.len() {
            return false;
        }
        let n = base.components.len();
        let mut i: usize = 0;
        while i < n
            invariant
                n == base.components.len(),
                n <= self.components.len(),
                i <= n,
                forall|j: int| 0 <= j < i ==> self.components@[j]@ == base.components@[j]@,
            decreases n - i,
        {
            if self.components[i] != base.components[i] {
                proof {
                    if path_starts_with(self@, base@) {
                        assert(self@.components.subrange(0, n as int)[i as int]
                            == base@.components[i as int]);
                    }
                }
                return false;
            }
            i = i + 1;
        }
        proof {
            assert(self@.components.subrange(0, n as int) =~= base@.components);
        }
        true
    }
}

} // verus!
