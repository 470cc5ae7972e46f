//! Character-level string operations that the services build URLs, file names
//! and relative paths with.
use vstd::prelude::*;
use vstd::string::*;

verus! {

/// `p` occurs in `s` at character index `i`.
pub open spec fn occurs_at(s: Seq<char>, p: Seq<char>, i: int) -> bool {
    0 <= i && i + p.len() <= s.len() && s.subrange(i, i + p.len()) == p
}

/// `i` is the first index at or after `from` where `p` occurs in `s`.
pub open spec fn first_occurrence_from(s: Seq<char>, p: Seq<char>, from: int, i: int) -> bool {
    from <= i && occurs_at(s, p, i) && forall|j: int| from <= j < i ==> !occurs_at(s, p, j)
}

/// `p` occurs in `s` at or after `from`.
pub open spec fn occurs_from(s: Seq<char>, p: Seq<char>, from: int) -> bool {
    exists|i: int| from <= i && occurs_at(s, p, i)
}

/// There is one first occurrence.
pub proof fn lemma_first_occurrence_unique(s: Seq<char>, p: Seq<char>, from: int, i: int, j: int)
    requires
        first_occurrence_from(s, p, from, i),
        first_occurrence_from(s, p, from, j),
    ensures
        i == j,
{
    if i < j {
        assert(!occurs_at(s, p, i));
    }
    if j < i {
        assert(!occurs_at(s, p, j));
    }
}

/// The first index at or after `from` where `p` occurs in `s` (if any).
pub fn find_from(s: &str, p: &str, from: usize) -> (r: Option<usize>)
    ensures
        r matches Some(i) ==> first_occurrence_from(s@, p@, from as int, i as int),
        r is None ==> !occurs_from(s@, p@, from as int),
{
    let n = s.unicode_len();
    let m = p.unicode_len();
    if m > n || from > n - m {
        proof {
            assert forall|i: int| from <= i implies !occurs_at(s@, p@, i) by {}
        }
        return None;
    }
    if m == 0 {
        proof {
            assert(s@.subrange(from as int, from as int) =~= p@);
        }
        return Some(from);
    }
    let last = n - m;
    let mut i: usize = from;
    while i <= last
        invariant
            n == s@.len(),
            m == p@.len(),
            last == n - m,
            m >= 1,
            from <= i,
            i <= last + 1,
            forall|j: int| from <= j < i ==> !occurs_at(s@, p@, j),
        decreases last + 1 - i,
    {
        let mut k: usize = 0;
        let mut matched = true;
        while k < m && matched
            invariant
                n == s@.len(),
                m == p@.len(),
                i + m <= n,
                k <= m,
                matched ==> forall|q: int| 0 <= q < k ==> s@[i + q] == p@[q],
                !matched ==> !occurs_at(s@, p@, i as int),
            decreases m - k + (if matched { 1int } else { 0int }),
        {
            if s.get_char(i + k) != p.get_char(k) {
                proof {
                    if occurs_at(s@, p@, i as int) {
                        assert(s@.subrange(i as int, i + m)[k as int] == p@[k as int]);
                    }
                }
                matched = false;
            } else {
                k = k + 1;
            }
        }
        if matched {
            proof {
                assert(s@.subrange(i as int, i + m) =~= p@);
            }
            return Some(i);
        }
        i = i + 1;
    }
    proof {
        assert forall|j: int| from <= j implies !occurs_at(s@, p@, j) by {}
    }
    None
}

/// The concatenation of `a` and `b`.
pub fn str_concat(a: &str, b: &str) -> (r: String)
    ensures
        r@ == a@ + b@,
{
    let mut r = a.to_owned();
    r.append(b);
    r
}

/// Index just past the last character of `s` that is not `c`
/// (`trim_end_matches(c)` keeps `s[..k]`).
pub open spec fn trim_end_len(s: Seq<char>, c: char) -> nat
    decreases s.len(),
{
    if s.len() == 0 {
        0
    } else if s.last() == c {
        trim_end_len(s.drop_last(), c)
    } else {
        s.len()
    }
}

proof fn lemma_trim_end_len(s: Seq<char>, c: char)
    ensures
        trim_end_len(s, c) <= s.len(),
        forall|j: int| trim_end_len(s, c) <= j < s.len() ==> s[j] == c,
        trim_end_len(s, c) > 0 ==> s[trim_end_len(s, c) - 1] != c,
    decreases s.len(),
{
    if s.len() > 0 && s.last() == c {
        lemma_trim_end_len(s.drop_last(), c);
        assert forall|j: int| trim_end_len(s, c) <= j < s.len() implies s[j] == c by {
            if j < s.len() - 1 {
                assert(s.drop_last()[j] == s[j]);
            }
        }
    }
}

/// `s` with every trailing `/` removed (`str::trim_end_matches('/')`).
pub fn trim_trailing_slashes(s: &str) -> (r: String)
    ensures
        r@ == s@.take(trim_end_len(s@, '/') as int),
{
    let n = s.unicode_len();
    let mut k: usize = n;
    proof {
        assert(s@.take(n as int) =~= s@);
    }
    while k > 0 && s.get_char(k - 1) == '/'
        invariant
            n == s@.len(),
            k <= n,
            trim_end_len(s@.take(k as int), '/') == trim_end_len(s@, '/'),
        decreases k,
    {
        proof {
            assert(s@.take(k as int).drop_last() =~= s@.take(k - 1));
        }
        k = k - 1;
    }
    proof {
        assert(s@.take(n as int) =~= s@);
        if k > 0 {
            assert(s@.take(k as int).last() != '/');
        }
    }
    s.substring_char(0, k).to_owned()
}

/// `s` with every `.` replaced by `/`.
pub open spec fn dots_to_slashes(s: Seq<char>) -> Seq<char> {
    s.map_values(|c: char| if c == '.' { '/' } else { c })
}

/// `s.replace('.', "/")`.
pub fn replace_dots_with_slashes(s: &str) -> (r: String)
    ensures
        r@ == dots_to_slashes(s@),
{
    let n = s.unicode_len();
    let mut r = String::new();
    let mut start: usize = 0;
    let mut i: usize = 0;
    while i < n
        invariant
            n == s@.len(),
            start <= i <= n,
            r@ == dots_to_slashes(s@.take(start as int)),
            forall|j: int| start <= j < i ==> s@[j] != '.',
        decreases n - i,
    {
        if s.get_char(i) == '.' {
            let piece = s.substring_char(start, i);
            r.append(piece);
            r.append("/");
            proof {
                reveal_strlit("/");
                assert(dots_to_slashes(s@.take(i + 1)) =~= dots_to_slashes(s@.take(start as int))
                    + piece@ + seq!['/']);
            }
            start = i + 1;
        }
        i = i + 1;
    }
    let piece = s.substring_char(start, n);
    r.append(piece);
    proof {
        assert(dots_to_slashes(s@.take(n as int)) =~= dots_to_slashes(s@.take(start as int))
            + piece@);
        assert(s@.take(n as int) =~= s@);
    }
    r
}

/// Whether `s` starts with `p`.
pub fn has_prefix(s: &str, p: &str) -> (r: bool)
    ensures
        r == (p@.len() <= s@.len() && s@.subrange(0, p@.len() as int) == p@),
{
    let n = s.unicode_len();
    let m = p.unicode_len();
    if m > n {
        return false;
    }
    let mut k: usize = 0;
    while k < m
        invariant
            n == s@.len(),
            m == p@.len(),
            m <= n,
            k <= m,
            forall|q: int| 0 <= q < k ==> s@[q] == p@[q],
        decreases m - k,
    {
        if s.get_char(k) != p.get_char(k) {
            proof {
                if s@.subrange(0, m as int) == p@ {
                    assert(s@.subrange(0, m as int)[k as int] == p@[k as int]);
                }
            }
            return false;
        }
        k = k + 1;
    }
    proof {
        assert(s@.subrange(0, m as int) =~= p@);
    }
    true
}

} // verus!
