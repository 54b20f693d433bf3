//! Paths as strings: the last component, the directory before it, joining.
use vstd::prelude::*;
use crate::text::{chars_of, string_from_chars};

verus! {

broadcast use vstd::string::group_string_axioms;

// A path is read the way `std::path::Path` reads a Unix path: components are
// separated by runs of `/`, `.` components after the first are ignored, and
// a leading `/` (the root) or a leading `.` component (the current directory)
// comes before the components proper. All functions below look at the first
// `e` characters of `p`.

/// The length of what comes before the first component of `p[..e]`: 1 for a
/// root `/` or a leading `.` component, 0 otherwise.
pub open spec fn head_len(p: Seq<char>, e: int) -> int {
    if e > 0 && p[0] == '/' {
        1
    } else if e > 0 && p[0] == '.' && (e == 1 || p[1] == '/') {
        1
    } else {
        0
    }
}

/// The position of the last `/` in `p[from..e]`, or -1.
pub open spec fn sep_before(p: Seq<char>, from: int, e: int) -> int
    decreases e - from,
{
    if e <= from {
        -1
    } else if p[e - 1] == '/' {
        e - 1
    } else {
        sep_before(p, from, e - 1)
    }
}

/// Where the last component of `p[..e]` starts.
pub open spec fn comp_start(p: Seq<char>, e: int) -> int {
    let i = sep_before(p, head_len(p, e), e);
    if i >= 0 {
        i + 1
    } else {
        head_len(p, e)
    }
}

/// Where `p[..e]` is cut to drop its last component and the `/` before it.
pub open spec fn comp_cut(p: Seq<char>, e: int) -> int {
    let i = sep_before(p, head_len(p, e), e);
    if i >= 0 {
        i
    } else {
        head_len(p, e)
    }
}

/// The last component of `p[..e]` (possibly empty).
pub open spec fn last_comp(p: Seq<char>, e: int) -> Seq<char> {
    p.subrange(comp_start(p, e), e)
}

/// The end of `p[..e]` once trailing `/` and `.` components are dropped.
pub open spec fn trim_end(p: Seq<char>, e: int) -> int
    decreases e,
{
    if 0 <= e <= p.len() && e > head_len(p, e) && (last_comp(p, e).len() == 0 || last_comp(p, e)
        == seq!['.']) && 0 <= comp_cut(p, e) < e {
        trim_end(p, comp_cut(p, e))
    } else {
        e
    }
}

/// The file name of a path (`Path::file_name`): its last component once
/// trailing `/` and `.` are dropped; none for a path that ends in `..`, or
/// that is empty, the root or the current directory.
pub open spec fn file_name_of(p: Seq<char>) -> Option<Seq<char>> {
    let e = trim_end(p, p.len() as int);
    if e > head_len(p, e) && last_comp(p, e) != seq!['.', '.'] {
        Some(last_comp(p, e))
    } else {
        None
    }
}

/// The parent of a path that has a file name (`Path::parent`): the path
/// without its file name, trailing `/` and `.` components dropped.
pub open spec fn parent_of(p: Seq<char>) -> Seq<char> {
    let e = trim_end(p, p.len() as int);
    p.take(trim_end(p, comp_cut(p, e)))
}

/// `dir` joined with a relative `name`: `name` alone when `dir` is empty,
/// `dir + name` when `dir` ends with `/`, `dir + "/" + name` otherwise.
pub open spec fn join_path(dir: Seq<char>, name: Seq<char>) -> Seq<char> {
    if dir.len() == 0 {
        name
    } else if dir.last() == '/' {
        dir + name
    } else {
        dir + seq!['/'] + name
    }
}

proof fn lemma_sep_before_bounds(p: Seq<char>, from: int, e: int)
    requires
        0 <= from,
        e <= p.len(),
    ensures
        sep_before(p, from, e) == -1 || (from <= sep_before(p, from, e) < e && p[sep_before(p, from, e)] == '/'),
        forall|k: int| sep_before(p, from, e) < k < e && from <= k ==> p[k] != '/',
    decreases e - from,
{
    if e > from && p[e - 1] != '/' {
        lemma_sep_before_bounds(p, from, e - 1);
    }
}

/// The position of the last `/` in `v[from..e]`.
fn sep_before_exec(v: &[char], from: usize, e: usize) -> (r: Option<usize>)
    requires
        from <= e <= v@.len(),
    ensures
        match r {
            Some(i) => sep_before(v@, from as int, e as int) == i,
            None => sep_before(v@, from as int, e as int) == -1,
        },
{
    let mut k = e;
    while k > from && v[k - 1] != '/'
        invariant
            from <= k <= e <= v@.len(),
            sep_before(v@, from as int, e as int) == sep_before(v@, from as int, k as int),
        decreases k,
    {
        k = k - 1;
    }
    if k > from {
        Some(k - 1)
    } else {
        None
    }
}

fn head_len_exec(v: &[char], e: usize) -> (h: usize)
    requires
        e <= v@.len(),
    ensures
        h == head_len(v@, e as int),
{
    if e > 0 && v[0] == '/' {
        1
    } else if e > 0 && v[0] == '.' && (e == 1 || v[1] == '/') {
        1
    } else {
        0
    }
}

/// `(comp_start, comp_cut)` of `v[..e]`.
fn last_comp_bounds(v: &[char], e: usize) -> (r: (usize, usize))
    requires
        e <= v@.len(),
    ensures
        r.0 == comp_start(v@, e as int),
        r.1 == comp_cut(v@, e as int),
        r.1 <= r.0 <= e,
        r.0 == e || r.1 < e,
{
    let h = head_len_exec(v, e);
    proof {
        lemma_sep_before_bounds(v@, h as int, e as int);
    }
    if h > e {
        return (e, e);
    }
    match sep_before_exec(v, h, e) {
        Some(i) => (i + 1, i),
        None => (h, h),
    }
}

fn trim_end_exec(v: &[char], e0: usize) -> (e: usize)
    requires
        e0 <= v@.len(),
    ensures
        e == trim_end(v@, e0 as int),
        e <= e0,
{
    let mut e = e0;
    loop
        invariant
            e <= e0 <= v@.len(),
            trim_end(v@, e0 as int) == trim_end(v@, e as int),
        decreases e,
    {
        let h = head_len_exec(v, e);
        let (start, cut) = last_comp_bounds(v, e);
        let len = e - start;
        let dot = len == 1 && v[start] == '.';
        proof {
            let c = last_comp(v@, e as int);
            assert(c.len() == len);
            if len == 1 {
                assert(c[0] == v@[start as int]);
                if dot {
                    assert(c =~= seq!['.']);
                }
            }
            if c == seq!['.'] {
                assert(c.len() == 1);
                assert(c[0] == '.');
            }
            assert(dot == (c == seq!['.']));
        }
        let trim = e > h && (len == 0 || dot) && cut < e;
        assert(trim == (e > head_len(v@, e as int) && (last_comp(v@, e as int).len() == 0
            || last_comp(v@, e as int) == seq!['.']) && 0 <= comp_cut(v@, e as int) < e)) by {
            if len == 1 {
                assert(last_comp(v@, e as int)[0] == v@[start as int]);
                if v@[start as int] == '.' {
                    assert(last_comp(v@, e as int) =~= seq!['.']);
                }
            }
            if last_comp(v@, e as int) == seq!['.'] {
                assert(last_comp(v@, e as int)[0] == '.');
            }
        }
        if !trim {
            return e;
        }
        e = cut;
    }
}

/// The parent and the file name of a path (`Path::parent`, `Path::file_name`),
/// or `None` when the path has no file name.
pub fn parent_and_file_name(p: &str) -> (r: Option<(String, String)>)
    ensures
        r is Some <==> file_name_of(p@) is Some,
        r matches Some((parent, name)) ==> parent@ == parent_of(p@) && name@ == file_name_of(
            p@,
        )->0,
{
    let v = chars_of(p);
    let e = trim_end_exec(v.as_slice(), v.len());
    let h = head_len_exec(v.as_slice(), e);
    let (start, cut) = last_comp_bounds(v.as_slice(), e);
    if e <= h {
        return None;
    }
    let is_dotdot = e - start == 2 && v[start] == '.' && v[start + 1] == '.';
    proof {
        let c = last_comp(v@, e as int);
        assert(c.len() == e - start);
        if e - start == 2 {
            assert(c[0] == v@[start as int]);
            assert(c[1] == v@[start + 1]);
            if is_dotdot {
                assert(c =~= seq!['.', '.']);
            }
        }
        if c == seq!['.', '.'] {
            assert(c.len() == 2);
            assert(c[0] == '.');
            assert(c[1] == '.');
        }
        assert(is_dotdot == (c == seq!['.', '.']));
    }
    if is_dotdot {
        return None;
    }
    let name = string_from_chars(v.as_slice(), start, e);
    let pe = trim_end_exec(v.as_slice(), cut);
    let parent = string_from_chars(v.as_slice(), 0, pe);
    assert(v@.subrange(0, pe as int) =~= v@.take(pe as int));
    Some((parent, name))
}

/// `dir` joined with the relative name `name` (see `join_path`).
pub fn join(dir: &str, name: &str) -> (r: String)
    ensures
        r@ == join_path(dir@, name@),
{
    let v = chars_of(dir);
    if v.len() == 0 {
        return String::from_str(name);
    }
    let mut r = String::from_str(dir);
    if v[v.len() - 1] != '/' {
        proof {
            reveal_strlit("/");
        }
        r.append("/");
    }
    r.append(name);
    r
}

} // verus!
