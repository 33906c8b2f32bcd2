//! Paths as `/`-separated text.
//!
//! `file_name_of`, `stem_of` and `extension_of` follow `std::path::Path` on
//! any path; `parent_of` and `join_of` follow it on paths written without `.`
//! segments, doubled or trailing separators; `comps` and `lexical` follow
//! `Path::components` and lexical `..` resolution on any path.

use vstd::prelude::*;
use crate::text::{
    Sep, chars_of, join, push_char, push_chars, push_str, same_chars, slice_chars, split_by,
    split_chars, string_of, string_of_range, views,
};

verus! {

/// Index of the last `c` in `s`, or -1.
pub open spec fn last_index(s: Seq<char>, c: char) -> int
    decreases s.len(),
{
    if s.len() == 0 {
        -1
    } else if s.last() == c {
        s.len() - 1
    } else {
        last_index(s.drop_last(), c)
    }
}

pub proof fn lemma_last_index(s: Seq<char>, c: char)
    ensures
        -1 <= last_index(s, c) < s.len(),
        last_index(s, c) >= 0 ==> s[last_index(s, c)] == c,
        forall|j: int| last_index(s, c) < j < s.len() ==> s[j] != c,
    decreases s.len(),
{
    if s.len() > 0 && s.last() != c {
        lemma_last_index(s.drop_last(), c);
        assert forall|j: int| last_index(s, c) < j < s.len() implies s[j] != c by {
            if j < s.len() - 1 {
                assert(s.drop_last()[j] == s[j]);
            }
        }
    }
}

/// The parent of a path (`Path::parent`): `None` for the empty path and `/`.
pub open spec fn parent_of(p: Seq<char>) -> Option<Seq<char>> {
    let i = last_index(p, '/');
    if p.len() == 0 {
        None
    } else if i < 0 {
        Some(Seq::empty())
    } else if i == 0 {
        if p.len() == 1 {
            None
        } else {
            Some(seq!['/'])
        }
    } else {
        Some(p.subrange(0, i))
    }
}

pub proof fn lemma_parent_shorter(p: Seq<char>)
    ensures
        parent_of(p) matches Some(q) ==> q.len() < p.len(),
{
    lemma_last_index(p, '/');
}

/// All proper ancestors of a path: its parent, the parent's parent, and so on.
pub open spec fn ancestors(p: Seq<char>) -> Set<Seq<char>>
    decreases p.len(),
{
    match parent_of(p) {
        None => Set::empty(),
        Some(q) => if q.len() < p.len() {
            ancestors(q).insert(q)
        } else {
            Set::empty()
        },
    }
}

/// A path without its trailing separators and trailing `.` segments, which
/// `Path::components` does not yield.
pub open spec fn trim_tail(p: Seq<char>) -> Seq<char>
    decreases p.len(),
{
    if p.len() > 1 && (p.last() == '/' || (p.last() == '.' && p[p.len() - 2] == '/')) {
        trim_tail(p.drop_last())
    } else {
        p
    }
}

/// The last component of a path (`Path::file_name`); `None` when it is
/// empty, the root, `.` or `..`.
pub open spec fn file_name_of(p: Seq<char>) -> Option<Seq<char>> {
    let t = trim_tail(p);
    let n = t.subrange(last_index(t, '/') + 1, t.len() as int);
    if n.len() == 0 || n == seq!['.'] || n == seq!['.', '.'] {
        None
    } else {
        Some(n)
    }
}

/// The file name without its extension (`Path::file_stem`).
pub open spec fn stem_of(p: Seq<char>) -> Option<Seq<char>> {
    match file_name_of(p) {
        None => None,
        Some(n) => {
            let j = last_index(n, '.');
            if j <= 0 {
                Some(n)
            } else {
                Some(n.subrange(0, j))
            }
        },
    }
}

/// The extension of the file name (`Path::extension`).
pub open spec fn extension_of(p: Seq<char>) -> Option<Seq<char>> {
    match file_name_of(p) {
        None => None,
        Some(n) => {
            let j = last_index(n, '.');
            if j <= 0 {
                None
            } else {
                Some(n.subrange(j + 1, n.len() as int))
            }
        },
    }
}

/// `name` appended to `base` (`Path::join`).
pub open spec fn join_of(base: Seq<char>, name: Seq<char>) -> Seq<char> {
    if name.len() > 0 && name[0] == '/' {
        name
    } else if base.len() == 0 {
        name
    } else if base.last() == '/' {
        base + name
    } else {
        base + seq!['/'] + name
    }
}

/// The path is absolute.
pub open spec fn is_abs(p: Seq<char>) -> bool {
    p.len() > 0 && p[0] == '/'
}

/// Lexical resolution of a list of segments: empty segments and `.` vanish,
/// `..` drops the segment before it (if any).
pub open spec fn resolve_segs(ss: Seq<Seq<char>>) -> Seq<Seq<char>>
    decreases ss.len(),
{
    if ss.len() == 0 {
        ss
    } else {
        let st = resolve_segs(ss.drop_last());
        let x = ss.last();
        if x == seq!['.', '.'] {
            if st.len() > 0 {
                st.drop_last()
            } else {
                st
            }
        } else if x == seq!['.'] || x.len() == 0 {
            st
        } else {
            st.push(x)
        }
    }
}

/// The named components of a path after lexical resolution.
pub open spec fn comps(p: Seq<char>) -> Seq<Seq<char>> {
    resolve_segs(split_by(p, Sep::Char('/')))
}

/// Lexical normalisation: `.` dropped, `..` resolved against the text before
/// it, separators collapsed; a leading `/` kept.
pub open spec fn lexical(p: Seq<char>) -> Seq<char> {
    if is_abs(p) {
        seq!['/'] + join(comps(p), seq!['/'])
    } else {
        join(comps(p), seq!['/'])
    }
}

/// `ps` starts with the components `qs`.
pub open spec fn comps_prefix(qs: Seq<Seq<char>>, ps: Seq<Seq<char>>) -> bool {
    qs.len() <= ps.len() && ps.subrange(0, qs.len() as int) == qs
}

/// `p` lies at or below `root`, comparing whole components (`Path::starts_with`).
pub open spec fn under(p: Seq<char>, root: Seq<char>) -> bool {
    is_abs(p) == is_abs(root) && comps_prefix(comps(root), comps(p))
}

// ───────────────────────────── executable ─────────────────────────────

/// Index of the last `c` in `v`.
pub fn last_index_exec(v: &Vec<char>, c: char) -> (r: Option<usize>)
    ensures
        match r {
            Some(i) => last_index(v@, c) == i,
            None => last_index(v@, c) == -1,
        },
{
    let mut i: usize = v.len();
    assert(v@.subrange(0, v.len() as int) =~= v@);
    while i > 0
        invariant
            0 <= i <= v.len(),
            last_index(v@, c) == last_index(v@.subrange(0, i as int), c),
        decreases i,
    {
        let ghost pre = v@.subrange(0, i as int);
        assert(pre.last() == v@[i - 1]);
        assert(pre.drop_last() =~= v@.subrange(0, i - 1));
        if v[i - 1] == c {
            return Some(i - 1);
        }
        i -= 1;
    }
    assert(v@.subrange(0, 0) =~= Seq::<char>::empty());
    None
}

/// The parent of a path.
pub fn parent(p: &str) -> (r: Option<String>)
    ensures
        opt_seq(r) == parent_of(p@),
{
    let v = chars_of(p);
    if v.len() == 0 {
        return None;
    }
    proof {
        lemma_last_index(v@, '/');
    }
    match last_index_exec(&v, '/') {
        None => Some(String::new()),
        Some(i) => {
            if i == 0 {
                if v.len() == 1 {
                    None
                } else {
                    let mut s = String::new();
                    push_char(&mut s, '/');
                    assert(s@ =~= seq!['/']);
                    Some(s)
                }
            } else {
                Some(string_of_range(&v, 0, i))
            }
        },
    }
}

/// The text of an optional string.
pub open spec fn opt_seq(o: Option<String>) -> Option<Seq<char>> {
    match o {
        Some(s) => Some(s@),
        None => None,
    }
}

fn is_dot_name(n: &Vec<char>) -> (b: bool)
    ensures
        b == (n@ == seq!['.'] || n@ == seq!['.', '.']),
{
    if n.len() == 1 && n[0] == '.' {
        assert(n@ =~= seq!['.']);
        true
    } else if n.len() == 2 && n[0] == '.' && n[1] == '.' {
        assert(n@ =~= seq!['.', '.']);
        true
    } else {
        false
    }
}

/// The last segment of a path.
pub fn file_name(p: &str) -> (r: Option<String>)
    ensures
        opt_seq(r) == file_name_of(p@),
{
    let w = chars_of(p);
    let mut end: usize = w.len();
    assert(w@.subrange(0, end as int) =~= w@);
    while end > 1 && (w[end - 1] == '/' || (w[end - 1] == '.' && w[end - 2] == '/'))
        invariant
            end <= w.len(),
            trim_tail(w@) == trim_tail(w@.subrange(0, end as int)),
        decreases end,
    {
        assert(w@.subrange(0, end as int).drop_last() =~= w@.subrange(0, end - 1));
        end -= 1;
    }
    assert(trim_tail(w@.subrange(0, end as int)) == w@.subrange(0, end as int));
    let v = slice_chars(&w, 0, end);
    proof {
        lemma_last_index(v@, '/');
    }
    let start: usize = match last_index_exec(&v, '/') {
        Some(i) => i + 1,
        None => 0,
    };
    let n = slice_chars(&v, start, v.len());
    if n.len() == 0 || is_dot_name(&n) {
        None
    } else {
        Some(string_of(&n))
    }
}

/// The file name split at its last dot into stem and extension.
pub fn stem_and_extension(p: &str) -> (r: (Option<String>, Option<String>))
    ensures
        opt_seq(r.0) == stem_of(p@),
        opt_seq(r.1) == extension_of(p@),
{
    match file_name(p) {
        None => (None, None),
        Some(name) => {
            let n = chars_of(name.as_str());
            proof {
                lemma_last_index(n@, '.');
            }
            match last_index_exec(&n, '.') {
                None => (Some(name), None),
                Some(j) => {
                    assert(j < n.len());
                    if j == 0 {
                        (Some(name), None)
                    } else {
                        (Some(string_of_range(&n, 0, j)), Some(string_of_range(&n, j + 1, n.len())))
                    }
                },
            }
        },
    }
}

/// `name` appended to `base`.
pub fn join_path(base: &str, name: &str) -> (r: String)
    ensures
        r@ == join_of(base@, name@),
{
    let b = chars_of(base);
    let n = chars_of(name);
    if n.len() > 0 && n[0] == '/' {
        return string_of(&n);
    }
    if b.len() == 0 {
        return string_of(&n);
    }
    let mut s = string_of(&b);
    if b[b.len() - 1] != '/' {
        push_char(&mut s, '/');
    }
    push_chars(&mut s, &n);
    s
}

fn resolve_step(st: &mut Vec<Vec<char>>, x: Vec<char>)
    ensures
        views(final(st)@) == ({
            let s0 = views(old(st)@);
            if x@ == seq!['.', '.'] {
                if s0.len() > 0 {
                    s0.drop_last()
                } else {
                    s0
                }
            } else if x@ == seq!['.'] || x@.len() == 0 {
                s0
            } else {
                s0.push(x@)
            }
        }),
{
    let ghost s0 = views(st@);
    if x.len() == 2 && x[0] == '.' && x[1] == '.' {
        assert(x@ =~= seq!['.', '.']);
        if st.len() > 0 {
            st.pop();
            assert(views(st@) =~= s0.drop_last());
        }
    } else if x.len() == 0 || (x.len() == 1 && x[0] == '.') {
        if x.len() == 1 {
            assert(x@ =~= seq!['.']);
        }
    } else {
        assert(x@ != seq!['.', '.']) by {
            if x@ == seq!['.', '.'] {
                assert(x@.len() == 2 && x@[0] == '.' && x@[1] == '.');
            }
        }
        assert(x@ != seq!['.']) by {
            if x@ == seq!['.'] {
                assert(x@.len() == 1 && x@[0] == '.');
            }
        }
        st.push(x);
        assert(views(st@) =~= s0.push(x@));
    }
}

/// The named components of a path after lexical resolution.
pub fn components(p: &str) -> (r: Vec<Vec<char>>)
    ensures
        views(r@) == comps(p@),
{
    let v = chars_of(p);
    let segs = split_chars(&v, Sep::Char('/'));
    let ghost ss = views(segs@);
    let mut st: Vec<Vec<char>> = Vec::new();
    let mut i: usize = 0;
    assert(ss.subrange(0, 0) =~= Seq::<Seq<char>>::empty());
    while i < segs.len()
        invariant
            ss == views(segs@),
            ss == split_by(v@, Sep::Char('/')),
            0 <= i <= segs.len(),
            views(st@) == resolve_segs(ss.subrange(0, i as int)),
        decreases segs.len() - i,
    {
        let x = segs[i].clone();
        assert(ss.subrange(0, i + 1).drop_last() =~= ss.subrange(0, i as int));
        assert(ss.subrange(0, i + 1).last() == x@);
        resolve_step(&mut st, x);
        i += 1;
    }
    assert(ss.subrange(0, segs.len() as int) =~= ss);
    st
}

/// The texts of `ps` joined with `sep`, appended to `s`.
pub fn push_joined(s: &mut String, ps: &Vec<Vec<char>>, sep: &str)
    ensures
        final(s)@ == old(s)@ + join(views(ps@), sep@),
{
    let ghost start = s@;
    let mut i: usize = 0;
    assert(views(ps@).subrange(0, 0) =~= Seq::<Seq<char>>::empty());
    while i < ps.len()
        invariant
            0 <= i <= ps.len(),
            s@ == start + join(views(ps@).subrange(0, i as int), sep@),
        decreases ps.len() - i,
    {
        let ghost pre = views(ps@).subrange(0, i as int);
        let ghost next = views(ps@).subrange(0, i + 1);
        assert(next.drop_last() =~= pre);
        assert(next.last() == ps@[i as int]@);
        if i > 0 {
            push_str(s, sep);
        } else {
            assert(next =~= seq![ps@[0]@]);
        }
        push_chars(s, &ps[i]);
        assert(s@ =~= start + join(next, sep@));
        i += 1;
    }
    assert(views(ps@).subrange(0, ps.len() as int) =~= views(ps@));
}

/// Lexical normalisation of a path.
pub fn lexical_normalize(p: &str) -> (r: String)
    ensures
        r@ == lexical(p@),
{
    let v = chars_of(p);
    let cs = components(p);
    let mut s = String::new();
    if v.len() > 0 && v[0] == '/' {
        push_char(&mut s, '/');
    }
    push_joined(&mut s, &cs, "/");
    proof {
        reveal_strlit("/");
        assert("/"@ =~= seq!['/']);
    }
    s
}

fn is_abs_exec(v: &Vec<char>) -> (b: bool)
    ensures
        b == is_abs(v@),
{
    v.len() > 0 && v[0] == '/'
}

/// `p` lies at or below `root`, comparing whole components.
pub fn is_under(p: &str, root: &str) -> (b: bool)
    ensures
        b == under(p@, root@),
{
    let pv = chars_of(p);
    let rv = chars_of(root);
    if is_abs_exec(&pv) != is_abs_exec(&rv) {
        return false;
    }
    let pc = components(p);
    let rc = components(root);
    comps_prefix_exec(&rc, &pc)
}

/// `ps` starts with the components `qs`.
pub fn comps_prefix_exec(qs: &Vec<Vec<char>>, ps: &Vec<Vec<char>>) -> (b: bool)
    ensures
        b == comps_prefix(views(qs@), views(ps@)),
{
    if qs.len() > ps.len() {
        return false;
    }
    let mut i: usize = 0;
    while i < qs.len()
        invariant
            qs.len() <= ps.len(),
            0 <= i <= qs.len(),
            forall|j: int| 0 <= j < i ==> views(ps@)[j] == views(qs@)[j],
        decreases qs.len() - i,
    {
        if !same_chars(&ps[i], &qs[i]) {
            assert(views(ps@).subrange(0, qs.len() as int)[i as int] != views(qs@)[i as int]);
            return false;
        }
        i += 1;
    }
    assert(views(ps@).subrange(0, qs.len() as int) =~= views(qs@));
    true
}

} // verus!
