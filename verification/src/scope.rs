//! The scope guard: every path must pass it before it may be used.
//! Order: resolve → allow-list (roots) → block-list → hidden components.
//!
//! A `..` that climbs out of a root is caught by the allow-list check once the
//! path is resolved. `ScopeGuard` resolves lexically; following symbolic links
//! needs the file system and is done by the application's adapter, which then
//! applies the same ruling (`ScopeGuard::rule`) to the resolved path.

use vstd::prelude::*;
use crate::model::{Denial, texts};
use crate::path::{comps, is_under, lexical, lexical_normalize, under, components, join_path};
use crate::text::{views, same_chars, chars_of};

verus! {

/// The view of a check's result.
pub open spec fn verdict_of(r: Result<String, Denial>) -> Result<Seq<char>, Denial> {
    match r {
        Ok(p) => Ok(p@),
        Err(d) => Err(d),
    }
}

/// Decides whether a path may be used. The engine depends on this trait only.
///
/// The model function defaults to an unspecified value, so that an
/// implementation outside this verified library, which carries no model, can
/// still be written; every implementation here defines it.
pub trait Guard {
    /// The ruling on a path: its resolved form, or why it is refused.
    closed spec fn verdict(&self, path: Seq<char>) -> Result<Seq<char>, Denial> {
        vstd::pervasive::arbitrary()
    }

    /// Rules on a path: the resolved absolute path if it passes, else the reason.
    fn check(&self, path: &str) -> (r: Result<String, Denial>)
        ensures
            verdict_of(r) == self.verdict(path@),
    ;
}

/// The configuration of a scope guard.
pub struct ScopeV {
    pub roots: Seq<Seq<char>>,
    pub blacklist: Seq<Seq<char>>,
    pub allow_hidden: bool,
}

/// `p` lies under one of `rs`.
pub open spec fn under_any(p: Seq<char>, rs: Seq<Seq<char>>) -> bool {
    exists|i: int| 0 <= i < rs.len() && under(p, rs[i])
}

/// Index of the first of `rs` that `p` lies under, or -1.
pub open spec fn first_under(p: Seq<char>, rs: Seq<Seq<char>>) -> int
    decreases rs.len(),
{
    if rs.len() == 0 {
        -1
    } else if under(p, rs[0]) {
        0
    } else {
        let k = first_under(p, rs.drop_first());
        if k < 0 {
            -1
        } else {
            k + 1
        }
    }
}

/// A component that marks a hidden entry: a dot-file or `node_modules`.
pub open spec fn hidden_name(c: Seq<char>) -> bool {
    (c.len() > 0 && c[0] == '.') || c == "node_modules"@
}

/// The components of `p` below the first root it lies under (all of them if none).
pub open spec fn below_root(p: Seq<char>, rs: Seq<Seq<char>>) -> Seq<Seq<char>> {
    let k = first_under(p, rs);
    if k >= 0 {
        comps(p).skip(comps(rs[k]).len() as int)
    } else {
        comps(p)
    }
}

/// Some component below the root is hidden.
pub open spec fn hidden_below(p: Seq<char>, rs: Seq<Seq<char>>) -> bool {
    exists|i: int| 0 <= i < below_root(p, rs).len() && hidden_name(below_root(p, rs)[i])
}

/// The ruling on an already resolved path.
pub open spec fn ruling(g: ScopeV, r: Seq<char>) -> Result<Seq<char>, Denial> {
    if !under_any(r, g.roots) {
        Err(Denial::OutsideScope)
    } else if under_any(r, g.blacklist) {
        Err(Denial::Blacklisted)
    } else if !g.allow_hidden && hidden_below(r, g.roots) {
        Err(Denial::Hidden)
    } else {
        Ok(r)
    }
}

/// The default scope guard.
/// - `roots`: allowed roots (allow-list), the folders being organised.
/// - `blacklist`: forbidden prefixes (system folders, application data).
/// - `allow_hidden`: when false, dot-files and `node_modules` are refused.
#[derive(Debug, Clone)]
pub struct ScopeGuard {
    roots: Vec<String>,
    blacklist: Vec<String>,
    allow_hidden: bool,
}

impl View for ScopeGuard {
    type V = ScopeV;

    closed spec fn view(&self) -> ScopeV {
        ScopeV {
            roots: texts(self.roots@),
            blacklist: texts(self.blacklist@),
            allow_hidden: self.allow_hidden,
        }
    }
}

/// Each path of `v`, lexically normalised.
pub open spec fn lexicals(v: Seq<Seq<char>>) -> Seq<Seq<char>> {
    v.map_values(|p: Seq<char>| lexical(p))
}

fn normalize_all(v: &Vec<String>) -> (r: Vec<String>)
    ensures
        texts(r@) == lexicals(texts(v@)),
{
    let mut r: Vec<String> = Vec::new();
    let mut i: usize = 0;
    while i < v.len()
        invariant
            0 <= i <= v.len(),
            texts(r@) == lexicals(texts(v@.subrange(0, i as int))),
        decreases v.len() - i,
    {
        let ghost old_r = r@;
        let n = lexical_normalize(v[i].as_str());
        r.push(n);
        assert(texts(r@) =~= texts(old_r).push(n@));
        assert(lexicals(texts(v@.subrange(0, i + 1))) =~= lexicals(texts(v@.subrange(0, i as int))).push(lexical(v@[i as int]@)));
        i += 1;
    }
    assert(v@.subrange(0, v.len() as int) =~= v@);
    r
}

fn index_under(p: &str, rs: &Vec<String>) -> (r: Option<usize>)
    ensures
        match r {
            Some(i) => i < rs.len() && first_under(p@, texts(rs@)) == i,
            None => first_under(p@, texts(rs@)) == -1,
        },
        r is Some == under_any(p@, texts(rs@)),
{
    let ghost t = texts(rs@);
    let mut i: usize = 0;
    while i < rs.len()
        invariant
            t == texts(rs@),
            0 <= i <= rs.len(),
            forall|j: int| 0 <= j < i ==> !under(p@, t[j]),
        decreases rs.len() - i,
    {
        if is_under(p, rs[i].as_str()) {
            proof {
                lemma_first_under(p@, t, i as int);
            }
            return Some(i);
        }
        i += 1;
    }
    proof {
        lemma_first_under_none(p@, t);
    }
    None
}

proof fn lemma_first_under(p: Seq<char>, rs: Seq<Seq<char>>, i: int)
    requires
        0 <= i < rs.len(),
        under(p, rs[i]),
        forall|j: int| 0 <= j < i ==> !under(p, rs[j]),
    ensures
        first_under(p, rs) == i,
    decreases i,
{
    if i > 0 {
        let t = rs.drop_first();
        assert forall|j: int| 0 <= j < i - 1 implies !under(p, t[j]) by {
            assert(t[j] == rs[j + 1]);
        }
        lemma_first_under(p, t, i - 1);
    }
}

proof fn lemma_first_under_none(p: Seq<char>, rs: Seq<Seq<char>>)
    requires
        forall|j: int| 0 <= j < rs.len() ==> !under(p, rs[j]),
    ensures
        first_under(p, rs) == -1,
    decreases rs.len(),
{
    if rs.len() > 0 {
        let t = rs.drop_first();
        assert forall|j: int| 0 <= j < t.len() implies !under(p, t[j]) by {
            assert(t[j] == rs[j + 1]);
        }
        lemma_first_under_none(p, t);
    }
}

fn is_hidden_component(c: &Vec<char>) -> (b: bool)
    ensures
        b == hidden_name(c@),
{
    if c.len() > 0 && c[0] == '.' {
        return true;
    }
    let nm = chars_of("node_modules");
    same_chars(c, &nm)
}

impl ScopeGuard {
    /// A guard over the given roots and forbidden prefixes, both lexically
    /// normalised; hidden components refused.
    pub fn new(roots: Vec<String>, blacklist: Vec<String>) -> (g: ScopeGuard)
        ensures
            g@ == (ScopeV {
                roots: lexicals(texts(roots@)),
                blacklist: lexicals(texts(blacklist@)),
                allow_hidden: false,
            }),
    {
        ScopeGuard {
            roots: normalize_all(&roots),
            blacklist: normalize_all(&blacklist),
            allow_hidden: false,
        }
    }

    /// The same guard with hidden components allowed or refused.
    pub fn allow_hidden(self, yes: bool) -> (g: ScopeGuard)
        ensures
            g@ == (ScopeV { allow_hidden: yes, ..self@ }),
    {
        let mut g = self;
        g.allow_hidden = yes;
        g
    }

    /// Whether a component below the root `resolved` lies under is hidden.
    pub fn hidden_below_root(&self, resolved: &str) -> (b: bool)
        ensures
            b == hidden_below(resolved@, self@.roots),
    {
        let pc = components(resolved);
        let start: usize = match index_under(resolved, &self.roots) {
            Some(k) => {
                let rc = components(self.roots[k].as_str());
                proof {
                    assert(self@.roots[k as int] == self.roots@[k as int]@);
                }
                if rc.len() <= pc.len() {
                    rc.len()
                } else {
                    pc.len()
                }
            },
            None => 0,
        };
        let ghost rel = below_root(resolved@, self@.roots);
        proof {
            let k = first_under(resolved@, self@.roots);
            if k >= 0 {
                assert(comps(self@.roots[k]).len() <= comps(resolved@).len()) by {
                    assert(under(resolved@, self@.roots[k])) by {
                        lemma_first_under_holds(resolved@, self@.roots);
                    }
                }
            }
            assert(rel =~= views(pc@).skip(start as int));
        }
        let mut i: usize = start;
        while i < pc.len()
            invariant
                start <= i <= pc.len(),
                rel == views(pc@).skip(start as int),
                rel == below_root(resolved@, self@.roots),
                forall|j: int| 0 <= j < i - start ==> !hidden_name(rel[j]),
            decreases pc.len() - i,
        {
            if is_hidden_component(&pc[i]) {
                assert(rel[i - start] == pc@[i as int]@);
                assert(hidden_name(below_root(resolved@, self@.roots)[i - start]));
                assert(0 <= i - start < below_root(resolved@, self@.roots).len());
                return true;
            }
            assert(rel[i - start] == pc@[i as int]@);
            i += 1;
        }
        false
    }

    /// The ruling on an already resolved path.
    pub fn rule(&self, resolved: String) -> (r: Result<String, Denial>)
        ensures
            verdict_of(r) == ruling(self@, resolved@),
    {
        if index_under(resolved.as_str(), &self.roots).is_none() {
            return Err(Denial::OutsideScope);
        }
        if index_under(resolved.as_str(), &self.blacklist).is_some() {
            return Err(Denial::Blacklisted);
        }
        if !self.allow_hidden && self.hidden_below_root(resolved.as_str()) {
            return Err(Denial::Hidden);
        }
        Ok(resolved)
    }
}

proof fn lemma_first_under_holds(p: Seq<char>, rs: Seq<Seq<char>>)
    ensures
        first_under(p, rs) >= 0 ==> first_under(p, rs) < rs.len() && under(p, rs[first_under(p, rs)]),
    decreases rs.len(),
{
    if rs.len() > 0 && !under(p, rs[0]) {
        lemma_first_under_holds(p, rs.drop_first());
    }
}

impl Guard for ScopeGuard {
    open spec fn verdict(&self, path: Seq<char>) -> Result<Seq<char>, Denial> {
        ruling(self@, lexical(path))
    }

    /// Judges `path` after lexical normalisation only: symbolic links are not
    /// followed here, so a caller on a real file system passes a path already
    /// resolved on disk.
    fn check(&self, path: &str) -> (r: Result<String, Denial>) {
        let resolved = lexical_normalize(path);
        self.rule(resolved)
    }
}

/// The system and application-data prefixes no operation may touch, for a
/// user whose home folder is `home`.
pub open spec fn system_blacklist(home: Seq<char>) -> Seq<Seq<char>> {
    seq![
        "/System"@,
        "/usr"@,
        "/bin"@,
        "/sbin"@,
        "/private"@,
        "/Library"@,
        crate::path::join_of(home, "Library"@),
        crate::path::join_of(home, ".Trash"@),
        crate::path::join_of(home, ".ssh"@),
        crate::path::join_of(home, ".gnupg"@),
    ]
}

/// A scope guard over `roots` that also refuses the system block-list for a
/// user whose home folder is `home`. Even if a system folder is chosen as a
/// root, nothing under the block-list can be touched.
pub fn make_guard(roots: Vec<String>, home: &str) -> (g: ScopeGuard)
    ensures
        g@ == (ScopeV {
            roots: lexicals(texts(roots@)),
            blacklist: lexicals(system_blacklist(home@)),
            allow_hidden: false,
        }),
{
    let mut bl: Vec<String> = Vec::new();
    bl.push("/System".to_string());
    bl.push("/usr".to_string());
    bl.push("/bin".to_string());
    bl.push("/sbin".to_string());
    bl.push("/private".to_string());
    bl.push("/Library".to_string());
    bl.push(join_path(home, "Library"));
    bl.push(join_path(home, ".Trash"));
    bl.push(join_path(home, ".ssh"));
    bl.push(join_path(home, ".gnupg"));
    assert(texts(bl@) =~= system_blacklist(home@));
    ScopeGuard::new(roots, bl)
}

} // verus!
