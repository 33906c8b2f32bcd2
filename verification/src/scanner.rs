//! Scanning a folder: the tree handed to the user interface, the order of a
//! folder's entries, which entries are skipped, and the index record kept for
//! each file.
//!
//! Walking the disk, hashing and writing the index are the caller's part.

use vstd::prelude::*;
use crate::path::{extension_of, file_name, file_name_of, opt_seq, stem_and_extension};
use crate::text::{chars_of, lowercase_chars, lowercase_of, string_of};

verus! {

// ───────────────────────────── the tree ─────────────────────────────

/// A file or folder of a scanned tree.
#[derive(Debug)]
pub struct FileNode {
    pub name: String,
    pub path: String,
    pub is_dir: bool,
    pub size: Option<u64>,
    pub ext: Option<String>,
    pub children: Vec<FileNode>,
}

/// The number of folders in a tree, the root included.
pub open spec fn dir_count(n: FileNode) -> nat
    decreases n,
{
    if !n.is_dir {
        0
    } else {
        1 + dirs_in(n.children@)
    }
}

/// The number of folders in a list of trees.
pub open spec fn dirs_in(cs: Seq<FileNode>) -> nat
    decreases cs,
{
    if cs.len() == 0 {
        0
    } else {
        dirs_in(cs.drop_last()) + dir_count(cs.last())
    }
}

proof fn lemma_dirs_in_prefix(cs: Seq<FileNode>, i: int)
    requires
        0 <= i <= cs.len(),
    ensures
        dirs_in(cs.subrange(0, i)) <= dirs_in(cs),
    decreases cs.len() - i,
{
    if i < cs.len() {
        lemma_dirs_in_prefix(cs, i + 1);
        assert(cs.subrange(0, i + 1).drop_last() =~= cs.subrange(0, i));
    } else {
        assert(cs.subrange(0, i) =~= cs);
    }
}

/// The number of folders in a scanned tree, the root included.
pub fn count_dirs(node: &FileNode) -> (n: usize)
    requires
        dir_count(*node) <= usize::MAX,
    ensures
        n == dir_count(*node),
    decreases node,
{
    if !node.is_dir {
        return 0;
    }
    let ghost cs = node.children@;
    let mut total: usize = 0;
    let mut i: usize = 0;
    assert(cs.subrange(0, 0) =~= Seq::<FileNode>::empty());
    while i < node.children.len()
        invariant
            0 <= i <= node.children.len(),
            cs == node.children@,
            node.is_dir,
            dir_count(*node) <= usize::MAX,
            dir_count(*node) == 1 + dirs_in(cs),
            total == dirs_in(cs.subrange(0, i as int)),
        decreases node.children.len() - i,
    {
        proof {
            assert(cs.subrange(0, i + 1).drop_last() =~= cs.subrange(0, i as int));
            assert(cs.subrange(0, i + 1).last() == cs[i as int]);
            lemma_dirs_in_prefix(cs, i + 1);
        }
        let c = count_dirs(&node.children[i]);
        total = total + c;
        i += 1;
    }
    assert(cs.subrange(0, node.children.len() as int) =~= cs);
    total + 1
}

/// A folder node.
pub fn dir_node(path: &str, children: Vec<FileNode>) -> (n: FileNode)
    ensures
        n.name@ == node_name(path@),
        n.path@ == path@,
        n.is_dir,
        n.size is None,
        n.ext is None,
        n.children@ == children@,
{
    FileNode {
        name: name_of(path),
        path: path.to_string(),
        is_dir: true,
        size: None,
        ext: None,
        children,
    }
}

/// A file node.
pub fn file_node(path: &str, size: u64) -> (n: FileNode)
    ensures
        n.name@ == node_name(path@),
        n.path@ == path@,
        !n.is_dir,
        n.size == Some(size),
        opt_seq(n.ext) == lowered_ext(path@),
        n.children@.len() == 0,
{
    FileNode {
        name: name_of(path),
        path: path.to_string(),
        is_dir: false,
        size: Some(size),
        ext: ext_lowered(path),
        children: Vec::new(),
    }
}

// ───────────────────────────── entries ─────────────────────────────

/// The name shown for a path: its file name, or nothing.
pub open spec fn node_name(p: Seq<char>) -> Seq<char> {
    match file_name_of(p) {
        Some(n) => n,
        None => Seq::empty(),
    }
}

/// A path's extension in lower case.
pub open spec fn lowered_ext(p: Seq<char>) -> Option<Seq<char>> {
    match extension_of(p) {
        Some(e) => Some(lowercase_of(e)),
        None => None,
    }
}

fn name_of(path: &str) -> (r: String)
    ensures
        r@ == node_name(path@),
{
    match file_name(path) {
        Some(n) => n,
        None => String::new(),
    }
}

/// A path's extension in lower case, when it has one.
pub fn ext_lowered(path: &str) -> (r: Option<String>)
    ensures
        opt_seq(r) == lowered_ext(path@),
{
    let (_, ext) = stem_and_extension(path);
    match ext {
        Some(e) => {
            let v = chars_of(e.as_str());
            let l = lowercase_chars(&v);
            Some(string_of(&l))
        },
        None => None,
    }
}

/// Hidden entries (dot-files and dot-folders) are not scanned.
pub fn is_hidden_entry(path: &str) -> (b: bool)
    ensures
        b == (node_name(path@).len() > 0 && node_name(path@)[0] == '.'),
{
    let n = name_of(path);
    let v = chars_of(n.as_str());
    v.len() > 0 && v[0] == '.'
}

/// A folder entry as the scan sees it.
pub struct EntryInfo {
    pub name: String,
    pub is_dir: bool,
}

/// Lexicographic order of names by character.
pub open spec fn name_le(a: Seq<char>, b: Seq<char>) -> bool
    decreases a.len(),
{
    if a.len() == 0 {
        true
    } else if b.len() == 0 {
        false
    } else if a[0] != b[0] {
        (a[0] as int) < (b[0] as int)
    } else {
        name_le(a.drop_first(), b.drop_first())
    }
}

/// Folders before files; within each, names in order.
pub open spec fn entry_le(a: EntryInfo, b: EntryInfo) -> bool {
    (a.is_dir && !b.is_dir) || (a.is_dir == b.is_dir && name_le(a.name@, b.name@))
}

pub open spec fn entries_sorted(s: Seq<EntryInfo>) -> bool {
    forall|i: int, j: int| 0 <= i < j < s.len() ==> entry_le(#[trigger] s[i], #[trigger] s[j])
}

proof fn lemma_name_le_total(a: Seq<char>, b: Seq<char>)
    ensures
        name_le(a, b) || name_le(b, a),
    decreases a.len(),
{
    if a.len() > 0 && b.len() > 0 && a[0] == b[0] {
        lemma_name_le_total(a.drop_first(), b.drop_first());
    }
}

proof fn lemma_name_le_trans(a: Seq<char>, b: Seq<char>, c: Seq<char>)
    requires
        name_le(a, b),
        name_le(b, c),
    ensures
        name_le(a, c),
    decreases a.len(),
{
    if a.len() > 0 && b.len() > 0 && c.len() > 0 && a[0] == b[0] && b[0] == c[0] {
        lemma_name_le_trans(a.drop_first(), b.drop_first(), c.drop_first());
    }
}

proof fn lemma_entry_le_total(a: EntryInfo, b: EntryInfo)
    ensures
        entry_le(a, b) || entry_le(b, a),
{
    lemma_name_le_total(a.name@, b.name@);
}

proof fn lemma_entry_le_trans(a: EntryInfo, b: EntryInfo, c: EntryInfo)
    requires
        entry_le(a, b),
        entry_le(b, c),
    ensures
        entry_le(a, c),
{
    if a.is_dir == b.is_dir && b.is_dir == c.is_dir {
        lemma_name_le_trans(a.name@, b.name@, c.name@);
    }
}

fn name_le_exec(a: &Vec<char>, b: &Vec<char>) -> (r: bool)
    ensures
        r == name_le(a@, b@),
{
    let mut i: usize = 0;
    assert(a@.subrange(0, a.len() as int) =~= a@);
    assert(b@.subrange(0, b.len() as int) =~= b@);
    while i < a.len() && i < b.len() && a[i] == b[i]
        invariant
            0 <= i <= a.len(),
            i <= b.len(),
            name_le(a@, b@) == name_le(a@.subrange(i as int, a.len() as int), b@.subrange(
                i as int,
                b.len() as int,
            )),
        decreases a.len() - i,
    {
        proof {
            let x = a@.subrange(i as int, a.len() as int);
            let y = b@.subrange(i as int, b.len() as int);
            assert(x.drop_first() =~= a@.subrange(i + 1, a.len() as int));
            assert(y.drop_first() =~= b@.subrange(i + 1, b.len() as int));
        }
        i += 1;
    }
    if i == a.len() {
        assert(a@.subrange(i as int, a.len() as int).len() == 0);
        true
    } else if i == b.len() {
        false
    } else {
        a[i] < b[i]
    }
}

fn entry_le_exec(a: &EntryInfo, b: &EntryInfo) -> (r: bool)
    ensures
        r == entry_le(*a, *b),
{
    if a.is_dir && !b.is_dir {
        return true;
    }
    if a.is_dir != b.is_dir {
        return false;
    }
    let x = chars_of(a.name.as_str());
    let y = chars_of(b.name.as_str());
    name_le_exec(&x, &y)
}

/// A folder's entries in scan order: folders first, then files, each by name.
pub fn order_entries(entries: Vec<EntryInfo>) -> (r: Vec<EntryInfo>)
    ensures
        r@.to_multiset() == entries@.to_multiset(),
        entries_sorted(r@),
{
    let mut r: Vec<EntryInfo> = Vec::new();
    let mut rest = entries;
    let ghost all = rest@;
    assert(all.subrange(0, 0) =~= Seq::<EntryInfo>::empty());
    while rest.len() > 0
        invariant
            r@.len() + rest@.len() == all.len(),
            rest@ == all.subrange(r@.len() as int, all.len() as int),
            r@.to_multiset() == all.subrange(0, r@.len() as int).to_multiset(),
            entries_sorted(r@),
        decreases rest.len(),
    {
        let ghost k: int = r@.len() as int;
        let x = rest.remove(0);
        assert(x == all[k]);
        let mut p: usize = 0;
        while p < r.len() && entry_le_exec(&r[p], &x)
            invariant
                0 <= p <= r.len(),
                forall|q: int| 0 <= q < p ==> entry_le(#[trigger] r@[q], x),
            decreases r.len() - p,
        {
            p += 1;
        }
        let ghost before = r@;
        proof {
            if p < before.len() {
                lemma_entry_le_total(before[p as int], x);
            }
            vstd::seq_lib::to_multiset_insert(before, p as int, x);
            assert(all.subrange(0, k + 1) =~= all.subrange(0, k).push(x));
            vstd::seq_lib::to_multiset_build(all.subrange(0, k), x);
        }
        r.insert(p, x);
        proof {
            let s = r@;
            assert(s =~= before.insert(p as int, x));
            assert forall|i: int, j: int| 0 <= i < j < s.len() implies entry_le(
                #[trigger] s[i],
                #[trigger] s[j],
            ) by {
                if j < p {
                    assert(s[i] == before[i] && s[j] == before[j]);
                } else if j == p {
                    assert(s[i] == before[i]);
                } else if i == p {
                    assert(s[j] == before[j - 1]);
                    if j - 1 > p {
                        assert(entry_le(before[p as int], before[j - 1]));
                        lemma_entry_le_trans(x, before[p as int], before[j - 1]);
                    }
                } else if i < p {
                    assert(s[i] == before[i] && s[j] == before[j - 1]);
                } else {
                    assert(s[i] == before[i - 1] && s[j] == before[j - 1]);
                }
            }
        }
        assert(rest@ =~= all.subrange(r@.len() as int, all.len() as int));
    }
    assert(all.subrange(0, all.len() as int) =~= all);
    r
}

// ───────────────────────────── index records ─────────────────────────────

/// `mime_guess::from_ext(ext).first_or_octet_stream()` as text: the first
/// media type registered for the extension, else `application/octet-stream`.
/// Claims the result is the named guess, and the fallback for an empty extension.
#[verifier::external_body]
fn mime_guess_of_ext(ext: &str) -> (r: String)
    ensures
        r@ == mime_of_ext(ext@),
        ext@.len() == 0 ==> r@ == "application/octet-stream"@,
{
    mime_guess::from_ext(ext).first_or_octet_stream().to_string()
}

/// The media type `mime_guess` registers first for an extension.
pub uninterp spec fn mime_of_ext(ext: Seq<char>) -> Seq<char>;

/// The media type guessed from a path's extension (`mime_guess::from_path`).
pub open spec fn mime_of_path(p: Seq<char>) -> Seq<char> {
    match extension_of(p) {
        Some(e) => mime_of_ext(e),
        None => "application/octet-stream"@,
    }
}

/// The media type of a file, guessed from its extension alone.
pub fn guess_mime(path: &str) -> (r: String)
    ensures
        r@ == mime_of_path(path@),
{
    let (_, ext) = stem_and_extension(path);
    match ext {
        Some(e) => mime_guess_of_ext(e.as_str()),
        None => "application/octet-stream".to_string(),
    }
}

/// What the index keeps of a scanned file.
pub struct FileRecord {
    pub content_hash: String,
    pub current_path: String,
    pub size: u64,
    pub mtime: i64,
    pub created_at: Option<i64>,
    pub mime: String,
    pub ext: Option<String>,
    pub seen_at: i64,
}

/// The index record of a scanned file: its extension in lower case and its
/// guessed media type, with what was read from disk.
pub fn file_record(
    path: &str,
    content_hash: String,
    size: u64,
    mtime: i64,
    created_at: Option<i64>,
    now: i64,
) -> (r: FileRecord)
    ensures
        r.content_hash@ == content_hash@,
        r.current_path@ == path@,
        r.size == size,
        r.mtime == mtime,
        r.created_at == created_at,
        r.mime@ == mime_of_path(path@),
        opt_seq(r.ext) == lowered_ext(path@),
        r.seen_at == now,
{
    FileRecord {
        content_hash,
        current_path: path.to_string(),
        size,
        mtime,
        created_at,
        mime: guess_mime(path),
        ext: ext_lowered(path),
        seen_at: now,
    }
}

} // verus!
