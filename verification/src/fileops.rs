//! The file operations' own rules: where a quarantined file goes, how it is
//! found again, and when a copy across volumes counts as faithful. There is
//! no permanent delete: quarantine moves a file into a staging folder, from
//! which undo restores it.
//!
//! Touching the disk is the application's part; content hashes are BLAKE3.

use vstd::prelude::*;
use crate::path::{join_of, join_path};
use crate::text::{chars_of, has_prefix, push_decimal, push_str, starts_with_chars, decimal};

verus! {

#[verifier::external_type_specification]
#[verifier::external_body]
pub struct ExBlake3Hasher(blake3::Hasher);

/// What a BLAKE3 hasher has been fed, in order.
pub uninterp spec fn hasher_input(h: blake3::Hasher) -> Seq<u8>;

/// The BLAKE3 hash of `data`, as `Hash::to_hex` writes it.
pub uninterp spec fn blake3_hex(data: Seq<u8>) -> Seq<char>;

/// `blake3::Hasher::new`: a hasher that has been fed nothing.
#[verifier::external_body]
fn blake3_hasher() -> (r: blake3::Hasher)
    ensures
        hasher_input(r) == Seq::<u8>::empty(),
{
    blake3::Hasher::new()
}

/// `blake3::Hasher::update`: appends `data` to what the hasher has been fed.
#[verifier::external_body]
fn blake3_update(h: &mut blake3::Hasher, data: &[u8])
    ensures
        hasher_input(*final(h)) == hasher_input(*old(h)) + data@,
{
    h.update(data);
}

/// `blake3::Hasher::finalize` and `Hash::to_hex`: the hash of everything fed
/// so far, written as 64 lower-case hexadecimal digits (the 32 bytes of the
/// hash, two digits each, from the table `0123456789abcdef`).
#[verifier::external_body]
fn blake3_finalize_hex(h: &blake3::Hasher) -> (r: String)
    ensures
        r@ == blake3_hex(hasher_input(*h)),
        is_hex_digest(r@),
{
    h.finalize().to_hex().to_string()
}

/// 64 lower-case hexadecimal digits.
pub open spec fn is_hex_digest(s: Seq<char>) -> bool {
    s.len() == 64 && forall|i: int|
        0 <= i < s.len() ==> ('0' <= #[trigger] s[i] <= '9' || 'a' <= s[i] <= 'f')
}

/// A streaming content hash (BLAKE3), fed chunk by chunk.
pub struct ContentHasher {
    inner: blake3::Hasher,
}

impl ContentHasher {
    /// The content fed so far.
    pub closed spec fn input(&self) -> Seq<u8> {
        hasher_input(self.inner)
    }

    pub fn new() -> (h: Self)
        ensures
            h.input() == Seq::<u8>::empty(),
    {
        ContentHasher { inner: blake3_hasher() }
    }

    /// Feeds the next chunk of content.
    pub fn update(&mut self, data: &[u8])
        ensures
            final(self).input() == old(self).input() + data@,
    {
        blake3_update(&mut self.inner, data);
    }

    /// The content hash of everything fed, as 64 lower-case hexadecimal
    /// digits: it depends on the content alone, not on how it was chunked.
    pub fn finalize_hex(&self) -> (r: String)
        ensures
            r@ == blake3_hex(self.input()),
            is_hex_digest(r@),
    {
        blake3_finalize_hex(&self.inner)
    }
}

/// The message when a copy across volumes does not match its source.
pub open spec fn integrity_message(src: Seq<char>, dst: Seq<char>) -> Seq<char> {
    "cross-volume copy integrity failed: src="@ + src + " dst="@ + dst
}

/// A copy is faithful when its content hash equals the source's.
pub fn copy_verdict(src_hex: &str, dst_hex: &str) -> (r: Result<(), String>)
    ensures
        src_hex@ == dst_hex@ ==> r is Ok,
        src_hex@ != dst_hex@ ==> (r matches Err(m) && m@ == integrity_message(src_hex@, dst_hex@)),
{
    if crate::model::str_eq(src_hex, dst_hex) {
        Ok(())
    } else {
        let mut m = String::new();
        push_str(&mut m, "cross-volume copy integrity failed: src=");
        push_str(&mut m, src_hex);
        push_str(&mut m, " dst=");
        push_str(&mut m, dst_hex);
        Err(m)
    }
}

/// File operations on the real file system, quarantining into `staging_dir`.
pub struct FsFileOps {
    pub staging_dir: String,
}

/// Where a file with this content hash is quarantined: `<staging>/<hash>`, or
/// `<staging>/<hash>_<secs>` when that name is taken, so nothing is overwritten.
pub open spec fn staged_path_of(staging: Seq<char>, hash: Seq<char>, taken: bool, secs: u64) -> Seq<char> {
    if taken {
        join_of(staging, hash + seq!['_'] + decimal(secs as nat))
    } else {
        join_of(staging, hash)
    }
}

/// The first name in `names` that is a timestamped quarantine name for `hash`.
pub open spec fn first_staged(names: Seq<Seq<char>>, hash: Seq<char>, i: int) -> Option<int>
    decreases names.len() - i,
{
    if i < 0 || i >= names.len() {
        None
    } else if has_prefix(names[i], hash + seq!['_']) {
        Some(i)
    } else {
        first_staged(names, hash, i + 1)
    }
}

impl FsFileOps {
    pub fn new(staging_dir: String) -> (f: Self)
        ensures
            f.staging_dir@ == staging_dir@,
    {
        FsFileOps { staging_dir }
    }

    /// The quarantine path for a content hash (see `staged_path_of`).
    pub fn staged_path(&self, content_hash: &str, taken: bool, now_secs: u64) -> (r: String)
        ensures
            r@ == staged_path_of(self.staging_dir@, content_hash@, taken, now_secs),
    {
        if taken {
            let mut name = String::new();
            push_str(&mut name, content_hash);
            crate::text::push_char(&mut name, '_');
            push_decimal(&mut name, now_secs as u128);
            join_path(self.staging_dir.as_str(), name.as_str())
        } else {
            join_path(self.staging_dir.as_str(), content_hash)
        }
    }

    /// Among the staging folder's entry names, the first that holds a
    /// timestamped copy of `content_hash`.
    pub fn staged_candidate(names: &[String], content_hash: &str) -> (r: Option<usize>)
        ensures
            match r {
                Some(i) => first_staged(crate::model::texts(names@), content_hash@, 0) == Some(
                    i as int,
                ),
                None => first_staged(crate::model::texts(names@), content_hash@, 0) is None,
            },
    {
        let ghost ns = crate::model::texts(names@);
        let mut prefix = String::new();
        push_str(&mut prefix, content_hash);
        crate::text::push_char(&mut prefix, '_');
        let pv = chars_of(prefix.as_str());
        let mut i: usize = 0;
        while i < names.len()
            invariant
                0 <= i <= names.len(),
                ns == crate::model::texts(names@),
                pv@ == content_hash@ + seq!['_'],
                first_staged(ns, content_hash@, 0) == first_staged(ns, content_hash@, i as int),
            decreases names.len() - i,
        {
            let nv = chars_of(names[i].as_str());
            if starts_with_chars(&nv, &pv) {
                return Some(i);
            }
            i += 1;
        }
        None
    }
}

} // verus!
