//! Content fingerprints for build inputs.
//!
//! A fingerprint is a 64-bit FNV-1a style digest of the source directory
//! path and the toolchain commit identifier.  It deliberately does not
//! hash directory contents: the protocol trades exactness for speed, as
//! a recursive content hash of a whole source tree would be too costly.
//! The digest is a pure function of its inputs, so an installation
//! stamped with it can be checked again by any later invocation.

use vstd::prelude::*;

verus! {

/// FNV-1a 64-bit offset basis.
pub const FNV_OFFSET: u64 = 0xcbf29ce484222325;

/// FNV-1a 64-bit prime.
pub const FNV_PRIME: u64 = 0x100000001b3;

/// Tag mixed in for each path component boundary; outside the range of
/// any character code point, so component splits cannot be confused
/// with characters.
pub const TAG_COMPONENT: u64 = 0x110000;

/// Tag mixed in when no toolchain commit identifier is available.
pub const TAG_NO_COMMIT: u64 = 0x110001;

/// Tag mixed in before a toolchain commit identifier.
pub const TAG_COMMIT: u64 = 0x110002;

/// One FNV-1a round: xor the datum in, multiply by the prime (wrapping).
pub open spec fn fnv_step(h: u64, x: u64) -> u64 {
    vstd::wrapping::u64_specs::wrapping_mul(h ^ x, FNV_PRIME)
}

/// Digest of a character sequence, folded left to right.
pub open spec fn fnv_chars(h: u64, s: Seq<char>) -> u64
    decreases s.len(),
{
    if s.len() == 0 {
        h
    } else {
        fnv_step(fnv_chars(h, s.drop_last()), s.last() as u64)
    }
}

/// Digest of a path: each component's characters, then a component tag.
pub open spec fn fnv_path(h: u64, p: Seq<Seq<char>>) -> u64
    decreases p.len(),
{
    if p.len() == 0 {
        h
    } else {
        fnv_step(fnv_chars(fnv_path(h, p.drop_last()), p.last()), TAG_COMPONENT)
    }
}

/// The fingerprint of a build: source directory path and toolchain
/// commit identifier, nothing else.
pub open spec fn fingerprint_of(src_dir: Seq<Seq<char>>, commit: Option<Seq<char>>) -> u64 {
    let h = fnv_path(FNV_OFFSET, src_dir);
    match commit {
        None => fnv_step(h, TAG_NO_COMMIT),
        Some(c) => fnv_chars(fnv_step(h, TAG_COMMIT), c),
    }
}

/// Fold one datum into the running digest.
fn step(h: u64, x: u64) -> (r: u64)
    ensures
        r == fnv_step(h, x),
{
    (h ^ x).wrapping_mul(FNV_PRIME)
}

/// Fold a string's characters into the running digest.
fn hash_chars(h: u64, s: &str) -> (r: u64)
    ensures
        r == fnv_chars(h, s@),
{
    let n = s.unicode_len();
    let mut acc = h;
    let mut i: usize = 0;
    while i < n
        invariant
            0 <= i <= n,
            n == s@.len(),
            acc == fnv_chars(h, s@.subrange(0, i as int)),
        decreases n - i,
    {
        let c = s.get_char(i);
        proof {
            let t = s@.subrange(0, i + 1);
            assert(t.drop_last() =~= s@.subrange(0, i as int));
            assert(t.last() == s@[i as int]);
        }
        acc = step(acc, c as u64);
        i = i + 1;
    }
    proof {
        assert(s@.subrange(0, n as int) =~= s@);
    }
    acc
}

/// Fold a path's components into the running digest.
fn hash_path(h: u64, p: &Vec<String>) -> (r: u64)
    ensures
        r == fnv_path(h, p.deep_view()),
{
    let n = p.len();
    let mut acc = h;
    let mut i: usize = 0;
    while i < n
        invariant
            0 <= i <= n,
            n == p.len(),
            acc == fnv_path(h, p.deep_view().subrange(0, i as int)),
        decreases n - i,
    {
        proof {
            let t = p.deep_view().subrange(0, i + 1);
            assert(t.drop_last() =~= p.deep_view().subrange(0, i as int));
            assert(t.last() == p.deep_view()[i as int]);
        }
        acc = hash_chars(acc, p[i].as_str());
        acc = step(acc, TAG_COMPONENT);
        i = i + 1;
    }
    proof {
        assert(p.deep_view().subrange(0, n as int) =~= p.deep_view());
    }
    acc
}

/// Compute the fingerprint of the given build inputs.
pub fn compute_fingerprint(src_dir: &Vec<String>, commit: &Option<String>) -> (r: u64)
    ensures
        r == fingerprint_of(src_dir.deep_view(), commit.deep_view()),
{
    let h = hash_path(FNV_OFFSET, src_dir);
    match commit {
        None => step(h, TAG_NO_COMMIT),
        Some(c) => hash_chars(step(h, TAG_COMMIT), c.as_str()),
    }
}

} // verus!
