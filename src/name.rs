//! Reference names: which names are valid, and which full names a partial name may stand for.
use vstd::prelude::*;
use crate::bytes::{is_prefix, starts_with, to_vec, views};

verus! {

/// A byte that may not appear in a name: controls, space, DEL and `~ ^ : ? * [ \`.
pub open spec fn forbidden_byte(b: u8) -> bool {
    b <= 32u8 || b == 127u8 || b == 126u8 || b == 94u8 || b == 58u8 || b == 63u8 || b == 42u8
        || b == 91u8 || b == 92u8
}

/// Two adjacent bytes that may not appear in a name: `..`, `//`, `/.` and `@{`.
pub open spec fn forbidden_pair(a: u8, b: u8) -> bool {
    (a == 46u8 && b == 46u8) || (a == 47u8 && b == 47u8) || (a == 47u8 && b == 46u8) || (a == 64u8 && b == 123u8)
}

/// A path component of `s` ends in `.lock` at position `i`.
pub open spec fn lock_suffix_at(s: Seq<u8>, i: int) -> bool {
    0 <= i && i + 5 <= s.len() && s.subrange(i, i + 5) == lock_suffix() && (i + 5 == s.len() || s[i + 5] == 47u8)
}

/// `.lock`, the suffix of lock files.
pub open spec fn lock_suffix() -> Seq<u8> {
    seq![46u8, 108, 111, 99, 107]  // `.lock`
}

/// `s` is a valid reference name: not empty, not `@`, no forbidden byte or pair of bytes, it
/// neither starts with `/` or `.` nor ends with `/` or `.`, and no component ends in `.lock`.
pub open spec fn valid_name(s: Seq<u8>) -> bool {
    &&& s.len() > 0
    &&& s != seq![64u8]
    &&& forall|i: int| 0 <= i < s.len() ==> !forbidden_byte(#[trigger] s[i])
    &&& forall|i: int| 0 <= i < s.len() - 1 ==> !forbidden_pair(#[trigger] s[i], s[i + 1])
    &&& s[0] != 47u8 && s[0] != 46u8
    &&& s.last() != 47u8 && s.last() != 46u8
    &&& forall|i: int| !#[trigger] lock_suffix_at(s, i)
}

/// Whether `name` is a valid reference name.
pub fn is_valid_name(name: &[u8]) -> (r: bool)
    ensures
        r == valid_name(name@),
{
    let n = name.len();
    if n == 0 {
        return false;
    }
    if n == 1 && name[0] == 64u8 {
        assert(name@ =~= seq![64u8]);
        return false;
    }
    if name[0] == 47u8 || name[0] == 46u8 || name[n - 1] == 47u8 || name[n - 1] == 46u8 {
        return false;
    }
    let mut i: usize = 0;
    while i < n
        invariant
            n == name@.len(),
            i <= n,
            forall|k: int| 0 <= k < i ==> !forbidden_byte(#[trigger] name@[k]),
            forall|k: int| 0 <= k < i && k < n - 1 ==> !forbidden_pair(#[trigger] name@[k], name@[k + 1]),
            forall|k: int| 0 <= k < i ==> !#[trigger] lock_suffix_at(name@, k),
        decreases n - i,
    {
        let b = name[i];
        if b <= 32u8 || b == 127u8 || b == 126u8 || b == 94u8 || b == 58u8 || b == 63u8 || b == 42u8
            || b == 91u8 || b == 92u8 {
            assert(forbidden_byte(name@[i as int]));
            return false;
        }
        if i + 1 < n {
            let c = name[i + 1];
            if (b == 46u8 && c == 46u8) || (b == 47u8 && c == 47u8) || (b == 47u8 && c == 46u8) || (b == 64u8 && c == 123u8) {
                assert(forbidden_pair(name@[i as int], name@[i + 1]));
                return false;
            }
        }
        if n - i >= 5 && name[i] == 46u8 && name[i + 1] == 108u8 && name[i + 2] == 111u8 && name[i + 3] == 99u8
            && name[i + 4] == 107u8 && (i + 5 == n || name[i + 5] == 47u8) {
            assert(name@.subrange(i as int, i + 5) =~= lock_suffix());
            assert(lock_suffix_at(name@, i as int));
            return false;
        }
        assert(!lock_suffix_at(name@, i as int)) by {
            if lock_suffix_at(name@, i as int) {
                assert(name@.subrange(i as int, i + 5)[0] == name@[i as int]);
                assert(name@.subrange(i as int, i + 5)[1] == name@[i + 1]);
                assert(name@.subrange(i as int, i + 5)[2] == name@[i + 2]);
                assert(name@.subrange(i as int, i + 5)[3] == name@[i + 3]);
                assert(name@.subrange(i as int, i + 5)[4] == name@[i + 4]);
            }
        }
        i = i + 1;
    }
    assert forall|k: int| !#[trigger] lock_suffix_at(name@, k) by {
        if lock_suffix_at(name@, k) {
            assert(0 <= k < n);
        }
    }
    true
}

/// A pseudo reference such as `HEAD`: upper-case letters and `_` only, not empty.
pub open spec fn is_pseudo_name(s: Seq<u8>) -> bool {
    s.len() > 0 && forall|i: int| 0 <= i < s.len() ==> (65u8 <= #[trigger] s[i] <= 90u8 || s[i] == 95u8)
}

/// Whether `s` is a pseudo reference name such as `HEAD`.
pub fn pseudo_name(s: &[u8]) -> (r: bool)
    ensures
        r == is_pseudo_name(s@),
{
    if s.len() == 0 {
        return false;
    }
    let mut i: usize = 0;
    while i < s.len()
        invariant
            i <= s@.len(),
            forall|k: int| 0 <= k < i ==> (65u8 <= #[trigger] s@[k] <= 90u8 || s@[k] == 95u8),
        decreases s@.len() - i,
    {
        if !((65u8 <= s[i] && s[i] <= 90u8) || s[i] == 95u8) {
            return false;
        }
        i = i + 1;
    }
    true
}

/// `refs/`, the namespace of all names but pseudo references.
pub open spec fn refs_prefix() -> Seq<u8> {
    seq![114u8, 101, 102, 115, 47]  // `refs/`
}

/// The full names a partial name may stand for, in the order they are tried: the name itself
/// if it is a pseudo reference or already starts with `refs/`, then `refs/<p>`, `refs/tags/<p>`,
/// `refs/heads/<p>`, `refs/remotes/<p>` and `refs/remotes/<p>/HEAD`.
pub open spec fn candidate_names(p: Seq<u8>) -> Seq<Seq<u8>> {
    (if is_pseudo_name(p) || is_prefix(refs_prefix(), p) {
        seq![p]
    } else {
        seq![]
    }) + seq![
        refs_prefix() + p,
        seq![114u8, 101, 102, 115, 47, 116, 97, 103, 115, 47] + p,  // `refs/tags/`
        seq![114u8, 101, 102, 115, 47, 104, 101, 97, 100, 115, 47] + p,  // `refs/heads/`
        seq![114u8, 101, 102, 115, 47, 114, 101, 109, 111, 116, 101, 115, 47] + p,  // `refs/remotes/`
        seq![114u8, 101, 102, 115, 47, 114, 101, 109, 111, 116, 101, 115, 47] + p + seq![47u8, 72, 69, 65, 68],  // `refs/remotes/`, `/HEAD`
    ]
}

/// `a` followed by `b`.
pub fn concat(a: &[u8], b: &[u8]) -> (r: Vec<u8>)
    ensures
        r@ == a@ + b@,
{
    let mut r = to_vec(a);
    let mut i: usize = 0;
    while i < b.len()
        invariant
            i <= b@.len(),
            r@ == a@ + b@.subrange(0, i as int),
        decreases b@.len() - i,
    {
        r.push(b[i]);
        i = i + 1;
        assert(r@ =~= a@ + b@.subrange(0, i as int));
    }
    assert(b@.subrange(0, b@.len() as int) =~= b@);
    r
}

/// The full names `partial` may stand for, in the order they are tried.
pub fn candidates(partial: &[u8]) -> (r: Vec<Vec<u8>>)
    ensures
        views(r@) == candidate_names(partial@),
{
    let mut r: Vec<Vec<u8>> = Vec::new();
    if pseudo_name(partial) || starts_with(partial, &REFS) {
        r.push(to_vec(partial));
    }
    r.push(concat(&REFS, partial));
    r.push(concat(&TAGS, partial));
    r.push(concat(&HEADS, partial));
    r.push(concat(&REMOTES, partial));
    let remote = concat(&REMOTES, partial);
    r.push(concat(remote.as_slice(), &HEAD_SUFFIX));
    assert(views(r@) =~= candidate_names(partial@));
    r
}

pub const LOCK: [u8; 5] = [46u8, 108, 111, 99, 107];  // `.lock`
pub const REFS: [u8; 5] = [114u8, 101, 102, 115, 47];  // `refs/`
pub const TAGS: [u8; 10] = [114u8, 101, 102, 115, 47, 116, 97, 103, 115, 47];  // `refs/tags/`
pub const HEADS: [u8; 11] = [114u8, 101, 102, 115, 47, 104, 101, 97, 100, 115, 47];  // `refs/heads/`
pub const REMOTES: [u8; 13] = [114u8, 101, 102, 115, 47, 114, 101, 109, 111, 116, 101, 115, 47];  // `refs/remotes/`
pub const HEAD_SUFFIX: [u8; 5] = [47u8, 72, 69, 65, 68];  // `/HEAD`

} // verus!
