//! Byte-string helpers: equality and case-sensitive substring search, with
//! exact specifications.

use vstd::prelude::*;

verus! {

/// `needle` occurs contiguously somewhere in `hay` (the empty needle occurs
/// everywhere).
pub open spec fn spec_contains(hay: Seq<u8>, needle: Seq<u8>) -> bool {
    exists|s: int|
        0 <= s <= hay.len() - needle.len() && #[trigger] hay.subrange(s, s + needle.len())
            == needle
}

/// Byte-for-byte equality of two vectors.
pub fn bytes_eq(a: &Vec<u8>, b: &Vec<u8>) -> (r: bool)
    ensures
        r == (a@ == b@),
{
    if a.len() != b.len() {
        return false;
    }
    let mut i: usize = 0;
    while i < a.len()
        invariant
            i <= a@.len(),
            a@.len() == b@.len(),
            forall|j: int| 0 <= j < i ==> a@[j] == b@[j],
        decreases a@.len() - i,
    {
        if a[i] != b[i] {
            return false;
        }
        i = i + 1;
    }
    proof {
        assert(a@ =~= b@);
    }
    true
}

/// `needle` matches `hay` starting at `s`.
fn matches_at(hay: &Vec<u8>, needle: &Vec<u8>, s: usize) -> (r: bool)
    requires
        s + needle@.len() <= hay@.len(),
    ensures
        r == (hay@.subrange(s as int, s + needle@.len()) == needle@),
{
    let hay_len: usize = hay.len();
    let needle_len: usize = needle.len();
    let mut j: usize = 0;
    while j < needle_len
        invariant
            j <= needle_len,
            needle_len == needle@.len(),
            hay_len == hay@.len(),
            s + needle_len <= hay_len,
            forall|t: int| 0 <= t < j ==> hay@[s + t] == needle@[t],
        decreases needle_len - j,
    {
        if hay[s + j] != needle[j] {
            proof {
                assert(hay@.subrange(s as int, s + needle@.len())[j as int] != needle@[j as int]);
            }
            return false;
        }
        j = j + 1;
    }
    proof {
        assert(hay@.subrange(s as int, s + needle@.len()) =~= needle@);
    }
    true
}

/// Copy a byte vector.
pub fn copy_bytes(src: &Vec<u8>) -> (r: Vec<u8>)
    ensures
        r@ == src@,
{
    let mut r: Vec<u8> = Vec::new();
    let mut i: usize = 0;
    while i < src.len()
        invariant
            i <= src@.len(),
            r@ == src@.subrange(0, i as int),
        decreases src@.len() - i,
    {
        r.push(src[i]);
        proof {
            assert(src@.subrange(0, i + 1 as int) =~= src@.subrange(0, i as int).push(
                src@[i as int],
            ));
        }
        i = i + 1;
    }
    proof {
        assert(src@.subrange(0, src@.len() as int) =~= src@);
    }
    r
}

/// Append `src` to `dst`.
pub fn push_bytes(dst: &mut Vec<u8>, src: &Vec<u8>)
    ensures
        final(dst)@ == old(dst)@ + src@,
{
    let mut i: usize = 0;
    proof {
        assert(dst@ =~= old(dst)@ + src@.subrange(0, 0));
    }
    while i < src.len()
        invariant
            i <= src@.len(),
            dst@ == old(dst)@ + src@.subrange(0, i as int),
        decreases src@.len() - i,
    {
        dst.push(src[i]);
        proof {
            assert(old(dst)@ + src@.subrange(0, i + 1 as int) =~= (old(dst)@ + src@.subrange(
                0,
                i as int,
            )).push(src@[i as int]));
        }
        i = i + 1;
    }
    proof {
        assert(src@.subrange(0, src@.len() as int) =~= src@);
    }
}

/// Case-sensitive substring search.
pub fn contains_bytes(hay: &Vec<u8>, needle: &Vec<u8>) -> (r: bool)
    ensures
        r == spec_contains(hay@, needle@),
{
    if needle.len() > hay.len() {
        return false;
    }
    if needle.len() == 0 {
        proof {
            assert(hay@.subrange(0, 0 + needle@.len() as int) =~= needle@);
            assert(spec_contains(hay@, needle@));
        }
        return true;
    }
    let hay_len: usize = hay.len();
    let needle_len: usize = needle.len();
    let mut s: usize = 0;
    while s <= hay_len - needle_len
        invariant
            needle_len == needle@.len(),
            hay_len == hay@.len(),
            1 <= needle_len <= hay_len,
            s <= hay_len - needle_len + 1,
            forall|t: int|
                0 <= t < s ==> #[trigger] hay@.subrange(t, t + needle@.len()) != needle@,
        decreases hay@.len() + 1 - s,
    {
        if matches_at(hay, needle, s) {
            return true;
        }
        s = s + 1;
    }
    false
}

} // verus!
