//! Small verified helpers on byte strings.

use vstd::prelude::*;

verus! {

/// Byte-wise equality of two byte strings.
pub fn bytes_eq(a: &Vec<u8>, b: &Vec<u8>) -> (r: bool)
    ensures
        r <==> a@ == b@,
{
    if a.len() != b.len() {
        proof {
            assert(a@ != b@) by {
                assert(a@.len() != b@.len());
            }
        }
        return false;
    }
    let mut i: usize = 0;
    while i < a.len()
        invariant
            0 <= i <= a.len(),
            a@.len() == b@.len(),
            forall|j: int| 0 <= j < i ==> a@[j] == b@[j],
        decreases a.len() - i,
    {
        if a[i] != b[i] {
            return false;
        }
        i = i + 1;
    }
    proof {
        assert(a@ =~= b@);
    }
    true
}

/// The ASCII lowercase form of one byte.
pub open spec fn spec_to_ascii_lower(b: u8) -> u8 {
    if 65 <= b <= 90 {
        (b + 32) as u8
    } else {
        b
    }
}

/// A byte string, ASCII-lowercased.
pub open spec fn spec_lower(s: Seq<u8>) -> Seq<u8> {
    s.map_values(|b: u8| spec_to_ascii_lower(b))
}

/// Whether a byte string equals `var` up to ASCII case, as `var()`
/// detection requires.
pub open spec fn spec_is_var_keyword(s: Seq<u8>) -> bool {
    spec_lower(s) == seq![118u8, 97u8, 114u8]
}

/// Case-insensitive (ASCII) test for the function name `var`.
pub fn is_var_keyword(s: &Vec<u8>) -> (r: bool)
    ensures
        r <==> spec_is_var_keyword(s@),
{
    if s.len() != 3 {
        proof {
            assert(spec_lower(s@).len() == s@.len());
        }
        return false;
    }
    let b0 = to_ascii_lower(s[0]);
    let b1 = to_ascii_lower(s[1]);
    let b2 = to_ascii_lower(s[2]);
    let r = b0 == 118 && b1 == 97 && b2 == 114;
    proof {
        let l = spec_lower(s@);
        assert(l.len() == 3);
        assert(l[0] == spec_to_ascii_lower(s@[0]));
        assert(l[1] == spec_to_ascii_lower(s@[1]));
        assert(l[2] == spec_to_ascii_lower(s@[2]));
        if r {
            assert(l =~= seq![118u8, 97u8, 114u8]);
        } else {
            assert(l != seq![118u8, 97u8, 114u8]);
        }
    }
    r
}

/// ASCII-lowercase one byte.
pub fn to_ascii_lower(b: u8) -> (r: u8)
    ensures
        r == spec_to_ascii_lower(b),
{
    if 65 <= b && b <= 90 {
        b + 32
    } else {
        b
    }
}

/// An owned copy of a byte string.
pub fn copy_bytes(src: &Vec<u8>) -> (r: Vec<u8>)
    ensures
        r@ == src@,
{
    let mut out: Vec<u8> = Vec::new();
    push_bytes(&mut out, src);
    out
}

/// Append all bytes of `src` to `dst`.
pub fn push_bytes(dst: &mut Vec<u8>, src: &Vec<u8>)
    ensures
        final(dst)@ == old(dst)@ + src@,
{
    let mut i: usize = 0;
    while i < src.len()
        invariant
            0 <= i <= src.len(),
            dst@ == old(dst)@ + src@.subrange(0, i as int),
        decreases src.len() - i,
    {
        dst.push(src[i]);
        i = i + 1;
    }
    proof {
        assert(src@.subrange(0, src@.len() as int) =~= src@);
    }
}

} // verus!
