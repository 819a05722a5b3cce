//! Helpers on byte strings: copying, appending, searching, and ASCII
//! case-insensitive comparison.

use vstd::prelude::*;

verus! {

/// The ASCII lowercase image of a single byte: `'A'..='Z'` map to
/// `'a'..='z'`, everything else is unchanged.
pub open spec fn lower_byte(b: u8) -> u8 {
    if 65 <= b <= 90 {
        (b + 32) as u8
    } else {
        b
    }
}

/// Two byte strings are equal up to ASCII case: same length, and each pair of
/// bytes has the same lowercase image.
pub open spec fn eq_ignore_ascii_case(a: Seq<u8>, b: Seq<u8>) -> bool {
    &&& a.len() == b.len()
    &&& forall|i: int| 0 <= i < a.len() ==> lower_byte(a[i]) == lower_byte(b[i])
}

/// ASCII case-insensitive equality on byte strings.
pub fn bytes_eq_ignore_case(a: &Vec<u8>, b: &Vec<u8>) -> (r: bool)
    ensures
        r == eq_ignore_ascii_case(a@, b@),
{
    if a.len() != b.len() {
        return false;
    }
    let mut i: usize = 0;
    while i < a.len()
        invariant
            i <= a.len(),
            a.len() == b.len(),
            forall|j: int| 0 <= j < i ==> lower_byte(a@[j]) == lower_byte(b@[j]),
        decreases a.len() - i,
    {
        let x = a[i];
        let y = b[i];
        let lx = if 65 <= x && x <= 90 { x + 32 } else { x };
        let ly = if 65 <= y && y <= 90 { y + 32 } else { y };
        if lx != ly {
            return false;
        }
        i += 1;
    }
    true
}

/// A fresh copy of a byte string.
pub fn clone_bytes(v: &Vec<u8>) -> (r: Vec<u8>)
    ensures
        r@ == v@,
{
    let mut r: Vec<u8> = Vec::new();
    let mut i: usize = 0;
    while i < v.len()
        invariant
            i <= v.len(),
            r@ == v@.take(i as int),
        decreases v.len() - i,
    {
        r.push(v[i]);
        i += 1;
        proof {
            assert(r@ =~= v@.take(i as int));
        }
    }
    proof {
        assert(v@.take(v.len() as int) =~= v@);
    }
    r
}

/// Appends a copy of `src` to `dst`.
pub fn push_all(dst: &mut Vec<u8>, src: &Vec<u8>)
    ensures
        final (dst)@ == old(dst)@ + src@,
{
    let mut i: usize = 0;
    while i < src.len()
        invariant
            i <= src.len(),
            dst@ == old(dst)@ + src@.take(i as int),
        decreases src.len() - i,
    {
        dst.push(src[i]);
        i += 1;
        proof {
            assert(dst@ =~= old(dst)@ + src@.take(i as int));
        }
    }
    proof {
        assert(old(dst)@ + src@.take(src.len() as int) =~= old(dst)@ + src@);
    }
}

/// The bytes of `v` from `from` (inclusive) to `to` (exclusive), as a fresh
/// vector.
pub fn subvec(v: &Vec<u8>, from: usize, to: usize) -> (r: Vec<u8>)
    requires
        from <= to <= v@.len(),
    ensures
        r@ == v@.subrange(from as int, to as int),
{
    let mut r: Vec<u8> = Vec::new();
    let mut i: usize = from;
    while i < to
        invariant
            from <= i <= to <= v@.len(),
            r@ == v@.subrange(from as int, i as int),
        decreases to - i,
    {
        r.push(v[i]);
        i += 1;
        proof {
            assert(r@ =~= v@.subrange(from as int, i as int));
        }
    }
    r
}

/// The position of the first occurrence of `b` in `s`, or `-1` if `b` does
/// not occur.
pub open spec fn first_pos(s: Seq<u8>, b: u8) -> int
    decreases s.len(),
{
    if s.len() == 0 {
        -1
    } else if s[0] == b {
        0
    } else {
        let p = first_pos(s.drop_first(), b);
        if p == -1 {
            -1
        } else {
            p + 1
        }
    }
}

/// `first_pos` names the first occurrence: at a position holding `b`, with no
/// occurrence before it; `-1` exactly when `b` does not occur at all.
pub proof fn lemma_first_pos(s: Seq<u8>, b: u8)
    ensures
        first_pos(s, b) == -1 ==> forall|i: int| 0 <= i < s.len() ==> s[i] != b,
        first_pos(s, b) != -1 ==> {
            &&& 0 <= first_pos(s, b) < s.len()
            &&& s[first_pos(s, b)] == b
            &&& forall|i: int| 0 <= i < first_pos(s, b) ==> s[i] != b
        },
    decreases s.len(),
{
    if s.len() > 0 && s[0] != b {
        lemma_first_pos(s.drop_first(), b);
        assert(forall|i: int| 1 <= i < s.len() ==> s[i] == s.drop_first()[i - 1]);
    }
}

/// The position of the first occurrence of `b` in `v`, or `None`.
pub fn find_byte(v: &Vec<u8>, b: u8) -> (r: Option<usize>)
    ensures
        match r {
            Some(p) => first_pos(v@, b) == p as int,
            None => first_pos(v@, b) == -1,
        },
{
    proof {
        lemma_first_pos(v@, b);
    }
    let mut i: usize = 0;
    while i < v.len()
        invariant
            i <= v.len(),
            forall|j: int| 0 <= j < i ==> v@[j] != b,
        decreases v.len() - i,
    {
        if v[i] == b {
            proof {
                lemma_first_pos_unique(v@, b, i as int);
            }
            return Some(i);
        }
        i += 1;
    }
    None
}

/// A position holding `b`, before which `b` does not occur, is `first_pos`.
proof fn lemma_first_pos_unique(s: Seq<u8>, b: u8, p: int)
    requires
        0 <= p < s.len(),
        s[p] == b,
        forall|i: int| 0 <= i < p ==> s[i] != b,
    ensures
        first_pos(s, b) == p,
    decreases s.len(),
{
    if s[0] != b {
        assert(forall|i: int| 1 <= i < s.len() ==> s[i] == s.drop_first()[i - 1]);
        assert(s.drop_first()[p - 1] == b);
        lemma_first_pos_unique(s.drop_first(), b, p - 1);
    }
}

} // verus!
