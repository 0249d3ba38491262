//! Writing into the bytes of a block, and what a write leaves as it was.

use vstd::prelude::*;

verus! {

/// The bytes of `base` with `src` written over them from offset `at` on.
pub open spec fn overlay(base: Seq<u8>, at: int, src: Seq<u8>) -> Seq<u8> {
    Seq::new(
        base.len(),
        |i: int|
            if at <= i < at + src.len() {
                src[i - at]
            } else {
                base[i]
            },
    )
}

/// What was written can be read back where it was written.
pub proof fn lemma_overlay_inside(base: Seq<u8>, at: int, src: Seq<u8>)
    requires
        0 <= at,
        at + src.len() <= base.len(),
    ensures
        overlay(base, at, src).len() == base.len(),
        overlay(base, at, src).subrange(at, at + src.len()) == src,
{
    assert(overlay(base, at, src).subrange(at, at + src.len()) =~= src);
}

/// A write leaves every range alone that it does not reach into.
pub proof fn lemma_overlay_outside(base: Seq<u8>, at: int, src: Seq<u8>, from: int, to: int)
    requires
        0 <= from <= to <= base.len(),
        to <= at || at + src.len() <= from,
    ensures
        overlay(base, at, src).subrange(from, to) == base.subrange(from, to),
{
    assert(overlay(base, at, src).subrange(from, to) =~= base.subrange(from, to));
}

/// A part of a part is a part.
pub proof fn lemma_subrange_twice(s: Seq<u8>, from: int, to: int, a: int, b: int)
    requires
        0 <= from <= to <= s.len(),
        0 <= a <= b <= to - from,
    ensures
        s.subrange(from, to).subrange(a, b) == s.subrange(from + a, from + b),
{
    assert(s.subrange(from, to).subrange(a, b) =~= s.subrange(from + a, from + b));
}

/// Copies `src` into `dst` from offset `at` on.
pub fn write_bytes(dst: &mut Vec<u8>, at: usize, src: &[u8])
    requires
        at + src@.len() <= old(dst)@.len(),
    ensures
        final(dst)@ == overlay(old(dst)@, at as int, src@),
{
    let len = dst.len();
    let mut i: usize = 0;
    while i < src.len()
        invariant
            i <= src@.len(),
            at + src@.len() <= dst@.len(),
            dst@.len() == len,
            dst@.len() == old(dst)@.len(),
            forall|k: int|
                0 <= k < dst@.len() ==> #[trigger] dst@[k] == (if at <= k < at + i {
                    src@[k - at]
                } else {
                    old(dst)@[k]
                }),
        decreases src@.len() - i,
    {
        dst[at + i] = src[i];
        i += 1;
    }
    proof {
        assert(dst@ =~= overlay(old(dst)@, at as int, src@));
    }
}

} // verus!
