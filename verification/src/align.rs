//! Alignment arithmetic for the image layout.
//!
//! Every name and content blob in the image starts on an eight-byte
//! boundary, so lengths and offsets are rounded up with `align_up` and byte
//! buffers are padded with `align_to`. The mathematical meaning of the
//! rounding is `spec_align_up`.

use vstd::arithmetic::div_mod::{
    lemma_add_mod_noop, lemma_mod_division_less_than_divisor, lemma_mod_self_0, lemma_small_mod,
};
use vstd::prelude::*;

verus! {

/// The image's alignment boundary in bytes: every name and content blob
/// starts on a multiple of this.
pub const ALIGN: u64 = 8;

/// The alignment constant is a power of two, as the rounding rule demands.
pub proof fn lemma_align_is_pow2()
    ensures
        is_pow2(ALIGN),
{
    assert(8u64 & 7u64 == 0) by (bit_vector);
}

/// The smallest multiple of `a` that is at least `n`.
pub open spec fn spec_align_up(n: int, a: int) -> int
    recommends
        0 <= n,
        0 < a,
{
    n + ((a - n % a) % a)
}

/// `true` when `a` is a power of two, the only alignment boundaries the
/// image format's rounding rule is defined for.
pub open spec fn is_pow2(a: u64) -> bool {
    a > 0 && a & ((a - 1) as u64) == 0
}

/// `spec_align_up(n, a)` is the unique multiple of `a` in `[n, n + a)`,
/// and rounding an already aligned `n` changes nothing.
pub proof fn lemma_align_up_props(n: int, a: int)
    requires
        0 <= n,
        0 < a,
    ensures
        n <= spec_align_up(n, a),
        spec_align_up(n, a) < n + a,
        spec_align_up(n, a) % a == 0,
        n % a == 0 ==> spec_align_up(n, a) == n,
{
    let m = n % a;
    lemma_mod_division_less_than_divisor(n, a);
    lemma_mod_self_0(a);
    if m != 0 {
        lemma_small_mod((a - m) as nat, a as nat);
        lemma_add_mod_noop(n, a - m, a);
        assert((m + (a - m)) % a == 0);
    }
}

/// Rounds `n` up to the next multiple of the power-of-two `align`.
pub fn align_up(n: u64, align: u64) -> (r: u64)
    requires
        is_pow2(align),
        n + align - 1 <= u64::MAX,
    ensures
        r == spec_align_up(n as int, align as int),
{
    let rem = n % align;
    proof {
        lemma_mod_division_less_than_divisor(n as int, align as int);
        if rem == 0 {
            lemma_mod_self_0(align as int);
        } else {
            lemma_small_mod((align - rem) as nat, align as nat);
        }
    }
    if rem == 0 {
        n
    } else {
        n + (align - rem)
    }
}

/// Pads `vec` with zero bytes until its length is a multiple of the
/// power-of-two `align`.
pub fn align_to(vec: &mut Vec<u8>, align: u64)
    requires
        is_pow2(align),
        old(vec)@.len() + align - 1 <= u64::MAX,
        spec_align_up(old(vec)@.len() as int, align as int) <= usize::MAX,
    ensures
        final(vec)@ == old(vec)@ + zeros(
            spec_align_up(old(vec)@.len() as int, align as int) - old(vec)@.len(),
        ),
        final(vec)@.len() == spec_align_up(old(vec)@.len() as int, align as int),
{
    let len = vec.len() as u64;
    let aligned_len = align_up(len, align);
    proof {
        lemma_align_up_props(len as int, align as int);
    }
    let pad = aligned_len - len;
    let mut k: u64 = 0;
    while k < pad
        invariant
            k <= pad,
            pad == spec_align_up(old(vec)@.len() as int, align as int) - old(vec)@.len(),
            vec@ == old(vec)@ + zeros(k as int),
        decreases pad - k,
    {
        vec.push(0);
        k = k + 1;
        proof {
            assert(vec@ =~= old(vec)@ + zeros(k as int));
        }
    }
    proof {
        assert(vec@ == old(vec)@ + zeros(pad as int));
    }
}

/// A sequence of `n` zero bytes.
pub open spec fn zeros(n: int) -> Seq<u8> {
    Seq::new(n as nat, |i: int| 0u8)
}

} // verus!
