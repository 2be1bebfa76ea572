//! Trits and the integer steps of BitNet quantisation.

use vstd::prelude::*;

verus! {

/// A single ternary weight value.
pub type Trit = i8;

/// `t` is one of -1, 0, +1.
pub open spec fn is_trit(t: int) -> bool {
    -1 <= t <= 1
}

/// Every element of `s` is a trit.
pub open spec fn all_trits(s: Seq<Trit>) -> bool {
    forall|k: int| 0 <= k < s.len() ==> is_trit(#[trigger] s[k] as int)
}

/// `v` clamped into `[lo, hi]`, as `v.max(lo).min(hi)` computes it for `lo <= hi`.
pub open spec fn clamp(v: int, lo: int, hi: int) -> int {
    if v < lo {
        lo
    } else if v > hi {
        hi
    } else {
        v
    }
}

/// The sign of `v`: -1, 0 or +1.
pub open spec fn sign(v: int) -> int {
    if v > 0 {
        1
    } else if v < 0 {
        -1
    } else {
        0
    }
}

/// The trit that a residue modulo 3 selects in the weight patterns:
/// 0 gives -1, 1 gives 0, anything else gives +1.
pub open spec fn residue_trit(h: int) -> int {
    if h == 0 {
        -1
    } else if h == 1 {
        0
    } else {
        1
    }
}

/// Maps a residue modulo 3 to its trit (0 -> -1, 1 -> 0, otherwise +1).
pub fn trit_from_residue(h: usize) -> (t: Trit)
    ensures
        t == residue_trit(h as int),
        is_trit(t as int),
{
    match h {
        0 => -1,
        1 => 0,
        _ => 1,
    }
}

/// Clamps a rounded quantisation ratio to a trit: `v.max(-1).min(1)`.
pub fn clamp_trit(v: i8) -> (t: Trit)
    ensures
        t == clamp(v as int, -1, 1),
        is_trit(t as int),
{
    if v < -1 {
        -1
    } else if v > 1 {
        1
    } else {
        v
    }
}

/// Second half of BitNet quantisation: each weight divided by the scale,
/// rounded and saturated to `i8`, is clamped to a trit.
pub fn quantize_rounded(rounded: &[i8]) -> (trits: Vec<Trit>)
    ensures
        trits@.len() == rounded@.len(),
        forall|k: int|
            0 <= k < rounded@.len() ==> #[trigger] trits@[k] == clamp(rounded@[k] as int, -1, 1),
        all_trits(trits@),
{
    let mut trits: Vec<Trit> = Vec::with_capacity(rounded.len());
    let mut k: usize = 0;
    while k < rounded.len()
        invariant
            k <= rounded@.len(),
            trits@.len() == k,
            forall|m: int| 0 <= m < k ==> #[trigger] trits@[m] == clamp(rounded@[m] as int, -1, 1),
        decreases rounded@.len() - k,
    {
        let t = clamp_trit(rounded[k]);
        trits.push(t);
        k = k + 1;
    }
    trits
}

/// Clamps a rounded activation into the signed 8-bit range the integer
/// forward pass uses: `v.max(-127).min(127)`.
pub fn clamp_activation(v: i32) -> (a: i32)
    ensures
        a == clamp(v as int, -127, 127),
{
    if v < -127 {
        -127
    } else if v > 127 {
        127
    } else {
        v
    }
}

/// Clamping an integer to [-1, 1] gives its sign: quantisation keeps the
/// sign of every rounded ratio.
pub proof fn lemma_trit_clamp_is_sign(v: int)
    ensures
        clamp(v, -1, 1) == sign(v),
{
}

/// Multiplying by a trit needs no multiplication: a weight of 0 skips the
/// input, +1 passes it through and -1 negates it.
pub proof fn lemma_trit_product(w: int, a: int)
    requires
        is_trit(w),
    ensures
        w * a == if w == 0 {
            0
        } else if w == 1 {
            a
        } else {
            -a
        },
{
    if w == 0 {
        assert(w * a == 0);
    } else if w == 1 {
        assert(w * a == a);
    } else {
        assert(w == -1);
        assert(w * a == -a);
    }
}

/// The activation clamp keeps every value in [-127, 127] as it is and sends
/// values beyond it to the nearer bound.
pub proof fn lemma_activation_clamp(v: int)
    ensures
        -127 <= clamp(v, -127, 127) <= 127,
        -127 <= v <= 127 ==> clamp(v, -127, 127) == v,
        v > 127 ==> clamp(v, -127, 127) == 127,
        v < -127 ==> clamp(v, -127, 127) == -127,
        clamp(-v, -127, 127) == -clamp(v, -127, 127),
{
}

} // verus!
