//! Operations on two 16-lane vectors of words, taken together as 32 lanes.
use vstd::prelude::*;

verus! {

/// Lane `p` of the 32 lanes made of `hi` (lanes 0 to 15) followed by `lo`
/// (lanes 16 to 31).
pub open spec fn lane(hi: Seq<u32>, lo: Seq<u32>, p: int) -> u32 {
    if p < 16 {
        hi[p]
    } else {
        lo[p - 16]
    }
}

/// The word that keeps the bits of `own` outside `mask` and takes into the
/// positions under `mask` the bits of `other` outside `mask`, moved up by `k`.
pub open spec fn keep_low(own: u32, other: u32, mask: u32, k: u32) -> u32 {
    (own & !mask) | ((other & !mask) << k)
}

/// The word that keeps the bits of `own` under `mask` and takes into the
/// positions outside `mask` the bits of `other` under `mask`, moved down by `k`.
pub open spec fn keep_high(own: u32, other: u32, mask: u32, k: u32) -> u32 {
    (own & mask) | ((other & mask) >> k)
}

/// Gathers 16 of the 32 lanes of `hi` and `lo`: lane `l` of the result is
/// lane `idx[l]` of the pair.
pub fn swizzle(hi: &[u32; 16], lo: &[u32; 16], idx: &[usize; 16]) -> (r: [u32; 16])
    requires
        forall|l: int| 0 <= l < 16 ==> idx[l] < 32,
    ensures
        forall|l: int| 0 <= l < 16 ==> r[l] == lane(hi@, lo@, idx[l] as int),
{
    let mut r = [0u32; 16];
    let mut l: usize = 0;
    while l < 16
        invariant
            l <= 16,
            forall|q: int| 0 <= q < 16 ==> idx[q] < 32,
            forall|q: int| 0 <= q < l ==> r[q] == lane(hi@, lo@, idx[q] as int),
        decreases 16 - l,
    {
        let p = idx[l];
        let v = if p < 16 {
            hi[p]
        } else {
            lo[p - 16]
        };
        r[l] = v;
        l += 1;
    }
    r
}

/// Exchanges `k`-bit blocks between the rows paired lane by lane in `hi` and
/// `lo`: each `hi` lane keeps its blocks outside `mask` and receives the
/// `lo` lane's blocks outside `mask`; each `lo` lane keeps its blocks under
/// `mask` and receives the `hi` lane's blocks under `mask`.
pub fn exchange(hi: &[u32; 16], lo: &[u32; 16], mask: u32, k: u32) -> (r: ([u32; 16], [u32; 16]))
    requires
        k < 32,
    ensures
        forall|l: int|
            0 <= l < 16 ==> r.0[l] == keep_low(hi[l], lo[l], mask, k) && r.1[l] == keep_high(
                lo[l],
                hi[l],
                mask,
                k,
            ),
{
    let mut new_hi = [0u32; 16];
    let mut new_lo = [0u32; 16];
    let mut l: usize = 0;
    while l < 16
        invariant
            l <= 16,
            k < 32,
            forall|q: int|
                0 <= q < l ==> new_hi[q] == keep_low(hi[q], lo[q], mask, k) && new_lo[q]
                    == keep_high(lo[q], hi[q], mask, k),
        decreases 16 - l,
    {
        let h = hi[l];
        let o = lo[l];
        new_hi[l] = (h & !mask) | ((o & !mask) << k);
        new_lo[l] = (o & mask) | ((h & mask) >> k);
        l += 1;
    }
    (new_hi, new_lo)
}

} // verus!
