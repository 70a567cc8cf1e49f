//! The transpose, by recursive exchange of bit blocks across lane pairs.
//!
//! The 32 rows are held in two 16-lane vectors. For block sizes 16, 8, 4, 2
//! and 1 in turn, the rows whose blocks trade places are brought into the
//! same lane of the two vectors, and one masked exchange serves all 16 row
//! pairs at once: the row with the lower index keeps its blocks of the low
//! columns and takes those of its partner, which keeps its blocks of the high
//! columns. A last interleave puts the rows back in ascending order.
use crate::lanes::{exchange, keep_high, keep_low, lane, swizzle};
use crate::model::{bit, lemma_transposed_unique, transposed};
use vstd::prelude::*;

verus! {

// Stage masks: for block size `k`, `k` set bits above `k` clear bits.
const MASK_16: u32 = 0xFFFF0000;

const MASK_8: u32 = 0xFF00FF00;

const MASK_4: u32 = 0xF0F0F0F0;

const MASK_2: u32 = 0xCCCCCCCC;

const MASK_1: u32 = 0xAAAAAAAA;

// Lane tables. Lane `p` of the 32 lanes is lane `p` of the first vector for
// `p < 16`, else lane `p - 16` of the second. The tables of stage `k` bring
// into lane `l` of the two vectors the two rows that differ only in the bit
// of value `k`; the last pair puts the rows back in ascending order.
const SWIZZLE_8_HI: [usize; 16] = [0, 1, 2, 3, 4, 5, 6, 7, 16, 17, 18, 19, 20, 21, 22, 23];

const SWIZZLE_8_LO: [usize; 16] = [8, 9, 10, 11, 12, 13, 14, 15, 24, 25, 26, 27, 28, 29, 30, 31];

const SWIZZLE_4_HI: [usize; 16] = [0, 1, 2, 3, 16, 17, 18, 19, 8, 9, 10, 11, 24, 25, 26, 27];

const SWIZZLE_4_LO: [usize; 16] = [4, 5, 6, 7, 20, 21, 22, 23, 12, 13, 14, 15, 28, 29, 30, 31];

const SWIZZLE_2_HI: [usize; 16] = [0, 1, 16, 17, 4, 5, 20, 21, 8, 9, 24, 25, 12, 13, 28, 29];

const SWIZZLE_2_LO: [usize; 16] = [2, 3, 18, 19, 6, 7, 22, 23, 10, 11, 26, 27, 14, 15, 30, 31];

const SWIZZLE_1_HI: [usize; 16] = [0, 16, 2, 18, 4, 20, 6, 22, 8, 24, 10, 26, 12, 28, 14, 30];

const SWIZZLE_1_LO: [usize; 16] = [1, 17, 3, 19, 5, 21, 7, 23, 9, 25, 11, 27, 13, 29, 15, 31];

const SWIZZLE_F_HI: [usize; 16] = [0, 16, 1, 17, 2, 18, 3, 19, 4, 20, 5, 21, 6, 22, 7, 23];

const SWIZZLE_F_LO: [usize; 16] = [8, 24, 9, 25, 10, 26, 11, 27, 12, 28, 13, 29, 14, 30, 15, 31];

/// The block sizes of the stages.
pub open spec fn is_block(k: u32) -> bool {
    k == 1 || k == 2 || k == 4 || k == 8 || k == 16
}

/// The mask of stage `k`: `k` set bits above `k` clear bits, repeated.
pub open spec fn block_mask(k: u32) -> u32 {
    if k == 16 {
        0xFFFF0000u32
    } else if k == 8 {
        0xFF00FF00u32
    } else if k == 4 {
        0xF0F0F0F0u32
    } else if k == 2 {
        0xCCCCCCCCu32
    } else {
        0xAAAAAAAAu32
    }
}

/// The row held in lane `l` of vector `h` (0 for the first, 1 for the
/// second) in the layout of stage `k`: the bit of value `k` in the row index
/// is `h`, and its other four bits, in order, are those of `l`.
pub open spec fn row_at(k: u32, h: u32, l: u32) -> u32 {
    ((l & !((k - 1) as u32)) << 1u32) | (if h == 0 {
        0u32
    } else {
        k
    }) | (l & ((k - 1) as u32))
}

/// The row held in lane `p` of the 32 lanes in the layout of stage `k`.
pub open spec fn lane_row(k: u32, p: u32) -> u32 {
    row_at(k, p >> 4u32, p & 15u32)
}

/// The bits of `x` below `k` together with the bits of `y` from `k` on.
pub open spec fn mix(x: u32, y: u32, k: u32) -> u32 {
    (x & ((k - 1) as u32)) | (y & !((k - 1) as u32))
}

/// Entry (`r`, `c`) of `m` once its blocks of size `d` and above have been
/// exchanged: the bits of the row and column index from `d` on trade places.
pub open spec fn entry(m: Seq<u32>, r: u32, c: u32, d: u32) -> bool {
    bit(m[mix(r, c, d) as int], mix(c, r, d))
}

/// Vector `v` holds, in the layout of stage `k` as vector `h`, the rows of
/// `m` with the blocks of size `d` and above exchanged.
pub open spec fn holds_rows(m: Seq<u32>, v: Seq<u32>, k: u32, h: u32, d: u32) -> bool {
    forall|l: int, c: u32|
        0 <= l < 16 && c < 32 ==> #[trigger] bit(v[l], c) == entry(m, row_at(k, h, l as u32), c, d)
}

/// The pair `hi`, `lo` holds all rows of `m` in the layout of stage `k`, with
/// the blocks of size `d` and above exchanged.
pub open spec fn staged(m: Seq<u32>, hi: Seq<u32>, lo: Seq<u32>, k: u32, d: u32) -> bool {
    holds_rows(m, hi, k, 0, d) && holds_rows(m, lo, k, 1, d)
}

/// Gathering by `idx` from the layout of stage `from` gives lane `l` the row
/// that the layout of stage `to` puts in lane `l` of vector `h`.
pub open spec fn routes(idx: Seq<usize>, from: u32, to: u32, h: u32) -> bool {
    forall|l: int|
        #![trigger idx[l]]
        0 <= l < 16 ==> idx[l] < 32 && lane_row(from, idx[l] as u32) == row_at(
            to,
            h,
            l as u32,
        )
}

proof fn lemma_each_lane(p: spec_fn(int) -> bool)
    requires
        p(0),
        p(1),
        p(2),
        p(3),
        p(4),
        p(5),
        p(6),
        p(7),
        p(8),
        p(9),
        p(10),
        p(11),
        p(12),
        p(13),
        p(14),
        p(15),
    ensures
        forall|l: int| 0 <= l < 16 ==> #[trigger] p(l),
{
    assert forall|l: int| 0 <= l < 16 implies #[trigger] p(l) by {
        if l == 0 {
        } else if l == 1 {
        } else if l == 2 {
        } else if l == 3 {
        } else if l == 4 {
        } else if l == 5 {
        } else if l == 6 {
        } else if l == 7 {
        } else if l == 8 {
        } else if l == 9 {
        } else if l == 10 {
        } else if l == 11 {
        } else if l == 12 {
        } else if l == 13 {
        } else if l == 14 {
        } else {
        }
    }
}

proof fn lemma_routes_8_hi()
    ensures
        routes(SWIZZLE_8_HI@, 16, 8, 0),
{
    let idx = SWIZZLE_8_HI;
    assert({
        &&& lane_row(16, 0) == row_at(8, 0, 0)
        &&& lane_row(16, 1) == row_at(8, 0, 1)
        &&& lane_row(16, 2) == row_at(8, 0, 2)
        &&& lane_row(16, 3) == row_at(8, 0, 3)
        &&& lane_row(16, 4) == row_at(8, 0, 4)
        &&& lane_row(16, 5) == row_at(8, 0, 5)
        &&& lane_row(16, 6) == row_at(8, 0, 6)
        &&& lane_row(16, 7) == row_at(8, 0, 7)
        &&& lane_row(16, 16) == row_at(8, 0, 8)
        &&& lane_row(16, 17) == row_at(8, 0, 9)
        &&& lane_row(16, 18) == row_at(8, 0, 10)
        &&& lane_row(16, 19) == row_at(8, 0, 11)
        &&& lane_row(16, 20) == row_at(8, 0, 12)
        &&& lane_row(16, 21) == row_at(8, 0, 13)
        &&& lane_row(16, 22) == row_at(8, 0, 14)
        &&& lane_row(16, 23) == row_at(8, 0, 15)
    }) by (bit_vector);
    lemma_each_lane(
        |l: int| idx@[l] < 32 && lane_row(16, idx@[l] as u32) == row_at(8, 0, l as u32),
    );
}

proof fn lemma_routes_8_lo()
    ensures
        routes(SWIZZLE_8_LO@, 16, 8, 1),
{
    let idx = SWIZZLE_8_LO;
    assert({
        &&& lane_row(16, 8) == row_at(8, 1, 0)
        &&& lane_row(16, 9) == row_at(8, 1, 1)
        &&& lane_row(16, 10) == row_at(8, 1, 2)
        &&& lane_row(16, 11) == row_at(8, 1, 3)
        &&& lane_row(16, 12) == row_at(8, 1, 4)
        &&& lane_row(16, 13) == row_at(8, 1, 5)
        &&& lane_row(16, 14) == row_at(8, 1, 6)
        &&& lane_row(16, 15) == row_at(8, 1, 7)
        &&& lane_row(16, 24) == row_at(8, 1, 8)
        &&& lane_row(16, 25) == row_at(8, 1, 9)
        &&& lane_row(16, 26) == row_at(8, 1, 10)
        &&& lane_row(16, 27) == row_at(8, 1, 11)
        &&& lane_row(16, 28) == row_at(8, 1, 12)
        &&& lane_row(16, 29) == row_at(8, 1, 13)
        &&& lane_row(16, 30) == row_at(8, 1, 14)
        &&& lane_row(16, 31) == row_at(8, 1, 15)
    }) by (bit_vector);
    lemma_each_lane(
        |l: int| idx@[l] < 32 && lane_row(16, idx@[l] as u32) == row_at(8, 1, l as u32),
    );
}

proof fn lemma_routes_4_hi()
    ensures
        routes(SWIZZLE_4_HI@, 8, 4, 0),
{
    let idx = SWIZZLE_4_HI;
    assert({
        &&& lane_row(8, 0) == row_at(4, 0, 0)
        &&& lane_row(8, 1) == row_at(4, 0, 1)
        &&& lane_row(8, 2) == row_at(4, 0, 2)
        &&& lane_row(8, 3) == row_at(4, 0, 3)
        &&& lane_row(8, 16) == row_at(4, 0, 4)
        &&& lane_row(8, 17) == row_at(4, 0, 5)
        &&& lane_row(8, 18) == row_at(4, 0, 6)
        &&& lane_row(8, 19) == row_at(4, 0, 7)
        &&& lane_row(8, 8) == row_at(4, 0, 8)
        &&& lane_row(8, 9) == row_at(4, 0, 9)
        &&& lane_row(8, 10) == row_at(4, 0, 10)
        &&& lane_row(8, 11) == row_at(4, 0, 11)
        &&& lane_row(8, 24) == row_at(4, 0, 12)
        &&& lane_row(8, 25) == row_at(4, 0, 13)
        &&& lane_row(8, 26) == row_at(4, 0, 14)
        &&& lane_row(8, 27) == row_at(4, 0, 15)
    }) by (bit_vector);
    lemma_each_lane(
        |l: int| idx@[l] < 32 && lane_row(8, idx@[l] as u32) == row_at(4, 0, l as u32),
    );
}

proof fn lemma_routes_4_lo()
    ensures
        routes(SWIZZLE_4_LO@, 8, 4, 1),
{
    let idx = SWIZZLE_4_LO;
    assert({
        &&& lane_row(8, 4) == row_at(4, 1, 0)
        &&& lane_row(8, 5) == row_at(4, 1, 1)
        &&& lane_row(8, 6) == row_at(4, 1, 2)
        &&& lane_row(8, 7) == row_at(4, 1, 3)
        &&& lane_row(8, 20) == row_at(4, 1, 4)
        &&& lane_row(8, 21) == row_at(4, 1, 5)
        &&& lane_row(8, 22) == row_at(4, 1, 6)
        &&& lane_row(8, 23) == row_at(4, 1, 7)
        &&& lane_row(8, 12) == row_at(4, 1, 8)
        &&& lane_row(8, 13) == row_at(4, 1, 9)
        &&& lane_row(8, 14) == row_at(4, 1, 10)
        &&& lane_row(8, 15) == row_at(4, 1, 11)
        &&& lane_row(8, 28) == row_at(4, 1, 12)
        &&& lane_row(8, 29) == row_at(4, 1, 13)
        &&& lane_row(8, 30) == row_at(4, 1, 14)
        &&& lane_row(8, 31) == row_at(4, 1, 15)
    }) by (bit_vector);
    lemma_each_lane(
        |l: int| idx@[l] < 32 && lane_row(8, idx@[l] as u32) == row_at(4, 1, l as u32),
    );
}

proof fn lemma_routes_2_hi()
    ensures
        routes(SWIZZLE_2_HI@, 4, 2, 0),
{
    let idx = SWIZZLE_2_HI;
    assert({
        &&& lane_row(4, 0) == row_at(2, 0, 0)
        &&& lane_row(4, 1) == row_at(2, 0, 1)
        &&& lane_row(4, 16) == row_at(2, 0, 2)
        &&& lane_row(4, 17) == row_at(2, 0, 3)
        &&& lane_row(4, 4) == row_at(2, 0, 4)
        &&& lane_row(4, 5) == row_at(2, 0, 5)
        &&& lane_row(4, 20) == row_at(2, 0, 6)
        &&& lane_row(4, 21) == row_at(2, 0, 7)
        &&& lane_row(4, 8) == row_at(2, 0, 8)
        &&& lane_row(4, 9) == row_at(2, 0, 9)
        &&& lane_row(4, 24) == row_at(2, 0, 10)
        &&& lane_row(4, 25) == row_at(2, 0, 11)
        &&& lane_row(4, 12) == row_at(2, 0, 12)
        &&& lane_row(4, 13) == row_at(2, 0, 13)
        &&& lane_row(4, 28) == row_at(2, 0, 14)
        &&& lane_row(4, 29) == row_at(2, 0, 15)
    }) by (bit_vector);
    lemma_each_lane(
        |l: int| idx@[l] < 32 && lane_row(4, idx@[l] as u32) == row_at(2, 0, l as u32),
    );
}

proof fn lemma_routes_2_lo()
    ensures
        routes(SWIZZLE_2_LO@, 4, 2, 1),
{
    let idx = SWIZZLE_2_LO;
    assert({
        &&& lane_row(4, 2) == row_at(2, 1, 0)
        &&& lane_row(4, 3) == row_at(2, 1, 1)
        &&& lane_row(4, 18) == row_at(2, 1, 2)
        &&& lane_row(4, 19) == row_at(2, 1, 3)
        &&& lane_row(4, 6) == row_at(2, 1, 4)
        &&& lane_row(4, 7) == row_at(2, 1, 5)
        &&& lane_row(4, 22) == row_at(2, 1, 6)
        &&& lane_row(4, 23) == row_at(2, 1, 7)
        &&& lane_row(4, 10) == row_at(2, 1, 8)
        &&& lane_row(4, 11) == row_at(2, 1, 9)
        &&& lane_row(4, 26) == row_at(2, 1, 10)
        &&& lane_row(4, 27) == row_at(2, 1, 11)
        &&& lane_row(4, 14) == row_at(2, 1, 12)
        &&& lane_row(4, 15) == row_at(2, 1, 13)
        &&& lane_row(4, 30) == row_at(2, 1, 14)
        &&& lane_row(4, 31) == row_at(2, 1, 15)
    }) by (bit_vector);
    lemma_each_lane(
        |l: int| idx@[l] < 32 && lane_row(4, idx@[l] as u32) == row_at(2, 1, l as u32),
    );
}

proof fn lemma_routes_1_hi()
    ensures
        routes(SWIZZLE_1_HI@, 2, 1, 0),
{
    let idx = SWIZZLE_1_HI;
    assert({
        &&& lane_row(2, 0) == row_at(1, 0, 0)
        &&& lane_row(2, 16) == row_at(1, 0, 1)
        &&& lane_row(2, 2) == row_at(1, 0, 2)
        &&& lane_row(2, 18) == row_at(1, 0, 3)
        &&& lane_row(2, 4) == row_at(1, 0, 4)
        &&& lane_row(2, 20) == row_at(1, 0, 5)
        &&& lane_row(2, 6) == row_at(1, 0, 6)
        &&& lane_row(2, 22) == row_at(1, 0, 7)
        &&& lane_row(2, 8) == row_at(1, 0, 8)
        &&& lane_row(2, 24) == row_at(1, 0, 9)
        &&& lane_row(2, 10) == row_at(1, 0, 10)
        &&& lane_row(2, 26) == row_at(1, 0, 11)
        &&& lane_row(2, 12) == row_at(1, 0, 12)
        &&& lane_row(2, 28) == row_at(1, 0, 13)
        &&& lane_row(2, 14) == row_at(1, 0, 14)
        &&& lane_row(2, 30) == row_at(1, 0, 15)
    }) by (bit_vector);
    lemma_each_lane(
        |l: int| idx@[l] < 32 && lane_row(2, idx@[l] as u32) == row_at(1, 0, l as u32),
    );
}

proof fn lemma_routes_1_lo()
    ensures
        routes(SWIZZLE_1_LO@, 2, 1, 1),
{
    let idx = SWIZZLE_1_LO;
    assert({
        &&& lane_row(2, 1) == row_at(1, 1, 0)
        &&& lane_row(2, 17) == row_at(1, 1, 1)
        &&& lane_row(2, 3) == row_at(1, 1, 2)
        &&& lane_row(2, 19) == row_at(1, 1, 3)
        &&& lane_row(2, 5) == row_at(1, 1, 4)
        &&& lane_row(2, 21) == row_at(1, 1, 5)
        &&& lane_row(2, 7) == row_at(1, 1, 6)
        &&& lane_row(2, 23) == row_at(1, 1, 7)
        &&& lane_row(2, 9) == row_at(1, 1, 8)
        &&& lane_row(2, 25) == row_at(1, 1, 9)
        &&& lane_row(2, 11) == row_at(1, 1, 10)
        &&& lane_row(2, 27) == row_at(1, 1, 11)
        &&& lane_row(2, 13) == row_at(1, 1, 12)
        &&& lane_row(2, 29) == row_at(1, 1, 13)
        &&& lane_row(2, 15) == row_at(1, 1, 14)
        &&& lane_row(2, 31) == row_at(1, 1, 15)
    }) by (bit_vector);
    lemma_each_lane(
        |l: int| idx@[l] < 32 && lane_row(2, idx@[l] as u32) == row_at(1, 1, l as u32),
    );
}

proof fn lemma_routes_f_hi()
    ensures
        routes(SWIZZLE_F_HI@, 1, 16, 0),
{
    let idx = SWIZZLE_F_HI;
    assert({
        &&& lane_row(1, 0) == row_at(16, 0, 0)
        &&& lane_row(1, 16) == row_at(16, 0, 1)
        &&& lane_row(1, 1) == row_at(16, 0, 2)
        &&& lane_row(1, 17) == row_at(16, 0, 3)
        &&& lane_row(1, 2) == row_at(16, 0, 4)
        &&& lane_row(1, 18) == row_at(16, 0, 5)
        &&& lane_row(1, 3) == row_at(16, 0, 6)
        &&& lane_row(1, 19) == row_at(16, 0, 7)
        &&& lane_row(1, 4) == row_at(16, 0, 8)
        &&& lane_row(1, 20) == row_at(16, 0, 9)
        &&& lane_row(1, 5) == row_at(16, 0, 10)
        &&& lane_row(1, 21) == row_at(16, 0, 11)
        &&& lane_row(1, 6) == row_at(16, 0, 12)
        &&& lane_row(1, 22) == row_at(16, 0, 13)
        &&& lane_row(1, 7) == row_at(16, 0, 14)
        &&& lane_row(1, 23) == row_at(16, 0, 15)
    }) by (bit_vector);
    lemma_each_lane(
        |l: int| idx@[l] < 32 && lane_row(1, idx@[l] as u32) == row_at(16, 0, l as u32),
    );
}

proof fn lemma_routes_f_lo()
    ensures
        routes(SWIZZLE_F_LO@, 1, 16, 1),
{
    let idx = SWIZZLE_F_LO;
    assert({
        &&& lane_row(1, 8) == row_at(16, 1, 0)
        &&& lane_row(1, 24) == row_at(16, 1, 1)
        &&& lane_row(1, 9) == row_at(16, 1, 2)
        &&& lane_row(1, 25) == row_at(16, 1, 3)
        &&& lane_row(1, 10) == row_at(16, 1, 4)
        &&& lane_row(1, 26) == row_at(16, 1, 5)
        &&& lane_row(1, 11) == row_at(16, 1, 6)
        &&& lane_row(1, 27) == row_at(16, 1, 7)
        &&& lane_row(1, 12) == row_at(16, 1, 8)
        &&& lane_row(1, 28) == row_at(16, 1, 9)
        &&& lane_row(1, 13) == row_at(16, 1, 10)
        &&& lane_row(1, 29) == row_at(16, 1, 11)
        &&& lane_row(1, 14) == row_at(16, 1, 12)
        &&& lane_row(1, 30) == row_at(16, 1, 13)
        &&& lane_row(1, 15) == row_at(16, 1, 14)
        &&& lane_row(1, 31) == row_at(16, 1, 15)
    }) by (bit_vector);
    lemma_each_lane(
        |l: int| idx@[l] < 32 && lane_row(1, idx@[l] as u32) == row_at(16, 1, l as u32),
    );
}

proof fn lemma_lane_split(p: u32)
    requires
        p < 32,
    ensures
        p < 16 ==> p >> 4u32 == 0 && p & 15u32 == p,
        p >= 16 ==> p >> 4u32 == 1 && p & 15u32 == (p - 16) as u32,
{
    assert(p < 16 ==> p >> 4u32 == 0 && p & 15u32 == p) by (bit_vector)
        requires
            p < 32,
    ;
    assert(p >= 16 ==> p >> 4u32 == 1 && p & 15u32 == (p - 16) as u32) by (bit_vector)
        requires
            p < 32,
    ;
}

/// Gathering lanes by a table that routes the layout of stage `from` to
/// that of stage `to` moves the rows without changing them.
proof fn lemma_gather(
    m: Seq<u32>,
    hi: Seq<u32>,
    lo: Seq<u32>,
    r: Seq<u32>,
    idx: Seq<usize>,
    from: u32,
    to: u32,
    h: u32,
    d: u32,
)
    requires
        hi.len() == 16,
        lo.len() == 16,
        staged(m, hi, lo, from, d),
        routes(idx, from, to, h),
        forall|l: int| 0 <= l < 16 ==> r[l] == lane(hi, lo, idx[l] as int),
    ensures
        holds_rows(m, r, to, h, d),
{
    assert forall|l: int, c: u32| 0 <= l < 16 && c < 32 implies #[trigger] bit(r[l], c) == entry(
        m,
        row_at(to, h, l as u32),
        c,
        d,
    ) by {
        let p = idx[l];
        assert(lane_row(from, p as u32) == row_at(to, h, l as u32));
        lemma_lane_split(p as u32);
        if p < 16 {
            assert(bit(hi[p as int], c) == entry(m, row_at(from, 0, p as u32), c, d));
        } else {
            assert(bit(lo[p - 16], c) == entry(m, row_at(from, 1, (p - 16) as u32), c, d));
        }
    }
}

proof fn lemma_row_pair(k: u32, l: u32)
    requires
        is_block(k),
        l < 16,
    ensures
        row_at(k, 0, l) < 32,
        row_at(k, 0, l) & k == 0,
        row_at(k, 1, l) == row_at(k, 0, l) | k,
{
    assert(row_at(k, 0, l) < 32 && row_at(k, 0, l) & k == 0 && row_at(k, 1, l) == row_at(k, 0, l)
        | k) by (bit_vector)
        requires
            is_block(k),
            l < 16,
    ;
}

proof fn lemma_keep_bits(own: u32, other: u32, k: u32, c: u32)
    requires
        is_block(k),
        c < 32,
    ensures
        c & k == 0 ==> bit(keep_low(own, other, block_mask(k), k), c) == bit(own, c),
        c & k != 0 ==> bit(keep_low(own, other, block_mask(k), k), c) == bit(
            other,
            (c - k) as u32,
        ),
        c & k != 0 ==> bit(keep_high(own, other, block_mask(k), k), c) == bit(own, c),
        c & k == 0 ==> bit(keep_high(own, other, block_mask(k), k), c) == bit(
            other,
            (c + k) as u32,
        ),
        c & k != 0 ==> c >= k && (c - k) as u32 & k == 0,
        c & k == 0 ==> c + k < 32 && (c + k) as u32 & k != 0,
{
    assert(c & k == 0 ==> bit(keep_low(own, other, block_mask(k), k), c) == bit(own, c))
        by (bit_vector)
        requires
            is_block(k),
            c < 32,
    ;
    assert(c & k != 0 ==> bit(keep_low(own, other, block_mask(k), k), c) == bit(
        other,
        (c - k) as u32,
    )) by (bit_vector)
        requires
            is_block(k),
            c < 32,
    ;
    assert(c & k != 0 ==> bit(keep_high(own, other, block_mask(k), k), c) == bit(own, c))
        by (bit_vector)
        requires
            is_block(k),
            c < 32,
    ;
    assert(c & k == 0 ==> bit(keep_high(own, other, block_mask(k), k), c) == bit(
        other,
        (c + k) as u32,
    )) by (bit_vector)
        requires
            is_block(k),
            c < 32,
    ;
    assert((c & k != 0 ==> c >= k && (c - k) as u32 & k == 0) && (c & k == 0 ==> c + k < 32 && (c
        + k) as u32 & k != 0)) by (bit_vector)
        requires
            is_block(k),
            c < 32,
    ;
}

proof fn lemma_mix_step(r: u32, c: u32, k: u32, d: u32)
    requires
        is_block(k),
        d == 2 * k,
        r < 32,
        c < 32,
        r & k == 0,
    ensures
        c & k == 0 ==> mix(r, c, d) == mix(r, c, k) && mix(c, r, d) == mix(c, r, k),
        c & k != 0 ==> mix(r | k, (c - k) as u32, d) == mix(r, c, k) && mix(
            (c - k) as u32,
            r | k,
            d,
        ) == mix(c, r, k),
        c & k != 0 ==> mix(r | k, c, d) == mix(r | k, c, k) && mix(c, r | k, d) == mix(
            c,
            r | k,
            k,
        ),
        c & k == 0 ==> mix(r, (c + k) as u32, d) == mix(r | k, c, k) && mix(
            (c + k) as u32,
            r,
            d,
        ) == mix(c, r | k, k),
{
    assert(c & k == 0 ==> mix(r, c, d) == mix(r, c, k) && mix(c, r, d) == mix(c, r, k))
        by (bit_vector)
        requires
            is_block(k),
            d == 2 * k,
            r < 32,
            c < 32,
            r & k == 0,
    ;
    assert(c & k != 0 ==> mix(r | k, (c - k) as u32, d) == mix(r, c, k) && mix(
        (c - k) as u32,
        r | k,
        d,
    ) == mix(c, r, k)) by (bit_vector)
        requires
            is_block(k),
            d == 2 * k,
            r < 32,
            c < 32,
            r & k == 0,
    ;
    assert(c & k != 0 ==> mix(r | k, c, d) == mix(r | k, c, k) && mix(c, r | k, d) == mix(
        c,
        r | k,
        k,
    )) by (bit_vector)
        requires
            is_block(k),
            d == 2 * k,
            r < 32,
            c < 32,
            r & k == 0,
    ;
    assert(c & k == 0 ==> mix(r, (c + k) as u32, d) == mix(r | k, c, k) && mix(
        (c + k) as u32,
        r,
        d,
    ) == mix(c, r | k, k)) by (bit_vector)
        requires
            is_block(k),
            d == 2 * k,
            r < 32,
            c < 32,
            r & k == 0,
    ;
}

proof fn lemma_exchange_at(
    m: Seq<u32>,
    hp: Seq<u32>,
    lp: Seq<u32>,
    hi: Seq<u32>,
    lo: Seq<u32>,
    k: u32,
    l: int,
    c: u32,
)
    requires
        is_block(k),
        0 <= l < 16,
        c < 32,
        staged(m, hp, lp, k, (2 * k) as u32),
        hi[l] == keep_low(hp[l], lp[l], block_mask(k), k),
        lo[l] == keep_high(lp[l], hp[l], block_mask(k), k),
    ensures
        bit(hi[l], c) == entry(m, row_at(k, 0, l as u32), c, k),
        bit(lo[l], c) == entry(m, row_at(k, 1, l as u32), c, k),
{
    let d = (2 * k) as u32;
    let r = row_at(k, 0, l as u32);
    lemma_row_pair(k, l as u32);
    lemma_mix_step(r, c, k, d);
    lemma_keep_bits(hp[l], lp[l], k, c);
    lemma_keep_bits(lp[l], hp[l], k, c);
    if c & k == 0 {
        assert(bit(hp[l], c) == entry(m, r, c, d));
        assert(bit(hp[l], (c + k) as u32) == entry(m, r, (c + k) as u32, d));
    } else {
        assert(bit(lp[l], (c - k) as u32) == entry(m, r | k, (c - k) as u32, d));
        assert(bit(lp[l], c) == entry(m, r | k, c, d));
    }
}

/// The masked exchange of stage `k` on rows paired lane by lane exchanges
/// their blocks of size `k`, leaving the layout as it is.
proof fn lemma_exchange(m: Seq<u32>, hp: Seq<u32>, lp: Seq<u32>, hi: Seq<u32>, lo: Seq<u32>, k: u32)
    requires
        is_block(k),
        staged(m, hp, lp, k, (2 * k) as u32),
        forall|l: int|
            0 <= l < 16 ==> hi[l] == keep_low(hp[l], lp[l], block_mask(k), k) && lo[l]
                == keep_high(lp[l], hp[l], block_mask(k), k),
    ensures
        staged(m, hi, lo, k, k),
{
    assert forall|l: int, c: u32| 0 <= l < 16 && c < 32 implies #[trigger] bit(hi[l], c) == entry(
        m,
        row_at(k, 0, l as u32),
        c,
        k,
    ) by {
        lemma_exchange_at(m, hp, lp, hi, lo, k, l, c);
    }
    assert forall|l: int, c: u32| 0 <= l < 16 && c < 32 implies #[trigger] bit(lo[l], c) == entry(
        m,
        row_at(k, 1, l as u32),
        c,
        k,
    ) by {
        lemma_exchange_at(m, hp, lp, hi, lo, k, l, c);
    }
}

proof fn lemma_mix_ends(r: u32, c: u32)
    requires
        r < 32,
        c < 32,
    ensures
        mix(r, c, 32) == r,
        mix(c, r, 1) == r,
{
    assert(mix(r, c, 32) == r && mix(c, r, 1) == r) by (bit_vector)
        requires
            r < 32,
            c < 32,
    ;
}

proof fn lemma_rows_in_order(l: u32)
    requires
        l < 16,
    ensures
        row_at(16, 0, l) == l,
        row_at(16, 1, l) == l + 16,
{
    assert(row_at(16, 0, l) == l && row_at(16, 1, l) == l + 16) by (bit_vector)
        requires
            l < 16,
    ;
}

/// Rows 0 to 15 in the first vector and rows 16 to 31 in the second are the
/// layout of the first stage, before any exchange.
proof fn lemma_loaded(m: Seq<u32>, hi: Seq<u32>, lo: Seq<u32>)
    requires
        forall|q: int| 0 <= q < 16 ==> hi[q] == m[q] && lo[q] == m[q + 16],
    ensures
        staged(m, hi, lo, 16, 32),
{
    assert forall|q: int, c: u32| 0 <= q < 16 && c < 32 implies #[trigger] bit(hi[q], c) == entry(
        m,
        row_at(16, 0, q as u32),
        c,
        32,
    ) by {
        lemma_rows_in_order(q as u32);
        lemma_mix_ends(q as u32, c);
        lemma_mix_ends(c, q as u32);
    }
    assert forall|q: int, c: u32| 0 <= q < 16 && c < 32 implies #[trigger] bit(lo[q], c) == entry(
        m,
        row_at(16, 1, q as u32),
        c,
        32,
    ) by {
        lemma_rows_in_order(q as u32);
        lemma_mix_ends((q + 16) as u32, c);
        lemma_mix_ends(c, (q + 16) as u32);
    }
}

/// Once every block is exchanged and the rows are back in order, the 32
/// words are the transpose of `m`.
proof fn lemma_stored(m: Seq<u32>, hi: Seq<u32>, lo: Seq<u32>, t: Seq<u32>)
    requires
        t.len() == 32,
        staged(m, hi, lo, 16, 1),
        forall|q: int| 0 <= q < 16 ==> t[q] == hi[q] && t[q + 16] == lo[q],
    ensures
        forall|i: u32, j: u32| i < 32 && j < 32 ==> #[trigger] bit(t[i as int], j) == bit(
            m[j as int],
            i,
        ),
{
    assert forall|i: u32, j: u32| i < 32 && j < 32 implies #[trigger] bit(t[i as int], j) == bit(
        m[j as int],
        i,
    ) by {
        let q = if i < 16 {
            i
        } else {
            (i - 16) as u32
        };
        lemma_rows_in_order(q);
        lemma_mix_ends(j, i);
        lemma_mix_ends(i, j);
        if i < 16 {
            assert(bit(hi[q as int], j) == entry(m, row_at(16, 0, q), j, 1));
        } else {
            assert(t[i as int] == lo[q as int]);
            assert(bit(lo[q as int], j) == entry(m, row_at(16, 1, q), j, 1));
        }
    }
}

/// One stage below the first: gathers into lane pairs the rows whose blocks
/// of size `k` trade places, then exchanges those blocks.
fn stage(
    hi: &[u32; 16],
    lo: &[u32; 16],
    idx_hi: &[usize; 16],
    idx_lo: &[usize; 16],
    mask: u32,
    k: u32,
    Ghost(m): Ghost<Seq<u32>>,
) -> (r: ([u32; 16], [u32; 16]))
    requires
        is_block(k),
        k < 16,
        mask == block_mask(k),
        staged(m, hi@, lo@, (2 * k) as u32, (2 * k) as u32),
        routes(idx_hi@, (2 * k) as u32, k, 0),
        routes(idx_lo@, (2 * k) as u32, k, 1),
    ensures
        staged(m, r.0@, r.1@, k, k),
{
    let hp = swizzle(hi, lo, idx_hi);
    let lp = swizzle(hi, lo, idx_lo);
    proof {
        lemma_gather(m, hi@, lo@, hp@, idx_hi@, (2 * k) as u32, k, 0, (2 * k) as u32);
        lemma_gather(m, hi@, lo@, lp@, idx_lo@, (2 * k) as u32, k, 1, (2 * k) as u32);
    }
    let r = exchange(&hp, &lp, mask, k);
    proof {
        lemma_exchange(m, hp@, lp@, r.0@, r.1@, k);
    }
    r
}

/// Transposes the 32x32 bit matrix `matrix` in place: afterwards bit `j` of
/// row `i` is what bit `i` of row `j` was before.
pub fn transpose(matrix: &mut [u32; 32])
    ensures
        final(matrix)@ == transposed(old(matrix)@),
        forall|i: int, j: int|
            0 <= i < 32 && 0 <= j < 32 ==> bit(final(matrix)[i], j as u32) == bit(
                old(matrix)[j],
                i as u32,
            ),
{
    let ghost m = matrix@;
    let mut hi = [0u32; 16];
    let mut lo = [0u32; 16];
    let mut l: usize = 0;
    while l < 16
        invariant
            l <= 16,
            matrix@ == m,
            forall|q: int| 0 <= q < l ==> hi[q] == m[q] && lo[q] == m[q + 16],
        decreases 16 - l,
    {
        hi[l] = matrix[l];
        lo[l] = matrix[l + 16];
        l += 1;
    }
    proof {
        lemma_loaded(m, hi@, lo@);
    }
    let (hi16, lo16) = exchange(&hi, &lo, MASK_16, 16);
    proof {
        lemma_exchange(m, hi@, lo@, hi16@, lo16@, 16);
        lemma_routes_8_hi();
        lemma_routes_8_lo();
    }
    let (hi, lo) = stage(&hi16, &lo16, &SWIZZLE_8_HI, &SWIZZLE_8_LO, MASK_8, 8, Ghost(m));
    proof {
        lemma_routes_4_hi();
        lemma_routes_4_lo();
    }
    let (hi, lo) = stage(&hi, &lo, &SWIZZLE_4_HI, &SWIZZLE_4_LO, MASK_4, 4, Ghost(m));
    proof {
        lemma_routes_2_hi();
        lemma_routes_2_lo();
    }
    let (hi, lo) = stage(&hi, &lo, &SWIZZLE_2_HI, &SWIZZLE_2_LO, MASK_2, 2, Ghost(m));
    proof {
        lemma_routes_1_hi();
        lemma_routes_1_lo();
    }
    let (hi, lo) = stage(&hi, &lo, &SWIZZLE_1_HI, &SWIZZLE_1_LO, MASK_1, 1, Ghost(m));
    let out_hi = swizzle(&hi, &lo, &SWIZZLE_F_HI);
    let out_lo = swizzle(&hi, &lo, &SWIZZLE_F_LO);
    proof {
        lemma_routes_f_hi();
        lemma_routes_f_lo();
        lemma_gather(m, hi@, lo@, out_hi@, SWIZZLE_F_HI@, 1, 16, 0, 1);
        lemma_gather(m, hi@, lo@, out_lo@, SWIZZLE_F_LO@, 1, 16, 1, 1);
    }
    let mut l: usize = 0;
    while l < 16
        invariant
            l <= 16,
            forall|q: int| 0 <= q < l ==> matrix[q] == out_hi[q] && matrix[q + 16] == out_lo[q],
        decreases 16 - l,
    {
        matrix[l] = out_hi[l];
        matrix[l + 16] = out_lo[l];
        l += 1;
    }
    proof {
        lemma_stored(m, out_hi@, out_lo@, matrix@);
        lemma_transposed_unique(m, matrix@);
    }
}

} // verus!
