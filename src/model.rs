//! The mathematical model of a bit matrix and the laws of its transpose.
use vstd::prelude::*;

verus! {

/// Bit `j` of word `w`, with bit 0 the least significant.
pub open spec fn bit(w: u32, j: u32) -> bool {
    (w >> j) & 1u32 == 1u32
}

/// The word whose bit `j`, for each `j < n`, is bit `i` of row `j` of `m`;
/// its bits from `n` on are clear.
pub open spec fn column_word(m: Seq<u32>, i: u32, n: nat) -> u32
    decreases n,
{
    if n == 0 {
        0u32
    } else {
        let j = (n - 1) as nat;
        let rest = column_word(m, i, j);
        if bit(m[j as int], i) {
            rest | (1u32 << (j as u32))
        } else {
            rest
        }
    }
}

/// The transpose of the 32x32 matrix `m`: row `i` is column `i` of `m`.
pub open spec fn transposed(m: Seq<u32>) -> Seq<u32> {
    Seq::new(32, |i: int| column_word(m, i as u32, 32))
}

/// The matrix sum over GF(2): rows combined word by word with XOR.
pub open spec fn xor_rows(a: Seq<u32>, b: Seq<u32>) -> Seq<u32> {
    Seq::new(a.len(), |i: int| a[i] ^ b[i])
}

/// `m` is a matrix of 32 rows.
pub open spec fn is_matrix(m: Seq<u32>) -> bool {
    m.len() == 32
}

proof fn lemma_bit_of_set(w: u32, n: u32, j: u32)
    requires
        n < 32,
        j < 32,
    ensures
        bit(w | (1u32 << n), j) == (j == n || bit(w, j)),
{
    assert(bit(w | (1u32 << n), j) == (j == n || bit(w, j))) by (bit_vector)
        requires
            n < 32,
            j < 32,
    ;
}

proof fn lemma_bit_of_zero(j: u32)
    requires
        j < 32,
    ensures
        !bit(0u32, j),
{
    assert(!bit(0u32, j)) by (bit_vector)
        requires
            j < 32,
    ;
}

/// Bit `j` of an XOR is the difference of the two bits `j`.
pub proof fn lemma_bit_of_xor(x: u32, y: u32, j: u32)
    requires
        j < 32,
    ensures
        bit(x ^ y, j) == (bit(x, j) != bit(y, j)),
{
    assert(bit(x ^ y, j) == (bit(x, j) != bit(y, j))) by (bit_vector)
        requires
            j < 32,
    ;
}

/// Two words with the same 32 bits are equal.
pub proof fn lemma_word_from_bits(a: u32, b: u32)
    requires
        forall|j: u32| j < 32 ==> #[trigger] bit(a, j) == bit(b, j),
    ensures
        a == b,
{
    assert(bit(a, 0u32) == bit(b, 0u32));
    assert(bit(a, 1u32) == bit(b, 1u32));
    assert(bit(a, 2u32) == bit(b, 2u32));
    assert(bit(a, 3u32) == bit(b, 3u32));
    assert(bit(a, 4u32) == bit(b, 4u32));
    assert(bit(a, 5u32) == bit(b, 5u32));
    assert(bit(a, 6u32) == bit(b, 6u32));
    assert(bit(a, 7u32) == bit(b, 7u32));
    assert(bit(a, 8u32) == bit(b, 8u32));
    assert(bit(a, 9u32) == bit(b, 9u32));
    assert(bit(a, 10u32) == bit(b, 10u32));
    assert(bit(a, 11u32) == bit(b, 11u32));
    assert(bit(a, 12u32) == bit(b, 12u32));
    assert(bit(a, 13u32) == bit(b, 13u32));
    assert(bit(a, 14u32) == bit(b, 14u32));
    assert(bit(a, 15u32) == bit(b, 15u32));
    assert(bit(a, 16u32) == bit(b, 16u32));
    assert(bit(a, 17u32) == bit(b, 17u32));
    assert(bit(a, 18u32) == bit(b, 18u32));
    assert(bit(a, 19u32) == bit(b, 19u32));
    assert(bit(a, 20u32) == bit(b, 20u32));
    assert(bit(a, 21u32) == bit(b, 21u32));
    assert(bit(a, 22u32) == bit(b, 22u32));
    assert(bit(a, 23u32) == bit(b, 23u32));
    assert(bit(a, 24u32) == bit(b, 24u32));
    assert(bit(a, 25u32) == bit(b, 25u32));
    assert(bit(a, 26u32) == bit(b, 26u32));
    assert(bit(a, 27u32) == bit(b, 27u32));
    assert(bit(a, 28u32) == bit(b, 28u32));
    assert(bit(a, 29u32) == bit(b, 29u32));
    assert(bit(a, 30u32) == bit(b, 30u32));
    assert(bit(a, 31u32) == bit(b, 31u32));
    assert(a == b) by (bit_vector)
        requires
            bit(a, 0u32) == bit(b, 0u32),
            bit(a, 1u32) == bit(b, 1u32),
            bit(a, 2u32) == bit(b, 2u32),
            bit(a, 3u32) == bit(b, 3u32),
            bit(a, 4u32) == bit(b, 4u32),
            bit(a, 5u32) == bit(b, 5u32),
            bit(a, 6u32) == bit(b, 6u32),
            bit(a, 7u32) == bit(b, 7u32),
            bit(a, 8u32) == bit(b, 8u32),
            bit(a, 9u32) == bit(b, 9u32),
            bit(a, 10u32) == bit(b, 10u32),
            bit(a, 11u32) == bit(b, 11u32),
            bit(a, 12u32) == bit(b, 12u32),
            bit(a, 13u32) == bit(b, 13u32),
            bit(a, 14u32) == bit(b, 14u32),
            bit(a, 15u32) == bit(b, 15u32),
            bit(a, 16u32) == bit(b, 16u32),
            bit(a, 17u32) == bit(b, 17u32),
            bit(a, 18u32) == bit(b, 18u32),
            bit(a, 19u32) == bit(b, 19u32),
            bit(a, 20u32) == bit(b, 20u32),
            bit(a, 21u32) == bit(b, 21u32),
            bit(a, 22u32) == bit(b, 22u32),
            bit(a, 23u32) == bit(b, 23u32),
            bit(a, 24u32) == bit(b, 24u32),
            bit(a, 25u32) == bit(b, 25u32),
            bit(a, 26u32) == bit(b, 26u32),
            bit(a, 27u32) == bit(b, 27u32),
            bit(a, 28u32) == bit(b, 28u32),
            bit(a, 29u32) == bit(b, 29u32),
            bit(a, 30u32) == bit(b, 30u32),
            bit(a, 31u32) == bit(b, 31u32),
    ;
}

proof fn lemma_column_word_bits(m: Seq<u32>, i: u32, n: nat)
    requires
        n <= 32,
    ensures
        forall|j: u32| j < 32 ==> #[trigger] bit(column_word(m, i, n), j) == (j < n && bit(
            m[j as int],
            i,
        )),
    decreases n,
{
    if n == 0 {
        assert forall|j: u32| j < 32 implies !#[trigger] bit(column_word(m, i, n), j) by {
            lemma_bit_of_zero(j);
        }
    } else {
        let k = (n - 1) as nat;
        let rest = column_word(m, i, k);
        lemma_column_word_bits(m, i, k);
        assert forall|j: u32| j < 32 implies #[trigger] bit(column_word(m, i, n), j) == (j < n
            && bit(m[j as int], i)) by {
            assert(bit(rest, j) == (j < k && bit(m[j as int], i)));
            if bit(m[k as int], i) {
                assert(column_word(m, i, n) == rest | (1u32 << (k as u32)));
                lemma_bit_of_set(rest, k as u32, j);
            } else {
                assert(column_word(m, i, n) == rest);
            }
        }
    }
}

/// Each entry of the transpose: bit `j` of row `i` is bit `i` of row `j` of `m`.
pub proof fn lemma_transposed_bit(m: Seq<u32>, i: u32, j: u32)
    requires
        i < 32,
        j < 32,
    ensures
        bit(transposed(m)[i as int], j) == bit(m[j as int], i),
{
    lemma_column_word_bits(m, i, 32);
}

/// A matrix whose entries are those of the transpose of `m` is the transpose of `m`.
pub proof fn lemma_transposed_unique(m: Seq<u32>, t: Seq<u32>)
    requires
        is_matrix(t),
        forall|i: u32, j: u32| i < 32 && j < 32 ==> #[trigger] bit(t[i as int], j) == bit(
            m[j as int],
            i,
        ),
    ensures
        t == transposed(m),
{
    assert forall|i: int| 0 <= i < 32 implies t[i] == #[trigger] transposed(m)[i] by {
        assert forall|j: u32| j < 32 implies #[trigger] bit(t[i], j) == bit(transposed(m)[i], j) by {
            lemma_transposed_bit(m, i as u32, j);
            assert(bit(t[(i as u32) as int], j) == bit(m[j as int], i as u32));
        }
        lemma_word_from_bits(t[i], transposed(m)[i]);
    }
    assert(t =~= transposed(m));
}

/// Transposing twice gives the matrix back.
pub proof fn lemma_transpose_involution(m: Seq<u32>)
    requires
        is_matrix(m),
    ensures
        transposed(transposed(m)) == m,
{
    let t = transposed(m);
    assert forall|i: u32, j: u32| i < 32 && j < 32 implies #[trigger] bit(m[i as int], j) == bit(
        t[j as int],
        i,
    ) by {
        lemma_transposed_bit(m, j, i);
    }
    lemma_transposed_unique(t, m);
}

/// The transpose is linear over GF(2): it commutes with the row-wise XOR of
/// two matrices.
pub proof fn lemma_transpose_xor(a: Seq<u32>, b: Seq<u32>)
    requires
        is_matrix(a),
        is_matrix(b),
    ensures
        transposed(xor_rows(a, b)) == xor_rows(transposed(a), transposed(b)),
{
    let s = xor_rows(transposed(a), transposed(b));
    assert forall|i: u32, j: u32| i < 32 && j < 32 implies #[trigger] bit(s[i as int], j) == bit(
        xor_rows(a, b)[j as int],
        i,
    ) by {
        lemma_transposed_bit(a, i, j);
        lemma_transposed_bit(b, i, j);
        lemma_bit_of_xor(transposed(a)[i as int], transposed(b)[i as int], j);
        lemma_bit_of_xor(a[j as int], b[j as int], i);
    }
    lemma_transposed_unique(xor_rows(a, b), s);
}

} // verus!
