use bit_transpose::lanes::{exchange, swizzle};
use bit_transpose::transpose;

fn bit(w: u32, j: usize) -> bool {
    (w >> j) & 1 == 1
}

fn sample(seed: u64) -> [u32; 32] {
    let mut state = seed;
    let mut m = [0u32; 32];
    for row in m.iter_mut() {
        state = state
            .wrapping_mul(6364136223846793005)
            .wrapping_add(1442695040888963407);
        *row = (state >> 32) as u32;
    }
    m
}

fn transposed(m: &[u32; 32]) -> [u32; 32] {
    let mut t = [0u32; 32];
    for i in 0..32 {
        for j in 0..32 {
            if bit(m[j], i) {
                t[i] |= 1 << j;
            }
        }
    }
    t
}

fn identity() -> [u32; 32] {
    let mut m = [0u32; 32];
    for (i, row) in m.iter_mut().enumerate() {
        *row = 1 << i;
    }
    m
}

#[test]
fn transpose_twice_gives_back_the_matrix() {
    for seed in 0..20u64 {
        let original = sample(seed);
        let mut m = original;
        transpose(&mut m);
        transpose(&mut m);
        assert_eq!(m, original);
    }
}

#[test]
fn entry_i_j_comes_from_entry_j_i() {
    for seed in 100..110u64 {
        let original = sample(seed);
        let mut m = original;
        transpose(&mut m);
        for i in 0..32 {
            for j in 0..32 {
                assert_eq!(bit(m[i], j), bit(original[j], i), "row {} column {}", i, j);
            }
        }
    }
}

#[test]
fn agrees_with_bit_by_bit_transpose() {
    for seed in 200..220u64 {
        let original = sample(seed);
        let mut m = original;
        transpose(&mut m);
        assert_eq!(m, transposed(&original));
    }
}

#[test]
fn zero_matrix_is_fixed() {
    let mut m = [0u32; 32];
    transpose(&mut m);
    assert_eq!(m, [0u32; 32]);
}

#[test]
fn all_ones_matrix_is_fixed() {
    let mut m = [0xFFFF_FFFFu32; 32];
    transpose(&mut m);
    assert_eq!(m, [0xFFFF_FFFFu32; 32]);
}

#[test]
fn identity_matrix_is_fixed() {
    let mut m = identity();
    transpose(&mut m);
    assert_eq!(m, identity());
}

#[test]
fn single_bit_moves_to_mirrored_position() {
    let mut m = [0u32; 32];
    m[5] = 1 << 3;
    transpose(&mut m);
    let mut expected = [0u32; 32];
    expected[3] = 1 << 5;
    assert_eq!(m, expected);
}

#[test]
fn first_row_becomes_first_column() {
    let mut m = [0u32; 32];
    m[0] = 0b11;
    transpose(&mut m);
    assert!(bit(m[0], 0));
    assert!(bit(m[1], 0));
    let mut expected = [0u32; 32];
    expected[0] = 1;
    expected[1] = 1;
    assert_eq!(m, expected);
}

#[test]
fn last_row_becomes_last_column() {
    let mut m = [0u32; 32];
    m[31] = 0xFFFF_FFFF;
    transpose(&mut m);
    assert_eq!(m, [0x8000_0000u32; 32]);
}

#[test]
fn corner_entries_swap() {
    let mut m = [0u32; 32];
    m[0] = 1 << 31;
    transpose(&mut m);
    let mut expected = [0u32; 32];
    expected[31] = 1;
    assert_eq!(m, expected);
}

#[test]
fn transpose_commutes_with_xor() {
    for seed in 300..310u64 {
        let a = sample(seed);
        let b = sample(seed + 1000);
        let mut sum = [0u32; 32];
        for i in 0..32 {
            sum[i] = a[i] ^ b[i];
        }
        let (mut ta, mut tb) = (a, b);
        transpose(&mut sum);
        transpose(&mut ta);
        transpose(&mut tb);
        for i in 0..32 {
            assert_eq!(sum[i], ta[i] ^ tb[i]);
        }
    }
}

#[test]
fn swizzle_gathers_lanes_from_both_vectors() {
    let mut hi = [0u32; 16];
    let mut lo = [0u32; 16];
    for l in 0..16 {
        hi[l] = l as u32;
        lo[l] = 100 + l as u32;
    }
    let idx: [usize; 16] = [0, 16, 1, 17, 2, 18, 3, 19, 4, 20, 5, 21, 6, 22, 7, 23];
    let r = swizzle(&hi, &lo, &idx);
    assert_eq!(r, [0, 100, 1, 101, 2, 102, 3, 103, 4, 104, 5, 105, 6, 106, 7, 107]);
}

#[test]
fn exchange_trades_half_words() {
    let hi = [0x1234_5678u32; 16];
    let lo = [0x9ABC_DEF0u32; 16];
    let (new_hi, new_lo) = exchange(&hi, &lo, 0xFFFF_0000, 16);
    assert_eq!(new_hi, [0xDEF0_5678u32; 16]);
    assert_eq!(new_lo, [0x9ABC_1234u32; 16]);
}

#[test]
fn exchange_trades_single_bits() {
    let hi = [0b01u32; 16];
    let lo = [0b00u32; 16];
    let (new_hi, new_lo) = exchange(&hi, &lo, 0xAAAA_AAAA, 1);
    assert_eq!(new_hi, [0b01u32; 16]);
    assert_eq!(new_lo, [0b00u32; 16]);
    let hi = [0b10u32; 16];
    let lo = [0b00u32; 16];
    let (new_hi, new_lo) = exchange(&hi, &lo, 0xAAAA_AAAA, 1);
    assert_eq!(new_hi, [0b00u32; 16]);
    assert_eq!(new_lo, [0b01u32; 16]);
    let hi = [0b00u32; 16];
    let lo = [0b01u32; 16];
    let (new_hi, new_lo) = exchange(&hi, &lo, 0xAAAA_AAAA, 1);
    assert_eq!(new_hi, [0b10u32; 16]);
    assert_eq!(new_lo, [0b00u32; 16]);
}
