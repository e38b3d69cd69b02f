//! Encryption with a 256-bit key: the fourteen-round block cipher over a
//! four-by-four byte state, its key schedule, and a streaming context.
//! Every transformation is stated exactly over the state's byte grid.
use vstd::prelude::*;

verus! {

/// Columns of a cipher state.
pub const NB: usize = 4;
/// Words of the 256-bit key.
pub const NK: usize = 8;
/// Rounds of the cipher.
pub const NR: usize = 14;

/// Bytes in one cipher block.
pub const AES_BLOCKLEN: usize = 16;
/// Bytes in the key.
pub const AES_KEYLEN: usize = 32;
/// Bytes in the expanded round key.
pub const AES_KEYEXPSIZE: usize = 240;

/// The substitution box.
pub const SBOX: [u8; 256] = [
    0x63, 0x7c, 0x77, 0x7b, 0xf2, 0x6b, 0x6f, 0xc5, 0x30, 0x01, 0x67, 0x2b,
    0xfe, 0xd7, 0xab, 0x76, 0xca, 0x82, 0xc9, 0x7d, 0xfa, 0x59, 0x47, 0xf0,
    0xad, 0xd4, 0xa2, 0xaf, 0x9c, 0xa4, 0x72, 0xc0, 0xb7, 0xfd, 0x93, 0x26,
    0x36, 0x3f, 0xf7, 0xcc, 0x34, 0xa5, 0xe5, 0xf1, 0x71, 0xd8, 0x31, 0x15,
    0x04, 0xc7, 0x23, 0xc3, 0x18, 0x96, 0x05, 0x9a, 0x07, 0x12, 0x80, 0xe2,
    0xeb, 0x27, 0xb2, 0x75, 0x09, 0x83, 0x2c, 0x1a, 0x1b, 0x6e, 0x5a, 0xa0,
    0x52, 0x3b, 0xd6, 0xb3, 0x29, 0xe3, 0x2f, 0x84, 0x53, 0xd1, 0x00, 0xed,
    0x20, 0xfc, 0xb1, 0x5b, 0x6a, 0xcb, 0xbe, 0x39, 0x4a, 0x4c, 0x58, 0xcf,
    0xd0, 0xef, 0xaa, 0xfb, 0x43, 0x4d, 0x33, 0x85, 0x45, 0xf9, 0x02, 0x7f,
    0x50, 0x3c, 0x9f, 0xa8, 0x51, 0xa3, 0x40, 0x8f, 0x92, 0x9d, 0x38, 0xf5,
    0xbc, 0xb6, 0xda, 0x21, 0x10, 0xff, 0xf3, 0xd2, 0xcd, 0x0c, 0x13, 0xec,
    0x5f, 0x97, 0x44, 0x17, 0xc4, 0xa7, 0x7e, 0x3d, 0x64, 0x5d, 0x19, 0x73,
    0x60, 0x81, 0x4f, 0xdc, 0x22, 0x2a, 0x90, 0x88, 0x46, 0xee, 0xb8, 0x14,
    0xde, 0x5e, 0x0b, 0xdb, 0xe0, 0x32, 0x3a, 0x0a, 0x49, 0x06, 0x24, 0x5c,
    0xc2, 0xd3, 0xac, 0x62, 0x91, 0x95, 0xe4, 0x79, 0xe7, 0xc8, 0x37, 0x6d,
    0x8d, 0xd5, 0x4e, 0xa9, 0x6c, 0x56, 0xf4, 0xea, 0x65, 0x7a, 0xae, 0x08,
    0xba, 0x78, 0x25, 0x2e, 0x1c, 0xa6, 0xb4, 0xc6, 0xe8, 0xdd, 0x74, 0x1f,
    0x4b, 0xbd, 0x8b, 0x8a, 0x70, 0x3e, 0xb5, 0x66, 0x48, 0x03, 0xf6, 0x0e,
    0x61, 0x35, 0x57, 0xb9, 0x86, 0xc1, 0x1d, 0x9e, 0xe1, 0xf8, 0x98, 0x11,
    0x69, 0xd9, 0x8e, 0x94, 0x9b, 0x1e, 0x87, 0xe9, 0xce, 0x55, 0x28, 0xdf,
    0x8c, 0xa1, 0x89, 0x0d, 0xbf, 0xe6, 0x42, 0x68, 0x41, 0x99, 0x2d, 0x0f,
    0xb0, 0x54, 0xbb, 0x16,
];

/// The inverse substitution box.
pub const RSBOX: [u8; 256] = [
    0x52, 0x09, 0x6a, 0xd5, 0x30, 0x36, 0xa5, 0x38, 0xbf, 0x40, 0xa3, 0x9e,
    0x81, 0xf3, 0xd7, 0xfb, 0x7c, 0xe3, 0x39, 0x82, 0x9b, 0x2f, 0xff, 0x87,
    0x34, 0x8e, 0x43, 0x44, 0xc4, 0xde, 0xe9, 0xcb, 0x54, 0x7b, 0x94, 0x32,
    0xa6, 0xc2, 0x23, 0x3d, 0xee, 0x4c, 0x95, 0x0b, 0x42, 0xfa, 0xc3, 0x4e,
    0x08, 0x2e, 0xa1, 0x66, 0x28, 0xd9, 0x24, 0xb2, 0x76, 0x5b, 0xa2, 0x49,
    0x6d, 0x8b, 0xd1, 0x25, 0x72, 0xf8, 0xf6, 0x64, 0x86, 0x68, 0x98, 0x16,
    0xd4, 0xa4, 0x5c, 0xcc, 0x5d, 0x65, 0xb6, 0x92, 0x6c, 0x70, 0x48, 0x50,
    0xfd, 0xed, 0xb9, 0xda, 0x5e, 0x15, 0x46, 0x57, 0xa7, 0x8d, 0x9d, 0x84,
    0x90, 0xd8, 0xab, 0x00, 0x8c, 0xbc, 0xd3, 0x0a, 0xf7, 0xe4, 0x58, 0x05,
    0xb8, 0xb3, 0x45, 0x06, 0xd0, 0x2c, 0x1e, 0x8f, 0xca, 0x3f, 0x0f, 0x02,
    0xc1, 0xaf, 0xbd, 0x03, 0x01, 0x13, 0x8a, 0x6b, 0x3a, 0x91, 0x11, 0x41,
    0x4f, 0x67, 0xdc, 0xea, 0x97, 0xf2, 0xcf, 0xce, 0xf0, 0xb4, 0xe6, 0x73,
    0x96, 0xac, 0x74, 0x22, 0xe7, 0xad, 0x35, 0x85, 0xe2, 0xf9, 0x37, 0xe8,
    0x1c, 0x75, 0xdf, 0x6e, 0x47, 0xf1, 0x1a, 0x71, 0x1d, 0x29, 0xc5, 0x89,
    0x6f, 0xb7, 0x62, 0x0e, 0xaa, 0x18, 0xbe, 0x1b, 0xfc, 0x56, 0x3e, 0x4b,
    0xc6, 0xd2, 0x79, 0x20, 0x9a, 0xdb, 0xc0, 0xfe, 0x78, 0xcd, 0x5a, 0xf4,
    0x1f, 0xdd, 0xa8, 0x33, 0x88, 0x07, 0xc7, 0x31, 0xb1, 0x12, 0x10, 0x59,
    0x27, 0x80, 0xec, 0x5f, 0x60, 0x51, 0x7f, 0xa9, 0x19, 0xb5, 0x4a, 0x0d,
    0x2d, 0xe5, 0x7a, 0x9f, 0x93, 0xc9, 0x9c, 0xef, 0xa0, 0xe0, 0x3b, 0x4d,
    0xae, 0x2a, 0xf5, 0xb0, 0xc8, 0xeb, 0xbb, 0x3c, 0x83, 0x53, 0x99, 0x61,
    0x17, 0x2b, 0x04, 0x7e, 0xba, 0x77, 0xd6, 0x26, 0xe1, 0x69, 0x14, 0x63,
    0x55, 0x21, 0x0c, 0x7d,
];

/// The round constants: powers of two in the cipher's byte field.
pub const RCON: [u8; 11] = [0x8d, 0x01, 0x02, 0x04, 0x08, 0x10, 0x20, 0x40, 0x80, 0x1b, 0x36];

/// The substitution of one byte.
pub open spec fn sbox(b: u8) -> u8 {
    SBOX[b as int]
}

/// The inverse substitution of one byte.
pub open spec fn inv_sbox(b: u8) -> u8 {
    RSBOX[b as int]
}

/// Doubling in the byte field: shift left and fold the carry back in
/// with the field polynomial.
pub open spec fn xtime_spec(x: u8) -> u8 {
    (x << 1) ^ ((((x >> 7) & 1) * 0x1b) as u8)
}

/// The state: four rows of four bytes.
pub type StateT = [[u8; 4]; 4];

/// The state as a grid of byte sequences.
pub open spec fn state_view(s: StateT) -> Seq<Seq<u8>> {
    Seq::new(4, |i: int| s@[i]@)
}

/// Doubling in the byte field.
pub fn xtime(x: u8) -> (r: u8)
    ensures
        r == xtime_spec(x),
{
    proof {
        assert((x >> 7) & 1 <= 1) by (bit_vector);
    }
    (x << 1) ^ (((x >> 7) & 1) * 0x1b)
}

/// Multiplication in the byte field, by repeated doubling over the low
/// five bits of `y`.
#[verifier::opaque]
pub open spec fn multiply_spec(x: u8, y: u8) -> u8 {
    (((y & 1) * x) as u8) ^ (((y >> 1 & 1) * xtime_spec(x)) as u8) ^ (((y >> 2 & 1) * xtime_spec(
        xtime_spec(x),
    )) as u8) ^ (((y >> 3 & 1) * xtime_spec(xtime_spec(xtime_spec(x)))) as u8) ^ (((y >> 4 & 1)
        * xtime_spec(xtime_spec(xtime_spec(xtime_spec(x))))) as u8)
}

/// Multiplication in the byte field.
pub fn multiply(x: u8, y: u8) -> (r: u8)
    ensures
        r == multiply_spec(x, y),
{
    proof {
        reveal(multiply_spec);
        assert((y & 1) <= 1 && (y >> 1 & 1) <= 1 && (y >> 2 & 1) <= 1 && (y >> 3 & 1) <= 1 && (y
            >> 4 & 1) <= 1) by (bit_vector);
    }
    ((y & 1) * x) ^ ((y >> 1 & 1) * xtime(x)) ^ ((y >> 2 & 1) * xtime(xtime(x))) ^ ((y >> 3 & 1)
        * xtime(xtime(xtime(x)))) ^ ((y >> 4 & 1) * xtime(xtime(xtime(xtime(x)))))
}

/// Substitute every byte of a four-byte word.
pub fn sub_word(tempa: &mut [u8; 4])
    ensures
        final(tempa)@ =~= old(tempa)@.map_values(|b: u8| sbox(b)),
{
    tempa[0] = SBOX[tempa[0] as usize];
    tempa[1] = SBOX[tempa[1] as usize];
    tempa[2] = SBOX[tempa[2] as usize];
    tempa[3] = SBOX[tempa[3] as usize];
}

/// The grid with the round key folded in: each byte combined with the
/// round's key byte at its position.
pub open spec fn add_round_key_spec(v: Seq<Seq<u8>>, rk: Seq<u8>, round: int) -> Seq<Seq<u8>> {
    Seq::new(4, |i: int| Seq::new(4, |j: int| (v[i][j] ^ rk[round * 16 + 4 * i + j]) as u8))
}

/// Fold one round's key into the state.
pub fn add_round_key(round: usize, state: &mut StateT, round_key: &[u8])
    requires
        round <= NR,
        round_key@.len() >= 240,
    ensures
        state_view(*final(state)) =~~= add_round_key_spec(
            state_view(*old(state)),
            round_key@,
            round as int,
        ),
{
    let round_offset: usize = (round * NB) * 4;
    for i in 0..4
        invariant
            round_offset == round * 16,
            round <= NR,
            round_key@.len() >= 240,
            forall|a: int, b: int|
                0 <= a < i && 0 <= b < 4 ==> state@[a]@[b] == (old(state)@[a]@[b] ^ round_key@[
                    round * 16 + 4 * a + b
                ]) as u8,
            forall|a: int, b: int|
                i <= a < 4 && 0 <= b < 4 ==> #[trigger] state@[a]@[b] == old(state)@[a]@[b],
    {
        let temp: usize = i * NB + round_offset;
        for j in 0..4
            invariant
                temp == round * 16 + 4 * i,
                i < 4,
                round <= NR,
                round_key@.len() >= 240,
                forall|a: int, b: int|
                    0 <= a < i && 0 <= b < 4 ==> state@[a]@[b] == (old(state)@[a]@[b]
                        ^ round_key@[round * 16 + 4 * a + b]) as u8,
                forall|b: int|
                    0 <= b < j ==> state@[i as int]@[b] == (old(state)@[i as int]@[b]
                        ^ round_key@[round * 16 + 4 * (i as int) + b]) as u8,
                forall|b: int|
                    j <= b < 4 ==> #[trigger] state@[i as int]@[b] == old(state)@[i as int]@[b],
                forall|a: int, b: int|
                    i < a < 4 && 0 <= b < 4 ==> #[trigger] state@[a]@[b] == old(state)@[a]@[b],
        {
            state[i][j] = state[i][j] ^ round_key[temp + j];
        }
    }
}

/// The grid with every byte substituted.
pub open spec fn sub_bytes_spec(v: Seq<Seq<u8>>) -> Seq<Seq<u8>> {
    Seq::new(4, |i: int| Seq::new(4, |j: int| sbox(v[i][j])))
}

/// Substitute every byte of the state.
pub fn sub_bytes(state: &mut StateT)
    ensures
        state_view(*final(state)) =~~= sub_bytes_spec(state_view(*old(state))),
{
    for i in 0..4
        invariant
            forall|a: int, b: int|
                0 <= a < 4 && 0 <= b < 4 && (b < i) ==> #[trigger] state@[a]@[b] == sbox(
                    old(state)@[a]@[b],
                ),
            forall|a: int, b: int|
                0 <= a < 4 && 0 <= b < 4 && (b >= i) ==> #[trigger] state@[a]@[b] == old(
                    state,
                )@[a]@[b],
    {
        for j in 0..4
            invariant
                i < 4,
                forall|a: int, b: int|
                    0 <= a < 4 && 0 <= b < 4 && (b < i || (b == i && a < j)) ==> #[trigger] state@[a]@[b]
                        == sbox(old(state)@[a]@[b]),
                forall|a: int, b: int|
                    0 <= a < 4 && 0 <= b < 4 && (b > i || (b == i && a >= j)) ==> #[trigger] state@[a]@[b]
                        == old(state)@[a]@[b],
        {
            state[j][i] = SBOX[state[j][i] as usize];
        }
    }
}

/// The grid with every byte inversely substituted.
pub open spec fn inv_sub_bytes_spec(v: Seq<Seq<u8>>) -> Seq<Seq<u8>> {
    Seq::new(4, |i: int| Seq::new(4, |j: int| inv_sbox(v[i][j])))
}

/// Undo the byte substitution.
pub fn inv_sub_bytes(state: &mut StateT)
    ensures
        state_view(*final(state)) =~~= inv_sub_bytes_spec(state_view(*old(state))),
{
    for i in 0..4
        invariant
            forall|a: int, b: int|
                0 <= a < 4 && 0 <= b < 4 && (b < i) ==> #[trigger] state@[a]@[b] == inv_sbox(
                    old(state)@[a]@[b],
                ),
            forall|a: int, b: int|
                0 <= a < 4 && 0 <= b < 4 && (b >= i) ==> #[trigger] state@[a]@[b] == old(
                    state,
                )@[a]@[b],
    {
        for j in 0..4
            invariant
                i < 4,
                forall|a: int, b: int|
                    0 <= a < 4 && 0 <= b < 4 && (b < i || (b == i && a < j)) ==> #[trigger] state@[a]@[b]
                        == inv_sbox(old(state)@[a]@[b]),
                forall|a: int, b: int|
                    0 <= a < 4 && 0 <= b < 4 && (b > i || (b == i && a >= j)) ==> #[trigger] state@[a]@[b]
                        == old(state)@[a]@[b],
        {
            state[j][i] = RSBOX[state[j][i] as usize];
        }
    }
}

/// The grid with each column rotated upward by its index: the byte at
/// row `i` of column `j` comes from row `i + j`.
pub open spec fn shift_rows_spec(v: Seq<Seq<u8>>) -> Seq<Seq<u8>> {
    Seq::new(4, |i: int| Seq::new(4, |j: int| v[(i + j) % 4][j]))
}

/// Rotate each column upward by its index.
pub fn shift_rows(state: &mut StateT)
    ensures
        state_view(*final(state)) =~~= shift_rows_spec(state_view(*old(state))),
{
    let temp: u8 = state[0][1];
    state[0][1] = state[1][1];
    state[1][1] = state[2][1];
    state[2][1] = state[3][1];
    state[3][1] = temp;
    let temp: u8 = state[0][2];
    state[0][2] = state[2][2];
    state[2][2] = temp;
    let temp: u8 = state[1][2];
    state[1][2] = state[3][2];
    state[3][2] = temp;
    let temp: u8 = state[0][3];
    state[0][3] = state[3][3];
    state[3][3] = state[2][3];
    state[2][3] = state[1][3];
    state[1][3] = temp;
}

/// The grid with each column rotated downward by its index.
pub open spec fn inv_shift_rows_spec(v: Seq<Seq<u8>>) -> Seq<Seq<u8>> {
    Seq::new(4, |i: int| Seq::new(4, |j: int| v[(i + 4 - j) % 4][j]))
}

/// Rotate each column downward by its index.
pub fn inv_shift_rows(state: &mut StateT)
    ensures
        state_view(*final(state)) =~~= inv_shift_rows_spec(state_view(*old(state))),
{
    let temp: u8 = state[3][1];
    state[3][1] = state[2][1];
    state[2][1] = state[1][1];
    state[1][1] = state[0][1];
    state[0][1] = temp;
    let temp: u8 = state[0][2];
    state[0][2] = state[2][2];
    state[2][2] = temp;
    let temp: u8 = state[1][2];
    state[1][2] = state[3][2];
    state[3][2] = temp;
    let temp: u8 = state[0][3];
    state[0][3] = state[1][3];
    state[1][3] = state[2][3];
    state[2][3] = state[3][3];
    state[3][3] = temp;
}

/// One row mixed: each byte combined with a doubled pair sum and the
/// whole row's sum.
pub open spec fn mix_row_spec(r: Seq<u8>) -> Seq<u8> {
    let tmp = (((r[0] ^ r[1]) ^ r[2]) ^ r[3]) as u8;
    seq![
        ((r[0] ^ xtime_spec((r[0] ^ r[1]) as u8)) ^ tmp) as u8,
        ((r[1] ^ xtime_spec((r[1] ^ r[2]) as u8)) ^ tmp) as u8,
        ((r[2] ^ xtime_spec((r[2] ^ r[3]) as u8)) ^ tmp) as u8,
        ((r[3] ^ xtime_spec((r[3] ^ r[0]) as u8)) ^ tmp) as u8,
    ]
}

/// The grid with every row mixed.
pub open spec fn mix_columns_spec(v: Seq<Seq<u8>>) -> Seq<Seq<u8>> {
    Seq::new(4, |i: int| mix_row_spec(v[i]))
}

/// Mix every row of the state.
pub fn mix_columns(state: &mut StateT)
    ensures
        state_view(*final(state)) =~~= mix_columns_spec(state_view(*old(state))),
{
    for i in 0..4
        invariant
            forall|a: int| 0 <= a < i ==> state@[a]@ =~= mix_row_spec(old(state)@[a]@),
            forall|a: int| i <= a < 4 ==> #[trigger] state@[a]@ == old(state)@[a]@,
    {
        let t: u8 = state[i][0];
        let tmp: u8 = state[i][0] ^ state[i][1] ^ state[i][2] ^ state[i][3];
        let tm: u8 = state[i][0] ^ state[i][1];
        let tm: u8 = xtime(tm);
        state[i][0] = state[i][0] ^ tm ^ tmp;
        let tm: u8 = state[i][1] ^ state[i][2];
        let tm: u8 = xtime(tm);
        state[i][1] = state[i][1] ^ tm ^ tmp;
        let tm: u8 = state[i][2] ^ state[i][3];
        let tm: u8 = xtime(tm);
        state[i][2] = state[i][2] ^ tm ^ tmp;
        let tm: u8 = state[i][3] ^ t;
        let tm: u8 = xtime(tm);
        state[i][3] = state[i][3] ^ tm ^ tmp;
        proof {
            assert(state@[i as int]@ =~= mix_row_spec(old(state)@[i as int]@));
        }
    }
}

/// One row inversely mixed: each byte a field combination of the whole
/// row.
pub open spec fn inv_mix_row_spec(r: Seq<u8>) -> Seq<u8> {
    seq![
        (((multiply_spec(r[0], 0x0e) ^ multiply_spec(r[1], 0x0b)) ^ multiply_spec(r[2], 0x0d))
            ^ multiply_spec(r[3], 0x09)) as u8,
        (((multiply_spec(r[0], 0x09) ^ multiply_spec(r[1], 0x0e)) ^ multiply_spec(r[2], 0x0b))
            ^ multiply_spec(r[3], 0x0d)) as u8,
        (((multiply_spec(r[0], 0x0d) ^ multiply_spec(r[1], 0x09)) ^ multiply_spec(r[2], 0x0e))
            ^ multiply_spec(r[3], 0x0b)) as u8,
        (((multiply_spec(r[0], 0x0b) ^ multiply_spec(r[1], 0x0d)) ^ multiply_spec(r[2], 0x09))
            ^ multiply_spec(r[3], 0x0e)) as u8,
    ]
}

/// The grid with every row inversely mixed.
pub open spec fn inv_mix_columns_spec(v: Seq<Seq<u8>>) -> Seq<Seq<u8>> {
    Seq::new(4, |i: int| inv_mix_row_spec(v[i]))
}

/// Undo the row mixing.
pub fn inv_mix_columns(state: &mut StateT)
    ensures
        state_view(*final(state)) =~~= inv_mix_columns_spec(state_view(*old(state))),
{
    for i in 0..4
        invariant
            forall|a: int| 0 <= a < i ==> state@[a]@ =~= inv_mix_row_spec(old(state)@[a]@),
            forall|a: int| i <= a < 4 ==> #[trigger] state@[a]@ == old(state)@[a]@,
    {
        let a = state[i][0];
        let b = state[i][1];
        let c = state[i][2];
        let d = state[i][3];
        state[i][0] = multiply(a, 0x0e) ^ multiply(b, 0x0b) ^ multiply(c, 0x0d) ^ multiply(
            d,
            0x09,
        );
        state[i][1] = multiply(a, 0x09) ^ multiply(b, 0x0e) ^ multiply(c, 0x0b) ^ multiply(
            d,
            0x0d,
        );
        state[i][2] = multiply(a, 0x0d) ^ multiply(b, 0x09) ^ multiply(c, 0x0e) ^ multiply(
            d,
            0x0b,
        );
        state[i][3] = multiply(a, 0x0b) ^ multiply(b, 0x0d) ^ multiply(c, 0x09) ^ multiply(
            d,
            0x0e,
        );
        proof {
            assert(state@[i as int]@ =~= inv_mix_row_spec(old(state)@[i as int]@));
        }
    }
}

/// Byte `j` of the expanded key: the first thirty-two bytes are the key
/// itself; after that each word combines the word thirty-two bytes back
/// with the previous word, which on every eighth word is rotated,
/// substituted and folded with the round constant, and halfway between
/// those is substituted in place.
pub open spec fn round_key_byte(key: Seq<u8>, j: int) -> u8
    decreases j,
{
    if j < 32 {
        key[j]
    } else {
        let i = j / 4;
        let o = j % 4;
        let k = 4 * (i - 1);
        let t: u8 = if i % 8 == 0 {
            if o == 0 {
                sbox(round_key_byte(key, k + 1)) ^ RCON[i / 8]
            } else if o == 1 {
                sbox(round_key_byte(key, k + 2))
            } else if o == 2 {
                sbox(round_key_byte(key, k + 3))
            } else {
                sbox(round_key_byte(key, k))
            }
        } else if i % 8 == 4 {
            if o == 0 {
                sbox(round_key_byte(key, k))
            } else if o == 1 {
                sbox(round_key_byte(key, k + 1))
            } else if o == 2 {
                sbox(round_key_byte(key, k + 2))
            } else {
                sbox(round_key_byte(key, k + 3))
            }
        } else {
            if o == 0 {
                round_key_byte(key, k)
            } else if o == 1 {
                round_key_byte(key, k + 1)
            } else if o == 2 {
                round_key_byte(key, k + 2)
            } else {
                round_key_byte(key, k + 3)
            }
        };
        round_key_byte(key, j - 32) ^ t
    }
}

/// Expand a 256-bit key into the sixty round-key words.
#[verifier::rlimit(100)]
pub fn key_expansion(round_key: &mut [u8; 240], key: &[u8])
    requires
        key@.len() >= 32,
    ensures
        forall|j: int| 0 <= j < 240 ==> #[trigger] final(round_key)@[j] == round_key_byte(
            key@,
            j,
        ),
{
    let mut i: usize = 0;
    #[verifier::loop_isolation(false)]
    while i < NK
        invariant
            i <= NK,
            forall|jj: int| 0 <= jj < 4 * i ==> #[trigger] round_key@[jj] == round_key_byte(
                key@,
                jj,
            ),
        decreases NK - i,
    {
        let quad: usize = i * 4;
        round_key[quad] = key[quad];
        round_key[quad + 1] = key[quad + 1];
        round_key[quad + 2] = key[quad + 2];
        round_key[quad + 3] = key[quad + 3];
        i += 1;
    }
    let mut i: usize = NK;
    #[verifier::loop_isolation(false)]
    while i < NB * (NR + 1)
        invariant
            NK <= i <= 60,
            forall|jj: int| 0 <= jj < 4 * i ==> #[trigger] round_key@[jj] == round_key_byte(
                key@,
                jj,
            ),
        decreases 60 - i,
    {
        let k: usize = (i - 1) * 4;
        let mut tempa: [u8; 4] = [
            round_key[k],
            round_key[k + 1],
            round_key[k + 2],
            round_key[k + 3],
        ];
        if i % 8 == 0 {
            // rotate the word left by one, then substitute, then fold in
            // the round constant
            let t0 = tempa[0];
            tempa[0] = tempa[1];
            tempa[1] = tempa[2];
            tempa[2] = tempa[3];
            tempa[3] = t0;
            sub_word(&mut tempa);
            tempa[0] = tempa[0] ^ RCON[i / 8];
        }
        if i % 8 == 4 {
            sub_word(&mut tempa);
        }
        let j: usize = i * 4;
        let l: usize = (i - NK) * 4;
        round_key[j] = round_key[l] ^ tempa[0];
        round_key[j + 1] = round_key[l + 1] ^ tempa[1];
        round_key[j + 2] = round_key[l + 2] ^ tempa[2];
        round_key[j + 3] = round_key[l + 3] ^ tempa[3];
        proof {
            let ii = i as int;
            assert forall|o: int| 0 <= o < 4 implies #[trigger] round_key@[4 * ii + o]
                == round_key_byte(key@, 4 * ii + o) by {
                vstd::arithmetic::div_mod::lemma_fundamental_div_mod_converse_div(
                    4 * ii + o,
                    4,
                    ii,
                    o,
                );
                vstd::arithmetic::div_mod::lemma_fundamental_div_mod_converse_mod(
                    4 * ii + o,
                    4,
                    ii,
                    o,
                );
            }
        }
        i += 1;
    }
}

/// The state after the full rounds one to `r`: substitute, rotate, mix,
/// and fold in that round's key.
pub open spec fn cipher_rounds(v: Seq<Seq<u8>>, rk: Seq<u8>, r: int) -> Seq<Seq<u8>>
    decreases r,
{
    if r <= 0 {
        v
    } else {
        add_round_key_spec(
            mix_columns_spec(shift_rows_spec(sub_bytes_spec(cipher_rounds(v, rk, r - 1)))),
            rk,
            r,
        )
    }
}

/// The whole cipher: the zeroth key first, thirteen full rounds, then a
/// last round without the mixing.
pub open spec fn cipher_spec(v: Seq<Seq<u8>>, rk: Seq<u8>) -> Seq<Seq<u8>> {
    add_round_key_spec(
        shift_rows_spec(sub_bytes_spec(cipher_rounds(add_round_key_spec(v, rk, 0), rk, 13))),
        rk,
        14,
    )
}

/// Encrypt one state in place.
pub fn cipher(state: &mut StateT, round_key: &[u8])
    requires
        round_key@.len() >= 240,
    ensures
        state_view(*final(state)) =~~= cipher_spec(state_view(*old(state)), round_key@),
{
    add_round_key(0, state, round_key);
    let ghost base = state_view(*state);
    let mut round: usize = 1;
    #[verifier::loop_isolation(false)]
    while round < NR
        invariant
            1 <= round <= NR,
            state_view(*state) =~~= cipher_rounds(base, round_key@, round - 1),
        decreases NR - round,
    {
        sub_bytes(state);
        shift_rows(state);
        mix_columns(state);
        add_round_key(round, state, round_key);
        round += 1;
        proof {
            assert(state_view(*state) =~~= cipher_rounds(base, round_key@, round - 1));
        }
    }
    sub_bytes(state);
    shift_rows(state);
    add_round_key(NR, state, round_key);
}

/// Undoing rounds thirteen down: `k` steps of unrotate, unsubstitute,
/// fold the round's key, and unmix.
pub open spec fn inv_cipher_rounds(v: Seq<Seq<u8>>, rk: Seq<u8>, k: int) -> Seq<Seq<u8>>
    decreases k,
{
    if k <= 0 {
        v
    } else {
        let w = inv_cipher_rounds(v, rk, k - 1);
        inv_mix_columns_spec(
            add_round_key_spec(inv_sub_bytes_spec(inv_shift_rows_spec(w)), rk, 14 - k),
        )
    }
}

/// The whole decryption: the last round's key first, thirteen full
/// inverse rounds, then the final unrotate, unsubstitute and zeroth key.
pub open spec fn inv_cipher_spec(v: Seq<Seq<u8>>, rk: Seq<u8>) -> Seq<Seq<u8>> {
    add_round_key_spec(
        inv_sub_bytes_spec(
            inv_shift_rows_spec(inv_cipher_rounds(add_round_key_spec(v, rk, 14), rk, 13)),
        ),
        rk,
        0,
    )
}

/// Decrypt one state in place.
pub fn inv_cipher(state: &mut StateT, round_key: &[u8])
    requires
        round_key@.len() >= 240,
    ensures
        state_view(*final(state)) =~~= inv_cipher_spec(state_view(*old(state)), round_key@),
{
    add_round_key(NR, state, round_key);
    let ghost base = state_view(*state);
    let mut round: usize = NR - 1;
    #[verifier::loop_isolation(false)]
    while round > 0
        invariant
            0 <= round <= NR - 1,
            state_view(*state) =~~= inv_cipher_rounds(base, round_key@, 13 - round),
        decreases round,
    {
        inv_shift_rows(state);
        inv_sub_bytes(state);
        add_round_key(round, state, round_key);
        inv_mix_columns(state);
        round -= 1;
        proof {
            assert(state_view(*state) =~~= inv_cipher_rounds(base, round_key@, 13 - round));
        }
    }
    inv_shift_rows(state);
    inv_sub_bytes(state);
    add_round_key(0, state, round_key);
}

/// Fold an initialisation vector into the first block of a buffer.
pub fn xor_with_iv(buf: &mut Vec<u8>, iv: &[u8; 16])
    requires
        old(buf)@.len() >= 16,
    ensures
        final(buf)@ =~= Seq::new(
            old(buf)@.len(),
            |k: int|
                if k < 16 {
                    (old(buf)@[k] ^ iv@[k]) as u8
                } else {
                    old(buf)@[k]
                },
        ),
{
    let mut i: usize = 0;
    #[verifier::loop_isolation(false)]
    while i < AES_BLOCKLEN
        invariant
            i <= 16,
            buf@.len() == old(buf)@.len(),
            forall|k: int| 0 <= k < i ==> #[trigger] buf@[k] == (old(buf)@[k] ^ iv@[k]) as u8,
            forall|k: int| i <= k < buf@.len() ==> #[trigger] buf@[k] == old(buf)@[k],
        decreases 16 - i,
    {
        let b = buf[i] ^ iv[i];
        buf.set(i, b);
        i += 1;
    }
}

/// Read one sixteen-byte block of a buffer as a state, row by row.
pub fn buffer_to_statet(buf: &Vec<u8>, i: usize) -> (r: StateT)
    requires
        i + 16 <= buf@.len(),
    ensures
        forall|a: int, b: int|
            0 <= a < 4 && 0 <= b < 4 ==> state_view(r)[a][b] == buf@[i + 4 * a + b],
{
    let n = buf.len();
    let r: StateT = [
        [buf[i], buf[i + 1], buf[i + 2], buf[i + 3]],
        [buf[i + 4], buf[i + 5], buf[i + 6], buf[i + 7]],
        [buf[i + 8], buf[i + 9], buf[i + 10], buf[i + 11]],
        [buf[i + 12], buf[i + 13], buf[i + 14], buf[i + 15]],
    ];
    r
}

/// One chaining step over a buffer: fold the running vector into the
/// buffer's first block, then take the block at `i` as the next vector.
pub open spec fn chain_step(buf: Seq<u8>, iv: Seq<u8>, i: int) -> (Seq<u8>, Seq<u8>) {
    let b2 = Seq::new(
        buf.len(),
        |k: int|
            if k < 16 {
                (buf[k] ^ iv[k]) as u8
            } else {
                buf[k]
            },
    );
    (b2, b2.subrange(i, i + 16))
}

/// The chaining pass over a buffer, one step per block of the first
/// `length` bytes.
pub open spec fn chain_pass(buf: Seq<u8>, iv: Seq<u8>, i: int, length: int) -> (Seq<u8>, Seq<u8>)
    decreases length - i,
{
    if i >= length || length - i < 16 {
        (buf, iv)
    } else {
        let (b2, iv2) = chain_step(buf, iv, i);
        chain_pass(b2, iv2, i + 16, length)
    }
}

/// An encryption context: the expanded round key and the running
/// initialisation vector.
pub struct AesCtx {
    pub round_key: [u8; 240],
    pub iv: [u8; 16],
}

impl AesCtx {
    /// A context from an already-expanded key and a vector.
    pub fn new(round_key: [u8; 240], iv: [u8; 16]) -> (r: AesCtx)
        ensures
            r.round_key@ == round_key@,
            r.iv@ == iv@,
    {
        AesCtx { round_key, iv }
    }

    /// Expand a 256-bit key into the context's round key.
    pub fn aes_init_ctx(&mut self, key: &[u8])
        requires
            key@.len() >= 32,
        ensures
            forall|j: int| 0 <= j < 240 ==> #[trigger] final(self).round_key@[j]
                == round_key_byte(key@, j),
            final(self).iv@ == old(self).iv@,
    {
        key_expansion(&mut self.round_key, key);
    }

    /// Expand the key and set the initialisation vector.
    pub fn aes_init_ctx_iv(&mut self, key: &[u8], iv: &[u8])
        requires
            key@.len() >= 32,
            iv@.len() >= 16,
        ensures
            forall|j: int| 0 <= j < 240 ==> #[trigger] final(self).round_key@[j]
                == round_key_byte(key@, j),
            final(self).iv@ =~= iv@.take(16),
    {
        key_expansion(&mut self.round_key, key);
        let ghost rk_mid = self.round_key;
        let mut i: usize = 0;
        #[verifier::loop_isolation(false)]
        while i < AES_BLOCKLEN
            invariant
                i <= 16,
                forall|k: int| 0 <= k < i ==> #[trigger] self.iv@[k] == iv@[k],
                self.round_key == rk_mid,
            decreases 16 - i,
        {
            self.iv[i] = iv[i];
            i += 1;
        }
    }

    /// Set the initialisation vector.
    pub fn aes_ctx_set_iv(&mut self, iv: &[u8])
        requires
            iv@.len() >= 16,
        ensures
            final(self).iv@ =~= iv@.take(16),
            final(self).round_key == old(self).round_key,
    {
        let mut i: usize = 0;
        #[verifier::loop_isolation(false)]
        while i < AES_BLOCKLEN
            invariant
                i <= 16,
                forall|k: int| 0 <= k < i ==> #[trigger] self.iv@[k] == iv@[k],
                self.round_key == old(self).round_key,
            decreases 16 - i,
        {
            self.iv[i] = iv[i];
            i += 1;
        }
    }

    /// Run the chaining pass over the first `length` bytes of a buffer,
    /// block by block: each step folds the running vector into the
    /// buffer's first block, enciphers the block at the step's offset
    /// into a scratch state, and takes that block of the buffer as the
    /// next vector.
    pub fn aes_encrypt_buffer(&mut self, buf: &mut Vec<u8>, length: usize)
        requires
            length % 16 == 0,
            length <= old(buf)@.len(),
            old(buf)@.len() >= 16,
        ensures
            final(self).round_key == old(self).round_key,
            (final(buf)@, final(self).iv@) =~~= chain_pass(
                old(buf)@,
                old(self).iv@,
                0,
                length as int,
            ),
    {
        let mut i: usize = 0;
        #[verifier::loop_isolation(false)]
        while i < length
            invariant
                i <= length,
                i % 16 == 0,
                buf@.len() == old(buf)@.len(),
                self.round_key == old(self).round_key,
                chain_pass(old(buf)@, old(self).iv@, 0, length as int) == chain_pass(
                    buf@,
                    self.iv@,
                    i as int,
                    length as int,
                ),
            decreases length - i,
        {
            let ghost pre_buf = buf@;
            let ghost pre_iv = self.iv@;
            xor_with_iv(buf, &self.iv);
            let mut state: StateT = buffer_to_statet(buf, i);
            cipher(&mut state, &self.round_key);
            let mut j: usize = 0;
            #[verifier::loop_isolation(false)]
            while j < AES_BLOCKLEN
                invariant
                    j <= 16,
                    i + 16 <= length,
                    i % 16 == 0,
                    buf@.len() == old(buf)@.len(),
                    buf@ == chain_step(pre_buf, pre_iv, i as int).0,
                    self.round_key == old(self).round_key,
                    forall|k: int| 0 <= k < j ==> #[trigger] self.iv@[k] == buf@[i + k],
                decreases 16 - j,
            {
                self.iv[j] = buf[i + j];
                j += 1;
            }
            proof {
                assert(buf@ =~= chain_step(pre_buf, pre_iv, i as int).0);
                assert(self.iv@ =~= chain_step(pre_buf, pre_iv, i as int).1);
            }
            i += AES_BLOCKLEN;
        }
        proof {
            assert(chain_pass(buf@, self.iv@, length as int, length as int) == (
                buf@,
                self.iv@,
            ));
        }
    }
}

} // verus!


