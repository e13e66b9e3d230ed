//! CRC-16 CCITT (polynomial 0x1021, initial value 0, no final XOR), computed
//! with a lookup table and specified by bitwise polynomial division.

use vstd::prelude::*;

verus! {

/// The integer type that holds a remainder of the CRC.
pub type PolynomialSize = u16;

/// The generator polynomial, without its leading term.
pub const POLYNOMIAL: u16 = 0x1021;
/// The width of the polynomial in bits.
pub const POLYNOMIAL_WIDTH: u16 = 16;
/// The most significant bit of a remainder.
pub const MSB: u16 = 0x8000;
/// The remainder the computation starts from.
pub const INITIAL_VALUE: u16 = 0;
/// The value XORed into the final remainder.
pub const FINAL_XOR: u16 = 0;

/// One step of the polynomial division: the remainder is shifted left by one
/// bit and reduced by the polynomial when the bit shifted out was set.
pub open spec fn crc_shift(r: u16) -> u16 {
    if r & 0x8000u16 != 0u16 {
        (r << 1u16) ^ 0x1021u16
    } else {
        r << 1u16
    }
}

/// `n` steps of the polynomial division.
pub open spec fn crc_shifts(r: u16, n: nat) -> u16
    decreases n,
{
    if n == 0 {
        r
    } else {
        crc_shift(crc_shifts(r, (n - 1) as nat))
    }
}

/// The remainder after one more byte has been fed to the division.
pub open spec fn crc_update(r: u16, byte: u8) -> u16 {
    crc_shifts(r ^ ((byte as u16) << 8u16), 8)
}

/// The CRC-16 CCITT of a byte sequence: the remainder of its division by the
/// polynomial, byte after byte, starting from zero.
pub open spec fn spec_crc(data: Seq<u8>) -> u16
    decreases data.len(),
{
    if data.len() == 0 {
        0u16
    } else {
        crc_update(spec_crc(data.drop_last()), data.last())
    }
}

/// The entry of the lookup table for a byte: the remainder of that byte
/// placed in the upper half of a remainder, after eight division steps.
pub open spec fn spec_table_entry(i: u8) -> u16 {
    crc_shifts((i as u16) << 8u16, 8)
}

/// Eight division steps, written out.
spec fn shifts8(r: u16) -> u16 {
    crc_shift(crc_shift(crc_shift(crc_shift(crc_shift(crc_shift(crc_shift(crc_shift(r))))))))
}

proof fn lemma_shifts8_unfold(r: u16)
    ensures
        crc_shifts(r, 8) == shifts8(r),
{
    reveal_with_fuel(crc_shifts, 9);
}

/// Feeding a byte to the division is one table lookup and a shift.
proof fn lemma_update_by_table(r: u16, byte: u8)
    ensures
        crc_update(r, byte) == spec_table_entry(byte ^ ((r >> 8u16) as u8)) ^ (r << 8u16),
{
    let x: u16 = r ^ ((byte as u16) << 8u16);
    let i: u8 = byte ^ ((r >> 8u16) as u8);
    lemma_shifts8_unfold(x);
    lemma_shifts8_unfold((i as u16) << 8u16);
    assert(shifts8(r ^ ((byte as u16) << 8u16)) == shifts8(((byte ^ ((r >> 8u16) as u8)) as u16) << 8u16) ^ (r << 8u16)) by (bit_vector);
}

/// The two bytes of a remainder, most significant first.
pub open spec fn spec_be_bytes(r: u16) -> Seq<u8> {
    seq![(r >> 8u16) as u8, r as u8]
}

proof fn lemma_crc_push(data: Seq<u8>, byte: u8)
    ensures
        spec_crc(data.push(byte)) == crc_update(spec_crc(data), byte),
{
    assert(data.push(byte).drop_last() == data);
}

proof fn lemma_shift_injective(a: u16, b: u16)
    ensures
        crc_shift(a) == crc_shift(b) ==> a == b,
{
    assert(crc_shift(a) == crc_shift(b) ==> a == b) by (bit_vector);
}

proof fn lemma_shifts8_injective(a: u16, b: u16)
    ensures
        shifts8(a) == shifts8(b) ==> a == b,
{
    lemma_shift_injective(a, b);
    lemma_shift_injective(crc_shift(a), crc_shift(b));
    lemma_shift_injective(crc_shift(crc_shift(a)), crc_shift(crc_shift(b)));
    lemma_shift_injective(crc_shift(crc_shift(crc_shift(a))), crc_shift(crc_shift(crc_shift(b))));
    lemma_shift_injective(
        crc_shift(crc_shift(crc_shift(crc_shift(a)))),
        crc_shift(crc_shift(crc_shift(crc_shift(b)))),
    );
    lemma_shift_injective(
        crc_shift(crc_shift(crc_shift(crc_shift(crc_shift(a))))),
        crc_shift(crc_shift(crc_shift(crc_shift(crc_shift(b))))),
    );
    lemma_shift_injective(
        crc_shift(crc_shift(crc_shift(crc_shift(crc_shift(crc_shift(a)))))),
        crc_shift(crc_shift(crc_shift(crc_shift(crc_shift(crc_shift(b)))))),
    );
    lemma_shift_injective(
        crc_shift(crc_shift(crc_shift(crc_shift(crc_shift(crc_shift(crc_shift(a))))))),
        crc_shift(crc_shift(crc_shift(crc_shift(crc_shift(crc_shift(crc_shift(b))))))),
    );
}

/// Eight division steps move a remainder below 256 into the upper byte.
proof fn lemma_shifts8_low_byte(l: u8)
    ensures
        shifts8(l as u16) == (l as u16) << 8u16,
{
    assert(shifts8(l as u16) == (l as u16) << 8u16) by (bit_vector);
}

proof fn lemma_update_twice(r: u16, hi: u8, lo: u8)
    ensures
        crc_update(crc_update(r, hi), lo) == 0 <==> (hi == (r >> 8u16) as u8 && lo == r as u8),
{
    let x: u16 = r ^ ((hi as u16) << 8u16);
    let y: u16 = shifts8(x) ^ ((lo as u16) << 8u16);
    lemma_shifts8_unfold(x);
    lemma_shifts8_unfold(y);
    lemma_shifts8_low_byte(lo);
    lemma_shifts8_low_byte(0u8);
    assert(((0u8 as u16) << 8u16) == 0u16) by (bit_vector);
    lemma_shifts8_injective(y, 0u16);
    lemma_shifts8_injective(x, lo as u16);
    assert(shifts8(x) ^ ((lo as u16) << 8u16) == 0u16 <==> shifts8(x) == (lo as u16) << 8u16)
        by (bit_vector);
    assert(r ^ ((hi as u16) << 8u16) == lo as u16 <==> (hi == (r >> 8u16) as u8 && lo == r as u8))
        by (bit_vector);
}

/// A sequence of at least two bytes has CRC zero exactly when its last two
/// bytes are the big-endian CRC of the bytes before them.
pub proof fn lemma_crc_zero_iff_checked(data: Seq<u8>, hi: u8, lo: u8)
    ensures
        spec_crc(data.push(hi).push(lo)) == 0 <==> spec_be_bytes(spec_crc(data)) == seq![hi, lo],
{
    let r = spec_crc(data);
    lemma_crc_push(data, hi);
    lemma_crc_push(data.push(hi), lo);
    lemma_update_twice(r, hi, lo);
    if hi == (r >> 8u16) as u8 && lo == r as u8 {
        assert(spec_be_bytes(r) == seq![hi, lo]);
    }
    if spec_be_bytes(r) == seq![hi, lo] {
        assert(spec_be_bytes(r)[0] == hi);
        assert(spec_be_bytes(r)[1] == lo);
    }
}

/// Appending the big-endian CRC of some data to that data gives a sequence
/// whose CRC is zero.
pub proof fn lemma_crc_of_checked_data_is_zero(data: Seq<u8>)
    ensures
        spec_crc(data + spec_be_bytes(spec_crc(data))) == 0,
{
    let r = spec_crc(data);
    let hi: u8 = (r >> 8u16) as u8;
    let lo: u8 = r as u8;
    assert(data + spec_be_bytes(r) == data.push(hi).push(lo));
    lemma_crc_zero_iff_checked(data, hi, lo);
}

proof fn lemma_shift_linear(x: u16, y: u16)
    ensures
        crc_shift(x ^ y) == crc_shift(x) ^ crc_shift(y),
{
    assert(crc_shift(x ^ y) == crc_shift(x) ^ crc_shift(y)) by (bit_vector);
}

proof fn lemma_shifts_linear(x: u16, y: u16, n: nat)
    ensures
        crc_shifts(x ^ y, n) == crc_shifts(x, n) ^ crc_shifts(y, n),
    decreases n,
{
    if n > 0 {
        lemma_shifts_linear(x, y, (n - 1) as nat);
        lemma_shift_linear(crc_shifts(x, (n - 1) as nat), crc_shifts(y, (n - 1) as nat));
    }
}

/// The byte-wise XOR of two sequences of the same length.
pub open spec fn spec_xor_bytes(a: Seq<u8>, b: Seq<u8>) -> Seq<u8> {
    Seq::new(a.len(), |i: int| a[i] ^ b[i])
}

/// The CRC is linear: the CRC of the XOR of two sequences of the same length
/// is the XOR of their CRCs.
pub proof fn lemma_crc_linear(a: Seq<u8>, b: Seq<u8>)
    requires
        a.len() == b.len(),
    ensures
        spec_crc(spec_xor_bytes(a, b)) == spec_crc(a) ^ spec_crc(b),
    decreases a.len(),
{
    let x = spec_xor_bytes(a, b);
    if a.len() == 0 {
        assert(0u16 ^ 0u16 == 0u16) by (bit_vector);
    } else {
        let a0 = a.drop_last();
        let b0 = b.drop_last();
        lemma_crc_linear(a0, b0);
        assert(x.drop_last() == spec_xor_bytes(a0, b0));
        let ra = spec_crc(a0);
        let rb = spec_crc(b0);
        let ba = a.last();
        let bb = b.last();
        assert(x.last() == ba ^ bb);
        assert((ra ^ rb) ^ (((ba ^ bb) as u16) << 8u16) == (ra ^ ((ba as u16) << 8u16)) ^ (rb ^ ((
        bb as u16) << 8u16))) by (bit_vector);
        lemma_shifts_linear(ra ^ ((ba as u16) << 8u16), rb ^ ((bb as u16) << 8u16), 8);
    }
}

/// Leading zero bytes do not change the CRC (the initial value is zero).
pub proof fn lemma_crc_leading_zero(data: Seq<u8>)
    ensures
        spec_crc(seq![0u8] + data) == spec_crc(data),
    decreases data.len(),
{
    let s = seq![0u8] + data;
    if data.len() == 0 {
        assert(s.drop_last() == Seq::<u8>::empty());
        assert(s.last() == 0u8);
        assert(0u16 ^ ((0u8 as u16) << 8u16) == 0u16) by (bit_vector);
        lemma_shifts8_unfold(0u16);
        assert(shifts8(0u16) == 0u16) by (bit_vector);
        assert(spec_crc(s) == crc_update(spec_crc(Seq::<u8>::empty()), 0u8));
        assert(spec_crc(data) == 0u16);
    } else {
        lemma_crc_leading_zero(data.drop_last());
        assert(s.drop_last() == seq![0u8] + data.drop_last());
        assert(s.last() == data.last());
    }
}

/// Builds the lookup table of the CRC: entry `i` is the remainder of the byte
/// `i` placed in the upper half of a remainder, after eight division steps.
pub fn lookup_table() -> (table: [u16; 256])
    ensures
        forall|i: int| 0 <= i < 256 ==> #[trigger] table@[i] == spec_table_entry(i as u8),
{
    let mut table: [u16; 256] = [0u16; 256];
    let mut input: usize = 0;
    while input < 256
        invariant
            input <= 256,
            table@.len() == 256,
            forall|i: int| 0 <= i < input ==> #[trigger] table@[i] == spec_table_entry(i as u8),
        decreases 256 - input,
    {
        let start: u16 = (input as u16) << 8u16;
        let mut remainder: u16 = start;
        let mut bit: usize = 0;
        while bit < 8
            invariant
                bit <= 8,
                remainder == crc_shifts(start, bit as nat),
            decreases 8 - bit,
        {
            remainder = if remainder & MSB != 0 {
                (remainder << 1u16) ^ POLYNOMIAL
            } else {
                remainder << 1u16
            };
            bit += 1;
        }
        assert(start == ((input as u8) as u16) << 8u16) by (bit_vector)
            requires
                input < 256,
                start == (input as u16) << 8u16,
        ;
        table[input] = remainder;
        input += 1;
    }
    table
}

/// CRC-16 CCITT of the given data.
pub fn crc_16_ccitt(data: &[u8]) -> (crc: PolynomialSize)
    ensures
        crc == spec_crc(data@),
{
    let lut = lookup_table();
    let mut remainder: u16 = INITIAL_VALUE;
    let mut i: usize = 0;
    while i < data.len()
        invariant
            i <= data@.len(),
            remainder == spec_crc(data@.take(i as int)),
            forall|k: int| 0 <= k < 256 ==> #[trigger] lut@[k] == spec_table_entry(k as u8),
        decreases data@.len() - i,
    {
        let byte: u8 = data[i];
        let processed_byte: u8 = byte ^ (#[verifier::truncate] ((remainder >> 8u16) as u8));
        proof {
            lemma_update_by_table(remainder, byte);
            assert(data@.take(i + 1).drop_last() == data@.take(i as int));
        }
        remainder = lut[processed_byte as usize] ^ (remainder << 8u16);
        i += 1;
    }
    assert(data@.take(data@.len() as int) == data@);
    assert(remainder ^ 0u16 == remainder) by (bit_vector);
    remainder ^ FINAL_XOR
}

} // verus!
