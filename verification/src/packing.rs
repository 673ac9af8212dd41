//! Bit-to-byte packing: eight consecutive row-major pixels become one byte,
//! most-significant-bit first (the first pixel of the group is bit 7).

use vstd::prelude::*;

verus! {

pub open spec fn bit_value(b: bool) -> int {
    if b {
        1
    } else {
        0
    }
}

/// The byte that packs eight pixels most-significant-bit first: the first
/// pixel of the group becomes bit 7, the last becomes bit 0.
pub open spec fn byte_of_bits(bits: Seq<bool>) -> u8
    recommends
        bits.len() == 8,
{
    (128 * bit_value(bits[0]) + 64 * bit_value(bits[1]) + 32 * bit_value(bits[2]) + 16 * bit_value(
        bits[3],
    ) + 8 * bit_value(bits[4]) + 4 * bit_value(bits[5]) + 2 * bit_value(bits[6]) + bit_value(
        bits[7],
    )) as u8
}

/// The eight pixels encoded by one byte, most-significant-bit first.
pub open spec fn bits_of_byte(b: u8) -> Seq<bool> {
    seq![
        (b >> 7) & 1 == 1,
        (b >> 6) & 1 == 1,
        (b >> 5) & 1 == 1,
        (b >> 4) & 1 == 1,
        (b >> 3) & 1 == 1,
        (b >> 2) & 1 == 1,
        (b >> 1) & 1 == 1,
        b & 1 == 1,
    ]
}

/// The packed bytes of one frame: row-major pixels taken eight at a time.
pub open spec fn frame_bytes(f: Seq<bool>) -> Seq<u8>
    recommends
        f.len() % 8 == 0,
{
    Seq::new(f.len() / 8, |k: int| byte_of_bits(f.subrange(8 * k, 8 * k + 8)))
}

/// The pixel sequence spelled out by a byte sequence under MSB-first
/// unpacking.
pub open spec fn unpacked_bits(bytes: Seq<u8>) -> Seq<bool> {
    Seq::new(8 * bytes.len(), |i: int| bits_of_byte(bytes[i / 8])[i % 8])
}

/// Packs the eight pixels `bits[start .. start + 8]` into one byte,
/// most-significant-bit first.
pub fn bits_to_byte(bits: &Vec<bool>, start: usize) -> (r: u8)
    requires
        start + 8 <= bits@.len(),
    ensures
        r == byte_of_bits(bits@.subrange(start as int, start as int + 8)),
{
    let r: u8 = (if *bits.get(start).unwrap() {
        128
    } else {
        0
    }) + (if *bits.get(start + 1).unwrap() {
        64
    } else {
        0
    }) + (if *bits.get(start + 2).unwrap() {
        32
    } else {
        0
    }) + (if *bits.get(start + 3).unwrap() {
        16
    } else {
        0
    }) + (if *bits.get(start + 4).unwrap() {
        8
    } else {
        0
    }) + (if *bits.get(start + 5).unwrap() {
        4
    } else {
        0
    }) + (if *bits.get(start + 6).unwrap() {
        2
    } else {
        0
    }) + (if *bits.get(start + 7).unwrap() {
        1
    } else {
        0
    });
    r
}

/// Unpacking a byte and packing the result yields the byte again.
pub proof fn lemma_byte_roundtrip(b: u8)
    ensures
        byte_of_bits(bits_of_byte(b)) == b,
{
    assert(((b >> 7) & 1) < 2 && ((b >> 6) & 1) < 2 && ((b >> 5) & 1) < 2 && ((b >> 4) & 1) < 2 && (
    (b >> 3) & 1) < 2 && ((b >> 2) & 1) < 2 && ((b >> 1) & 1) < 2 && (b & 1) < 2) by (bit_vector);
    assert(((b >> 7) & 1) * 128 + ((b >> 6) & 1) * 64 + ((b >> 5) & 1) * 32 + ((b >> 4) & 1) * 16 + (
    (b >> 3) & 1) * 8 + ((b >> 2) & 1) * 4 + ((b >> 1) & 1) * 2 + (b & 1) == b) by (bit_vector);
}

/// Byte-packing round trip: a frame whose pixels were set from a byte
/// sequence by MSB-first unpacking packs back to that same byte sequence.
pub proof fn lemma_pack_after_unpack(bytes: Seq<u8>)
    ensures
        unpacked_bits(bytes).len() == 8 * bytes.len(),
        frame_bytes(unpacked_bits(bytes)) == bytes,
{
    let f = unpacked_bits(bytes);
    assert forall|k: int| 0 <= k < bytes.len() implies #[trigger] frame_bytes(f)[k]
        == bytes[k] by {
        assert forall|j: int| 0 <= j < 8 implies f.subrange(8 * k, 8 * k + 8)[j] == bits_of_byte(
            bytes[k],
        )[j] by {
            assert((8 * k + j) / 8 == k && (8 * k + j) % 8 == j) by (nonlinear_arith)
                requires
                    0 <= j < 8,
            ;
        }
        assert(f.subrange(8 * k, 8 * k + 8) =~= bits_of_byte(bytes[k]));
        lemma_byte_roundtrip(bytes[k]);
    }
    assert(frame_bytes(f) =~= bytes);
}

} // verus!
