//! Reading and writing the variable-length integers of a binary module.

use crate::arena::{
    arena_bytes, arena_copy_slice, arena_vec_as_mut_slice, arena_vec_as_slice,
    arena_vec_extend_from_slice, arena_vec_len, arena_vec_push, arena_vec_resize,
};
use crate::leb128::{
    decoded_u32, leb_end, lemma_payload_bound, little_endian, MAX_SIZE_ENCODED_U32, padded_sleb128,
    padded_uleb128, payload, sleb128, uleb128,
};
use vstd::arithmetic::power2::{lemma2_to64, pow2};
use vstd::prelude::*;
use vstd::slice::slice_subrange;
use vstd::string::StringSliceAdditionalSpecFns;

verus! {

/// The text of the error that `decode_u32` reports for the bytes it looked at.
pub uninterp spec fn decode_failure_text(prefix: Seq<u8>) -> Seq<char>;

/// Formats the error of `decode_u32` with `format!`: a fixed sentence followed
/// by the bytes in two-digit hexadecimal. The text depends on the bytes alone;
/// the contract gives it a name and says nothing more of it.
#[verifier::external_body]
fn decode_failure_message(prefix: &[u8]) -> (message: String)
    ensures
        message@ == decode_failure_text(prefix@),
{
    format!("Failed to decode u32 as LEB-128 from bytes: {:2x?}", prefix)
}

/// The part of `bytes` that `decode_u32` looks at.
pub open spec fn decode_window(bytes: Seq<u8>) -> Seq<u8> {
    if bytes.len() <= MAX_SIZE_ENCODED_U32 {
        bytes
    } else {
        bytes.take(MAX_SIZE_ENCODED_U32 as int)
    }
}

proof fn lemma_digit_shift(byte: u8, i: int)
    requires
        0 <= i <= 4,
    ensures
        i < 4 ==> (((byte & 0x7f) as u32) << ((7 * i) as u32)) == (byte % 128) * pow2((7 * i) as nat),
        i == 4 ==> (((byte & 0x7f) as u32) << 28u32) == ((byte % 128) * pow2(28)) % 0x1_0000_0000,
        i == 4 ==> (((byte & 0x7f) as u32) << 28u32) % 0x1000_0000 == 0,
        (byte & 0x80 == 0) <==> byte < 128,
{
    lemma2_to64();
    assert((byte & 0x80 == 0) <==> byte < 128) by (bit_vector);
    if i == 0 {
        assert(((byte & 0x7f) as u32) << 0u32 == (byte % 128) * 1) by (bit_vector);
    } else if i == 1 {
        assert(((byte & 0x7f) as u32) << 7u32 == (byte % 128) * 0x80) by (bit_vector);
    } else if i == 2 {
        assert(((byte & 0x7f) as u32) << 14u32 == (byte % 128) * 0x4000) by (bit_vector);
    } else if i == 3 {
        assert(((byte & 0x7f) as u32) << 21u32 == (byte % 128) * 0x20_0000) by (bit_vector);
    } else {
        assert(((byte & 0x7f) as u32) << 28u32 == ((byte % 128) * 0x1000_0000) % 0x1_0000_0000)
            by (bit_vector);
        assert((((byte & 0x7f) as u32) << 28u32) % 0x1000_0000 == 0) by (bit_vector);
    }
}

/// Decodes an unsigned 32-bit integer in LEB-128 format from the front of
/// `bytes`. Returns the integer and the offset just past it, or an error when
/// none of the first `MAX_SIZE_ENCODED_U32` bytes ends the number.
pub fn decode_u32(bytes: &[u8]) -> (res: Result<(u32, usize), String>)
    ensures
        match res {
            Ok(pair) => decoded_u32(bytes@) == Some(pair),
            Err(message) => decoded_u32(bytes@) is None && message@ == decode_failure_text(
                decode_window(bytes@),
            ),
        },
{
    let mut value: u32 = 0;
    let mut shift: u32 = 0;
    let mut i: usize = 0;
    let limit: usize = if bytes.len() < MAX_SIZE_ENCODED_U32 {
        bytes.len()
    } else {
        MAX_SIZE_ENCODED_U32
    };
    while i < limit
        invariant
            i <= limit <= MAX_SIZE_ENCODED_U32,
            limit <= bytes@.len(),
            limit == MAX_SIZE_ENCODED_U32 || limit == bytes@.len(),
            shift == 7 * i,
            value == payload(bytes@, i as nat) % 0x1_0000_0000,
            leb_end(bytes@, 0, MAX_SIZE_ENCODED_U32 as int) == leb_end(
                bytes@,
                i as int,
                MAX_SIZE_ENCODED_U32 as int,
            ),
        decreases limit - i,
    {
        let byte = bytes[i];
        proof {
            lemma2_to64();
            lemma_digit_shift(byte, i as int);
            lemma_payload_bound(bytes@, i as nat);
            let low = payload(bytes@, i as nat);
            let high = ((byte % 128) * pow2((7 * i) as nat)) as int;
            let term = (((byte & 0x7f) as u32) << shift) as int;
            assert(payload(bytes@, (i + 1) as nat) == low + high);
            if i == 4 {
                assert((low + high) % 0x1_0000_0000 == low + term) by (nonlinear_arith)
                    requires
                        0 <= low < 0x1000_0000,
                        term == high % 0x1_0000_0000,
                        term % 0x1000_0000 == 0,
                        0 <= term < 0x1_0000_0000,
                        0 <= high,
                ;
            } else {
                lemma_payload_bound(bytes@, (i + 1) as nat);
            }
        }
        value = value + (((byte & 0x7f) as u32) << shift);
        if (byte & 0x80) == 0 {
            return Ok((value, i + 1));
        }
        shift = shift + 7;
        i = i + 1;
    }
    let window = slice_subrange(bytes, 0, limit);
    assert(window@ == decode_window(bytes@));
    Err(decode_failure_message(window))
}


proof fn lemma_low_bits_u32(x: u32)
    ensures
        (0x80 | ((x & 0x7f) as u8)) == 128 + x % 128,
        (x & 0x7f) as u8 == x % 128,
        (x & 0xff) as u8 == x % 256,
        x >> 7 == x / 128,
        x >> 8 == x / 256,
{
    assert((0x80 | ((x & 0x7f) as u8)) == 128 + x % 128) by (bit_vector);
    assert((x & 0x7f) as u8 == x % 128) by (bit_vector);
    assert((x & 0xff) as u8 == x % 256) by (bit_vector);
    assert(x >> 7 == x / 128) by (bit_vector);
    assert(x >> 8 == x / 256) by (bit_vector);
}

proof fn lemma_low_bits_u64(x: u64)
    ensures
        (0x80 | ((x & 0x7f) as u8)) == 128 + x % 128,
        (x & 0x7f) as u8 == x % 128,
        (x & 0xff) as u8 == x % 256,
        x >> 7 == x / 128,
        x >> 8 == x / 256,
{
    assert((0x80 | ((x & 0x7f) as u8)) == 128 + x % 128) by (bit_vector);
    assert((x & 0x7f) as u8 == x % 128) by (bit_vector);
    assert((x & 0xff) as u8 == x % 256) by (bit_vector);
    assert(x >> 7 == x / 128) by (bit_vector);
    assert(x >> 8 == x / 256) by (bit_vector);
}

proof fn lemma_low_bits_i32(x: i32)
    ensures
        (0x80 | ((x & 0x7f) as u8)) == 128 + x % 128,
        (x & 0x7f) as u8 == x % 128,
        x >> 7 == x / 128,
        ((x & 0x7f) as u8) & 0x40 != 0 <==> x % 128 >= 64,
{
    assert((0x80 | ((x & 0x7f) as u8)) == 128 + x % 128) by (bit_vector);
    assert((x & 0x7f) as u8 == x % 128) by (bit_vector);
    assert(x >> 7 == x / 128) by (bit_vector);
    assert(((x & 0x7f) as u8) & 0x40 != 0 <==> x % 128 >= 64) by (bit_vector);
}

/// Writes `value` into the first five bytes of `buffer` as a padded unsigned
/// LEB-128 number, and leaves the rest of `buffer` as it was.
pub fn overwrite_padded_u32_help(buffer: &mut [u8], value: u32)
    requires
        old(buffer)@.len() >= MAX_SIZE_ENCODED_U32,
    ensures
        final(buffer)@ == padded_uleb128(value as nat, MAX_SIZE_ENCODED_U32 as nat) + old(
            buffer,
        )@.skip(MAX_SIZE_ENCODED_U32 as int),
{
    let mut x = value;
    let mut i: usize = 0;
    while i < 4
        invariant
            i <= 4,
            buffer@.len() == old(buffer)@.len(),
            buffer@.len() >= MAX_SIZE_ENCODED_U32,
            buffer@.skip(i as int) == old(buffer)@.skip(i as int),
            buffer@.take(i as int) + padded_uleb128(x as nat, (5 - i) as nat) == padded_uleb128(
                value as nat,
                5,
            ),
        decreases 4 - i,
    {
        let ghost before = buffer@;
        proof {
            lemma_low_bits_u32(x);
        }
        buffer[i] = 0x80 | ((x & 0x7f) as u8);
        proof {
            let digit = (128 + x % 128) as u8;
            assert(buffer@ == before.update(i as int, digit));
            assert(buffer@.take(i + 1) == before.take(i as int).push(digit));
            assert(padded_uleb128(x as nat, (5 - i) as nat) == seq![digit] + padded_uleb128(
                x as nat / 128,
                (4 - i) as nat,
            ));
            assert(before.take(i as int).push(digit) + padded_uleb128(
                x as nat / 128,
                (4 - i) as nat,
            ) == before.take(i as int) + (seq![digit] + padded_uleb128(
                x as nat / 128,
                (4 - i) as nat,
            )));
            assert(buffer@.skip(i + 1) == before.skip(i as int).skip(1));
            assert(old(buffer)@.skip(i + 1) == old(buffer)@.skip(i as int).skip(1));
        }
        x = x >> 7;
        i = i + 1;
    }
    let ghost before = buffer@;
    proof {
        assert(x as u8 == x % 256) by (bit_vector);
    }
    buffer[4] = x as u8;
    proof {
        let last = (x % 256) as u8;
        assert(padded_uleb128(x as nat, 1) == seq![last]);
        assert(buffer@.take(5) == before.take(4).push(last));
        assert(before.take(4).push(last) == before.take(4) + seq![last]);
        assert(buffer@.skip(5) == before.skip(4).skip(1));
        assert(old(buffer)@.skip(5) == old(buffer)@.skip(4).skip(1));
        assert(buffer@ == buffer@.take(5) + buffer@.skip(5));
    }
}


proof fn lemma_low_bits_i64(x: i64)
    ensures
        (0x80 | ((x & 0x7f) as u8)) == 128 + x % 128,
        (x & 0x7f) as u8 == x % 128,
        x >> 7 == x / 128,
        ((x & 0x7f) as u8) & 0x40 != 0 <==> x % 128 >= 64,
{
    assert((0x80 | ((x & 0x7f) as u8)) == 128 + x % 128) by (bit_vector);
    assert((x & 0x7f) as u8 == x % 128) by (bit_vector);
    assert(x >> 7 == x / 128) by (bit_vector);
    assert(((x & 0x7f) as u8) & 0x40 != 0 <==> x % 128 >= 64) by (bit_vector);
}

proof fn lemma_continuation_bit(byte: u8)
    requires
        byte < 128,
    ensures
        byte | 0x80 == 128 + byte,
{
    assert(byte < 128 ==> byte | 0x80 == 128 + byte) by (bit_vector);
}

/// A growable buffer of bytes that integers are written into.
pub trait SerialBuffer {
    /// The bytes that the buffer holds.
    spec fn bytes(&self) -> Seq<u8>;

    /// Appends one byte.
    fn append_u8(&mut self, b: u8)
        ensures
            final(self).bytes() == old(self).bytes().push(b),
    ;

    /// Replaces the byte at `index`.
    fn overwrite_u8(&mut self, index: usize, b: u8)
        requires
            index < old(self).bytes().len(),
        ensures
            final(self).bytes() == old(self).bytes().update(index as int, b),
    ;

    /// Appends all of `b`.
    fn append_slice(&mut self, b: &[u8])
        ensures
            final(self).bytes() == old(self).bytes() + b@,
    ;

    /// The number of bytes in the buffer.
    fn size(&self) -> (n: usize)
        ensures
            n == self.bytes().len(),
    ;

    /// Writes `value` in unsigned LEB-128 format and returns the number of
    /// bytes written.
    fn encode_u32(&mut self, value: u32) -> (written: usize)
        ensures
            final(self).bytes() == old(self).bytes() + uleb128(value as nat),
            written == uleb128(value as nat).len(),
    {
        let mut x = value;
        let start_len = self.size();
        while x >= 0x80
            invariant
                self.bytes() + uleb128(x as nat) == old(self).bytes() + uleb128(value as nat),
                start_len == old(self).bytes().len(),
            decreases x,
        {
            let ghost before = self.bytes();
            proof {
                lemma_low_bits_u32(x);
            }
            self.append_u8(0x80 | ((x & 0x7f) as u8));
            proof {
                let digit = (128 + x % 128) as u8;
                assert(before.push(digit) + uleb128(x as nat / 128) == before + (seq![digit]
                    + uleb128(x as nat / 128)));
            }
            x = x >> 7;
        }
        let ghost before = self.bytes();
        self.append_u8(x as u8);
        proof {
            assert(before.push(x as u8) == before + seq![x as u8]);
            assert(self.bytes().len() == old(self).bytes().len() + uleb128(value as nat).len());
        }
        self.size() - start_len
    }

    /// Writes `value` in unsigned LEB-128 format and returns the number of
    /// bytes written.
    fn encode_u64(&mut self, value: u64) -> (written: usize)
        ensures
            final(self).bytes() == old(self).bytes() + uleb128(value as nat),
            written == uleb128(value as nat).len(),
    {
        let mut x = value;
        let start_len = self.size();
        while x >= 0x80
            invariant
                self.bytes() + uleb128(x as nat) == old(self).bytes() + uleb128(value as nat),
                start_len == old(self).bytes().len(),
            decreases x,
        {
            let ghost before = self.bytes();
            proof {
                lemma_low_bits_u64(x);
            }
            self.append_u8(0x80 | ((x & 0x7f) as u8));
            proof {
                let digit = (128 + x % 128) as u8;
                assert(before.push(digit) + uleb128(x as nat / 128) == before + (seq![digit]
                    + uleb128(x as nat / 128)));
            }
            x = x >> 7;
        }
        let ghost before = self.bytes();
        self.append_u8(x as u8);
        proof {
            assert(before.push(x as u8) == before + seq![x as u8]);
            assert(self.bytes().len() == old(self).bytes().len() + uleb128(value as nat).len());
        }
        self.size() - start_len
    }

    /// Writes `value` in signed LEB-128 format and returns the number of bytes
    /// written.
    fn encode_i32(&mut self, value: i32) -> (written: usize)
        ensures
            final(self).bytes() == old(self).bytes() + sleb128(value as int),
            written == sleb128(value as int).len(),
    {
        let mut x = value;
        let start_len = self.size();
        loop
            invariant_except_break
                self.bytes() + sleb128(x as int) == old(self).bytes() + sleb128(value as int),
            invariant
                start_len == old(self).bytes().len(),
            ensures
                self.bytes() == old(self).bytes() + sleb128(value as int),
            decreases (if x < 0 { -x } else { x as int }),
        {
            let ghost before = self.bytes();
            let ghost rest = sleb128(x as int / 128);
            proof {
                lemma_low_bits_i32(x);
            }
            let byte = (x & 0x7f) as u8;
            x = x >> 7;
            let byte_is_negative = (byte & 0x40) != 0;
            if (x == 0 && !byte_is_negative) || (x == -1 && byte_is_negative) {
                self.append_u8(byte);
                proof {
                    assert(before.push(byte) == before + seq![byte]);
                }
                break ;
            }
            proof {
                lemma_continuation_bit(byte);
            }
            self.append_u8(byte | 0x80);
            proof {
                let digit = (128 + byte) as u8;
                assert(before.push(digit) + rest == before + (seq![digit] + rest));
            }
        }
        self.size() - start_len
    }

    /// Writes `value` in signed LEB-128 format and returns the number of bytes
    /// written.
    fn encode_i64(&mut self, value: i64) -> (written: usize)
        ensures
            final(self).bytes() == old(self).bytes() + sleb128(value as int),
            written == sleb128(value as int).len(),
    {
        let mut x = value;
        let start_len = self.size();
        loop
            invariant_except_break
                self.bytes() + sleb128(x as int) == old(self).bytes() + sleb128(value as int),
            invariant
                start_len == old(self).bytes().len(),
            ensures
                self.bytes() == old(self).bytes() + sleb128(value as int),
            decreases (if x < 0 { -x } else { x as int }),
        {
            let ghost before = self.bytes();
            let ghost rest = sleb128(x as int / 128);
            proof {
                lemma_low_bits_i64(x);
            }
            let byte = (x & 0x7f) as u8;
            x = x >> 7;
            let byte_is_negative = (byte & 0x40) != 0;
            if (x == 0 && !byte_is_negative) || (x == -1 && byte_is_negative) {
                self.append_u8(byte);
                proof {
                    assert(before.push(byte) == before + seq![byte]);
                }
                break ;
            }
            proof {
                lemma_continuation_bit(byte);
            }
            self.append_u8(byte | 0x80);
            proof {
                let digit = (128 + byte) as u8;
                assert(before.push(digit) + rest == before + (seq![digit] + rest));
            }
        }
        self.size() - start_len
    }

    /// Appends five bytes to be overwritten later and returns where they start.
    fn reserve_padded_u32(&mut self) -> (index: usize)
        requires
            old(self).bytes().len() + MAX_SIZE_ENCODED_U32 <= usize::MAX,
        ensures
            index == old(self).bytes().len(),
            final(self).bytes() == old(self).bytes() + seq![0xffu8, 0xffu8, 0xffu8, 0xffu8, 0xffu8],
    ;

    /// Appends `value` as a padded unsigned LEB-128 number of five bytes and
    /// returns where it starts.
    fn encode_padded_u32(&mut self, value: u32) -> (index: usize)
        requires
            old(self).bytes().len() + MAX_SIZE_ENCODED_U32 <= usize::MAX,
        ensures
            index == old(self).bytes().len(),
            final(self).bytes() == old(self).bytes() + padded_uleb128(
                value as nat,
                MAX_SIZE_ENCODED_U32 as nat,
            ),
    ;

    /// Overwrites the five bytes at `index` with `value` as a padded unsigned
    /// LEB-128 number.
    fn overwrite_padded_u32(&mut self, index: usize, value: u32)
        requires
            index + MAX_SIZE_ENCODED_U32 <= old(self).bytes().len(),
        ensures
            final(self).bytes() == old(self).bytes().take(index as int) + padded_uleb128(
                value as nat,
                MAX_SIZE_ENCODED_U32 as nat,
            ) + old(self).bytes().skip(index + MAX_SIZE_ENCODED_U32),
    ;

    /// Writes the four bytes of `value`, least significant first.
    fn write_unencoded_u32(&mut self, value: u32)
        ensures
            final(self).bytes() == old(self).bytes() + little_endian(value as nat, 4),
    {
        let mut x = value;
        let mut i: usize = 0;
        while i < 4
            invariant
                i <= 4,
                self.bytes() + little_endian(x as nat, (4 - i) as nat) == old(self).bytes()
                    + little_endian(value as nat, 4),
            decreases 4 - i,
        {
            let ghost before = self.bytes();
            proof {
                lemma_low_bits_u32(x);
            }
            self.append_u8((x & 0xff) as u8);
            proof {
                let digit = (x % 256) as u8;
                let rest = little_endian(x as nat / 256, (3 - i) as nat);
                assert(before.push(digit) + rest == before + (seq![digit] + rest));
            }
            x = x >> 8;
            i = i + 1;
        }
        assert(self.bytes() + Seq::<u8>::empty() == self.bytes());
    }

    /// Writes the eight bytes of `value`, least significant first.
    fn write_unencoded_u64(&mut self, value: u64)
        ensures
            final(self).bytes() == old(self).bytes() + little_endian(value as nat, 8),
    {
        let mut x = value;
        let mut i: usize = 0;
        while i < 8
            invariant
                i <= 8,
                self.bytes() + little_endian(x as nat, (8 - i) as nat) == old(self).bytes()
                    + little_endian(value as nat, 8),
            decreases 8 - i,
        {
            let ghost before = self.bytes();
            proof {
                lemma_low_bits_u64(x);
            }
            self.append_u8((x & 0xff) as u8);
            proof {
                let digit = (x % 256) as u8;
                let rest = little_endian(x as nat / 256, (7 - i) as nat);
                assert(before.push(digit) + rest == before + (seq![digit] + rest));
            }
            x = x >> 8;
            i = i + 1;
        }
        assert(self.bytes() + Seq::<u8>::empty() == self.bytes());
    }

    /// Writes `value` as a padded signed LEB-128 number of five bytes.
    fn encode_padded_i32(&mut self, value: i32)
        ensures
            final(self).bytes() == old(self).bytes() + padded_sleb128(value as int, 5),
    {
        let mut x = value;
        let mut i: usize = 0;
        while i < 4
            invariant
                i <= 4,
                self.bytes() + padded_sleb128(x as int, (5 - i) as nat) == old(self).bytes()
                    + padded_sleb128(value as int, 5),
            decreases 4 - i,
        {
            let ghost before = self.bytes();
            proof {
                lemma_low_bits_i32(x);
            }
            self.append_u8(0x80 | ((x & 0x7f) as u8));
            proof {
                let digit = (128 + x % 128) as u8;
                let rest = padded_sleb128(x as int / 128, (4 - i) as nat);
                assert(before.push(digit) + rest == before + (seq![digit] + rest));
            }
            x = x >> 7;
            i = i + 1;
        }
        let ghost before = self.bytes();
        proof {
            lemma_low_bits_i32(x);
        }
        self.append_u8((x & 0x7f) as u8);
        assert(before.push((x % 128) as u8) == before + seq![(x % 128) as u8]);
    }

    /// Writes `value` as a padded signed LEB-128 number of ten bytes.
    fn encode_padded_i64(&mut self, value: i64)
        ensures
            final(self).bytes() == old(self).bytes() + padded_sleb128(value as int, 10),
    {
        let mut x = value;
        let mut i: usize = 0;
        while i < 9
            invariant
                i <= 9,
                self.bytes() + padded_sleb128(x as int, (10 - i) as nat) == old(self).bytes()
                    + padded_sleb128(value as int, 10),
            decreases 9 - i,
        {
            let ghost before = self.bytes();
            proof {
                lemma_low_bits_i64(x);
            }
            self.append_u8(0x80 | ((x & 0x7f) as u8));
            proof {
                let digit = (128 + x % 128) as u8;
                let rest = padded_sleb128(x as int / 128, (9 - i) as nat);
                assert(before.push(digit) + rest == before + (seq![digit] + rest));
            }
            x = x >> 7;
            i = i + 1;
        }
        let ghost before = self.bytes();
        proof {
            lemma_low_bits_i64(x);
        }
        self.append_u8((x & 0x7f) as u8);
        assert(before.push((x % 128) as u8) == before + seq![(x % 128) as u8]);
    }
}


impl SerialBuffer for Vec<u8> {
    open spec fn bytes(&self) -> Seq<u8> {
        self@
    }

    fn append_u8(&mut self, b: u8) {
        self.push(b);
    }

    fn overwrite_u8(&mut self, index: usize, b: u8) {
        self[index] = b;
    }

    fn append_slice(&mut self, b: &[u8]) {
        self.extend_from_slice(b);
        assert(self@ == old(self)@ + b@);
    }

    fn size(&self) -> (n: usize) {
        self.len()
    }

    fn reserve_padded_u32(&mut self) -> (index: usize) {
        let index = self.len();
        self.resize(index + MAX_SIZE_ENCODED_U32, 0xff);
        assert(self@ == old(self)@ + seq![0xffu8, 0xffu8, 0xffu8, 0xffu8, 0xffu8]);
        index
    }

    fn encode_padded_u32(&mut self, value: u32) -> (index: usize) {
        let index = self.len();
        let new_len = index + MAX_SIZE_ENCODED_U32;
        self.resize(new_len, 0);
        let ghost grown = self@;
        let (_, tail) = self.as_mut_slice().split_at_mut(index);
        overwrite_padded_u32_help(tail, value);
        assert(grown.skip(index as int).skip(MAX_SIZE_ENCODED_U32 as int) == Seq::<u8>::empty());
        assert(grown.take(index as int) == old(self)@);
        index
    }

    fn overwrite_padded_u32(&mut self, index: usize, value: u32) {
        let (_, tail) = self.as_mut_slice().split_at_mut(index);
        overwrite_padded_u32_help(tail, value);
        assert(old(self)@.skip(index as int).skip(MAX_SIZE_ENCODED_U32 as int) == old(self)@.skip(
            index + MAX_SIZE_ENCODED_U32,
        ));
    }
}

impl<'a> SerialBuffer for bumpalo::collections::Vec<'a, u8> {
    open spec fn bytes(&self) -> Seq<u8> {
        arena_bytes(self)
    }

    fn append_u8(&mut self, b: u8) {
        arena_vec_push(self, b);
    }

    fn overwrite_u8(&mut self, index: usize, b: u8) {
        let slice = arena_vec_as_mut_slice(self);
        slice[index] = b;
    }

    fn append_slice(&mut self, b: &[u8]) {
        arena_vec_extend_from_slice(self, b);
    }

    fn size(&self) -> (n: usize) {
        arena_vec_len(self)
    }

    fn reserve_padded_u32(&mut self) -> (index: usize) {
        let index = arena_vec_len(self);
        arena_vec_resize(self, index + MAX_SIZE_ENCODED_U32, 0xff);
        assert(Seq::new(5, |i: int| 0xffu8) == seq![0xffu8, 0xffu8, 0xffu8, 0xffu8, 0xffu8]);
        index
    }

    fn encode_padded_u32(&mut self, value: u32) -> (index: usize) {
        let index = arena_vec_len(self);
        let new_len = index + MAX_SIZE_ENCODED_U32;
        arena_vec_resize(self, new_len, 0);
        let ghost grown = arena_bytes(self);
        let (_, tail) = arena_vec_as_mut_slice(self).split_at_mut(index);
        overwrite_padded_u32_help(tail, value);
        assert(grown.skip(index as int).skip(MAX_SIZE_ENCODED_U32 as int) == Seq::<u8>::empty());
        assert(grown.take(index as int) == arena_bytes(old(self)));
        index
    }

    fn overwrite_padded_u32(&mut self, index: usize, value: u32) {
        let (_, tail) = arena_vec_as_mut_slice(self).split_at_mut(index);
        overwrite_padded_u32_help(tail, value);
        assert(arena_bytes(old(self)).skip(index as int).skip(MAX_SIZE_ENCODED_U32 as int)
            == arena_bytes(old(self)).skip(index + MAX_SIZE_ENCODED_U32));
    }
}

/// Whether a `u32` in LEB-128 format can be read from `bytes` at `cursor`.
pub open spec fn u32_at(bytes: Seq<u8>, cursor: int) -> bool {
    0 <= cursor <= bytes.len() && decoded_u32(bytes.skip(cursor)) is Some
}

/// The `u32` that is read from `bytes` at `cursor`.
pub open spec fn u32_value_at(bytes: Seq<u8>, cursor: int) -> u32 {
    decoded_u32(bytes.skip(cursor)).unwrap().0
}

/// The offset just past the `u32` that is read from `bytes` at `cursor`.
pub open spec fn u32_end_at(bytes: Seq<u8>, cursor: int) -> int {
    cursor + decoded_u32(bytes.skip(cursor)).unwrap().1
}

/// Reads a `u32` in LEB-128 format at `cursor` and moves `cursor` past it.
/// The bytes at `cursor` must hold such a number.
pub fn parse_u32_or_panic(bytes: &[u8], cursor: &mut usize) -> (value: u32)
    requires
        u32_at(bytes@, *old(cursor) as int),
    ensures
        value == u32_value_at(bytes@, *old(cursor) as int),
        *final(cursor) == u32_end_at(bytes@, *old(cursor) as int),
        *old(cursor) < *final(cursor) <= bytes@.len(),
        *final(cursor) <= *old(cursor) + MAX_SIZE_ENCODED_U32,
{
    let rest = slice_subrange(bytes, *cursor, bytes.len());
    assert(rest@ == bytes@.skip(*cursor as int));
    proof {
        lemma_leb_end_bounds(rest@, 0, MAX_SIZE_ENCODED_U32 as int);
    }
    match decode_u32(rest) {
        Ok((value, len)) => {
            *cursor = *cursor + len;
            value
        },
        Err(_) => {
            proof {
                assert(false);
            }
            0
        },
    }
}

/// Whether `bytes` holds at `cursor` a string: a length and that many bytes.
pub open spec fn string_at(bytes: Seq<u8>, cursor: int) -> bool {
    u32_at(bytes, cursor) && u32_end_at(bytes, cursor) + u32_value_at(bytes, cursor)
        <= bytes.len()
}

/// Reads a length at `cursor` and copies that many of the bytes that follow
/// into the arena, moving `cursor` past them. The bytes at `cursor` must hold a
/// length and that many bytes.
pub fn parse_string_bytes<'a>(arena: &'a bumpalo::Bump, bytes: &[u8], cursor: &mut usize) -> (copy:
    &'a [u8])
    requires
        string_at(bytes@, *old(cursor) as int),
    ensures
        *final(cursor) == u32_end_at(bytes@, *old(cursor) as int) + u32_value_at(
            bytes@,
            *old(cursor) as int,
        ),
        copy@ == bytes@.subrange(
            u32_end_at(bytes@, *old(cursor) as int),
            *final(cursor) as int,
        ),
{
    let len = parse_u32_or_panic(bytes, cursor);
    assert(*cursor + len <= bytes.len());
    let end = *cursor + len as usize;
    let found = slice_subrange(bytes, *cursor, end);
    let copy = arena_copy_slice(arena, found);
    *cursor = end;
    copy
}

/// A number that ends is not empty, and ends within the bytes and the limit.
pub proof fn lemma_leb_end_bounds(bytes: Seq<u8>, from: int, limit: int)
    ensures
        leb_end(bytes, from, limit) matches Some(end) ==> from < end && end <= limit && end
            <= bytes.len() && bytes[end - 1] < 128 && (forall|j: int|
            from <= j < end - 1 ==> bytes[j] >= 128),
        leb_end(bytes, from, limit) is None && 0 <= from ==> (forall|j: int|
            from <= j < limit && j < bytes.len() ==> bytes[j] >= 128),
    decreases limit - from,
{
    if from < 0 || from >= limit || from >= bytes.len() {
    } else if bytes[from] < 128 {
    } else {
        lemma_leb_end_bounds(bytes, from + 1, limit);
    }
}


/// Moves `cursor` past the LEB-128 number that starts there, which must end
/// within `max_len` bytes.
fn skip_leb(bytes: &[u8], cursor: &mut usize, max_len: usize)
    requires
        leb_end(bytes@, *old(cursor) as int, *old(cursor) + max_len) is Some,
    ensures
        leb_end(bytes@, *old(cursor) as int, *old(cursor) + max_len) == Some(*final(cursor) as int),
{
    let start = *cursor;
    let mut taken: usize = 0;
    proof {
        lemma_leb_end_bounds(bytes@, start as int, start + max_len);
    }
    while taken < max_len && taken < bytes.len() - start
        invariant
            taken <= max_len,
            start + taken <= bytes@.len(),
            start == *old(cursor),
            leb_end(bytes@, start as int, start + max_len) is Some,
            leb_end(bytes@, start as int, start + max_len) == leb_end(
                bytes@,
                start + taken,
                start + max_len,
            ),
        decreases max_len - taken,
    {
        let byte = bytes[start + taken];
        proof {
            assert((byte & 0x80 == 0) <==> byte < 128) by (bit_vector);
        }
        if byte & 0x80 == 0 {
            *cursor = start + taken + 1;
            return ;
        }
        taken = taken + 1;
    }
    proof {
        assert(false);
    }
}

/// Skipping over the serialized bytes of a value of the implementing type,
/// which may or may not need a look at the bytes.
pub trait SkipBytes {
    /// Whether `bytes` holds at `cursor` something that can be skipped.
    spec fn skippable(bytes: Seq<u8>, cursor: int) -> bool;

    /// Where the value that starts at `cursor` ends.
    spec fn skipped(bytes: Seq<u8>, cursor: int) -> int;

    /// Moves `cursor` past the value that starts there.
    fn skip_bytes(bytes: &[u8], cursor: &mut usize)
        requires
            Self::skippable(bytes@, *old(cursor) as int),
        ensures
            *final(cursor) == Self::skipped(bytes@, *old(cursor) as int),
    ;
}

impl SkipBytes for u32 {
    open spec fn skippable(bytes: Seq<u8>, cursor: int) -> bool {
        leb_end(bytes, cursor, cursor + 5) is Some
    }

    open spec fn skipped(bytes: Seq<u8>, cursor: int) -> int {
        leb_end(bytes, cursor, cursor + 5).unwrap()
    }

    fn skip_bytes(bytes: &[u8], cursor: &mut usize) {
        skip_leb(bytes, cursor, 5);
    }
}

impl SkipBytes for u64 {
    open spec fn skippable(bytes: Seq<u8>, cursor: int) -> bool {
        leb_end(bytes, cursor, cursor + 10) is Some
    }

    open spec fn skipped(bytes: Seq<u8>, cursor: int) -> int {
        leb_end(bytes, cursor, cursor + 10).unwrap()
    }

    fn skip_bytes(bytes: &[u8], cursor: &mut usize) {
        skip_leb(bytes, cursor, 10);
    }
}

impl SkipBytes for u8 {
    open spec fn skippable(bytes: Seq<u8>, cursor: int) -> bool {
        cursor < usize::MAX
    }

    open spec fn skipped(bytes: Seq<u8>, cursor: int) -> int {
        cursor + 1
    }

    fn skip_bytes(_bytes: &[u8], cursor: &mut usize) {
        *cursor = *cursor + 1;
    }
}

/// A string is a length followed by that many bytes. Skipping one does not look
/// at the bytes, nor ask that they are there.
impl SkipBytes for String {
    open spec fn skippable(bytes: Seq<u8>, cursor: int) -> bool {
        u32_at(bytes, cursor) && u32_end_at(bytes, cursor) + u32_value_at(bytes, cursor)
            <= usize::MAX
    }

    open spec fn skipped(bytes: Seq<u8>, cursor: int) -> int {
        u32_end_at(bytes, cursor) + u32_value_at(bytes, cursor)
    }

    fn skip_bytes(bytes: &[u8], cursor: &mut usize) {
        let len = parse_u32_or_panic(bytes, cursor);
        *cursor = *cursor + len as usize;
    }
}

/// The concatenation of what the first `n` of `items` serialize to.
pub open spec fn serialized_items<S: Serialize>(items: Seq<S>, n: nat) -> Seq<u8>
    decreases n,
{
    if n == 0 {
        Seq::empty()
    } else {
        serialized_items(items, (n - 1) as nat) + items[n - 1].serialized()
    }
}

/// The length prefix of a string or a vector: its length cut to 32 bits, in
/// unsigned LEB-128 format.
pub open spec fn length_prefix(len: nat) -> Seq<u8> {
    uleb128(len % 0x1_0000_0000)
}

proof fn lemma_length_cut(len: usize)
    ensures
        len as u32 == (len as nat) % 0x1_0000_0000,
{
    assert(len as u32 == (len as u64) % 0x1_0000_0000) by (bit_vector);
}

/// A value with a fixed way of writing it into a buffer.
pub trait Serialize {
    /// The bytes that the value is written as.
    spec fn serialized(&self) -> Seq<u8>;

    /// Appends the value to `buffer`.
    fn serialize<T: SerialBuffer>(&self, buffer: &mut T)
        ensures
            final(buffer).bytes() == old(buffer).bytes() + self.serialized(),
    ;
}

impl Serialize for str {
    open spec fn serialized(&self) -> Seq<u8> {
        length_prefix(self.spec_bytes().len()) + self.spec_bytes()
    }

    fn serialize<T: SerialBuffer>(&self, buffer: &mut T) {
        let bytes = self.as_bytes();
        proof {
            lemma_length_cut(bytes.len());
        }
        buffer.encode_u32(#[verifier::truncate] (bytes.len() as u32));
        buffer.append_slice(bytes);
        assert(old(buffer).bytes() + length_prefix(self.spec_bytes().len()) + self.spec_bytes()
            == old(buffer).bytes() + (length_prefix(self.spec_bytes().len()) + self.spec_bytes()));
    }
}

impl Serialize for u8 {
    open spec fn serialized(&self) -> Seq<u8> {
        seq![*self]
    }

    fn serialize<T: SerialBuffer>(&self, buffer: &mut T) {
        buffer.append_u8(*self);
        assert(old(buffer).bytes().push(*self) == old(buffer).bytes() + seq![*self]);
    }
}

impl Serialize for u32 {
    open spec fn serialized(&self) -> Seq<u8> {
        uleb128(*self as nat)
    }

    fn serialize<T: SerialBuffer>(&self, buffer: &mut T) {
        buffer.encode_u32(*self);
    }
}

/// The unit value stands where nothing is written.
impl Serialize for () {
    open spec fn serialized(&self) -> Seq<u8> {
        Seq::empty()
    }

    fn serialize<T: SerialBuffer>(&self, _buffer: &mut T) {
        assert(old(_buffer).bytes() + Seq::<u8>::empty() == old(_buffer).bytes());
    }
}

impl<S: Serialize> Serialize for [S] {
    open spec fn serialized(&self) -> Seq<u8> {
        length_prefix(self@.len()) + serialized_items(self@, self@.len())
    }

    fn serialize<T: SerialBuffer>(&self, buffer: &mut T) {
        proof {
            lemma_length_cut(self.len());
        }
        buffer.encode_u32(#[verifier::truncate] (self.len() as u32));
        let mut i: usize = 0;
        assert(buffer.bytes() + Seq::<u8>::empty() == buffer.bytes());
        while i < self.len()
            invariant
                i <= self@.len(),
                buffer.bytes() == old(buffer).bytes() + length_prefix(self@.len())
                    + serialized_items(self@, i as nat),
            decreases self@.len() - i,
        {
            let ghost before = buffer.bytes();
            self[i].serialize(buffer);
            proof {
                let head = old(buffer).bytes() + length_prefix(self@.len());
                assert(head + serialized_items(self@, i as nat) + self@[i as int].serialized()
                    == head + (serialized_items(self@, i as nat) + self@[i as int].serialized()));
            }
            i = i + 1;
        }
        assert(old(buffer).bytes() + length_prefix(self@.len()) + serialized_items(
            self@,
            self@.len(),
        ) == old(buffer).bytes() + (length_prefix(self@.len()) + serialized_items(
            self@,
            self@.len(),
        )));
    }
}

impl Serialize for bumpalo::collections::Vec<'_, u8> {
    open spec fn serialized(&self) -> Seq<u8> {
        length_prefix(arena_bytes(self).len()) + arena_bytes(self)
    }

    fn serialize<T: SerialBuffer>(&self, buffer: &mut T) {
        let bytes = arena_vec_as_slice(self);
        proof {
            lemma_length_cut(bytes.len());
        }
        buffer.encode_u32(#[verifier::truncate] (bytes.len() as u32));
        buffer.append_slice(bytes);
        assert(old(buffer).bytes() + length_prefix(bytes@.len()) + bytes@ == old(buffer).bytes()
            + (length_prefix(bytes@.len()) + bytes@));
    }
}

/// An optional value is written as a vector of length one or zero.
impl<S: Serialize> Serialize for Option<S> {
    open spec fn serialized(&self) -> Seq<u8> {
        match self {
            Some(x) => seq![1u8] + x.serialized(),
            None => seq![0u8],
        }
    }

    fn serialize<T: SerialBuffer>(&self, buffer: &mut T) {
        match self {
            Some(x) => {
                buffer.append_u8(1);
                x.serialize(buffer);
                assert(old(buffer).bytes().push(1u8) + x.serialized() == old(buffer).bytes() + (
                seq![1u8] + x.serialized()));
            },
            None => {
                buffer.append_u8(0);
                assert(old(buffer).bytes().push(0u8) == old(buffer).bytes() + seq![0u8]);
            },
        }
    }
}

} // verus!
