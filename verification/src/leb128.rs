//! Mathematical models of the LEB-128 family of integer encodings.
//!
//! Every encoder and decoder of the crate is specified against the functions
//! of this module. A LEB-128 number is a little-endian sequence of base-128
//! digits, one per byte; the top bit of a byte says that another byte follows.

use vstd::arithmetic::power2::{lemma2_to64, pow2};
use vstd::prelude::*;

verus! {

/// An encoded `u32` is at most this many bytes wide.
pub const MAX_SIZE_ENCODED_U32: usize = 5;

/// The unsigned LEB-128 encoding of `x`, as short as possible.
pub open spec fn uleb128(x: nat) -> Seq<u8>
    decreases x,
{
    if x < 128 {
        seq![x as u8]
    } else {
        seq![(128 + x % 128) as u8] + uleb128(x / 128)
    }
}

/// The signed LEB-128 encoding of `x`, as short as possible: the encoding ends
/// with the first digit whose bit 6 agrees with the sign of what is left.
pub open spec fn sleb128(x: int) -> Seq<u8>
    decreases (if x < 0 { -x } else { x }),
{
    let digit = x % 128;
    let rest = x / 128;
    if (rest == 0 && digit < 64) || (rest == -1 && digit >= 64) {
        seq![digit as u8]
    } else {
        seq![(128 + digit) as u8] + sleb128(rest)
    }
}

/// `x` written as exactly `n` unsigned LEB-128 bytes: every byte but the last
/// carries the continuation bit, and the last holds whatever is left of `x`.
pub open spec fn padded_uleb128(x: nat, n: nat) -> Seq<u8>
    decreases n,
{
    if n <= 1 {
        seq![(x % 256) as u8]
    } else {
        seq![(128 + x % 128) as u8] + padded_uleb128(x / 128, (n - 1) as nat)
    }
}

/// `x` written as exactly `n` signed LEB-128 bytes: every byte but the last
/// carries the continuation bit, and the last holds the next seven bits of `x`.
pub open spec fn padded_sleb128(x: int, n: nat) -> Seq<u8>
    decreases n,
{
    if n <= 1 {
        seq![(x % 128) as u8]
    } else {
        seq![(128 + x % 128) as u8] + padded_sleb128(x / 128, (n - 1) as nat)
    }
}

/// The `n` low bytes of `x`, least significant first.
pub open spec fn little_endian(x: nat, n: nat) -> Seq<u8>
    decreases n,
{
    if n == 0 {
        Seq::empty()
    } else {
        seq![(x % 256) as u8] + little_endian(x / 256, (n - 1) as nat)
    }
}

/// The number that the seven payload bits of the first `n` bytes spell.
pub open spec fn payload(bytes: Seq<u8>, n: nat) -> nat
    decreases n,
{
    if n == 0 {
        0
    } else {
        payload(bytes, (n - 1) as nat) + (bytes[n - 1] % 128) as nat * pow2((7 * (n - 1)) as nat)
    }
}

/// Where the LEB-128 number that starts at `from` ends: the offset just past
/// the first byte without a continuation bit, looking no further than `limit`
/// and the end of `bytes`.
pub open spec fn leb_end(bytes: Seq<u8>, from: int, limit: int) -> Option<int>
    decreases limit - from,
{
    if from < 0 || from >= limit || from >= bytes.len() {
        None
    } else if bytes[from] < 128 {
        Some(from + 1)
    } else {
        leb_end(bytes, from + 1, limit)
    }
}

/// What decoding a `u32` from the front of `bytes` yields: the value, cut to
/// 32 bits, and the number of bytes read; `None` where none of the first
/// `MAX_SIZE_ENCODED_U32` bytes ends the number.
pub open spec fn decoded_u32(bytes: Seq<u8>) -> Option<(u32, usize)> {
    match leb_end(bytes, 0, MAX_SIZE_ENCODED_U32 as int) {
        Some(end) => Some(((payload(bytes, end as nat) % 0x1_0000_0000) as u32, end as usize)),
        None => None,
    }
}

/// The payload of a prefix stays below the matching power of 128.
pub proof fn lemma_payload_bound(bytes: Seq<u8>, n: nat)
    requires
        n <= 9,
    ensures
        payload(bytes, n) < pow2(7 * n),
    decreases n,
{
    lemma2_to64();
    if n > 0 {
        lemma_payload_bound(bytes, (n - 1) as nat);
        let d = (bytes[n - 1] % 128) as nat;
        let w = pow2((7 * (n - 1)) as nat);
        assert(d * w <= 127 * w) by (nonlinear_arith)
            requires
                d <= 127,
        ;
        vstd::arithmetic::power2::lemma_pow2_adds(7, (7 * (n - 1)) as nat);
        assert(pow2(7) == 128);
    }
}

/// The payload of the first `n` bytes does not depend on the bytes behind
/// them.
pub proof fn lemma_payload_prefix(a: Seq<u8>, b: Seq<u8>, n: nat)
    requires
        n <= a.len(),
        n <= b.len(),
        a.take(n as int) == b.take(n as int),
    ensures
        payload(a, n) == payload(b, n),
    decreases n,
{
    if n > 0 {
        assert(a.take((n - 1) as int) == a.take(n as int).take((n - 1) as int));
        assert(b.take((n - 1) as int) == b.take(n as int).take((n - 1) as int));
        assert(a[n - 1] == a.take(n as int)[n - 1]);
        assert(b[n - 1] == b.take(n as int)[n - 1]);
        lemma_payload_prefix(a, b, (n - 1) as nat);
    }
}

/// The encoding of a number below `2^(7k)` has at most `k` bytes, and at
/// least one.
pub proof fn lemma_uleb128_len(x: nat, k: nat)
    requires
        k >= 1,
        x < pow2(7 * k),
    ensures
        1 <= uleb128(x).len() <= k,
    decreases x,
{
    lemma2_to64();
    if x >= 128 {
        vstd::arithmetic::power2::lemma_pow2_adds(7, (7 * (k - 1)) as nat);
        if k == 1 {
            assert(pow2(7) == 128);
        } else {
            assert(x / 128 < pow2((7 * (k - 1)) as nat)) by (nonlinear_arith)
                requires
                    x < 128 * pow2((7 * (k - 1)) as nat),
            ;
            lemma_uleb128_len(x / 128, (k - 1) as nat);
        }
    }
}

/// Behind any bytes and before any others, the encoding of a number ends
/// where it ends, and its payload is the number, shifted behind the payload
/// of the bytes before it.
pub proof fn lemma_uleb128_read_back(x: nat, before: Seq<u8>, behind: Seq<u8>, limit: int)
    requires
        before.len() + uleb128(x).len() <= limit,
    ensures
        leb_end(before + uleb128(x) + behind, before.len() as int, limit) == Some(
            (before.len() + uleb128(x).len()) as int,
        ),
        payload(before + uleb128(x) + behind, before.len() + uleb128(x).len()) == payload(
            before,
            before.len(),
        ) + x * pow2(7 * before.len()),
    decreases x,
{
    let i = before.len() as int;
    let all = before + uleb128(x) + behind;
    let w = pow2((7 * i) as nat);
    if x < 128 {
        let digit = x as u8;
        assert(uleb128(x) == seq![digit]);
        assert(all[i] == digit);
        assert(all.take(i) == before.take(i));
        lemma_payload_prefix(all, before, i as nat);
        assert(digit % 128 == x);
    } else {
        let digit = (128 + x % 128) as u8;
        let rest = uleb128(x / 128);
        let longer = before.push(digit);
        assert(uleb128(x) == seq![digit] + rest);
        assert(all == longer + rest + behind);
        assert(all[i] == digit);
        lemma_uleb128_read_back(x / 128, longer, behind, limit);
        assert(longer.take(i) == before.take(i));
        lemma_payload_prefix(longer, before, i as nat);
        assert(digit % 128 == x % 128);
        vstd::arithmetic::power2::lemma_pow2_adds(7, (7 * i) as nat);
        lemma2_to64();
        assert(pow2((7 * (i + 1)) as nat) == 128 * w);
        assert((x % 128) * w + (x / 128) * (128 * w) == x * w) by (nonlinear_arith);
    }
}

/// Decoding reads back what encoding wrote: the bytes of a number below
/// `2^32`, whatever follows them, decode to the number and to the count of
/// its bytes.
pub proof fn law_decode_reads_back_encode(x: u32, behind: Seq<u8>)
    ensures
        decoded_u32(uleb128(x as nat) + behind) == Some((x, uleb128(x as nat).len() as usize)),
        uleb128(x as nat).len() <= MAX_SIZE_ENCODED_U32,
{
    lemma2_to64();
    vstd::arithmetic::power2::lemma_pow2_adds(3, 32);
    lemma_uleb128_len(x as nat, 5);
    let empty = Seq::<u8>::empty();
    lemma_uleb128_read_back(x as nat, empty, behind, MAX_SIZE_ENCODED_U32 as int);
    assert(empty + uleb128(x as nat) + behind == uleb128(x as nat) + behind);
    assert(x * pow2(0) == x);
}

} // verus!
