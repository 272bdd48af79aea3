//! What the library assumes of the arena allocator `bumpalo`.
//!
//! Nothing in this module is proved. Each contract restates, over the sequence
//! of bytes that a vector holds, what the documentation and source of the
//! allocator say of one of its functions.

use vstd::prelude::*;

verus! {

/// The arena itself. Nothing is known of what is inside.
#[verifier::external_type_specification]
#[verifier::external_body]
pub struct ExBump<const MIN_ALIGN: usize>(bumpalo::Bump<MIN_ALIGN>);

/// A vector that lives in an arena. Nothing is known of what is inside but
/// through `arena_bytes`.
#[verifier::external_type_specification]
#[verifier::external_body]
#[verifier::reject_recursive_types(T)]
pub struct ExArenaVec<'bump, T>(bumpalo::collections::Vec<'bump, T>);

/// The bytes that a vector of bytes in an arena holds, first to last.
pub uninterp spec fn arena_bytes(v: &bumpalo::collections::Vec<u8>) -> Seq<u8>;

/// `Vec::len` of the arena's vector: the number of elements.
#[verifier::external_body]
pub(crate) fn arena_vec_len(v: &bumpalo::collections::Vec<u8>) -> (n: usize)
    ensures
        n == arena_bytes(v).len(),
{
    v.len()
}

/// `Vec::push` of the arena's vector: appends one element to the back.
#[verifier::external_body]
pub(crate) fn arena_vec_push(v: &mut bumpalo::collections::Vec<u8>, b: u8)
    ensures
        arena_bytes(final(v)) == arena_bytes(old(v)).push(b),
{
    v.push(b)
}

/// `Vec::extend_from_slice` of the arena's vector: appends the elements of a
/// slice in order.
#[verifier::external_body]
pub(crate) fn arena_vec_extend_from_slice(v: &mut bumpalo::collections::Vec<u8>, other: &[u8])
    ensures
        arena_bytes(final(v)) == arena_bytes(old(v)) + other@,
{
    v.extend_from_slice(other)
}

/// `Vec::resize` of the arena's vector, called to grow: fills each new place
/// with `value`.
#[verifier::external_body]
pub(crate) fn arena_vec_resize(v: &mut bumpalo::collections::Vec<u8>, new_len: usize, value: u8)
    requires
        new_len >= arena_bytes(old(v)).len(),
    ensures
        arena_bytes(final(v)) == arena_bytes(old(v)) + Seq::new(
            (new_len - arena_bytes(old(v)).len()) as nat,
            |i: int| value,
        ),
{
    v.resize(new_len, value)
}

/// `Vec::as_slice` of the arena's vector: the elements as a slice.
#[verifier::external_body]
pub(crate) fn arena_vec_as_slice<'a>(v: &'a bumpalo::collections::Vec<u8>) -> (slice: &'a [u8])
    ensures
        slice@ == arena_bytes(v),
{
    v.as_slice()
}

/// `Vec::as_mut_slice` of the arena's vector: the elements as a slice through
/// which they can be changed; the vector then holds what the slice ends with.
#[verifier::external_body]
pub(crate) fn arena_vec_as_mut_slice<'a>(v: &'a mut bumpalo::collections::Vec<u8>) -> (slice:
    &'a mut [u8])
    ensures
        slice@ == arena_bytes(old(v)),
        final(slice)@ == arena_bytes(final(v)),
{
    v.as_mut_slice()
}

/// `Bump::alloc_slice_copy`: a copy of `src` that lives in the arena.
#[verifier::external_body]
pub(crate) fn arena_copy_slice<'a>(arena: &'a bumpalo::Bump, src: &[u8]) -> (copy: &'a [u8])
    ensures
        copy@ == src@,
{
    arena.alloc_slice_copy(src)
}

} // verus!
