//! What this library takes on trust from the code it calls.
//!
//! Nothing in this file is proved. Each contract restates what the named
//! function does: in terms of the bytes that a buffer holds, of the range
//! that a random number is drawn from, or of the characters of a string.

use bytes::Bytes;
use rand::Rng;
use vstd::prelude::*;

verus! {

/// `bytes::Bytes`, a shared immutable byte buffer. Its inside is not
/// visible here; `bytes_view` names what it holds.
#[verifier::external_type_specification]
#[verifier::external_body]
pub struct ExBytes(bytes::Bytes);

/// The bytes that a buffer holds, in order.
pub uninterp spec fn bytes_view(b: Bytes) -> Seq<u8>;

/// `Bytes::len`: the number of bytes that the buffer holds.
pub assume_specification[ bytes::Bytes::len ](b: &Bytes) -> (n: usize)
    ensures
        n == bytes_view(*b).len(),
;

/// `Deref for Bytes`: the buffer seen as a slice of the bytes it holds.
pub assume_specification[ <bytes::Bytes as core::ops::Deref>::deref ](b: &Bytes) -> (s: &[u8])
    ensures
        s@ == bytes_view(*b),
;

/// `Bytes::copy_from_slice`: a new buffer that holds a copy of the slice.
pub assume_specification[ bytes::Bytes::copy_from_slice ](data: &[u8]) -> (b: Bytes)
    ensures
        bytes_view(b) == data@,
;

/// `String::push` of the standard library: appends one character to the
/// end of the string.
pub assume_specification[ String::push ](s: &mut String, c: char)
    ensures
        final(s)@ == old(s)@.push(c),
;

/// `rand::Rng::gen_range` on `rand::thread_rng()`, for the range from 0
/// up to, not including, `n`: some number of that range. Which one is left
/// open; two calls may differ. The range must not be empty.
#[verifier::external_body]
pub(crate) fn random_below(n: usize) -> (r: usize)
    requires
        n > 0,
    ensures
        r < n,
{
    rand::thread_rng().gen_range(0..n)
}

} // verus!
