//! Trusted boundary around the shared byte buffer of the `bytes` crate.
//!
//! `bytes::Bytes` is an immutable, reference-counted byte buffer: cloning it
//! shares the allocation instead of copying. The buffer is opaque to the
//! verifier, so its contents are named by the uninterpreted function
//! [`contents`], and each operation the library relies on is wrapped in a
//! function whose contract states, over that name, what the crate's own code
//! does.

use vstd::prelude::*;
use vstd::utf8::encode_utf8;
use vstd::utf8::valid_utf8;
use bytes::Bytes;

verus! {

#[verifier::external_type_specification]
#[verifier::external_body]
pub struct ExBytes(Bytes);

/// The byte sequence a `bytes::Bytes` buffer holds.
pub uninterp spec fn contents(b: Bytes) -> Seq<u8>;

/// Relies on `<bytes::Bytes as From<Vec<u8>>>::from`: the buffer takes over
/// the vector's bytes unchanged.
#[verifier::external_body]
pub(crate) fn bytes_from_vec(v: Vec<u8>) -> (b: Bytes)
    ensures
        contents(b) == v@,
{
    Bytes::from(v)
}

/// Relies on `<bytes::Bytes as Clone>::clone`: a shallow copy that shares the
/// backing allocation and holds the same bytes.
#[verifier::external_body]
pub(crate) fn bytes_clone(b: &Bytes) -> (r: Bytes)
    ensures
        contents(r) == contents(*b),
{
    b.clone()
}

/// Relies on `<bytes::Bytes as AsRef<[u8]>>::as_ref`: borrows the whole
/// buffer as a slice of its bytes.
#[verifier::external_body]
pub(crate) fn bytes_as_slice(b: &Bytes) -> (s: &[u8])
    ensures
        s@ == contents(*b),
{
    b.as_ref()
}

/// Relies on `core::str::from_utf8`: on bytes that are valid UTF-8 it returns
/// `Ok` with the string slice over exactly those bytes.
#[verifier::external_body]
pub(crate) fn str_from_utf8(v: &[u8]) -> (s: &str)
    requires
        valid_utf8(v@),
    ensures
        encode_utf8(s@) == v@,
{
    core::str::from_utf8(v).unwrap()
}

/// Relies on `Vec::into_boxed_slice`: converts the vector into a boxed slice
/// holding the same bytes.
#[verifier::external_body]
pub(crate) fn vec_into_boxed_slice(v: Vec<u8>) -> (b: Box<[u8]>)
    ensures
        b@ == v@,
{
    v.into_boxed_slice()
}

} // verus!
