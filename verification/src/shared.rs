use vstd::prelude::*;

verus! {

#[verifier::external_type_specification]
#[verifier::external_body]
pub struct ExBytes(bytes::Bytes);

/// The bytes that a shared byte buffer holds.
pub uninterp spec fn bytes_contents(b: bytes::Bytes) -> Seq<u8>;

/// `bytes::Bytes::clone` makes another handle to the same bytes.
pub assume_specification[ <bytes::Bytes as std::clone::Clone>::clone ](b: &bytes::Bytes) -> (r:
    bytes::Bytes)
    ensures
        bytes_contents(r) == bytes_contents(*b),
;

/// Calls `bytes::Bytes::from` on a vector, which takes over the vector's bytes without copying.
#[verifier::external_body]
pub fn bytes_from_vec(v: Vec<u8>) -> (r: bytes::Bytes)
    ensures
        bytes_contents(r) == v@,
{
    bytes::Bytes::from(v)
}

/// Calls `<bytes::Bytes as AsRef<[u8]>>::as_ref`, a view of the buffer's bytes.
#[verifier::external_body]
pub fn bytes_as_slice(b: &bytes::Bytes) -> (r: &[u8])
    ensures
        r@ == bytes_contents(*b),
{
    b.as_ref()
}

} // verus!
