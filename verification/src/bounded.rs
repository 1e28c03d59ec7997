//! The fixed-capacity vectors of `heapless` that the protocol's records are
//! made of, seen through the few operations that the codecs use.
//!
//! Each instantiation that the records use gets a name for its contents and
//! wrappers that say, over that name, what `as_slice`, `from_slice`, `new` and
//! `push` of `heapless::Vec` do. Nothing here is proved: these contracts are
//! read off heapless 0.8's `src/vec.rs`.
use vstd::prelude::*;
use crate::types::{ParagonPackageEncrypted, PreStructuredField};

verus! {

/// `heapless::Vec<T, N>`: a vector that holds at most `N` items inline.
#[verifier::external_type_specification]
#[verifier::external_body]
#[verifier::reject_recursive_types(T)]
pub struct ExHeaplessVec<T, const N: usize>(heapless::Vec<T, N>);

/// The bytes held by a `heapless::Vec<u8, 32>`, in order.
pub uninterp spec fn bytes32(v: heapless::Vec<u8, 32>) -> Seq<u8>;

/// The bytes held by a `heapless::Vec<u8, 64>`, in order.
pub uninterp spec fn bytes64(v: heapless::Vec<u8, 64>) -> Seq<u8>;

/// The bytes held by a `heapless::Vec<u8, 128>`, in order.
pub uninterp spec fn bytes128(v: heapless::Vec<u8, 128>) -> Seq<u8>;

/// The bytes held by a `heapless::Vec<u8, 4096>`, in order.
pub uninterp spec fn bytes4096(v: heapless::Vec<u8, 4096>) -> Seq<u8>;

/// The fields held by a `heapless::Vec<PreStructuredField, 16>`, in order.
pub uninterp spec fn field_list(v: heapless::Vec<PreStructuredField, 16>) -> Seq<PreStructuredField>;

/// The packages held by a `heapless::Vec<ParagonPackageEncrypted, 16>`, in order.
pub uninterp spec fn package_list(v: heapless::Vec<ParagonPackageEncrypted, 16>) -> Seq<
    ParagonPackageEncrypted,
>;

/// `heapless::Vec::as_slice` on a 32-byte vector: the slice is exactly the
/// vector's contents, which never exceed its capacity.
#[verifier::external_body]
pub(crate) fn bytes32_as_slice(v: &heapless::Vec<u8, 32>) -> (s: &[u8])
    ensures
        s@ == bytes32(*v),
        s@.len() <= 32,
{
    v.as_slice()
}

/// `heapless::Vec::as_slice` on a 64-byte vector: the slice is exactly the
/// vector's contents, which never exceed its capacity.
#[verifier::external_body]
pub(crate) fn bytes64_as_slice(v: &heapless::Vec<u8, 64>) -> (s: &[u8])
    ensures
        s@ == bytes64(*v),
        s@.len() <= 64,
{
    v.as_slice()
}

/// `heapless::Vec::as_slice` on a 128-byte vector: the slice is exactly the
/// vector's contents, which never exceed its capacity.
#[verifier::external_body]
pub(crate) fn bytes128_as_slice(v: &heapless::Vec<u8, 128>) -> (s: &[u8])
    ensures
        s@ == bytes128(*v),
        s@.len() <= 128,
{
    v.as_slice()
}

/// `heapless::Vec::as_slice` on a 4096-byte vector: the slice is exactly the
/// vector's contents, which never exceed its capacity.
#[verifier::external_body]
pub(crate) fn bytes4096_as_slice(v: &heapless::Vec<u8, 4096>) -> (s: &[u8])
    ensures
        s@ == bytes4096(*v),
        s@.len() <= 4096,
{
    v.as_slice()
}

/// `heapless::Vec::from_slice` for a 32-byte vector: it succeeds exactly when
/// the slice fits, and the new vector then holds the slice's bytes.
#[verifier::external_body]
pub(crate) fn bytes32_from_slice(s: &[u8]) -> (r: Option<heapless::Vec<u8, 32>>)
    ensures
        r is Some <==> s@.len() <= 32,
        r matches Some(v) ==> bytes32(v) == s@,
{
    heapless::Vec::from_slice(s).ok()
}

/// `heapless::Vec::from_slice` for a 64-byte vector: it succeeds exactly when
/// the slice fits, and the new vector then holds the slice's bytes.
#[verifier::external_body]
pub(crate) fn bytes64_from_slice(s: &[u8]) -> (r: Option<heapless::Vec<u8, 64>>)
    ensures
        r is Some <==> s@.len() <= 64,
        r matches Some(v) ==> bytes64(v) == s@,
{
    heapless::Vec::from_slice(s).ok()
}

/// `heapless::Vec::from_slice` for a 128-byte vector: it succeeds exactly when
/// the slice fits, and the new vector then holds the slice's bytes.
#[verifier::external_body]
pub(crate) fn bytes128_from_slice(s: &[u8]) -> (r: Option<heapless::Vec<u8, 128>>)
    ensures
        r is Some <==> s@.len() <= 128,
        r matches Some(v) ==> bytes128(v) == s@,
{
    heapless::Vec::from_slice(s).ok()
}

/// `heapless::Vec::from_slice` for a 4096-byte vector: it succeeds exactly when
/// the slice fits, and the new vector then holds the slice's bytes.
#[verifier::external_body]
pub(crate) fn bytes4096_from_slice(s: &[u8]) -> (r: Option<heapless::Vec<u8, 4096>>)
    ensures
        r is Some <==> s@.len() <= 4096,
        r matches Some(v) ==> bytes4096(v) == s@,
{
    heapless::Vec::from_slice(s).ok()
}

/// `heapless::Vec::new` for the field list: it is empty.
#[verifier::external_body]
pub(crate) fn field_list_new() -> (v: heapless::Vec<PreStructuredField, 16>)
    ensures
        field_list(v) == Seq::<PreStructuredField>::empty(),
{
    heapless::Vec::new()
}

/// `heapless::Vec::push` on the field list: it succeeds exactly when fewer
/// than 16 fields are held, and then appends the field; otherwise the list
/// is left as it was.
#[verifier::external_body]
pub(crate) fn field_list_push(v: &mut heapless::Vec<PreStructuredField, 16>, f: PreStructuredField) -> (ok: bool)
    ensures
        ok == (field_list(*old(v)).len() < 16),
        ok ==> field_list(*final(v)) == field_list(*old(v)).push(f),
        !ok ==> field_list(*final(v)) == field_list(*old(v)),
{
    v.push(f).is_ok()
}

/// `heapless::Vec::as_slice` on the field list: the slice is exactly the
/// list's contents, at most 16 of them.
#[verifier::external_body]
pub(crate) fn field_list_as_slice(v: &heapless::Vec<PreStructuredField, 16>) -> (s: &[PreStructuredField])
    ensures
        s@ == field_list(*v),
        s@.len() <= 16,
{
    v.as_slice()
}

/// `heapless::Vec::new` for the package list: it is empty.
#[verifier::external_body]
pub(crate) fn package_list_new() -> (v: heapless::Vec<ParagonPackageEncrypted, 16>)
    ensures
        package_list(v) == Seq::<ParagonPackageEncrypted>::empty(),
{
    heapless::Vec::new()
}

/// `heapless::Vec::push` on the package list: it succeeds exactly when fewer
/// than 16 packages are held, and then appends the package; otherwise the
/// list is left as it was.
#[verifier::external_body]
pub(crate) fn package_list_push(
    v: &mut heapless::Vec<ParagonPackageEncrypted, 16>,
    p: ParagonPackageEncrypted,
) -> (ok: bool)
    ensures
        ok == (package_list(*old(v)).len() < 16),
        ok ==> package_list(*final(v)) == package_list(*old(v)).push(p),
        !ok ==> package_list(*final(v)) == package_list(*old(v)),
{
    v.push(p).is_ok()
}

/// `heapless::Vec::as_slice` on the package list: the slice is exactly the
/// list's contents, at most 16 of them.
#[verifier::external_body]
pub(crate) fn package_list_as_slice(v: &heapless::Vec<ParagonPackageEncrypted, 16>) -> (s: &[ParagonPackageEncrypted])
    ensures
        s@ == package_list(*v),
        s@.len() <= 16,
{
    v.as_slice()
}

} // verus!
