use vstd::prelude::*;

verus! {

#[verifier::external_type_specification]
#[verifier::external_body]
pub struct ExUuid(uuid::Uuid);

/// The 128-bit big-endian value a UUID carries: a pure function of the UUID
/// alone, realized by `uuid::Uuid::as_u128`.
pub uninterp spec fn uuid_value(u: uuid::Uuid) -> u128;

/// Relies on `uuid::Uuid::from_u128` and `uuid::Uuid::as_u128`: both convert
/// through the same big-endian byte order, so the value reads back unchanged.
#[verifier::external_body]
pub fn uuid_from_value(v: u128) -> (r: uuid::Uuid)
    ensures
        uuid_value(r) == v,
{
    uuid::Uuid::from_u128(v)
}

} // verus!
