//! Conversion between a Upid and a standard 128-bit UUID value: the same
//! 128 bits reinterpreted directly, with no field remapping.
use crate::Upid;
use vstd::prelude::*;

verus! {

/// Declares uuid::Uuid so that it can stand in signatures.  A UUID value is
/// opaque here: only the two trusted conversions below touch it.
#[verifier::external_type_specification]
#[verifier::external_body]
pub struct ExUuid(uuid::Uuid);

impl Upid {
    /// Relies on uuid::Uuid::from_u128: builds the UUID that carries exactly
    /// this identifier's 128 bits, big-endian.  The UUID value is opaque
    /// here, so nothing more can be stated of it.
    #[verifier::external_body]
    pub fn to_uuid(&self) -> uuid::Uuid {
        uuid::Uuid::from_u128(self.0)
    }

    /// Relies on uuid::Uuid::as_u128: reads back the 128 bits a UUID
    /// carries, big-endian.  Together with [`Upid::to_uuid`] this is a
    /// lossless round trip, since both reinterpret the same sixteen bytes.
    #[verifier::external_body]
    pub fn from_uuid(u: uuid::Uuid) -> Upid {
        Upid(u.as_u128())
    }
}

} // verus!
