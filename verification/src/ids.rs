//! Fresh identifiers.

use vstd::prelude::*;

verus! {

/// Whether an identifier has the shape of a random one: the version digit
/// is 4 and the variant bits are `10`, as in every version-4 UUID.
pub open spec fn is_random_id(id: u128) -> bool {
    id & 0xf000_c000_0000_0000_0000u128 == 0x4000_8000_0000_0000_0000u128
}

/// Draws a fresh random identifier: the 128 bits of `uuid::Uuid::new_v4`,
/// read with `Uuid::as_u128`. The value comes from the system's random
/// source: two calls may return anything, and all that is claimed of the
/// result is its shape, the version and variant bits that `new_v4` sets on
/// every identifier it makes. Nothing here is proved: the claim rests on
/// the source of `new_v4`. Where the system cannot supply random bytes,
/// `new_v4` panics.
#[verifier::external_body]
pub(crate) fn fresh_id() -> (id: u128)
    ensures
        is_random_id(id),
{
    uuid::Uuid::new_v4().as_u128()
}

} // verus!
