//! Wire codec for the nested point record, delegated to by the detection
//! codec: the three coordinates as named 32-bit fields.

use vstd::prelude::*;
use crate::wire::{DecodeError, enc_field_u32, dec_field_u32};
use crate::sensors::lidar_measurement::{LocationRemote, spec_enc_location, spec_dec_location};

verus! {

/// Serializes a point: its three coordinates, in declaration order.
pub fn serialize(loc: &LocationRemote, out: &mut Vec<u8>)
    ensures
        final(out)@ == old(out)@ + spec_enc_location(*loc),
{
    enc_field_u32("x", loc.x, out);
    enc_field_u32("y", loc.y, out);
    enc_field_u32("z", loc.z, out);
    assert(out@ =~= old(out)@ + spec_enc_location(*loc));
}

/// Deserializes a point; behaves exactly as [`spec_dec_location`].
pub fn deserialize(s: &[u8], pos: usize) -> (r: Result<(LocationRemote, usize), DecodeError>)
    ensures
        match r {
            Ok(p) => spec_dec_location(s@, pos as int) == Ok::<(LocationRemote, int), DecodeError>(
                (p.0, p.1 as int),
            ) && pos < p.1 <= s@.len(),
            Err(e) => spec_dec_location(s@, pos as int) == Err::<
                (LocationRemote, int),
                DecodeError,
            >(e),
        },
{
    let (x, i1) = match dec_field_u32(s, pos, "x") {
        Ok(p) => p,
        Err(e) => {
            return Err(e);
        },
    };
    let (y, i2) = match dec_field_u32(s, i1, "y") {
        Ok(p) => p,
        Err(e) => {
            return Err(e);
        },
    };
    let (z, i3) = match dec_field_u32(s, i2, "z") {
        Ok(p) => p,
        Err(e) => {
            return Err(e);
        },
    };
    Ok((LocationRemote { x, y, z }, i3))
}

} // verus!
