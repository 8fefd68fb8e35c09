//! Serialize-only wire codec for a borrowed run of lidar detections: walks a
//! caller-owned slice in order, without copying it.

use vstd::prelude::*;
use crate::wire::{enc_u64, spec_enc_seq, lemma_enc_seq_push};
use crate::sensors::lidar_measurement::{
    LidarDetectionRemote, spec_enc_lidar_dets, lidar_det_enc_fn, enc_lidar_det,
};

verus! {

/// Serializes a detection list value from a borrowed slice: the element
/// count, then each detection, in slice order.
pub fn serialize(slice: &[LidarDetectionRemote], out: &mut Vec<u8>)
    ensures
        final(out)@ == old(out)@ + spec_enc_lidar_dets(slice@),
{
    enc_u64(slice.len() as u64, out);
    let ghost base = out@;
    let mut k: usize = 0;
    while k < slice.len()
        invariant
            k <= slice@.len(),
            out@ == base + spec_enc_seq(slice@.subrange(0, k as int), lidar_det_enc_fn()),
        decreases slice@.len() - k,
    {
        proof {
            lemma_enc_seq_push(slice@.subrange(0, k as int), slice@[k as int], lidar_det_enc_fn());
            assert(slice@.subrange(0, k + 1) =~= slice@.subrange(0, k as int).push(
                slice@[k as int],
            ));
        }
        enc_lidar_det(&slice[k], out);
        assert(out@ =~= base + spec_enc_seq(slice@.subrange(0, k + 1), lidar_det_enc_fn()));
        k = k + 1;
    }
    proof {
        assert(slice@.subrange(0, slice@.len() as int) =~= slice@);
        assert(out@ =~= old(out)@ + spec_enc_lidar_dets(slice@));
    }
}

} // verus!
