//! Round-trip wire codec for an owned list of lidar detections: serializes
//! as the borrowed path does, and deserializes into an independently owned
//! list, preserving element order.

use vstd::prelude::*;
use crate::wire::{
    DecodeError, spec_dec_seq, dec_u64, spec_dec_u64, seq_cont, seq_cont1, lemma_seq_cont_shift,
    lemma_seq_cont_done,
};
use crate::sensors::lidar_measurement::{
    LidarDetectionRemote, spec_enc_lidar_dets, spec_dec_lidar_dets, lidar_det_dec_fn,
    spec_dec_lidar_det, dec_lidar_det, slice_lidar_detection_remote,
};

verus! {

/// Serializes a detection list value from an owned list: byte-identical to
/// the borrowed path on the same data.
pub fn serialize(v: &Vec<LidarDetectionRemote>, out: &mut Vec<u8>)
    ensures
        final(out)@ == old(out)@ + spec_enc_lidar_dets(v@),
{
    slice_lidar_detection_remote::serialize(v.as_slice(), out);
}

/// Deserializes a detection list value; behaves exactly as
/// [`spec_dec_lidar_dets`].
pub fn deserialize(s: &[u8], pos: usize) -> (r: Result<
    (Vec<LidarDetectionRemote>, usize),
    DecodeError,
>)
    ensures
        match r {
            Ok(p) => spec_dec_lidar_dets(s@, pos as int) == Ok::<
                (Seq<LidarDetectionRemote>, int),
                DecodeError,
            >((p.0@, p.1 as int)) && pos < p.1 <= s@.len(),
            Err(e) => spec_dec_lidar_dets(s@, pos as int) == Err::<
                (Seq<LidarDetectionRemote>, int),
                DecodeError,
            >(e),
        },
{
    let (n, start) = match dec_u64(s, pos) {
        Ok(p) => p,
        Err(e) => {
            return Err(e);
        },
    };
    let mut acc: Vec<LidarDetectionRemote> = Vec::new();
    let mut cur: usize = start;
    let mut k: u64 = 0;
    while k < n
        invariant
            k <= n,
            pos < start <= cur <= s@.len(),
            spec_dec_u64(s@, pos as int) == Ok::<(u64, int), DecodeError>((n, start as int)),
            spec_dec_seq(s@, start as int, n as int, lidar_det_dec_fn()) == seq_cont(
                acc@,
                spec_dec_seq(s@, cur as int, n - k, lidar_det_dec_fn()),
            ),
        decreases n - k,
    {
        proof {
            assert(lidar_det_dec_fn()(s@, cur as int) == spec_dec_lidar_det(s@, cur as int));
        }
        match dec_lidar_det(s, cur) {
            Ok(p) => {
                proof {
                    assert(spec_dec_seq(s@, cur as int, n - k, lidar_det_dec_fn()) == seq_cont1(
                        p.0,
                        spec_dec_seq(s@, p.1 as int, n - k - 1, lidar_det_dec_fn()),
                    ));
                    lemma_seq_cont_shift(
                        acc@,
                        p.0,
                        spec_dec_seq(s@, p.1 as int, n - k - 1, lidar_det_dec_fn()),
                    );
                }
                acc.push(p.0);
                cur = p.1;
            },
            Err(e) => {
                assert(spec_dec_seq(s@, cur as int, n - k, lidar_det_dec_fn()) == Err::<
                    (Seq<LidarDetectionRemote>, int),
                    DecodeError,
                >(e));
                return Err(e);
            },
        }
        k = k + 1;
    }
    proof {
        lemma_seq_cont_done(acc@, cur as int);
    }
    Ok((acc, cur))
}

} // verus!
