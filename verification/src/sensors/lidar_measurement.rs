//! The lidar measurement event: a variable-length list of detections, each a
//! three-dimensional point with an intensity; its typed view; and its two
//! wire representations, one borrowed (encode-only, no copy of the
//! detections) and one owned (encode and decode, an independent copy).

pub mod location_with;
pub mod slice_lidar_detection_remote;
pub mod vec_lidar_detection_remote;

use vstd::prelude::*;
use vstd::string::StringSliceAdditionalSpecFns;
use crate::sensor_comms::Listen;
use crate::sensors::SensorEvent;
use crate::wire::{
    DecodeError, DecodeErrorKind, spec_err, TAG_REC, TAG_SEQ, spec_field_u32, spec_field_u64,
    spec_field_bool, spec_field_rec_hdr, spec_hdr, spec_enc_u64, spec_enc_seq, spec_dec_u64,
    spec_dec_seq, spec_dec_field_u32, spec_dec_field_usize, spec_dec_field_bool, spec_dec_hdr,
    enc_field_u32, enc_field_u64, enc_field_bool, enc_field_rec_hdr, enc_hdr, dec_field_u32,
    dec_field_usize, dec_field_bool, dec_hdr, lemma_concat_split, lemma_dec_enc_field_u32,
    lemma_dec_enc_field_usize, lemma_dec_enc_field_bool, lemma_dec_enc_hdr, lemma_dec_enc_u64,
    lemma_dec_enc_seq, dec_inverts_enc_on, lemma_ascii_name_len, lemma_split_six,
};

verus! {

/// Mirror of the foreign three-dimensional point: each coordinate carried as
/// the 32-bit pattern of the source's floating-point value.
#[derive(Clone, Copy, PartialEq, Eq, Structural, Debug)]
pub struct LocationRemote {
    pub x: u32,
    pub y: u32,
    pub z: u32,
}

/// Mirror of the foreign lidar detection: a point and an intensity, the
/// intensity carried as a 32-bit pattern.
#[derive(Clone, Copy, PartialEq, Eq, Structural, Debug)]
pub struct LidarDetectionRemote {
    pub point: LocationRemote,
    pub intensity: u32,
}

/// The detection field names are short ASCII strings.
pub proof fn lemma_lidar_det_names()
    ensures
        "x".spec_bytes().len() == 1,
        "y".spec_bytes().len() == 1,
        "z".spec_bytes().len() == 1,
        "point".spec_bytes().len() == 5,
        "intensity".spec_bytes().len() == 9,
{
    reveal_strlit("x");
    reveal_strlit("y");
    reveal_strlit("z");
    reveal_strlit("point");
    reveal_strlit("intensity");
    assert(vstd::string::is_ascii("x"));
    assert(vstd::string::is_ascii("y"));
    assert(vstd::string::is_ascii("z"));
    assert(vstd::string::is_ascii("point"));
    assert(vstd::string::is_ascii("intensity"));
    lemma_ascii_name_len("x");
    lemma_ascii_name_len("y");
    lemma_ascii_name_len("z");
    lemma_ascii_name_len("point");
    lemma_ascii_name_len("intensity");
}

/// Encoding of a point: its three coordinates as named 32-bit fields.
pub open spec fn spec_enc_location(l: LocationRemote) -> Seq<u8> {
    spec_field_u32("x".spec_bytes(), l.x) + spec_field_u32("y".spec_bytes(), l.y) + spec_field_u32(
        "z".spec_bytes(),
        l.z,
    )
}

/// Decoding of a point at offset `i`.
pub open spec fn spec_dec_location(s: Seq<u8>, i: int) -> Result<(LocationRemote, int), DecodeError> {
    match spec_dec_field_u32(s, i, "x".spec_bytes()) {
        Ok((x, i1)) => match spec_dec_field_u32(s, i1, "y".spec_bytes()) {
            Ok((y, i2)) => match spec_dec_field_u32(s, i2, "z".spec_bytes()) {
                Ok((z, i3)) => Ok((LocationRemote { x, y, z }, i3)),
                Err(e) => Err(e),
            },
            Err(e) => Err(e),
        },
        Err(e) => Err(e),
    }
}

/// Decoding a point from its own encoding yields the point back.
pub proof fn lemma_dec_enc_location(s: Seq<u8>, i: int, l: LocationRemote)
    requires
        0 <= i,
        i + spec_enc_location(l).len() <= s.len(),
        s.subrange(i, i + spec_enc_location(l).len()) == spec_enc_location(l),
    ensures
        spec_dec_location(s, i) == Ok::<(LocationRemote, int), DecodeError>(
            (l, i + spec_enc_location(l).len()),
        ),
{
    lemma_lidar_det_names();
    let f1 = spec_field_u32("x".spec_bytes(), l.x);
    let f2 = spec_field_u32("y".spec_bytes(), l.y);
    let f3 = spec_field_u32("z".spec_bytes(), l.z);
    assert(spec_enc_location(l) =~= f1 + (f2 + f3));
    lemma_concat_split(s, i, f1, f2 + f3);
    lemma_concat_split(s, i + f1.len(), f2, f3);
    lemma_dec_enc_field_u32(s, i, "x".spec_bytes(), l.x);
    lemma_dec_enc_field_u32(s, i + f1.len(), "y".spec_bytes(), l.y);
    lemma_dec_enc_field_u32(s, i + f1.len() + f2.len(), "z".spec_bytes(), l.z);
}

/// Encoding of one detection: the point as a nested record field, then the
/// intensity.
pub open spec fn spec_enc_lidar_det(d: LidarDetectionRemote) -> Seq<u8> {
    spec_field_rec_hdr("point".spec_bytes()) + spec_enc_location(d.point) + spec_field_u32(
        "intensity".spec_bytes(),
        d.intensity,
    )
}

/// Decoding of one detection at offset `i`.
pub open spec fn spec_dec_lidar_det(s: Seq<u8>, i: int) -> Result<
    (LidarDetectionRemote, int),
    DecodeError,
> {
    match spec_dec_hdr(s, i, "point".spec_bytes(), TAG_REC) {
        Ok(i1) => match spec_dec_location(s, i1) {
            Ok((point, i2)) => match spec_dec_field_u32(s, i2, "intensity".spec_bytes()) {
                Ok((intensity, i3)) => Ok((LidarDetectionRemote { point, intensity }, i3)),
                Err(e) => Err(e),
            },
            Err(e) => Err(e),
        },
        Err(e) => Err(e),
    }
}

/// Decoding a detection from its own encoding yields the detection back.
pub proof fn lemma_dec_enc_lidar_det(s: Seq<u8>, i: int, d: LidarDetectionRemote)
    requires
        0 <= i,
        i + spec_enc_lidar_det(d).len() <= s.len(),
        s.subrange(i, i + spec_enc_lidar_det(d).len()) == spec_enc_lidar_det(d),
    ensures
        spec_dec_lidar_det(s, i) == Ok::<(LidarDetectionRemote, int), DecodeError>(
            (d, i + spec_enc_lidar_det(d).len()),
        ),
{
    lemma_lidar_det_names();
    let f1 = spec_field_rec_hdr("point".spec_bytes());
    let f2 = spec_enc_location(d.point);
    let f3 = spec_field_u32("intensity".spec_bytes(), d.intensity);
    assert(spec_enc_lidar_det(d) =~= f1 + (f2 + f3));
    lemma_concat_split(s, i, f1, f2 + f3);
    lemma_concat_split(s, i + f1.len(), f2, f3);
    lemma_dec_enc_hdr(s, i, "point".spec_bytes(), TAG_REC);
    lemma_dec_enc_location(s, i + f1.len(), d.point);
    lemma_dec_enc_field_u32(s, i + f1.len() + f2.len(), "intensity".spec_bytes(), d.intensity);
}

/// The detection encoder as a function value, for element runs.
pub open spec fn lidar_det_enc_fn() -> spec_fn(LidarDetectionRemote) -> Seq<u8> {
    |d: LidarDetectionRemote| spec_enc_lidar_det(d)
}

/// The detection decoder as a function value, for element runs.
pub open spec fn lidar_det_dec_fn() -> spec_fn(Seq<u8>, int) -> Result<
    (LidarDetectionRemote, int),
    DecodeError,
> {
    |s: Seq<u8>, i: int| spec_dec_lidar_det(s, i)
}

/// Encoding of a detection list value: its element count, then each
/// detection, in order.
pub open spec fn spec_enc_lidar_dets(dets: Seq<LidarDetectionRemote>) -> Seq<u8> {
    spec_enc_u64(dets.len() as u64) + spec_enc_seq(dets, lidar_det_enc_fn())
}

/// Decoding of a detection list value at offset `i`.
pub open spec fn spec_dec_lidar_dets(s: Seq<u8>, i: int) -> Result<
    (Seq<LidarDetectionRemote>, int),
    DecodeError,
> {
    match spec_dec_u64(s, i) {
        Ok((n, j)) => spec_dec_seq(s, j, n as int, lidar_det_dec_fn()),
        Err(e) => Err(e),
    }
}

/// Decoding a detection list from its own encoding yields the list back:
/// same count, same values, same order.
pub proof fn lemma_dec_enc_lidar_dets(s: Seq<u8>, i: int, dets: Seq<LidarDetectionRemote>)
    requires
        0 <= i,
        dets.len() < 0x1_0000_0000_0000_0000,
        i + spec_enc_lidar_dets(dets).len() <= s.len(),
        s.subrange(i, i + spec_enc_lidar_dets(dets).len()) == spec_enc_lidar_dets(dets),
    ensures
        spec_dec_lidar_dets(s, i) == Ok::<(Seq<LidarDetectionRemote>, int), DecodeError>(
            (dets, i + spec_enc_lidar_dets(dets).len()),
        ),
{
    let cnt = spec_enc_u64(dets.len() as u64);
    let body = spec_enc_seq(dets, lidar_det_enc_fn());
    lemma_concat_split(s, i, cnt, body);
    lemma_dec_enc_u64(s, i, dets.len() as u64);
    assert(dec_inverts_enc_on(s, dets, lidar_det_enc_fn(), lidar_det_dec_fn())) by {
        assert forall|j: int, k: int|
            #![trigger lidar_det_dec_fn()(s, j), lidar_det_enc_fn()(dets[k])]
            (0 <= k < dets.len() && 0 <= j && j + lidar_det_enc_fn()(dets[k]).len() <= s.len()
                && s.subrange(j, j + lidar_det_enc_fn()(dets[k]).len()) == lidar_det_enc_fn()(
                dets[k],
            )) implies lidar_det_dec_fn()(s, j) == Ok::<(LidarDetectionRemote, int), DecodeError>(
            (dets[k], j + lidar_det_enc_fn()(dets[k]).len()),
        ) by {
            assert(lidar_det_enc_fn()(dets[k]) == spec_enc_lidar_det(dets[k]));
            lemma_dec_enc_lidar_det(s, j, dets[k]);
            assert(lidar_det_dec_fn()(s, j) == spec_dec_lidar_det(s, j));
        }
    }
    lemma_dec_enc_seq(s, i + cnt.len(), dets, lidar_det_enc_fn(), lidar_det_dec_fn());
}

/// Appends the encoding of one detection.
pub fn enc_lidar_det(d: &LidarDetectionRemote, out: &mut Vec<u8>)
    ensures
        final(out)@ == old(out)@ + spec_enc_lidar_det(*d),
{
    enc_field_rec_hdr("point", out);
    enc_field_u32("x", d.point.x, out);
    enc_field_u32("y", d.point.y, out);
    enc_field_u32("z", d.point.z, out);
    enc_field_u32("intensity", d.intensity, out);
    assert(out@ =~= old(out)@ + spec_enc_lidar_det(*d));
}

/// Decodes one detection; behaves exactly as [`spec_dec_lidar_det`].
pub fn dec_lidar_det(s: &[u8], pos: usize) -> (r: Result<(LidarDetectionRemote, usize), DecodeError>)
    ensures
        match r {
            Ok(p) => spec_dec_lidar_det(s@, pos as int) == Ok::<
                (LidarDetectionRemote, int),
                DecodeError,
            >((p.0, p.1 as int)) && pos < p.1 <= s@.len(),
            Err(e) => spec_dec_lidar_det(s@, pos as int) == Err::<
                (LidarDetectionRemote, int),
                DecodeError,
            >(e),
        },
{
    let i1 = match dec_hdr(s, pos, "point", TAG_REC) {
        Ok(j) => j,
        Err(e) => {
            return Err(e);
        },
    };
    let (point, i2) = match location_with::deserialize(s, i1) {
        Ok(p) => p,
        Err(e) => {
            return Err(e);
        },
    };
    let (intensity, i3) = match dec_field_u32(s, i2, "intensity") {
        Ok(p) => p,
        Err(e) => {
            return Err(e);
        },
    };
    Ok((LidarDetectionRemote { point, intensity }, i3))
}

// ---------------------------------------------------------------------------
// The lidar measurement event
// ---------------------------------------------------------------------------

/// The typed view over a sensor source that emits lidar measurements:
/// narrows an untyped event to [`LidarMeasurementEvent`].
pub struct LidarMeasurement;

impl Listen for LidarMeasurement {
    type Data = LidarMeasurementEvent;

    open spec fn narrows(event: SensorEvent) -> Option<LidarMeasurementEvent> {
        match event {
            SensorEvent::Lidar(e) => Some(e),
            _ => None,
        }
    }

    fn narrow(&self, event: SensorEvent) -> (r: Option<LidarMeasurementEvent>) {
        match event {
            SensorEvent::Lidar(e) => Some(e),
            _ => None,
        }
    }
}

/// Makes lidar views: each view narrows the source's events to the lidar
/// shape.
pub struct LidarMeasurementFactory;

impl LidarMeasurementFactory {
    /// Produces a view bound to the lidar shape.
    pub fn make(&self) -> LidarMeasurement {
        LidarMeasurement
    }
}

/// A lidar measurement notification: the sweep's horizontal angle, carried
/// as a 32-bit pattern, the channel count, and the detections in scan order.
#[derive(Debug)]
pub struct LidarMeasurementEvent {
    pub horizontal_angle: u32,
    pub channel_count: usize,
    pub detections: Vec<LidarDetectionRemote>,
}

impl LidarMeasurementEvent {
    /// The sweep's horizontal angle, as a 32-bit pattern.
    pub fn horizontal_angle(&self) -> (r: u32)
        ensures
            r == self.horizontal_angle,
    {
        self.horizontal_angle
    }

    /// The number of lidar channels.
    pub fn channel_count(&self) -> (r: usize)
        ensures
            r == self.channel_count,
    {
        self.channel_count
    }

    /// The number of detections the event carries.
    pub fn len(&self) -> (r: usize)
        ensures
            r == self.detections@.len(),
    {
        self.detections.len()
    }

    /// Whether the event carries no detections.
    pub fn is_empty(&self) -> (r: bool)
        ensures
            r == (self.detections@.len() == 0),
    {
        self.detections.is_empty()
    }

    /// The detections, in scan order, without a copy.
    pub fn as_slice(&self) -> (r: &[LidarDetectionRemote])
        ensures
            r@ == self.detections@,
    {
        self.detections.as_slice()
    }
}

// ---------------------------------------------------------------------------
// The two wire representations
// ---------------------------------------------------------------------------

/// The mathematical model of the lidar wire record, shared by the borrowed
/// and the owned representation: encoding either with equal models produces
/// identical bytes.
#[verifier::ext_equal]
pub struct LidarWireView {
    pub horizontal_angle: u32,
    pub channel_count: usize,
    pub len: usize,
    pub is_empty: bool,
    pub detections: Seq<LidarDetectionRemote>,
}

/// The borrowed wire representation: encode-only, referencing the event's
/// own detection list without copying it.
pub struct LidarMeasurementSerBorrowed<'a> {
    pub horizontal_angle: u32,
    pub channel_count: usize,
    pub len: usize,
    pub is_empty: bool,
    pub detections: &'a Vec<LidarDetectionRemote>,
}

impl<'a> View for LidarMeasurementSerBorrowed<'a> {
    type V = LidarWireView;

    open spec fn view(&self) -> LidarWireView {
        LidarWireView {
            horizontal_angle: self.horizontal_angle,
            channel_count: self.channel_count,
            len: self.len,
            is_empty: self.is_empty,
            detections: self.detections@,
        }
    }
}

/// The owned wire representation: encodes and decodes, holding its own copy
/// of the detections.
#[derive(Debug)]
pub struct LidarMeasurementSerDe {
    pub horizontal_angle: u32,
    pub channel_count: usize,
    pub len: usize,
    pub is_empty: bool,
    pub detections: Vec<LidarDetectionRemote>,
}

impl View for LidarMeasurementSerDe {
    type V = LidarWireView;

    open spec fn view(&self) -> LidarWireView {
        LidarWireView {
            horizontal_angle: self.horizontal_angle,
            channel_count: self.channel_count,
            len: self.len,
            is_empty: self.is_empty,
            detections: self.detections@,
        }
    }
}

/// The lidar record's field names are short ASCII strings.
pub proof fn lemma_lidar_names()
    ensures
        "horizontal_angle".spec_bytes().len() == 16,
        "channel_count".spec_bytes().len() == 13,
        "len".spec_bytes().len() == 3,
        "is_empty".spec_bytes().len() == 8,
        "detections".spec_bytes().len() == 10,
{
    reveal_strlit("horizontal_angle");
    reveal_strlit("channel_count");
    reveal_strlit("len");
    reveal_strlit("is_empty");
    reveal_strlit("detections");
    assert(vstd::string::is_ascii("horizontal_angle"));
    assert(vstd::string::is_ascii("channel_count"));
    assert(vstd::string::is_ascii("len"));
    assert(vstd::string::is_ascii("is_empty"));
    assert(vstd::string::is_ascii("detections"));
    lemma_ascii_name_len("horizontal_angle");
    lemma_ascii_name_len("channel_count");
    lemma_ascii_name_len("len");
    lemma_ascii_name_len("is_empty");
    lemma_ascii_name_len("detections");
}

/// Encoding of the lidar record: its fields in declaration order, the
/// detection list last as a sequence field.
pub open spec fn spec_enc_lidar(v: LidarWireView) -> Seq<u8> {
    spec_field_u32("horizontal_angle".spec_bytes(), v.horizontal_angle) + spec_field_u64(
        "channel_count".spec_bytes(),
        v.channel_count as u64,
    ) + spec_field_u64("len".spec_bytes(), v.len as u64) + spec_field_bool(
        "is_empty".spec_bytes(),
        v.is_empty,
    ) + spec_hdr("detections".spec_bytes(), TAG_SEQ) + spec_enc_lidar_dets(v.detections)
}

/// Decoding of the lidar record at offset `i`.
pub open spec fn spec_dec_lidar(s: Seq<u8>, i: int) -> Result<(LidarWireView, int), DecodeError> {
    match spec_dec_field_u32(s, i, "horizontal_angle".spec_bytes()) {
        Ok((horizontal_angle, i1)) => match spec_dec_field_usize(
            s,
            i1,
            "channel_count".spec_bytes(),
        ) {
            Ok((channel_count, i2)) => match spec_dec_field_usize(s, i2, "len".spec_bytes()) {
                Ok((len, i3)) => match spec_dec_field_bool(s, i3, "is_empty".spec_bytes()) {
                    Ok((is_empty, i4)) => match spec_dec_hdr(
                        s,
                        i4,
                        "detections".spec_bytes(),
                        TAG_SEQ,
                    ) {
                        Ok(i5) => match spec_dec_lidar_dets(s, i5) {
                            Ok((detections, i6)) => Ok(
                                (
                                    LidarWireView {
                                        horizontal_angle,
                                        channel_count,
                                        len,
                                        is_empty,
                                        detections,
                                    },
                                    i6,
                                ),
                            ),
                            Err(e) => Err(e),
                        },
                        Err(e) => Err(e),
                    },
                    Err(e) => Err(e),
                },
                Err(e) => Err(e),
            },
            Err(e) => Err(e),
        },
        Err(e) => Err(e),
    }
}

/// Decoding of a whole lidar record from a complete byte string: the record
/// must span the input exactly.
pub open spec fn spec_lidar_from_bytes(s: Seq<u8>) -> Result<LidarWireView, DecodeError> {
    match spec_dec_lidar(s, 0) {
        Ok((v, end)) => if end == s.len() {
            Ok(v)
        } else {
            Err(spec_err(DecodeErrorKind::TrailingBytes, end))
        },
        Err(e) => Err(e),
    }
}

impl<'a> LidarMeasurementSerBorrowed<'a> {
    /// Encodes the record into freshly allocated wire bytes, walking the
    /// borrowed detections without copying them.
    pub fn encode(&self) -> (r: Vec<u8>)
        ensures
            r@ == spec_enc_lidar(self@),
    {
        let mut out: Vec<u8> = Vec::new();
        enc_field_u32("horizontal_angle", self.horizontal_angle, &mut out);
        enc_field_u64("channel_count", self.channel_count as u64, &mut out);
        enc_field_u64("len", self.len as u64, &mut out);
        enc_field_bool("is_empty", self.is_empty, &mut out);
        enc_hdr("detections", TAG_SEQ, &mut out);
        slice_lidar_detection_remote::serialize(self.detections.as_slice(), &mut out);
        assert(out@ =~= spec_enc_lidar(self@));
        out
    }
}

impl LidarMeasurementSerDe {
    /// Encodes the record into freshly allocated wire bytes.
    pub fn encode(&self) -> (r: Vec<u8>)
        ensures
            r@ == spec_enc_lidar(self@),
    {
        let mut out: Vec<u8> = Vec::new();
        enc_field_u32("horizontal_angle", self.horizontal_angle, &mut out);
        enc_field_u64("channel_count", self.channel_count as u64, &mut out);
        enc_field_u64("len", self.len as u64, &mut out);
        enc_field_bool("is_empty", self.is_empty, &mut out);
        enc_hdr("detections", TAG_SEQ, &mut out);
        vec_lidar_detection_remote::serialize(&self.detections, &mut out);
        assert(out@ =~= spec_enc_lidar(self@));
        out
    }

    /// Decodes a record from a complete byte string; behaves exactly as
    /// [`spec_lidar_from_bytes`].
    pub fn decode(s: &[u8]) -> (r: Result<LidarMeasurementSerDe, DecodeError>)
        ensures
            match r {
                Ok(v) => spec_lidar_from_bytes(s@) == Ok::<LidarWireView, DecodeError>(v@),
                Err(e) => spec_lidar_from_bytes(s@) == Err::<LidarWireView, DecodeError>(e),
            },
    {
        let (horizontal_angle, i1) = match dec_field_u32(s, 0, "horizontal_angle") {
            Ok(p) => p,
            Err(e) => {
                return Err(e);
            },
        };
        let (channel_count, i2) = match dec_field_usize(s, i1, "channel_count") {
            Ok(p) => p,
            Err(e) => {
                return Err(e);
            },
        };
        let (len, i3) = match dec_field_usize(s, i2, "len") {
            Ok(p) => p,
            Err(e) => {
                return Err(e);
            },
        };
        let (is_empty, i4) = match dec_field_bool(s, i3, "is_empty") {
            Ok(p) => p,
            Err(e) => {
                return Err(e);
            },
        };
        let i5 = match dec_hdr(s, i4, "detections", TAG_SEQ) {
            Ok(j) => j,
            Err(e) => {
                return Err(e);
            },
        };
        let (detections, i6) = match vec_lidar_detection_remote::deserialize(s, i5) {
            Ok(p) => p,
            Err(e) => {
                return Err(e);
            },
        };
        if i6 != s.len() {
            return Err(DecodeError { kind: DecodeErrorKind::TrailingBytes, at: i6 });
        }
        Ok(LidarMeasurementSerDe { horizontal_angle, channel_count, len, is_empty, detections })
    }
}

impl<'a> From<&'a LidarMeasurementEvent> for LidarMeasurementSerBorrowed<'a> {
    /// Projects the event's reported fields and borrows its detections.
    fn from(m: &'a LidarMeasurementEvent) -> (r: LidarMeasurementSerBorrowed<'a>) {
        let horizontal_angle = m.horizontal_angle();
        let channel_count = m.channel_count();
        let len = m.len();
        let is_empty = m.is_empty();
        LidarMeasurementSerBorrowed {
            horizontal_angle,
            channel_count,
            len,
            is_empty,
            detections: &m.detections,
        }
    }
}

impl<'a> vstd::std_specs::convert::FromSpecImpl<&'a LidarMeasurementEvent> for LidarMeasurementSerBorrowed<'a> {
    open spec fn obeys_from_spec() -> bool {
        true
    }

    open spec fn from_spec(m: &'a LidarMeasurementEvent) -> LidarMeasurementSerBorrowed<'a> {
        LidarMeasurementSerBorrowed {
            horizontal_angle: m.horizontal_angle,
            channel_count: m.channel_count,
            len: m.detections@.len() as usize,
            is_empty: m.detections@.len() == 0,
            detections: &m.detections,
        }
    }
}

impl From<LidarMeasurementEvent> for LidarMeasurementSerDe {
    /// Projects the event's reported fields and takes over its detections:
    /// the copy is independent of the event afterwards.
    fn from(m: LidarMeasurementEvent) -> (r: LidarMeasurementSerDe) {
        let horizontal_angle = m.horizontal_angle();
        let channel_count = m.channel_count();
        let len = m.len();
        let is_empty = m.is_empty();
        LidarMeasurementSerDe {
            horizontal_angle,
            channel_count,
            len,
            is_empty,
            detections: m.detections,
        }
    }
}

impl vstd::std_specs::convert::FromSpecImpl<LidarMeasurementEvent> for LidarMeasurementSerDe {
    open spec fn obeys_from_spec() -> bool {
        true
    }

    open spec fn from_spec(m: LidarMeasurementEvent) -> LidarMeasurementSerDe {
        LidarMeasurementSerDe {
            horizontal_angle: m.horizontal_angle,
            channel_count: m.channel_count,
            len: m.detections@.len() as usize,
            is_empty: m.detections@.len() == 0,
            detections: m.detections,
        }
    }
}

// ---------------------------------------------------------------------------
// Laws
// ---------------------------------------------------------------------------

/// For every lidar record, encoding and then decoding the complete byte
/// string yields the record back: the detection count, every field value and
/// the detection order are preserved exactly.
#[verifier::rlimit(100)]
pub proof fn lemma_lidar_round_trip(v: LidarWireView)
    requires
        v.detections.len() < 0x1_0000_0000_0000_0000,
    ensures
        spec_lidar_from_bytes(spec_enc_lidar(v)) == Ok::<LidarWireView, DecodeError>(v),
{
    let s = spec_enc_lidar(v);
    lemma_lidar_names();
    let f1 = spec_field_u32("horizontal_angle".spec_bytes(), v.horizontal_angle);
    let f2 = spec_field_u64("channel_count".spec_bytes(), v.channel_count as u64);
    let f3 = spec_field_u64("len".spec_bytes(), v.len as u64);
    let f4 = spec_field_bool("is_empty".spec_bytes(), v.is_empty);
    let f5 = spec_hdr("detections".spec_bytes(), TAG_SEQ);
    let f6 = spec_enc_lidar_dets(v.detections);
    let i1 = f1.len() as int;
    let i2 = i1 + f2.len();
    let i3 = i2 + f3.len();
    let i4 = i3 + f4.len();
    let i5 = i4 + f5.len();
    let i6 = i5 + f6.len();
    assert(s == f1 + f2 + f3 + f4 + f5 + f6);
    lemma_split_six(s, f1, f2, f3, f4, f5, f6);
    lemma_dec_enc_field_u32(s, 0, "horizontal_angle".spec_bytes(), v.horizontal_angle);
    lemma_dec_enc_field_usize(s, i1, "channel_count".spec_bytes(), v.channel_count);
    lemma_dec_enc_field_usize(s, i2, "len".spec_bytes(), v.len);
    lemma_dec_enc_field_bool(s, i3, "is_empty".spec_bytes(), v.is_empty);
    lemma_dec_enc_hdr(s, i4, "detections".spec_bytes(), TAG_SEQ);
    lemma_dec_enc_lidar_dets(s, i5, v.detections);
    assert(spec_dec_lidar(s, 0) == Ok::<(LidarWireView, int), DecodeError>((v, i6)));
}

/// Encoding the borrowed representation of a detection list and encoding an
/// owned copy of the same data produce byte-identical output: the two
/// representations share one encoding.
pub proof fn lemma_borrowed_matches_owned(
    b: LidarMeasurementSerBorrowed,
    o: LidarMeasurementSerDe,
)
    requires
        b.horizontal_angle == o.horizontal_angle,
        b.channel_count == o.channel_count,
        b.len == o.len,
        b.is_empty == o.is_empty,
        b.detections@ == o.detections@,
    ensures
        spec_enc_lidar(b@) == spec_enc_lidar(o@),
{
    assert(b@ =~= o@);
}

} // verus!
