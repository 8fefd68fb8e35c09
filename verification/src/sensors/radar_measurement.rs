//! The radar measurement event: a variable-length list of detections, each
//! four scalar readings; its typed view; and its two wire representations,
//! one borrowed (encode-only) and one owned (encode and decode).

pub mod slice_radar_detection_remote;
pub mod vec_radar_detection_remote;

use vstd::prelude::*;
use vstd::string::StringSliceAdditionalSpecFns;
use crate::sensor_comms::Listen;
use crate::sensors::SensorEvent;
use crate::wire::{
    DecodeError, DecodeErrorKind, spec_err, TAG_SEQ, spec_field_u32, spec_field_u64,
    spec_field_bool, spec_hdr, spec_enc_u64, spec_enc_seq, spec_dec_u64, spec_dec_seq,
    spec_dec_field_u32, spec_dec_field_usize, spec_dec_field_bool, spec_dec_hdr, enc_field_u32,
    enc_field_u64, enc_field_bool, enc_hdr, dec_field_u32, dec_field_usize, dec_field_bool,
    dec_hdr, lemma_concat_split, lemma_dec_enc_field_u32, lemma_dec_enc_field_usize,
    lemma_dec_enc_field_bool, lemma_dec_enc_hdr, lemma_dec_enc_u64, lemma_dec_enc_seq,
    dec_inverts_enc_on, lemma_ascii_name_len, lemma_split_five,
};

verus! {

/// Mirror of the foreign radar detection: four scalar readings, each carried
/// as the 32-bit pattern of the source's floating-point value.
#[derive(Clone, Copy, PartialEq, Eq, Structural, Debug)]
pub struct RadarDetectionRemote {
    pub velocity: u32,
    pub azimuth: u32,
    pub altitude: u32,
    pub depth: u32,
}

/// The detection field names are short ASCII strings.
pub proof fn lemma_radar_det_names()
    ensures
        "velocity".spec_bytes().len() == 8,
        "azimuth".spec_bytes().len() == 7,
        "altitude".spec_bytes().len() == 8,
        "depth".spec_bytes().len() == 5,
{
    reveal_strlit("velocity");
    reveal_strlit("azimuth");
    reveal_strlit("altitude");
    reveal_strlit("depth");
    assert(vstd::string::is_ascii("velocity"));
    assert(vstd::string::is_ascii("azimuth"));
    assert(vstd::string::is_ascii("altitude"));
    assert(vstd::string::is_ascii("depth"));
    lemma_ascii_name_len("velocity");
    lemma_ascii_name_len("azimuth");
    lemma_ascii_name_len("altitude");
    lemma_ascii_name_len("depth");
}

/// Encoding of one detection: its four readings as named 32-bit fields, in
/// declaration order.
pub open spec fn spec_enc_radar_det(d: RadarDetectionRemote) -> Seq<u8> {
    spec_field_u32("velocity".spec_bytes(), d.velocity) + spec_field_u32(
        "azimuth".spec_bytes(),
        d.azimuth,
    ) + spec_field_u32("altitude".spec_bytes(), d.altitude) + spec_field_u32(
        "depth".spec_bytes(),
        d.depth,
    )
}

/// Decoding of one detection at offset `i`.
pub open spec fn spec_dec_radar_det(s: Seq<u8>, i: int) -> Result<
    (RadarDetectionRemote, int),
    DecodeError,
> {
    match spec_dec_field_u32(s, i, "velocity".spec_bytes()) {
        Ok((velocity, i1)) => match spec_dec_field_u32(s, i1, "azimuth".spec_bytes()) {
            Ok((azimuth, i2)) => match spec_dec_field_u32(s, i2, "altitude".spec_bytes()) {
                Ok((altitude, i3)) => match spec_dec_field_u32(s, i3, "depth".spec_bytes()) {
                    Ok((depth, i4)) => Ok(
                        (RadarDetectionRemote { velocity, azimuth, altitude, depth }, i4),
                    ),
                    Err(e) => Err(e),
                },
                Err(e) => Err(e),
            },
            Err(e) => Err(e),
        },
        Err(e) => Err(e),
    }
}

/// Decoding a detection from its own encoding yields the detection back.
pub proof fn lemma_dec_enc_radar_det(s: Seq<u8>, i: int, d: RadarDetectionRemote)
    requires
        0 <= i,
        i + spec_enc_radar_det(d).len() <= s.len(),
        s.subrange(i, i + spec_enc_radar_det(d).len()) == spec_enc_radar_det(d),
    ensures
        spec_dec_radar_det(s, i) == Ok::<(RadarDetectionRemote, int), DecodeError>(
            (d, i + spec_enc_radar_det(d).len()),
        ),
{
    lemma_radar_det_names();
    let f1 = spec_field_u32("velocity".spec_bytes(), d.velocity);
    let f2 = spec_field_u32("azimuth".spec_bytes(), d.azimuth);
    let f3 = spec_field_u32("altitude".spec_bytes(), d.altitude);
    let f4 = spec_field_u32("depth".spec_bytes(), d.depth);
    assert(spec_enc_radar_det(d) =~= f1 + (f2 + (f3 + f4)));
    lemma_concat_split(s, i, f1, f2 + (f3 + f4));
    lemma_concat_split(s, i + f1.len(), f2, f3 + f4);
    lemma_concat_split(s, i + f1.len() + f2.len(), f3, f4);
    lemma_dec_enc_field_u32(s, i, "velocity".spec_bytes(), d.velocity);
    lemma_dec_enc_field_u32(s, i + f1.len(), "azimuth".spec_bytes(), d.azimuth);
    lemma_dec_enc_field_u32(s, i + f1.len() + f2.len(), "altitude".spec_bytes(), d.altitude);
    lemma_dec_enc_field_u32(
        s,
        i + f1.len() + f2.len() + f3.len(),
        "depth".spec_bytes(),
        d.depth,
    );
}

/// The detection encoder as a function value, for element runs.
pub open spec fn radar_det_enc_fn() -> spec_fn(RadarDetectionRemote) -> Seq<u8> {
    |d: RadarDetectionRemote| spec_enc_radar_det(d)
}

/// The detection decoder as a function value, for element runs.
pub open spec fn radar_det_dec_fn() -> spec_fn(Seq<u8>, int) -> Result<
    (RadarDetectionRemote, int),
    DecodeError,
> {
    |s: Seq<u8>, i: int| spec_dec_radar_det(s, i)
}

/// Encoding of a detection list value: its element count, then each
/// detection, in order.
pub open spec fn spec_enc_radar_dets(dets: Seq<RadarDetectionRemote>) -> Seq<u8> {
    spec_enc_u64(dets.len() as u64) + spec_enc_seq(dets, radar_det_enc_fn())
}

/// Decoding of a detection list value at offset `i`.
pub open spec fn spec_dec_radar_dets(s: Seq<u8>, i: int) -> Result<
    (Seq<RadarDetectionRemote>, int),
    DecodeError,
> {
    match spec_dec_u64(s, i) {
        Ok((n, j)) => spec_dec_seq(s, j, n as int, radar_det_dec_fn()),
        Err(e) => Err(e),
    }
}

/// Decoding a detection list from its own encoding yields the list back:
/// same count, same values, same order.
pub proof fn lemma_dec_enc_radar_dets(s: Seq<u8>, i: int, dets: Seq<RadarDetectionRemote>)
    requires
        0 <= i,
        dets.len() < 0x1_0000_0000_0000_0000,
        i + spec_enc_radar_dets(dets).len() <= s.len(),
        s.subrange(i, i + spec_enc_radar_dets(dets).len()) == spec_enc_radar_dets(dets),
    ensures
        spec_dec_radar_dets(s, i) == Ok::<(Seq<RadarDetectionRemote>, int), DecodeError>(
            (dets, i + spec_enc_radar_dets(dets).len()),
        ),
{
    let cnt = spec_enc_u64(dets.len() as u64);
    let body = spec_enc_seq(dets, radar_det_enc_fn());
    lemma_concat_split(s, i, cnt, body);
    lemma_dec_enc_u64(s, i, dets.len() as u64);
    assert(dec_inverts_enc_on(s, dets, radar_det_enc_fn(), radar_det_dec_fn())) by {
        assert forall|j: int, k: int|
            #![trigger radar_det_dec_fn()(s, j), radar_det_enc_fn()(dets[k])]
            (0 <= k < dets.len() && 0 <= j && j + radar_det_enc_fn()(dets[k]).len() <= s.len()
                && s.subrange(j, j + radar_det_enc_fn()(dets[k]).len()) == radar_det_enc_fn()(
                dets[k],
            )) implies radar_det_dec_fn()(s, j) == Ok::<(RadarDetectionRemote, int), DecodeError>(
            (dets[k], j + radar_det_enc_fn()(dets[k]).len()),
        ) by {
            assert(radar_det_enc_fn()(dets[k]) == spec_enc_radar_det(dets[k]));
            lemma_dec_enc_radar_det(s, j, dets[k]);
            assert(radar_det_dec_fn()(s, j) == spec_dec_radar_det(s, j));
        }
    }
    lemma_dec_enc_seq(s, i + cnt.len(), dets, radar_det_enc_fn(), radar_det_dec_fn());
}

/// Appends the encoding of one detection.
pub fn enc_radar_det(d: &RadarDetectionRemote, out: &mut Vec<u8>)
    ensures
        final(out)@ == old(out)@ + spec_enc_radar_det(*d),
{
    enc_field_u32("velocity", d.velocity, out);
    enc_field_u32("azimuth", d.azimuth, out);
    enc_field_u32("altitude", d.altitude, out);
    enc_field_u32("depth", d.depth, out);
    assert(out@ =~= old(out)@ + spec_enc_radar_det(*d));
}

/// Decodes one detection; behaves exactly as [`spec_dec_radar_det`].
pub fn dec_radar_det(s: &[u8], pos: usize) -> (r: Result<(RadarDetectionRemote, usize), DecodeError>)
    ensures
        match r {
            Ok(p) => spec_dec_radar_det(s@, pos as int) == Ok::<
                (RadarDetectionRemote, int),
                DecodeError,
            >((p.0, p.1 as int)) && pos < p.1 <= s@.len(),
            Err(e) => spec_dec_radar_det(s@, pos as int) == Err::<
                (RadarDetectionRemote, int),
                DecodeError,
            >(e),
        },
{
    let (velocity, i1) = match dec_field_u32(s, pos, "velocity") {
        Ok(p) => p,
        Err(e) => {
            return Err(e);
        },
    };
    let (azimuth, i2) = match dec_field_u32(s, i1, "azimuth") {
        Ok(p) => p,
        Err(e) => {
            return Err(e);
        },
    };
    let (altitude, i3) = match dec_field_u32(s, i2, "altitude") {
        Ok(p) => p,
        Err(e) => {
            return Err(e);
        },
    };
    let (depth, i4) = match dec_field_u32(s, i3, "depth") {
        Ok(p) => p,
        Err(e) => {
            return Err(e);
        },
    };
    Ok((RadarDetectionRemote { velocity, azimuth, altitude, depth }, i4))
}

// ---------------------------------------------------------------------------
// The radar measurement event
// ---------------------------------------------------------------------------

/// The typed view over a sensor source that emits radar measurements:
/// narrows an untyped event to [`RadarMeasurementEvent`].
pub struct RadarMeasurement;

impl Listen for RadarMeasurement {
    type Data = RadarMeasurementEvent;

    open spec fn narrows(event: SensorEvent) -> Option<RadarMeasurementEvent> {
        match event {
            SensorEvent::Radar(e) => Some(e),
            _ => None,
        }
    }

    fn narrow(&self, event: SensorEvent) -> (r: Option<RadarMeasurementEvent>) {
        match event {
            SensorEvent::Radar(e) => Some(e),
            _ => None,
        }
    }
}

/// Makes radar views: each view narrows the source's events to the radar
/// shape.
pub struct RadarMeasurementFactory;

impl RadarMeasurementFactory {
    /// Produces a view bound to the radar shape.
    pub fn make(&self) -> RadarMeasurement {
        RadarMeasurement
    }
}

/// A radar measurement notification: the detections, in scan order.
#[derive(Debug)]
pub struct RadarMeasurementEvent {
    pub detections: Vec<RadarDetectionRemote>,
}

impl RadarMeasurementEvent {
    /// The number of detections the source reports.
    pub fn detection_amount(&self) -> (r: usize)
        ensures
            r == self.detections@.len(),
    {
        self.detections.len()
    }

    /// The number of detections the event carries.
    pub fn len(&self) -> (r: usize)
        ensures
            r == self.detections@.len(),
    {
        self.detections.len()
    }

    /// Whether the event carries no detections.
    pub fn is_empty(&self) -> (r: bool)
        ensures
            r == (self.detections@.len() == 0),
    {
        self.detections.is_empty()
    }

    /// The detections, in scan order, without a copy.
    pub fn as_slice(&self) -> (r: &[RadarDetectionRemote])
        ensures
            r@ == self.detections@,
    {
        self.detections.as_slice()
    }
}

// ---------------------------------------------------------------------------
// The two wire representations
// ---------------------------------------------------------------------------

/// The mathematical model of the radar wire record, shared by the borrowed
/// and the owned representation: encoding either with equal models produces
/// identical bytes.
#[verifier::ext_equal]
pub struct RadarWireView {
    pub detection_amount: usize,
    pub detections: Seq<RadarDetectionRemote>,
    pub len: usize,
    pub is_empty: bool,
}

/// The borrowed wire representation: encode-only, referencing the event's
/// own detection list without copying it.
pub struct RadarMeasurementSerBorrowed<'a> {
    pub detection_amount: usize,
    pub detections: &'a Vec<RadarDetectionRemote>,
    pub len: usize,
    pub is_empty: bool,
}

impl<'a> View for RadarMeasurementSerBorrowed<'a> {
    type V = RadarWireView;

    open spec fn view(&self) -> RadarWireView {
        RadarWireView {
            detection_amount: self.detection_amount,
            detections: self.detections@,
            len: self.len,
            is_empty: self.is_empty,
        }
    }
}

/// The owned wire representation: encodes and decodes, holding its own copy
/// of the detections.
#[derive(Debug)]
pub struct RadarMeasurementSerDe {
    pub detection_amount: usize,
    pub detections: Vec<RadarDetectionRemote>,
    pub len: usize,
    pub is_empty: bool,
}

impl View for RadarMeasurementSerDe {
    type V = RadarWireView;

    open spec fn view(&self) -> RadarWireView {
        RadarWireView {
            detection_amount: self.detection_amount,
            detections: self.detections@,
            len: self.len,
            is_empty: self.is_empty,
        }
    }
}

/// The radar record's field names are short ASCII strings.
pub proof fn lemma_radar_names()
    ensures
        "detection_amount".spec_bytes().len() == 16,
        "detections".spec_bytes().len() == 10,
        "len".spec_bytes().len() == 3,
        "is_empty".spec_bytes().len() == 8,
{
    reveal_strlit("detection_amount");
    reveal_strlit("detections");
    reveal_strlit("len");
    reveal_strlit("is_empty");
    assert(vstd::string::is_ascii("detection_amount"));
    assert(vstd::string::is_ascii("detections"));
    assert(vstd::string::is_ascii("len"));
    assert(vstd::string::is_ascii("is_empty"));
    lemma_ascii_name_len("detection_amount");
    lemma_ascii_name_len("detections");
    lemma_ascii_name_len("len");
    lemma_ascii_name_len("is_empty");
}

/// Encoding of the radar record: its fields in declaration order, the
/// detection list second as a sequence field.
pub open spec fn spec_enc_radar(v: RadarWireView) -> Seq<u8> {
    spec_field_u64("detection_amount".spec_bytes(), v.detection_amount as u64) + spec_hdr(
        "detections".spec_bytes(),
        TAG_SEQ,
    ) + spec_enc_radar_dets(v.detections) + spec_field_u64("len".spec_bytes(), v.len as u64)
        + spec_field_bool("is_empty".spec_bytes(), v.is_empty)
}

/// Decoding of the radar record at offset `i`.
pub open spec fn spec_dec_radar(s: Seq<u8>, i: int) -> Result<(RadarWireView, int), DecodeError> {
    match spec_dec_field_usize(s, i, "detection_amount".spec_bytes()) {
        Ok((detection_amount, i1)) => match spec_dec_hdr(s, i1, "detections".spec_bytes(), TAG_SEQ) {
            Ok(i2) => match spec_dec_radar_dets(s, i2) {
                Ok((detections, i3)) => match spec_dec_field_usize(s, i3, "len".spec_bytes()) {
                    Ok((len, i4)) => match spec_dec_field_bool(s, i4, "is_empty".spec_bytes()) {
                        Ok((is_empty, i5)) => Ok(
                            (RadarWireView { detection_amount, detections, len, is_empty }, i5),
                        ),
                        Err(e) => Err(e),
                    },
                    Err(e) => Err(e),
                },
                Err(e) => Err(e),
            },
            Err(e) => Err(e),
        },
        Err(e) => Err(e),
    }
}

/// Decoding of a whole radar record from a complete byte string: the record
/// must span the input exactly.
pub open spec fn spec_radar_from_bytes(s: Seq<u8>) -> Result<RadarWireView, DecodeError> {
    match spec_dec_radar(s, 0) {
        Ok((v, end)) => if end == s.len() {
            Ok(v)
        } else {
            Err(spec_err(DecodeErrorKind::TrailingBytes, end))
        },
        Err(e) => Err(e),
    }
}

impl<'a> RadarMeasurementSerBorrowed<'a> {
    /// Encodes the record into freshly allocated wire bytes, walking the
    /// borrowed detections without copying them.
    pub fn encode(&self) -> (r: Vec<u8>)
        ensures
            r@ == spec_enc_radar(self@),
    {
        let mut out: Vec<u8> = Vec::new();
        enc_field_u64("detection_amount", self.detection_amount as u64, &mut out);
        enc_hdr("detections", TAG_SEQ, &mut out);
        slice_radar_detection_remote::serialize(self.detections.as_slice(), &mut out);
        enc_field_u64("len", self.len as u64, &mut out);
        enc_field_bool("is_empty", self.is_empty, &mut out);
        assert(out@ =~= spec_enc_radar(self@));
        out
    }
}

impl RadarMeasurementSerDe {
    /// Encodes the record into freshly allocated wire bytes.
    pub fn encode(&self) -> (r: Vec<u8>)
        ensures
            r@ == spec_enc_radar(self@),
    {
        let mut out: Vec<u8> = Vec::new();
        enc_field_u64("detection_amount", self.detection_amount as u64, &mut out);
        enc_hdr("detections", TAG_SEQ, &mut out);
        vec_radar_detection_remote::serialize(&self.detections, &mut out);
        enc_field_u64("len", self.len as u64, &mut out);
        enc_field_bool("is_empty", self.is_empty, &mut out);
        assert(out@ =~= spec_enc_radar(self@));
        out
    }

    /// Decodes a record from a complete byte string; behaves exactly as
    /// [`spec_radar_from_bytes`].
    pub fn decode(s: &[u8]) -> (r: Result<RadarMeasurementSerDe, DecodeError>)
        ensures
            match r {
                Ok(v) => spec_radar_from_bytes(s@) == Ok::<RadarWireView, DecodeError>(v@),
                Err(e) => spec_radar_from_bytes(s@) == Err::<RadarWireView, DecodeError>(e),
            },
    {
        let (detection_amount, i1) = match dec_field_usize(s, 0, "detection_amount") {
            Ok(p) => p,
            Err(e) => {
                return Err(e);
            },
        };
        let i2 = match dec_hdr(s, i1, "detections", TAG_SEQ) {
            Ok(j) => j,
            Err(e) => {
                return Err(e);
            },
        };
        let (detections, i3) = match vec_radar_detection_remote::deserialize(s, i2) {
            Ok(p) => p,
            Err(e) => {
                return Err(e);
            },
        };
        let (len, i4) = match dec_field_usize(s, i3, "len") {
            Ok(p) => p,
            Err(e) => {
                return Err(e);
            },
        };
        let (is_empty, i5) = match dec_field_bool(s, i4, "is_empty") {
            Ok(p) => p,
            Err(e) => {
                return Err(e);
            },
        };
        if i5 != s.len() {
            return Err(DecodeError { kind: DecodeErrorKind::TrailingBytes, at: i5 });
        }
        Ok(RadarMeasurementSerDe { detection_amount, detections, len, is_empty })
    }
}

impl<'a> From<&'a RadarMeasurementEvent> for RadarMeasurementSerBorrowed<'a> {
    /// Projects the event's reported fields and borrows its detections.
    fn from(m: &'a RadarMeasurementEvent) -> (r: RadarMeasurementSerBorrowed<'a>) {
        let detection_amount = m.detection_amount();
        let len = m.len();
        let is_empty = m.is_empty();
        RadarMeasurementSerBorrowed {
            detection_amount,
            detections: &m.detections,
            len,
            is_empty,
        }
    }
}

impl<'a> vstd::std_specs::convert::FromSpecImpl<&'a RadarMeasurementEvent> for RadarMeasurementSerBorrowed<'a> {
    open spec fn obeys_from_spec() -> bool {
        true
    }

    open spec fn from_spec(m: &'a RadarMeasurementEvent) -> RadarMeasurementSerBorrowed<'a> {
        RadarMeasurementSerBorrowed {
            detection_amount: m.detections@.len() as usize,
            detections: &m.detections,
            len: m.detections@.len() as usize,
            is_empty: m.detections@.len() == 0,
        }
    }
}

// ---------------------------------------------------------------------------
// Laws
// ---------------------------------------------------------------------------

/// For every radar record, encoding and then decoding the complete byte
/// string yields the record back: the detection count, every field value and
/// the detection order are preserved exactly.
#[verifier::rlimit(100)]
pub proof fn lemma_radar_round_trip(v: RadarWireView)
    requires
        v.detections.len() < 0x1_0000_0000_0000_0000,
    ensures
        spec_radar_from_bytes(spec_enc_radar(v)) == Ok::<RadarWireView, DecodeError>(v),
{
    let s = spec_enc_radar(v);
    lemma_radar_names();
    let f1 = spec_field_u64("detection_amount".spec_bytes(), v.detection_amount as u64);
    let f2 = spec_hdr("detections".spec_bytes(), TAG_SEQ);
    let f3 = spec_enc_radar_dets(v.detections);
    let f4 = spec_field_u64("len".spec_bytes(), v.len as u64);
    let f5 = spec_field_bool("is_empty".spec_bytes(), v.is_empty);
    let i1 = f1.len() as int;
    let i2 = i1 + f2.len();
    let i3 = i2 + f3.len();
    let i4 = i3 + f4.len();
    let i5 = i4 + f5.len();
    assert(s == f1 + f2 + f3 + f4 + f5);
    lemma_split_five(s, f1, f2, f3, f4, f5);
    lemma_dec_enc_field_usize(s, 0, "detection_amount".spec_bytes(), v.detection_amount);
    lemma_dec_enc_hdr(s, i1, "detections".spec_bytes(), TAG_SEQ);
    lemma_dec_enc_radar_dets(s, i2, v.detections);
    lemma_dec_enc_field_usize(s, i3, "len".spec_bytes(), v.len);
    lemma_dec_enc_field_bool(s, i4, "is_empty".spec_bytes(), v.is_empty);
    assert(spec_dec_radar(s, 0) == Ok::<(RadarWireView, int), DecodeError>((v, i5)));
}

/// Encoding the borrowed representation of a detection list and encoding an
/// owned copy of the same data produce byte-identical output: the two
/// representations share one encoding.
pub proof fn lemma_borrowed_matches_owned(
    b: RadarMeasurementSerBorrowed,
    o: RadarMeasurementSerDe,
)
    requires
        b.detection_amount == o.detection_amount,
        b.len == o.len,
        b.is_empty == o.is_empty,
        b.detections@ == o.detections@,
    ensures
        spec_enc_radar(b@) == spec_enc_radar(o@),
{
    assert(b@ =~= o@);
}

} // verus!
