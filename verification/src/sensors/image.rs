//! The camera image event: a rectangular grid of 4-channel color records,
//! its typed view, and its owned wire representation.

pub mod grid_color_remote;

use vstd::prelude::*;
use vstd::string::StringSliceAdditionalSpecFns;
use crate::sensor_comms::Listen;
use crate::sensors::SensorEvent;
use crate::wire::{
    DecodeError, DecodeErrorKind, spec_err, TAG_U8, TAG_SEQ, spec_field_u8, spec_dec_field_u8,
    enc_field_u8, dec_field_u8, lemma_concat_split, lemma_dec_enc_field_u8, lemma_ascii_name_len,
    push_all, lemma_flatten_rect_len, spec_field_u64, spec_field_u32, spec_field_bool, spec_hdr,
    spec_dec_field_usize, spec_dec_field_u32, spec_dec_field_bool, spec_dec_hdr, enc_field_u64,
    enc_field_u32, enc_field_bool, enc_hdr, dec_field_usize, dec_field_u32, dec_field_bool,
    dec_hdr, lemma_dec_enc_field_usize, lemma_dec_enc_field_u32, lemma_dec_enc_field_bool,
    lemma_dec_enc_hdr, lemma_split_seven,
};

verus! {

/// Mirror of the foreign 4-channel color record, one byte per channel, in
/// the foreign declaration order: blue, green, red, alpha.
#[derive(Clone, Copy, PartialEq, Eq, Structural, Debug)]
pub struct ColorRemote {
    pub b: u8,
    pub g: u8,
    pub r: u8,
    pub a: u8,
}

/// The color field names are one ASCII character each.
pub proof fn lemma_color_names()
    ensures
        "b".spec_bytes().len() == 1,
        "g".spec_bytes().len() == 1,
        "r".spec_bytes().len() == 1,
        "a".spec_bytes().len() == 1,
{
    reveal_strlit("b");
    reveal_strlit("g");
    reveal_strlit("r");
    reveal_strlit("a");
    assert(vstd::string::is_ascii("b"));
    assert(vstd::string::is_ascii("g"));
    assert(vstd::string::is_ascii("r"));
    assert(vstd::string::is_ascii("a"));
    lemma_ascii_name_len("b");
    lemma_ascii_name_len("g");
    lemma_ascii_name_len("r");
    lemma_ascii_name_len("a");
}

/// Encoding of one color record: its four channels as named byte fields, in
/// declaration order.
pub open spec fn spec_enc_color(c: ColorRemote) -> Seq<u8> {
    spec_field_u8("b".spec_bytes(), c.b) + spec_field_u8("g".spec_bytes(), c.g) + spec_field_u8(
        "r".spec_bytes(),
        c.r,
    ) + spec_field_u8("a".spec_bytes(), c.a)
}

/// Decoding of one color record at offset `i`.
pub open spec fn spec_dec_color(s: Seq<u8>, i: int) -> Result<(ColorRemote, int), DecodeError> {
    match spec_dec_field_u8(s, i, "b".spec_bytes()) {
        Ok((b, i1)) => match spec_dec_field_u8(s, i1, "g".spec_bytes()) {
            Ok((g, i2)) => match spec_dec_field_u8(s, i2, "r".spec_bytes()) {
                Ok((r, i3)) => match spec_dec_field_u8(s, i3, "a".spec_bytes()) {
                    Ok((a, i4)) => Ok((ColorRemote { b, g, r, a }, i4)),
                    Err(e) => Err(e),
                },
                Err(e) => Err(e),
            },
            Err(e) => Err(e),
        },
        Err(e) => Err(e),
    }
}

/// Appends the encoding of one color record.
pub fn enc_color(c: &ColorRemote, out: &mut Vec<u8>)
    ensures
        final(out)@ == old(out)@ + spec_enc_color(*c),
{
    enc_field_u8("b", c.b, out);
    enc_field_u8("g", c.g, out);
    enc_field_u8("r", c.r, out);
    enc_field_u8("a", c.a, out);
    assert(out@ =~= old(out)@ + spec_enc_color(*c));
}

/// Decodes one color record; behaves exactly as [`spec_dec_color`].
pub fn dec_color(s: &[u8], pos: usize) -> (r: Result<(ColorRemote, usize), DecodeError>)
    ensures
        match r {
            Ok(p) => spec_dec_color(s@, pos as int) == Ok::<(ColorRemote, int), DecodeError>(
                (p.0, p.1 as int),
            ) && pos < p.1 <= s@.len(),
            Err(e) => spec_dec_color(s@, pos as int) == Err::<(ColorRemote, int), DecodeError>(e),
        },
{
    let (b, i1) = match dec_field_u8(s, pos, "b") {
        Ok(p) => p,
        Err(e) => {
            return Err(e);
        },
    };
    let (g, i2) = match dec_field_u8(s, i1, "g") {
        Ok(p) => p,
        Err(e) => {
            return Err(e);
        },
    };
    let (r, i3) = match dec_field_u8(s, i2, "r") {
        Ok(p) => p,
        Err(e) => {
            return Err(e);
        },
    };
    let (a, i4) = match dec_field_u8(s, i3, "a") {
        Ok(p) => p,
        Err(e) => {
            return Err(e);
        },
    };
    Ok((ColorRemote { b, g, r, a }, i4))
}

/// Decoding a color record from its own encoding yields the record back.
pub proof fn lemma_dec_enc_color(s: Seq<u8>, i: int, c: ColorRemote)
    requires
        0 <= i,
        i + spec_enc_color(c).len() <= s.len(),
        s.subrange(i, i + spec_enc_color(c).len()) == spec_enc_color(c),
    ensures
        spec_dec_color(s, i) == Ok::<(ColorRemote, int), DecodeError>(
            (c, i + spec_enc_color(c).len()),
        ),
{
    lemma_color_names();
    let f1 = spec_field_u8("b".spec_bytes(), c.b);
    let f2 = spec_field_u8("g".spec_bytes(), c.g);
    let f3 = spec_field_u8("r".spec_bytes(), c.r);
    let f4 = spec_field_u8("a".spec_bytes(), c.a);
    assert(spec_enc_color(c) =~= f1 + (f2 + (f3 + f4)));
    lemma_concat_split(s, i, f1, f2 + (f3 + f4));
    lemma_concat_split(s, i + f1.len(), f2, f3 + f4);
    lemma_concat_split(s, i + f1.len() + f2.len(), f3, f4);
    lemma_dec_enc_field_u8(s, i, "b".spec_bytes(), c.b);
    lemma_dec_enc_field_u8(s, i + f1.len(), "g".spec_bytes(), c.g);
    lemma_dec_enc_field_u8(s, i + f1.len() + f2.len(), "r".spec_bytes(), c.r);
    lemma_dec_enc_field_u8(s, i + f1.len() + f2.len() + f3.len(), "a".spec_bytes(), c.a);
}

// ---------------------------------------------------------------------------
// The pixel grid
// ---------------------------------------------------------------------------

/// The mathematical model of a pixel grid: a height, a width, and the cells
/// in row-major order.
#[verifier::ext_equal]
pub struct GridView {
    pub height: nat,
    pub width: nat,
    pub cells: Seq<ColorRemote>,
}

impl GridView {
    /// A grid is well-formed when it holds exactly height-times-width cells.
    pub open spec fn wf(self) -> bool {
        self.cells.len() == self.height * self.width
    }

    /// The grid's rows, each of length `width`, in top-to-bottom order.
    pub open spec fn rows(self) -> Seq<Seq<ColorRemote>> {
        Seq::new(self.height, |r: int| self.cells.subrange(r * self.width, (r + 1) * self.width))
    }
}

/// A rectangular two-dimensional grid of color records, stored row-major in
/// one contiguous buffer. Invariant: the buffer holds exactly
/// height-times-width cells; every row has the same length.
#[derive(Debug)]
pub struct PixelGrid {
    pub height: usize,
    pub width: usize,
    pub cells: Vec<ColorRemote>,
}

impl View for PixelGrid {
    type V = GridView;

    open spec fn view(&self) -> GridView {
        GridView { height: self.height as nat, width: self.width as nat, cells: self.cells@ }
    }
}

/// The rows a vector of row vectors stands for.
pub open spec fn rows_view(rows: Seq<Vec<ColorRemote>>) -> Seq<Seq<ColorRemote>> {
    Seq::new(rows.len(), |r: int| rows[r]@)
}

/// Whether every row has the length of the first one.
pub open spec fn spec_rows_rect(rows: Seq<Seq<ColorRemote>>) -> bool {
    forall|r: int| 0 <= r < rows.len() ==> (#[trigger] rows[r]).len() == rows[0].len()
}

/// The grid a list of rows yields: the empty list gives the empty grid; a
/// non-empty rectangular list gives its flattening; ragged rows give nothing.
pub open spec fn spec_grid_of_rows(rows: Seq<Seq<ColorRemote>>) -> Option<GridView> {
    if rows.len() == 0 {
        Some(GridView { height: 0, width: 0, cells: Seq::empty() })
    } else if !spec_rows_rect(rows) {
        None
    } else {
        Some(GridView { height: rows.len(), width: rows[0].len(), cells: rows.flatten() })
    }
}

/// A grid built from rows is well-formed.
pub proof fn lemma_grid_of_rows_wf(rows: Seq<Seq<ColorRemote>>)
    ensures
        spec_grid_of_rows(rows) matches Some(gv) ==> gv.wf(),
{
    match spec_grid_of_rows(rows) {
        Some(gv) => {
            if rows.len() == 0 {
                assert(gv.cells.len() == 0);
            } else {
                lemma_flatten_rect_len(rows, rows[0].len());
            }
        },
        None => {},
    }
}

impl PixelGrid {
    /// A grid is well-formed when it holds exactly height-times-width cells.
    pub open spec fn wf(self) -> bool {
        self@.wf()
    }

    /// Builds a grid from a list of rows, validating that every row has the
    /// same length: zero rows give the empty grid, rows of unequal length
    /// give nothing.
    pub fn from_rows(rows: Vec<Vec<ColorRemote>>) -> (r: Option<PixelGrid>)
        ensures
            match r {
                Some(g) => g.wf() && spec_grid_of_rows(rows_view(rows@)) == Some(g@),
                None => spec_grid_of_rows(rows_view(rows@)) is None,
            },
    {
        let rv = Ghost(rows_view(rows@));
        let h = rows.len();
        if h == 0 {
            let g = PixelGrid { height: 0, width: 0, cells: Vec::new() };
            proof {
                assert(rows_view(rows@).len() == 0);
                assert(g@ =~= GridView { height: 0, width: 0, cells: Seq::empty() });
                assert(spec_grid_of_rows(rows_view(rows@)) == Some(g@));
                assert(g@.height == 0 && g@.width == 0);
                assert(g@.height * g@.width == 0);
            }
            return Some(g);
        }
        let w = rows[0].len();
        proof {
            assert(rv@[0] == rows@[0]@);
        }
        let mut r: usize = 0;
        while r < h
            invariant
                0 < h == rows@.len(),
                w as int == rv@[0].len(),
                rv@ == rows_view(rows@),
                r <= h,
                forall|t: int| 0 <= t < r ==> (#[trigger] rv@[t]).len() == w,
            decreases h - r,
        {
            if rows[r].len() != w {
                proof {
                    assert(rv@[r as int] == rows@[r as int]@);
                    assert(rv@[0] == rows@[0]@);
                    assert(rv@[r as int].len() != rv@[0].len());
                    assert(!spec_rows_rect(rv@));
                }
                return None;
            }
            proof {
                assert(rv@[r as int] == rows@[r as int]@);
            }
            r = r + 1;
        }
        assert(spec_rows_rect(rv@));
        let mut cells: Vec<ColorRemote> = Vec::new();
        let mut r2: usize = 0;
        while r2 < h
            invariant
                h == rows@.len(),
                rv@ == rows_view(rows@),
                r2 <= h,
                cells@ == rv@.subrange(0, r2 as int).flatten(),
            decreases h - r2,
        {
            proof {
                assert(rv@[r2 as int] == rows@[r2 as int]@);
                assert(rv@.subrange(0, r2 + 1) =~= rv@.subrange(0, r2 as int).push(rv@[r2 as int]));
                rv@.subrange(0, r2 as int).lemma_flatten_push(rv@[r2 as int]);
            }
            push_all(&mut cells, &rows[r2]);
            r2 = r2 + 1;
        }
        assert(rv@.subrange(0, h as int) =~= rv@);
        proof {
            lemma_flatten_rect_len(rv@, w as nat);
        }
        let g = PixelGrid { height: h, width: w, cells };
        assert(g@ =~= GridView { height: h as nat, width: w as nat, cells: rv@.flatten() });
        Some(g)
    }
}

// ---------------------------------------------------------------------------
// The image event and its owned wire representation
// ---------------------------------------------------------------------------

/// A camera image notification: the field-of-view angle, carried as the
/// 32-bit pattern of the source's floating-point value, and the pixel grid.
#[derive(Debug)]
pub struct ImageEvent {
    pub fov_angle: u32,
    pub array: PixelGrid,
}

impl ImageEvent {
    /// The grid's height in rows.
    pub fn height(&self) -> (r: usize)
        ensures
            r == self.array.height,
    {
        self.array.height
    }

    /// The grid's width in columns.
    pub fn width(&self) -> (r: usize)
        ensures
            r == self.array.width,
    {
        self.array.width
    }

    /// The number of pixels the event carries.
    pub fn len(&self) -> (r: usize)
        ensures
            r == self.array.cells@.len(),
    {
        self.array.cells.len()
    }

    /// Whether the event carries no pixels.
    pub fn is_empty(&self) -> (r: bool)
        ensures
            r == (self.array.cells@.len() == 0),
    {
        self.array.cells.is_empty()
    }

    /// The field-of-view angle's 32-bit pattern.
    pub fn fov_angle(&self) -> (r: u32)
        ensures
            r == self.fov_angle,
    {
        self.fov_angle
    }
}

/// The typed view over a sensor source that emits image events: narrows an
/// untyped event to [`ImageEvent`].
pub struct Image;

impl Listen for Image {
    type Data = ImageEvent;

    open spec fn narrows(event: SensorEvent) -> Option<ImageEvent> {
        match event {
            SensorEvent::Image(e) => Some(e),
            _ => None,
        }
    }

    fn narrow(&self, event: SensorEvent) -> (r: Option<ImageEvent>) {
        match event {
            SensorEvent::Image(e) => Some(e),
            _ => None,
        }
    }
}

/// Makes image views: each view narrows the source's events to the image
/// shape.
pub struct ImageFactory;

impl ImageFactory {
    /// Produces a view bound to the image shape.
    pub fn make(&self) -> Image {
        Image
    }
}

/// The mathematical model of the image wire record.
#[verifier::ext_equal]
pub struct ImageWireView {
    pub height: usize,
    pub width: usize,
    pub len: usize,
    pub is_empty: bool,
    pub fov_angle: u32,
    pub array: GridView,
}

/// The owned wire representation of an image event: every projected field,
/// and an independently owned copy of the pixel grid. It encodes and decodes;
/// the copy lives on after the event is gone.
#[derive(Debug)]
pub struct ImageEventSerDe {
    pub height: usize,
    pub width: usize,
    pub len: usize,
    pub is_empty: bool,
    pub fov_angle: u32,
    pub array: PixelGrid,
}

impl View for ImageEventSerDe {
    type V = ImageWireView;

    open spec fn view(&self) -> ImageWireView {
        ImageWireView {
            height: self.height,
            width: self.width,
            len: self.len,
            is_empty: self.is_empty,
            fov_angle: self.fov_angle,
            array: self.array@,
        }
    }
}

/// The image record's field names are short ASCII strings.
pub proof fn lemma_image_names()
    ensures
        "height".spec_bytes().len() == 6,
        "width".spec_bytes().len() == 5,
        "len".spec_bytes().len() == 3,
        "is_empty".spec_bytes().len() == 8,
        "fov_angle".spec_bytes().len() == 9,
        "array".spec_bytes().len() == 5,
{
    reveal_strlit("height");
    reveal_strlit("width");
    reveal_strlit("len");
    reveal_strlit("is_empty");
    reveal_strlit("fov_angle");
    reveal_strlit("array");
    assert(vstd::string::is_ascii("height"));
    assert(vstd::string::is_ascii("width"));
    assert(vstd::string::is_ascii("len"));
    assert(vstd::string::is_ascii("is_empty"));
    assert(vstd::string::is_ascii("fov_angle"));
    assert(vstd::string::is_ascii("array"));
    lemma_ascii_name_len("height");
    lemma_ascii_name_len("width");
    lemma_ascii_name_len("len");
    lemma_ascii_name_len("is_empty");
    lemma_ascii_name_len("fov_angle");
    lemma_ascii_name_len("array");
}

/// Encoding of the image record: its fields in declaration order, the grid
/// last as a sequence-of-rows field.
pub open spec fn spec_enc_image(v: ImageWireView) -> Seq<u8> {
    spec_field_u64("height".spec_bytes(), v.height as u64) + spec_field_u64(
        "width".spec_bytes(),
        v.width as u64,
    ) + spec_field_u64("len".spec_bytes(), v.len as u64) + spec_field_bool(
        "is_empty".spec_bytes(),
        v.is_empty,
    ) + spec_field_u32("fov_angle".spec_bytes(), v.fov_angle) + spec_hdr(
        "array".spec_bytes(),
        TAG_SEQ,
    ) + grid_color_remote::spec_enc_grid(v.array)
}

/// Decoding of the image record at offset `i`.
pub open spec fn spec_dec_image(s: Seq<u8>, i: int) -> Result<(ImageWireView, int), DecodeError> {
    match spec_dec_field_usize(s, i, "height".spec_bytes()) {
        Ok((height, i1)) => match spec_dec_field_usize(s, i1, "width".spec_bytes()) {
            Ok((width, i2)) => match spec_dec_field_usize(s, i2, "len".spec_bytes()) {
                Ok((len, i3)) => match spec_dec_field_bool(s, i3, "is_empty".spec_bytes()) {
                    Ok((is_empty, i4)) => match spec_dec_field_u32(s, i4, "fov_angle".spec_bytes()) {
                        Ok((fov_angle, i5)) => match spec_dec_hdr(
                            s,
                            i5,
                            "array".spec_bytes(),
                            TAG_SEQ,
                        ) {
                            Ok(i6) => match grid_color_remote::spec_dec_grid(s, i6) {
                                Ok((array, i7)) => Ok(
                                    (
                                        ImageWireView {
                                            height,
                                            width,
                                            len,
                                            is_empty,
                                            fov_angle,
                                            array,
                                        },
                                        i7,
                                    ),
                                ),
                                Err(e) => Err(e),
                            },
                            Err(e) => Err(e),
                        },
                        Err(e) => Err(e),
                    },
                    Err(e) => Err(e),
                },
                Err(e) => Err(e),
            },
            Err(e) => Err(e),
        },
        Err(e) => Err(e),
    }
}

/// Decoding of a whole image record from a complete byte string: the record
/// must span the input exactly.
pub open spec fn spec_image_from_bytes(s: Seq<u8>) -> Result<ImageWireView, DecodeError> {
    match spec_dec_image(s, 0) {
        Ok((v, end)) => if end == s.len() {
            Ok(v)
        } else {
            Err(spec_err(DecodeErrorKind::TrailingBytes, end))
        },
        Err(e) => Err(e),
    }
}

impl ImageEventSerDe {
    /// Encodes the record into freshly allocated wire bytes.
    pub fn encode(&self) -> (r: Vec<u8>)
        requires
            self.array.wf(),
        ensures
            r@ == spec_enc_image(self@),
    {
        let mut out: Vec<u8> = Vec::new();
        enc_field_u64("height", self.height as u64, &mut out);
        enc_field_u64("width", self.width as u64, &mut out);
        enc_field_u64("len", self.len as u64, &mut out);
        enc_field_bool("is_empty", self.is_empty, &mut out);
        enc_field_u32("fov_angle", self.fov_angle, &mut out);
        enc_hdr("array", TAG_SEQ, &mut out);
        grid_color_remote::serialize(&self.array, &mut out);
        assert(out@ =~= spec_enc_image(self@));
        out
    }

    /// Decodes a record from a complete byte string; behaves exactly as
    /// [`spec_image_from_bytes`], and a decoded grid is well-formed.
    pub fn decode(s: &[u8]) -> (r: Result<ImageEventSerDe, DecodeError>)
        ensures
            match r {
                Ok(v) => spec_image_from_bytes(s@) == Ok::<ImageWireView, DecodeError>(v@)
                    && v.array.wf(),
                Err(e) => spec_image_from_bytes(s@) == Err::<ImageWireView, DecodeError>(e),
            },
    {
        let (height, i1) = match dec_field_usize(s, 0, "height") {
            Ok(p) => p,
            Err(e) => {
                return Err(e);
            },
        };
        let (width, i2) = match dec_field_usize(s, i1, "width") {
            Ok(p) => p,
            Err(e) => {
                return Err(e);
            },
        };
        let (len, i3) = match dec_field_usize(s, i2, "len") {
            Ok(p) => p,
            Err(e) => {
                return Err(e);
            },
        };
        let (is_empty, i4) = match dec_field_bool(s, i3, "is_empty") {
            Ok(p) => p,
            Err(e) => {
                return Err(e);
            },
        };
        let (fov_angle, i5) = match dec_field_u32(s, i4, "fov_angle") {
            Ok(p) => p,
            Err(e) => {
                return Err(e);
            },
        };
        let i6 = match dec_hdr(s, i5, "array", TAG_SEQ) {
            Ok(j) => j,
            Err(e) => {
                return Err(e);
            },
        };
        let (array, i7) = match grid_color_remote::deserialize(s, i6) {
            Ok(p) => p,
            Err(e) => {
                return Err(e);
            },
        };
        if i7 != s.len() {
            return Err(DecodeError { kind: DecodeErrorKind::TrailingBytes, at: i7 });
        }
        Ok(ImageEventSerDe { height, width, len, is_empty, fov_angle, array })
    }
}

impl From<ImageEvent> for ImageEventSerDe {
    /// Projects every reported field of the event and takes over its grid.
    fn from(value: ImageEvent) -> (r: ImageEventSerDe) {
        let height = value.height();
        let width = value.width();
        let len = value.len();
        let is_empty = value.is_empty();
        let fov_angle = value.fov_angle();
        ImageEventSerDe { height, width, len, is_empty, fov_angle, array: value.array }
    }
}

impl vstd::std_specs::convert::FromSpecImpl<ImageEvent> for ImageEventSerDe {
    open spec fn obeys_from_spec() -> bool {
        true
    }

    open spec fn from_spec(value: ImageEvent) -> ImageEventSerDe {
        ImageEventSerDe {
            height: value.array.height,
            width: value.array.width,
            len: value.array.cells@.len() as usize,
            is_empty: value.array.cells@.len() == 0,
            fov_angle: value.fov_angle,
            array: value.array,
        }
    }
}

/// For every image record with a well-formed grid, encoding and then
/// decoding the complete byte string yields the record back: same projected
/// fields, same grid height and width, same cells in row-major order. A grid
/// of height zero is covered with width zero, as in
/// [`grid_color_remote::lemma_grid_round_trip`].
#[verifier::rlimit(100)]
pub proof fn lemma_image_round_trip(v: ImageWireView)
    requires
        v.array.wf(),
        v.array.height > 0 || v.array.width == 0,
        v.array.height < 0x1_0000_0000_0000_0000,
        v.array.width < 0x1_0000_0000_0000_0000,
    ensures
        spec_image_from_bytes(spec_enc_image(v)) == Ok::<ImageWireView, DecodeError>(v),
{
    let s = spec_enc_image(v);
    lemma_image_names();
    let f1 = spec_field_u64("height".spec_bytes(), v.height as u64);
    let f2 = spec_field_u64("width".spec_bytes(), v.width as u64);
    let f3 = spec_field_u64("len".spec_bytes(), v.len as u64);
    let f4 = spec_field_bool("is_empty".spec_bytes(), v.is_empty);
    let f5 = spec_field_u32("fov_angle".spec_bytes(), v.fov_angle);
    let f6 = spec_hdr("array".spec_bytes(), TAG_SEQ);
    let f7 = grid_color_remote::spec_enc_grid(v.array);
    let i1 = f1.len() as int;
    let i2 = i1 + f2.len();
    let i3 = i2 + f3.len();
    let i4 = i3 + f4.len();
    let i5 = i4 + f5.len();
    let i6 = i5 + f6.len();
    let i7 = i6 + f7.len();
    assert(s == f1 + f2 + f3 + f4 + f5 + f6 + f7);
    lemma_split_seven(s, f1, f2, f3, f4, f5, f6, f7);
    lemma_dec_enc_field_usize(s, 0, "height".spec_bytes(), v.height);
    lemma_dec_enc_field_usize(s, i1, "width".spec_bytes(), v.width);
    lemma_dec_enc_field_usize(s, i2, "len".spec_bytes(), v.len);
    lemma_dec_enc_field_bool(s, i3, "is_empty".spec_bytes(), v.is_empty);
    lemma_dec_enc_field_u32(s, i4, "fov_angle".spec_bytes(), v.fov_angle);
    lemma_dec_enc_hdr(s, i5, "array".spec_bytes(), TAG_SEQ);
    grid_color_remote::lemma_dec_enc_grid(s, i6, v.array);
    assert(spec_dec_image(s, 0) == Ok::<(ImageWireView, int), DecodeError>((v, i7)));
}

} // verus!
