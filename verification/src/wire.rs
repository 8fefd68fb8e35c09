//! The wire format: a self-describing byte encoding shared by every payload
//! of the crate.
//!
//! A record is encoded as its fields in declaration order. Each field starts
//! with a header: one byte holding the length of the field's name, the name's
//! bytes, and one tag byte naming the primitive kind of the value. The value
//! follows the header: scalars as big-endian bytes, sequences as an element
//! count followed by the encoded elements. Decoding checks name and kind of
//! every field against the expected schema and reports a structured error
//! with the byte offset at which decoding failed.

use vstd::prelude::*;
use vstd::string::StringSliceAdditionalSpecFns;

verus! {

/// Tag byte of a field holding one unsigned byte.
pub const TAG_U8: u8 = 1;

/// Tag byte of a field holding a 32-bit scalar; a floating-point field
/// travels as its IEEE 754 bit pattern under this tag.
pub const TAG_BITS32: u8 = 2;

/// Tag byte of a field holding a 64-bit unsigned integer.
pub const TAG_U64: u8 = 3;

/// Tag byte of a boolean field.
pub const TAG_BOOL: u8 = 4;

/// Tag byte of a sequence field: a 64-bit element count, then the elements.
pub const TAG_SEQ: u8 = 5;

/// Tag byte of a nested record field: the nested fields follow in order.
pub const TAG_REC: u8 = 6;

/// What went wrong while decoding.
#[derive(Clone, Copy, PartialEq, Eq, Structural, Debug)]
pub enum DecodeErrorKind {
    /// The input ended before the expected field or value was complete.
    Truncated,
    /// A field arrived under a name other than the expected one.
    FieldName,
    /// A field arrived under the expected name but with the wrong kind tag.
    FieldKind,
    /// A boolean field held a byte other than zero or one.
    BadBool,
    /// A decoded length does not fit the platform's word size.
    LengthOverflow,
    /// The rows of a two-dimensional grid do not all have the same length.
    Ragged,
    /// Decoding finished before the end of the input.
    TrailingBytes,
}

/// A structured decode error: the kind of violation and the byte offset at
/// which it was detected.
#[derive(Clone, Copy, PartialEq, Eq, Structural, Debug)]
pub struct DecodeError {
    pub kind: DecodeErrorKind,
    pub at: usize,
}

/// Shorthand for building a [`DecodeError`] in specifications.
pub open spec fn spec_err(kind: DecodeErrorKind, at: int) -> DecodeError {
    DecodeError { kind, at: at as usize }
}

// ---------------------------------------------------------------------------
// Encoding, specification level
// ---------------------------------------------------------------------------

/// Encoding of one byte.
pub open spec fn spec_enc_u8(x: u8) -> Seq<u8> {
    seq![x]
}

/// Big-endian encoding of a 32-bit scalar.
pub open spec fn spec_enc_u32(x: u32) -> Seq<u8> {
    seq![
        ((x >> 24) & 0xff) as u8,
        ((x >> 16) & 0xff) as u8,
        ((x >> 8) & 0xff) as u8,
        (x & 0xff) as u8,
    ]
}

/// Big-endian encoding of a 64-bit unsigned integer.
pub open spec fn spec_enc_u64(x: u64) -> Seq<u8> {
    seq![
        ((x >> 56) & 0xff) as u8,
        ((x >> 48) & 0xff) as u8,
        ((x >> 40) & 0xff) as u8,
        ((x >> 32) & 0xff) as u8,
        ((x >> 24) & 0xff) as u8,
        ((x >> 16) & 0xff) as u8,
        ((x >> 8) & 0xff) as u8,
        (x & 0xff) as u8,
    ]
}

/// Encoding of a boolean: one byte, zero or one.
pub open spec fn spec_enc_bool(b: bool) -> Seq<u8> {
    seq![if b { 1u8 } else { 0u8 }]
}

/// Header of a field: name length, name bytes, kind tag.
pub open spec fn spec_hdr(name: Seq<u8>, tag: u8) -> Seq<u8> {
    seq![name.len() as u8] + name + seq![tag]
}

/// A whole field holding one byte.
pub open spec fn spec_field_u8(name: Seq<u8>, x: u8) -> Seq<u8> {
    spec_hdr(name, TAG_U8) + spec_enc_u8(x)
}

/// A whole field holding a 32-bit scalar.
pub open spec fn spec_field_u32(name: Seq<u8>, x: u32) -> Seq<u8> {
    spec_hdr(name, TAG_BITS32) + spec_enc_u32(x)
}

/// A whole field holding a 64-bit unsigned integer.
pub open spec fn spec_field_u64(name: Seq<u8>, x: u64) -> Seq<u8> {
    spec_hdr(name, TAG_U64) + spec_enc_u64(x)
}

/// A whole field holding a boolean.
pub open spec fn spec_field_bool(name: Seq<u8>, b: bool) -> Seq<u8> {
    spec_hdr(name, TAG_BOOL) + spec_enc_bool(b)
}

/// The header of a nested record field. The nested record's fields follow it.
pub open spec fn spec_field_rec_hdr(name: Seq<u8>) -> Seq<u8> {
    spec_hdr(name, TAG_REC)
}

// ---------------------------------------------------------------------------
// Decoding, specification level
// ---------------------------------------------------------------------------

/// Reassembly of a 32-bit scalar from four big-endian bytes.
pub open spec fn spec_u32_from(b0: u8, b1: u8, b2: u8, b3: u8) -> u32 {
    ((b0 as u32) << 24) | ((b1 as u32) << 16) | ((b2 as u32) << 8) | (b3 as u32)
}

/// Reassembly of a 64-bit unsigned integer from eight big-endian bytes.
pub open spec fn spec_u64_from(
    b0: u8,
    b1: u8,
    b2: u8,
    b3: u8,
    b4: u8,
    b5: u8,
    b6: u8,
    b7: u8,
) -> u64 {
    ((b0 as u64) << 56) | ((b1 as u64) << 48) | ((b2 as u64) << 40) | ((b3 as u64) << 32) | ((
    b4 as u64) << 24) | ((b5 as u64) << 16) | ((b6 as u64) << 8) | (b7 as u64)
}

/// Decoding of one byte at offset `i`.
pub open spec fn spec_dec_u8(s: Seq<u8>, i: int) -> Result<(u8, int), DecodeError> {
    if 0 <= i && i + 1 <= s.len() {
        Ok((s[i], i + 1))
    } else {
        Err(spec_err(DecodeErrorKind::Truncated, i))
    }
}

/// Decoding of a big-endian 32-bit scalar at offset `i`.
pub open spec fn spec_dec_u32(s: Seq<u8>, i: int) -> Result<(u32, int), DecodeError> {
    if 0 <= i && i + 4 <= s.len() {
        Ok((spec_u32_from(s[i], s[i + 1], s[i + 2], s[i + 3]), i + 4))
    } else {
        Err(spec_err(DecodeErrorKind::Truncated, i))
    }
}

/// Decoding of a big-endian 64-bit unsigned integer at offset `i`.
pub open spec fn spec_dec_u64(s: Seq<u8>, i: int) -> Result<(u64, int), DecodeError> {
    if 0 <= i && i + 8 <= s.len() {
        Ok(
            (
                spec_u64_from(
                    s[i],
                    s[i + 1],
                    s[i + 2],
                    s[i + 3],
                    s[i + 4],
                    s[i + 5],
                    s[i + 6],
                    s[i + 7],
                ),
                i + 8,
            ),
        )
    } else {
        Err(spec_err(DecodeErrorKind::Truncated, i))
    }
}

/// Decoding of a boolean at offset `i`.
pub open spec fn spec_dec_bool(s: Seq<u8>, i: int) -> Result<(bool, int), DecodeError> {
    if 0 <= i && i + 1 <= s.len() {
        if s[i] == 0 {
            Ok((false, i + 1))
        } else if s[i] == 1 {
            Ok((true, i + 1))
        } else {
            Err(spec_err(DecodeErrorKind::BadBool, i))
        }
    } else {
        Err(spec_err(DecodeErrorKind::Truncated, i))
    }
}

/// Decoding of a field header at offset `i`, checked against the expected
/// name and kind tag. On success the offset just past the header is returned.
pub open spec fn spec_dec_hdr(s: Seq<u8>, i: int, name: Seq<u8>, tag: u8) -> Result<
    int,
    DecodeError,
> {
    if !(0 <= i && i + 1 <= s.len()) {
        Err(spec_err(DecodeErrorKind::Truncated, i))
    } else {
        let nlen = s[i] as int;
        if i + 2 + nlen > s.len() {
            Err(spec_err(DecodeErrorKind::Truncated, i))
        } else if nlen != name.len() || s.subrange(i + 1, i + 1 + nlen) != name {
            Err(spec_err(DecodeErrorKind::FieldName, i))
        } else if s[i + 1 + nlen] != tag {
            Err(spec_err(DecodeErrorKind::FieldKind, i + 1 + nlen))
        } else {
            Ok(i + 2 + nlen)
        }
    }
}

/// Decoding of a whole field holding one byte.
pub open spec fn spec_dec_field_u8(s: Seq<u8>, i: int, name: Seq<u8>) -> Result<
    (u8, int),
    DecodeError,
> {
    match spec_dec_hdr(s, i, name, TAG_U8) {
        Ok(j) => spec_dec_u8(s, j),
        Err(e) => Err(e),
    }
}

/// Decoding of a whole field holding a 32-bit scalar.
pub open spec fn spec_dec_field_u32(s: Seq<u8>, i: int, name: Seq<u8>) -> Result<
    (u32, int),
    DecodeError,
> {
    match spec_dec_hdr(s, i, name, TAG_BITS32) {
        Ok(j) => spec_dec_u32(s, j),
        Err(e) => Err(e),
    }
}

/// Decoding of a whole field holding a 64-bit unsigned integer.
pub open spec fn spec_dec_field_u64(s: Seq<u8>, i: int, name: Seq<u8>) -> Result<
    (u64, int),
    DecodeError,
> {
    match spec_dec_hdr(s, i, name, TAG_U64) {
        Ok(j) => spec_dec_u64(s, j),
        Err(e) => Err(e),
    }
}

/// Decoding of a whole field holding a boolean.
pub open spec fn spec_dec_field_bool(s: Seq<u8>, i: int, name: Seq<u8>) -> Result<
    (bool, int),
    DecodeError,
> {
    match spec_dec_hdr(s, i, name, TAG_BOOL) {
        Ok(j) => spec_dec_bool(s, j),
        Err(e) => Err(e),
    }
}

/// Decoding of a 64-bit field into a platform word: a value over the
/// platform's word size is a length-overflow error, placed at the field's
/// start.
pub open spec fn spec_dec_field_usize(s: Seq<u8>, i: int, name: Seq<u8>) -> Result<
    (usize, int),
    DecodeError,
> {
    match spec_dec_field_u64(s, i, name) {
        Ok((x, j)) => if x <= usize::MAX as u64 {
            Ok((x as usize, j))
        } else {
            Err(spec_err(DecodeErrorKind::LengthOverflow, i))
        },
        Err(e) => Err(e),
    }
}


// ---------------------------------------------------------------------------
// Encoding, executable level
// ---------------------------------------------------------------------------

/// Appends the bytes of a slice to the output buffer.
pub fn push_bytes(out: &mut Vec<u8>, b: &[u8])
    ensures
        final(out)@ == old(out)@ + b@,
{
    let mut k: usize = 0;
    while k < b.len()
        invariant
            k <= b@.len(),
            out@ == old(out)@ + b@.subrange(0, k as int),
        decreases b@.len() - k,
    {
        out.push(b[k]);
        assert(out@ =~= old(out)@ + b@.subrange(0, k + 1));
        k = k + 1;
    }
    assert(out@ =~= old(out)@ + b@);
}

/// Appends the encoding of one byte.
pub fn enc_u8(x: u8, out: &mut Vec<u8>)
    ensures
        final(out)@ == old(out)@ + spec_enc_u8(x),
{
    out.push(x);
    assert(out@ =~= old(out)@ + spec_enc_u8(x));
}

/// Appends the big-endian encoding of a 32-bit scalar.
pub fn enc_u32(x: u32, out: &mut Vec<u8>)
    ensures
        final(out)@ == old(out)@ + spec_enc_u32(x),
{
    out.push(((x >> 24) & 0xff) as u8);
    out.push(((x >> 16) & 0xff) as u8);
    out.push(((x >> 8) & 0xff) as u8);
    out.push((x & 0xff) as u8);
    assert(out@ =~= old(out)@ + spec_enc_u32(x));
}

/// Appends the big-endian encoding of a 64-bit unsigned integer.
pub fn enc_u64(x: u64, out: &mut Vec<u8>)
    ensures
        final(out)@ == old(out)@ + spec_enc_u64(x),
{
    out.push(((x >> 56) & 0xff) as u8);
    out.push(((x >> 48) & 0xff) as u8);
    out.push(((x >> 40) & 0xff) as u8);
    out.push(((x >> 32) & 0xff) as u8);
    out.push(((x >> 24) & 0xff) as u8);
    out.push(((x >> 16) & 0xff) as u8);
    out.push(((x >> 8) & 0xff) as u8);
    out.push((x & 0xff) as u8);
    assert(out@ =~= old(out)@ + spec_enc_u64(x));
}

/// Appends the encoding of a boolean.
pub fn enc_bool(b: bool, out: &mut Vec<u8>)
    ensures
        final(out)@ == old(out)@ + spec_enc_bool(b),
{
    out.push(if b { 1 } else { 0 });
    assert(out@ =~= old(out)@ + spec_enc_bool(b));
}

/// Appends a field header: name length, name bytes, kind tag.
pub fn enc_hdr(name: &str, tag: u8, out: &mut Vec<u8>)
    ensures
        final(out)@ == old(out)@ + spec_hdr(name.spec_bytes(), tag),
{
    let nb = name.as_bytes();
    out.push(nb.len() as u8);
    push_bytes(out, nb);
    out.push(tag);
    assert(out@ =~= old(out)@ + spec_hdr(name.spec_bytes(), tag));
}

/// Appends a whole field holding one byte.
pub fn enc_field_u8(name: &str, x: u8, out: &mut Vec<u8>)
    ensures
        final(out)@ == old(out)@ + spec_field_u8(name.spec_bytes(), x),
{
    enc_hdr(name, TAG_U8, out);
    enc_u8(x, out);
    assert(out@ =~= old(out)@ + spec_field_u8(name.spec_bytes(), x));
}

/// Appends a whole field holding a 32-bit scalar.
pub fn enc_field_u32(name: &str, x: u32, out: &mut Vec<u8>)
    ensures
        final(out)@ == old(out)@ + spec_field_u32(name.spec_bytes(), x),
{
    enc_hdr(name, TAG_BITS32, out);
    enc_u32(x, out);
    assert(out@ =~= old(out)@ + spec_field_u32(name.spec_bytes(), x));
}

/// Appends a whole field holding a 64-bit unsigned integer.
pub fn enc_field_u64(name: &str, x: u64, out: &mut Vec<u8>)
    ensures
        final(out)@ == old(out)@ + spec_field_u64(name.spec_bytes(), x),
{
    enc_hdr(name, TAG_U64, out);
    enc_u64(x, out);
    assert(out@ =~= old(out)@ + spec_field_u64(name.spec_bytes(), x));
}

/// Appends a whole field holding a boolean.
pub fn enc_field_bool(name: &str, b: bool, out: &mut Vec<u8>)
    ensures
        final(out)@ == old(out)@ + spec_field_bool(name.spec_bytes(), b),
{
    enc_hdr(name, TAG_BOOL, out);
    enc_bool(b, out);
    assert(out@ =~= old(out)@ + spec_field_bool(name.spec_bytes(), b));
}


/// Appends the header of a nested record field.
pub fn enc_field_rec_hdr(name: &str, out: &mut Vec<u8>)
    ensures
        final(out)@ == old(out)@ + spec_field_rec_hdr(name.spec_bytes()),
{
    enc_hdr(name, TAG_REC, out);
    assert(out@ =~= old(out)@ + spec_field_rec_hdr(name.spec_bytes()));
}

// ---------------------------------------------------------------------------
// Decoding, executable level
// ---------------------------------------------------------------------------

/// Decodes one byte; behaves exactly as [`spec_dec_u8`].
pub fn dec_u8(s: &[u8], pos: usize) -> (r: Result<(u8, usize), DecodeError>)
    ensures
        match r {
            Ok(p) => spec_dec_u8(s@, pos as int) == Ok::<(u8, int), DecodeError>((p.0, p.1 as int))
                && pos < p.1 <= s@.len(),
            Err(e) => spec_dec_u8(s@, pos as int) == Err::<(u8, int), DecodeError>(e),
        },
{
    if pos < s.len() {
        Ok((s[pos], pos + 1))
    } else {
        Err(DecodeError { kind: DecodeErrorKind::Truncated, at: pos })
    }
}

/// Decodes a big-endian 32-bit scalar; behaves exactly as [`spec_dec_u32`].
pub fn dec_u32(s: &[u8], pos: usize) -> (r: Result<(u32, usize), DecodeError>)
    ensures
        match r {
            Ok(p) => spec_dec_u32(s@, pos as int) == Ok::<(u32, int), DecodeError>(
                (p.0, p.1 as int),
            ) && pos < p.1 <= s@.len(),
            Err(e) => spec_dec_u32(s@, pos as int) == Err::<(u32, int), DecodeError>(e),
        },
{
    if s.len() >= 4 && pos <= s.len() - 4 {
        let x = ((s[pos] as u32) << 24) | ((s[pos + 1] as u32) << 16) | ((s[pos + 2] as u32) << 8)
            | (s[pos + 3] as u32);
        Ok((x, pos + 4))
    } else {
        Err(DecodeError { kind: DecodeErrorKind::Truncated, at: pos })
    }
}

/// Decodes a big-endian 64-bit unsigned integer; behaves exactly as
/// [`spec_dec_u64`].
pub fn dec_u64(s: &[u8], pos: usize) -> (r: Result<(u64, usize), DecodeError>)
    ensures
        match r {
            Ok(p) => spec_dec_u64(s@, pos as int) == Ok::<(u64, int), DecodeError>(
                (p.0, p.1 as int),
            ) && pos < p.1 <= s@.len(),
            Err(e) => spec_dec_u64(s@, pos as int) == Err::<(u64, int), DecodeError>(e),
        },
{
    if s.len() >= 8 && pos <= s.len() - 8 {
        let x = ((s[pos] as u64) << 56) | ((s[pos + 1] as u64) << 48) | ((s[pos + 2] as u64) << 40)
            | ((s[pos + 3] as u64) << 32) | ((s[pos + 4] as u64) << 24) | ((s[pos + 5] as u64)
            << 16) | ((s[pos + 6] as u64) << 8) | (s[pos + 7] as u64);
        Ok((x, pos + 8))
    } else {
        Err(DecodeError { kind: DecodeErrorKind::Truncated, at: pos })
    }
}

/// Decodes a boolean; behaves exactly as [`spec_dec_bool`].
pub fn dec_bool(s: &[u8], pos: usize) -> (r: Result<(bool, usize), DecodeError>)
    ensures
        match r {
            Ok(p) => spec_dec_bool(s@, pos as int) == Ok::<(bool, int), DecodeError>(
                (p.0, p.1 as int),
            ) && pos < p.1 <= s@.len(),
            Err(e) => spec_dec_bool(s@, pos as int) == Err::<(bool, int), DecodeError>(e),
        },
{
    if pos < s.len() {
        let b = s[pos];
        if b == 0 {
            Ok((false, pos + 1))
        } else if b == 1 {
            Ok((true, pos + 1))
        } else {
            Err(DecodeError { kind: DecodeErrorKind::BadBool, at: pos })
        }
    } else {
        Err(DecodeError { kind: DecodeErrorKind::Truncated, at: pos })
    }
}

/// Decodes a field header against the expected name and kind tag; behaves
/// exactly as [`spec_dec_hdr`].
pub fn dec_hdr(s: &[u8], pos: usize, name: &str, tag: u8) -> (r: Result<usize, DecodeError>)
    ensures
        match r {
            Ok(j) => spec_dec_hdr(s@, pos as int, name.spec_bytes(), tag) == Ok::<int, DecodeError>(
                j as int,
            ) && pos < j <= s@.len(),
            Err(e) => spec_dec_hdr(s@, pos as int, name.spec_bytes(), tag) == Err::<
                int,
                DecodeError,
            >(e),
        },
{
    if pos >= s.len() {
        return Err(DecodeError { kind: DecodeErrorKind::Truncated, at: pos });
    }
    let nlen = s[pos] as usize;
    let rem = s.len() - pos;
    if rem < 2 || rem - 2 < nlen {
        return Err(DecodeError { kind: DecodeErrorKind::Truncated, at: pos });
    }
    let nb = name.as_bytes();
    if nlen != nb.len() {
        return Err(DecodeError { kind: DecodeErrorKind::FieldName, at: pos });
    }
    let mut k: usize = 0;
    while k < nlen
        invariant
            k <= nlen,
            nlen == nb@.len(),
            nb@ == name.spec_bytes(),
            pos + 2 + nlen <= s@.len(),
            pos + 2 + nlen <= usize::MAX,
            nlen as int == s@[pos as int] as int,
            forall|t: int| 0 <= t < k ==> s@[pos + 1 + t] == nb@[t],
        decreases nlen - k,
    {
        if s[pos + 1 + k] != nb[k] {
            assert(s@.subrange(pos + 1, pos + 1 + nlen as int) != name.spec_bytes()) by {
                assert(s@.subrange(pos + 1, pos + 1 + nlen as int)[k as int] == s@[pos + 1 + k]);
            }
            return Err(DecodeError { kind: DecodeErrorKind::FieldName, at: pos });
        }
        k = k + 1;
    }
    assert(s@.subrange(pos + 1, pos + 1 + nlen as int) =~= name.spec_bytes());
    if s[pos + 1 + nlen] != tag {
        return Err(DecodeError { kind: DecodeErrorKind::FieldKind, at: pos + 1 + nlen });
    }
    Ok(pos + 2 + nlen)
}

/// Decodes a whole field holding one byte; behaves exactly as
/// [`spec_dec_field_u8`].
pub fn dec_field_u8(s: &[u8], pos: usize, name: &str) -> (r: Result<(u8, usize), DecodeError>)
    ensures
        match r {
            Ok(p) => spec_dec_field_u8(s@, pos as int, name.spec_bytes()) == Ok::<
                (u8, int),
                DecodeError,
            >((p.0, p.1 as int)) && pos < p.1 <= s@.len(),
            Err(e) => spec_dec_field_u8(s@, pos as int, name.spec_bytes()) == Err::<
                (u8, int),
                DecodeError,
            >(e),
        },
{
    let j = match dec_hdr(s, pos, name, TAG_U8) {
        Ok(j) => j,
        Err(e) => {
            return Err(e);
        },
    };
    match dec_u8(s, j) {
        Ok(p) => Ok(p),
        Err(e) => Err(e),
    }
}

/// Decodes a whole field holding a 32-bit scalar; behaves exactly as
/// [`spec_dec_field_u32`].
pub fn dec_field_u32(s: &[u8], pos: usize, name: &str) -> (r: Result<(u32, usize), DecodeError>)
    ensures
        match r {
            Ok(p) => spec_dec_field_u32(s@, pos as int, name.spec_bytes()) == Ok::<
                (u32, int),
                DecodeError,
            >((p.0, p.1 as int)) && pos < p.1 <= s@.len(),
            Err(e) => spec_dec_field_u32(s@, pos as int, name.spec_bytes()) == Err::<
                (u32, int),
                DecodeError,
            >(e),
        },
{
    let j = match dec_hdr(s, pos, name, TAG_BITS32) {
        Ok(j) => j,
        Err(e) => {
            return Err(e);
        },
    };
    match dec_u32(s, j) {
        Ok(p) => Ok(p),
        Err(e) => Err(e),
    }
}

/// Decodes a whole field holding a 64-bit unsigned integer; behaves exactly
/// as [`spec_dec_field_u64`].
pub fn dec_field_u64(s: &[u8], pos: usize, name: &str) -> (r: Result<(u64, usize), DecodeError>)
    ensures
        match r {
            Ok(p) => spec_dec_field_u64(s@, pos as int, name.spec_bytes()) == Ok::<
                (u64, int),
                DecodeError,
            >((p.0, p.1 as int)) && pos < p.1 <= s@.len(),
            Err(e) => spec_dec_field_u64(s@, pos as int, name.spec_bytes()) == Err::<
                (u64, int),
                DecodeError,
            >(e),
        },
{
    let j = match dec_hdr(s, pos, name, TAG_U64) {
        Ok(j) => j,
        Err(e) => {
            return Err(e);
        },
    };
    match dec_u64(s, j) {
        Ok(p) => Ok(p),
        Err(e) => Err(e),
    }
}

/// Decodes a whole field holding a boolean; behaves exactly as
/// [`spec_dec_field_bool`].
pub fn dec_field_bool(s: &[u8], pos: usize, name: &str) -> (r: Result<(bool, usize), DecodeError>)
    ensures
        match r {
            Ok(p) => spec_dec_field_bool(s@, pos as int, name.spec_bytes()) == Ok::<
                (bool, int),
                DecodeError,
            >((p.0, p.1 as int)) && pos < p.1 <= s@.len(),
            Err(e) => spec_dec_field_bool(s@, pos as int, name.spec_bytes()) == Err::<
                (bool, int),
                DecodeError,
            >(e),
        },
{
    let j = match dec_hdr(s, pos, name, TAG_BOOL) {
        Ok(j) => j,
        Err(e) => {
            return Err(e);
        },
    };
    match dec_bool(s, j) {
        Ok(p) => Ok(p),
        Err(e) => Err(e),
    }
}

/// Decodes a 64-bit field into a platform word; behaves exactly as
/// [`spec_dec_field_usize`].
pub fn dec_field_usize(s: &[u8], pos: usize, name: &str) -> (r: Result<(usize, usize), DecodeError>)
    ensures
        match r {
            Ok(p) => spec_dec_field_usize(s@, pos as int, name.spec_bytes()) == Ok::<
                (usize, int),
                DecodeError,
            >((p.0, p.1 as int)) && pos < p.1 <= s@.len(),
            Err(e) => spec_dec_field_usize(s@, pos as int, name.spec_bytes()) == Err::<
                (usize, int),
                DecodeError,
            >(e),
        },
{
    let (x, j) = match dec_field_u64(s, pos, name) {
        Ok(p) => p,
        Err(e) => {
            return Err(e);
        },
    };
    if x <= usize::MAX as u64 {
        Ok((x as usize, j))
    } else {
        Err(DecodeError { kind: DecodeErrorKind::LengthOverflow, at: pos })
    }
}



// ---------------------------------------------------------------------------
// Round-trip lemmas
// ---------------------------------------------------------------------------

/// For an ASCII name the encoded byte length equals the character count.
pub proof fn lemma_ascii_name_len(s: &str)
    requires
        vstd::string::is_ascii(s),
    ensures
        s.spec_bytes().len() == s@.len(),
{
    broadcast use vstd::string::is_ascii_spec_bytes;

}

/// Splits a subrange equal to a concatenation into its two halves.
pub proof fn lemma_concat_split(s: Seq<u8>, i: int, a: Seq<u8>, b: Seq<u8>)
    requires
        0 <= i,
        i + a.len() + b.len() <= s.len(),
        s.subrange(i, i + a.len() + b.len()) == a + b,
    ensures
        s.subrange(i, i + a.len()) == a,
        s.subrange(i + a.len(), i + a.len() + b.len()) == b,
{
    assert forall|k: int| 0 <= k < a.len() implies s.subrange(i, i + a.len() as int)[k] == a[k] by {
        assert(s.subrange(i, i + a.len() + b.len())[k] == (a + b)[k]);
    }
    assert forall|k: int| 0 <= k < b.len() implies s.subrange(
        i + a.len(),
        i + a.len() + b.len(),
    )[k] == b[k] by {
        assert((a + b)[a.len() + k] == b[k]);
        assert(s.subrange(i, i + a.len() + b.len())[a.len() + k] == s[i + a.len() + k]);
        assert(s.subrange(i + a.len(), i + a.len() + b.len())[k] == s[i + a.len() + k]);
    }
    assert(s.subrange(i, i + a.len() as int) =~= a);
    assert(s.subrange(i + a.len(), i + a.len() + b.len()) =~= b);
}

/// Splits a byte string equal to a concatenation of up to seven parts into
/// the subrange each part occupies. A record's fields are encoded in
/// declaration order, so each field sits at the sum of the lengths before it.
pub proof fn lemma_split_seven(
    s: Seq<u8>,
    f1: Seq<u8>,
    f2: Seq<u8>,
    f3: Seq<u8>,
    f4: Seq<u8>,
    f5: Seq<u8>,
    f6: Seq<u8>,
    f7: Seq<u8>,
)
    requires
        s == f1 + f2 + f3 + f4 + f5 + f6 + f7,
    ensures
        s.len() == f1.len() as int + f2.len() + f3.len() + f4.len() + f5.len() + f6.len() + f7.len(),
        s.subrange(0, f1.len() as int) == f1,
        s.subrange(f1.len() as int, f1.len() as int + f2.len()) == f2,
        s.subrange(f1.len() as int + f2.len(), f1.len() as int + f2.len() + f3.len()) == f3,
        s.subrange(f1.len() as int + f2.len() + f3.len(), f1.len() as int + f2.len() + f3.len() + f4.len())
            == f4,
        s.subrange(
            f1.len() as int + f2.len() + f3.len() + f4.len(),
            f1.len() as int + f2.len() + f3.len() + f4.len() + f5.len(),
        ) == f5,
        s.subrange(
            f1.len() as int + f2.len() + f3.len() + f4.len() + f5.len(),
            f1.len() as int + f2.len() + f3.len() + f4.len() + f5.len() + f6.len(),
        ) == f6,
        s.subrange(
            f1.len() as int + f2.len() + f3.len() + f4.len() + f5.len() + f6.len(),
            f1.len() as int + f2.len() + f3.len() + f4.len() + f5.len() + f6.len() + f7.len(),
        ) == f7,
{
    let p2 = f1 + f2;
    let p3 = p2 + f3;
    let p4 = p3 + f4;
    let p5 = p4 + f5;
    let p6 = p5 + f6;
    assert(s.subrange(0, s.len() as int) =~= s);
    lemma_concat_split(s, 0, p6, f7);
    lemma_concat_split(s, 0, p5, f6);
    lemma_concat_split(s, 0, p4, f5);
    lemma_concat_split(s, 0, p3, f4);
    lemma_concat_split(s, 0, p2, f3);
    lemma_concat_split(s, 0, f1, f2);
}

/// Splits a byte string equal to a concatenation of five parts into the
/// subrange each part occupies, as [`lemma_split_seven`] does for seven.
pub proof fn lemma_split_five(
    s: Seq<u8>,
    f1: Seq<u8>,
    f2: Seq<u8>,
    f3: Seq<u8>,
    f4: Seq<u8>,
    f5: Seq<u8>,
)
    requires
        s == f1 + f2 + f3 + f4 + f5,
    ensures
        s.len() == f1.len() as int + f2.len() + f3.len() + f4.len() + f5.len(),
        s.subrange(0, f1.len() as int) == f1,
        s.subrange(f1.len() as int, f1.len() as int + f2.len()) == f2,
        s.subrange(f1.len() as int + f2.len(), f1.len() as int + f2.len() + f3.len()) == f3,
        s.subrange(
            f1.len() as int + f2.len() + f3.len(),
            f1.len() as int + f2.len() + f3.len() + f4.len(),
        ) == f4,
        s.subrange(
            f1.len() as int + f2.len() + f3.len() + f4.len(),
            f1.len() as int + f2.len() + f3.len() + f4.len() + f5.len(),
        ) == f5,
{
    let p2 = f1 + f2;
    let p3 = p2 + f3;
    let p4 = p3 + f4;
    assert(s.subrange(0, s.len() as int) =~= s);
    lemma_concat_split(s, 0, p4, f5);
    lemma_concat_split(s, 0, p3, f4);
    lemma_concat_split(s, 0, p2, f3);
    lemma_concat_split(s, 0, f1, f2);
}

/// Splits a byte string equal to a concatenation of six parts into the
/// subrange each part occupies, as [`lemma_split_seven`] does for seven.
pub proof fn lemma_split_six(
    s: Seq<u8>,
    f1: Seq<u8>,
    f2: Seq<u8>,
    f3: Seq<u8>,
    f4: Seq<u8>,
    f5: Seq<u8>,
    f6: Seq<u8>,
)
    requires
        s == f1 + f2 + f3 + f4 + f5 + f6,
    ensures
        s.len() == f1.len() as int + f2.len() + f3.len() + f4.len() + f5.len() + f6.len(),
        s.subrange(0, f1.len() as int) == f1,
        s.subrange(f1.len() as int, f1.len() as int + f2.len()) == f2,
        s.subrange(f1.len() as int + f2.len(), f1.len() as int + f2.len() + f3.len()) == f3,
        s.subrange(
            f1.len() as int + f2.len() + f3.len(),
            f1.len() as int + f2.len() + f3.len() + f4.len(),
        ) == f4,
        s.subrange(
            f1.len() as int + f2.len() + f3.len() + f4.len(),
            f1.len() as int + f2.len() + f3.len() + f4.len() + f5.len(),
        ) == f5,
        s.subrange(
            f1.len() as int + f2.len() + f3.len() + f4.len() + f5.len(),
            f1.len() as int + f2.len() + f3.len() + f4.len() + f5.len() + f6.len(),
        ) == f6,
{
    let p2 = f1 + f2;
    let p3 = p2 + f3;
    let p4 = p3 + f4;
    let p5 = p4 + f5;
    assert(s.subrange(0, s.len() as int) =~= s);
    lemma_concat_split(s, 0, p5, f6);
    lemma_concat_split(s, 0, p4, f5);
    lemma_concat_split(s, 0, p3, f4);
    lemma_concat_split(s, 0, p2, f3);
    lemma_concat_split(s, 0, f1, f2);
}

/// Decoding a header from its own encoding succeeds.
pub proof fn lemma_dec_enc_hdr(s: Seq<u8>, i: int, name: Seq<u8>, tag: u8)
    requires
        0 <= i,
        name.len() < 256,
        i + spec_hdr(name, tag).len() <= s.len(),
        s.subrange(i, i + spec_hdr(name, tag).len()) == spec_hdr(name, tag),
    ensures
        spec_dec_hdr(s, i, name, tag) == Ok::<int, DecodeError>(i + 2 + name.len()),
{
    let h = spec_hdr(name, tag);
    let n = name.len() as int;
    assert(h.len() == n + 2);
    assert(s[i] == h[0]);
    assert(s[i] as int == n);
    assert(s.subrange(i + 1, i + 1 + n) =~= name) by {
        assert forall|k: int| 0 <= k < n implies s.subrange(i + 1, i + 1 + n)[k] == name[k] by {
            assert(s.subrange(i, i + h.len())[1 + k] == h[1 + k]);
        }
    }
    assert(s[i + 1 + n] == h[n + 1]);
    assert(s[i + 1 + n] == tag);
}

/// Decoding one byte from its own encoding yields the byte back.
pub proof fn lemma_dec_enc_u8(s: Seq<u8>, i: int, x: u8)
    requires
        0 <= i,
        i + 1 <= s.len(),
        s.subrange(i, i + 1) == spec_enc_u8(x),
    ensures
        spec_dec_u8(s, i) == Ok::<(u8, int), DecodeError>((x, i + 1)),
{
    assert(s[i] == spec_enc_u8(x)[0]);
}

/// Reassembling a 32-bit scalar from its own big-endian bytes yields the
/// scalar back.
pub proof fn lemma_u32_roundtrip(x: u32)
    ensures
        spec_u32_from(
            ((x >> 24) & 0xff) as u8,
            ((x >> 16) & 0xff) as u8,
            ((x >> 8) & 0xff) as u8,
            (x & 0xff) as u8,
        ) == x,
{
    assert(((((x >> 24) & 0xff) as u8) as u32) << 24 | ((((x >> 16) & 0xff) as u8) as u32) << 16 | (
    (((x >> 8) & 0xff) as u8) as u32) << 8 | (((x & 0xff) as u8) as u32) == x) by (bit_vector);
}

/// Decoding a 32-bit scalar from its own encoding yields the scalar back.
pub proof fn lemma_dec_enc_u32(s: Seq<u8>, i: int, x: u32)
    requires
        0 <= i,
        i + 4 <= s.len(),
        s.subrange(i, i + 4) == spec_enc_u32(x),
    ensures
        spec_dec_u32(s, i) == Ok::<(u32, int), DecodeError>((x, i + 4)),
{
    assert(s[i] == spec_enc_u32(x)[0]);
    assert(s[i + 1] == spec_enc_u32(x)[1]);
    assert(s[i + 2] == spec_enc_u32(x)[2]);
    assert(s[i + 3] == spec_enc_u32(x)[3]);
    lemma_u32_roundtrip(x);
}

/// Reassembling a 64-bit integer from its own big-endian bytes yields the
/// integer back.
pub proof fn lemma_u64_roundtrip(x: u64)
    ensures
        spec_u64_from(
            ((x >> 56) & 0xff) as u8,
            ((x >> 48) & 0xff) as u8,
            ((x >> 40) & 0xff) as u8,
            ((x >> 32) & 0xff) as u8,
            ((x >> 24) & 0xff) as u8,
            ((x >> 16) & 0xff) as u8,
            ((x >> 8) & 0xff) as u8,
            (x & 0xff) as u8,
        ) == x,
{
    assert(((((x >> 56) & 0xff) as u8) as u64) << 56 | ((((x >> 48) & 0xff) as u8) as u64) << 48 | (
    (((x >> 40) & 0xff) as u8) as u64) << 40 | ((((x >> 32) & 0xff) as u8) as u64) << 32 | ((((x
        >> 24) & 0xff) as u8) as u64) << 24 | ((((x >> 16) & 0xff) as u8) as u64) << 16 | ((((x
        >> 8) & 0xff) as u8) as u64) << 8 | (((x & 0xff) as u8) as u64) == x) by (bit_vector);
}

/// Decoding a 64-bit integer from its own encoding yields the integer back.
pub proof fn lemma_dec_enc_u64(s: Seq<u8>, i: int, x: u64)
    requires
        0 <= i,
        i + 8 <= s.len(),
        s.subrange(i, i + 8) == spec_enc_u64(x),
    ensures
        spec_dec_u64(s, i) == Ok::<(u64, int), DecodeError>((x, i + 8)),
{
    assert(s[i] == spec_enc_u64(x)[0]);
    assert(s[i + 1] == spec_enc_u64(x)[1]);
    assert(s[i + 2] == spec_enc_u64(x)[2]);
    assert(s[i + 3] == spec_enc_u64(x)[3]);
    assert(s[i + 4] == spec_enc_u64(x)[4]);
    assert(s[i + 5] == spec_enc_u64(x)[5]);
    assert(s[i + 6] == spec_enc_u64(x)[6]);
    assert(s[i + 7] == spec_enc_u64(x)[7]);
    lemma_u64_roundtrip(x);
}

/// Decoding a boolean from its own encoding yields the boolean back.
pub proof fn lemma_dec_enc_bool(s: Seq<u8>, i: int, b: bool)
    requires
        0 <= i,
        i + 1 <= s.len(),
        s.subrange(i, i + 1) == spec_enc_bool(b),
    ensures
        spec_dec_bool(s, i) == Ok::<(bool, int), DecodeError>((b, i + 1)),
{
    assert(s[i] == spec_enc_bool(b)[0]);
}

/// Decoding a byte field from its own encoding yields the byte back.
pub proof fn lemma_dec_enc_field_u8(s: Seq<u8>, i: int, name: Seq<u8>, x: u8)
    requires
        0 <= i,
        name.len() < 256,
        i + spec_field_u8(name, x).len() <= s.len(),
        s.subrange(i, i + spec_field_u8(name, x).len()) == spec_field_u8(name, x),
    ensures
        spec_dec_field_u8(s, i, name) == Ok::<(u8, int), DecodeError>(
            (x, i + spec_field_u8(name, x).len()),
        ),
{
    let h = spec_hdr(name, TAG_U8);
    let e = spec_enc_u8(x);
    lemma_concat_split(s, i, h, e);
    lemma_dec_enc_hdr(s, i, name, TAG_U8);
    lemma_dec_enc_u8(s, i + h.len(), x);
}

/// Decoding a 32-bit field from its own encoding yields the scalar back.
pub proof fn lemma_dec_enc_field_u32(s: Seq<u8>, i: int, name: Seq<u8>, x: u32)
    requires
        0 <= i,
        name.len() < 256,
        i + spec_field_u32(name, x).len() <= s.len(),
        s.subrange(i, i + spec_field_u32(name, x).len()) == spec_field_u32(name, x),
    ensures
        spec_dec_field_u32(s, i, name) == Ok::<(u32, int), DecodeError>(
            (x, i + spec_field_u32(name, x).len()),
        ),
{
    let h = spec_hdr(name, TAG_BITS32);
    let e = spec_enc_u32(x);
    lemma_concat_split(s, i, h, e);
    lemma_dec_enc_hdr(s, i, name, TAG_BITS32);
    lemma_dec_enc_u32(s, i + h.len(), x);
}

/// Decoding a 64-bit field from its own encoding yields the integer back.
pub proof fn lemma_dec_enc_field_u64(s: Seq<u8>, i: int, name: Seq<u8>, x: u64)
    requires
        0 <= i,
        name.len() < 256,
        i + spec_field_u64(name, x).len() <= s.len(),
        s.subrange(i, i + spec_field_u64(name, x).len()) == spec_field_u64(name, x),
    ensures
        spec_dec_field_u64(s, i, name) == Ok::<(u64, int), DecodeError>(
            (x, i + spec_field_u64(name, x).len()),
        ),
{
    let h = spec_hdr(name, TAG_U64);
    let e = spec_enc_u64(x);
    lemma_concat_split(s, i, h, e);
    lemma_dec_enc_hdr(s, i, name, TAG_U64);
    lemma_dec_enc_u64(s, i + h.len(), x);
}

/// Decoding a boolean field from its own encoding yields the boolean back.
pub proof fn lemma_dec_enc_field_bool(s: Seq<u8>, i: int, name: Seq<u8>, b: bool)
    requires
        0 <= i,
        name.len() < 256,
        i + spec_field_bool(name, b).len() <= s.len(),
        s.subrange(i, i + spec_field_bool(name, b).len()) == spec_field_bool(name, b),
    ensures
        spec_dec_field_bool(s, i, name) == Ok::<(bool, int), DecodeError>(
            (b, i + spec_field_bool(name, b).len()),
        ),
{
    let h = spec_hdr(name, TAG_BOOL);
    let e = spec_enc_bool(b);
    lemma_concat_split(s, i, h, e);
    lemma_dec_enc_hdr(s, i, name, TAG_BOOL);
    lemma_dec_enc_bool(s, i + h.len(), b);
}

/// Decoding a platform word from its own 64-bit field encoding yields the
/// word back.
pub proof fn lemma_dec_enc_field_usize(s: Seq<u8>, i: int, name: Seq<u8>, x: usize)
    requires
        0 <= i,
        name.len() < 256,
        i + spec_field_u64(name, x as u64).len() <= s.len(),
        s.subrange(i, i + spec_field_u64(name, x as u64).len()) == spec_field_u64(name, x as u64),
    ensures
        spec_dec_field_usize(s, i, name) == Ok::<(usize, int), DecodeError>(
            (x, i + spec_field_u64(name, x as u64).len()),
        ),
{
    lemma_dec_enc_field_u64(s, i, name, x as u64);
}


// ---------------------------------------------------------------------------
// Homogeneous element runs
// ---------------------------------------------------------------------------

/// Encoding of a run of elements: each element's encoding, in order.
pub open spec fn spec_enc_seq<T>(elems: Seq<T>, f: spec_fn(T) -> Seq<u8>) -> Seq<u8>
    decreases elems.len(),
{
    if elems.len() == 0 {
        Seq::empty()
    } else {
        f(elems[0]) + spec_enc_seq(elems.drop_first(), f)
    }
}

/// Decoding of a run of exactly `n` elements starting at offset `i`, with
/// `df` decoding one element.
pub open spec fn spec_dec_seq<T>(
    s: Seq<u8>,
    i: int,
    n: int,
    df: spec_fn(Seq<u8>, int) -> Result<(T, int), DecodeError>,
) -> Result<(Seq<T>, int), DecodeError>
    decreases n,
{
    if n <= 0 {
        Ok((Seq::empty(), i))
    } else {
        match df(s, i) {
            Ok((e, j)) => match spec_dec_seq(s, j, n - 1, df) {
                Ok((rest, k)) => Ok((seq![e] + rest, k)),
                Err(er) => Err(er),
            },
            Err(er) => Err(er),
        }
    }
}

/// Appending one element extends the encoded run at its end.
pub proof fn lemma_enc_seq_push<T>(elems: Seq<T>, x: T, f: spec_fn(T) -> Seq<u8>)
    ensures
        spec_enc_seq(elems.push(x), f) == spec_enc_seq(elems, f) + f(x),
    decreases elems.len(),
{
    if elems.len() == 0 {
        let p = elems.push(x);
        assert(p[0] == x);
        assert(p.drop_first() =~= Seq::<T>::empty());
        assert(spec_enc_seq(p.drop_first(), f) == Seq::<u8>::empty());
        assert(spec_enc_seq(p, f) == f(x) + spec_enc_seq(p.drop_first(), f));
        assert(spec_enc_seq(p, f) =~= f(x));
        assert(spec_enc_seq(elems, f) == Seq::<u8>::empty());
        assert(spec_enc_seq(elems, f) + f(x) =~= f(x));
    } else {
        assert(elems.push(x).drop_first() =~= elems.drop_first().push(x));
        assert(elems.push(x)[0] == elems[0]);
        lemma_enc_seq_push(elems.drop_first(), x, f);
        assert(spec_enc_seq(elems.push(x), f) == f(elems[0]) + (spec_enc_seq(
            elems.drop_first(),
            f,
        ) + f(x)));
        assert(f(elems[0]) + (spec_enc_seq(elems.drop_first(), f) + f(x)) =~= (f(elems[0])
            + spec_enc_seq(elems.drop_first(), f)) + f(x));
    }
}

/// States that `df` inverts `f` on every element of `elems`, at any offset of
/// `s` where that element's encoding sits.
pub open spec fn dec_inverts_enc_on<T>(
    s: Seq<u8>,
    elems: Seq<T>,
    f: spec_fn(T) -> Seq<u8>,
    df: spec_fn(Seq<u8>, int) -> Result<(T, int), DecodeError>,
) -> bool {
    forall|j: int, k: int|
        #![trigger df(s, j), f(elems[k])]
        (0 <= k < elems.len() && 0 <= j && j + f(elems[k]).len() <= s.len() && s.subrange(
            j,
            j + f(elems[k]).len(),
        ) == f(elems[k])) ==> df(s, j) == Ok::<(T, int), DecodeError>(
            (elems[k], j + f(elems[k]).len()),
        )
}

/// Decoding a run of elements from its own encoding yields the elements
/// back, provided decoding one element inverts encoding one element.
pub proof fn lemma_dec_enc_seq<T>(
    s: Seq<u8>,
    i: int,
    elems: Seq<T>,
    f: spec_fn(T) -> Seq<u8>,
    df: spec_fn(Seq<u8>, int) -> Result<(T, int), DecodeError>,
)
    requires
        0 <= i,
        i + spec_enc_seq(elems, f).len() <= s.len(),
        s.subrange(i, i + spec_enc_seq(elems, f).len()) == spec_enc_seq(elems, f),
        dec_inverts_enc_on(s, elems, f, df),
    ensures
        spec_dec_seq(s, i, elems.len() as int, df) == Ok::<(Seq<T>, int), DecodeError>(
            (elems, i + spec_enc_seq(elems, f).len()),
        ),
    decreases elems.len(),
{
    if elems.len() == 0 {
        assert(elems =~= Seq::<T>::empty());
    } else {
        let e0 = elems[0];
        let rest = elems.drop_first();
        let fe = f(e0);
        let encr = spec_enc_seq(rest, f);
        assert(spec_enc_seq(elems, f) == fe + encr);
        lemma_concat_split(s, i, fe, encr);
        assert(df(s, i) == Ok::<(T, int), DecodeError>((e0, i + fe.len())));
        assert(dec_inverts_enc_on(s, rest, f, df)) by {
            assert forall|j: int, k: int|
                (0 <= k < rest.len() && 0 <= j && j + f(rest[k]).len() <= s.len() && s.subrange(
                    j,
                    j + f(rest[k]).len(),
                ) == f(rest[k])) implies #[trigger] df(s, j) == Ok::<(T, int), DecodeError>(
                (rest[k], j + #[trigger] f(rest[k]).len()),
            ) by {
                assert(rest[k] == elems[k + 1]);
                assert(df(s, j) == Ok::<(T, int), DecodeError>(
                    (elems[k + 1], j + f(elems[k + 1]).len()),
                ));
            }
        }
        lemma_dec_enc_seq(s, i + fe.len(), rest, f, df);
        assert(seq![e0] + rest =~= elems);
    }
}


/// Prepends a decoded prefix to the outcome of decoding the rest of a run.
pub open spec fn seq_cont<T>(prefix: Seq<T>, r: Result<(Seq<T>, int), DecodeError>) -> Result<
    (Seq<T>, int),
    DecodeError,
> {
    match r {
        Ok((rest, end)) => Ok((prefix + rest, end)),
        Err(e) => Err(e),
    }
}

/// Prepends one decoded element to the outcome of decoding the rest of a run.
pub open spec fn seq_cont1<T>(e: T, r: Result<(Seq<T>, int), DecodeError>) -> Result<
    (Seq<T>, int),
    DecodeError,
> {
    match r {
        Ok((rest, end)) => Ok((seq![e] + rest, end)),
        Err(er) => Err(er),
    }
}

/// Moving one decoded element from the pending run into the prefix keeps the
/// combined outcome.
pub proof fn lemma_seq_cont_shift<T>(prefix: Seq<T>, e: T, r: Result<(Seq<T>, int), DecodeError>)
    ensures
        seq_cont(prefix, seq_cont1(e, r)) == seq_cont(prefix.push(e), r),
{
    match r {
        Ok((rest, end)) => {
            assert(prefix + (seq![e] + rest) =~= prefix.push(e) + rest);
        },
        Err(_) => {},
    }
}

/// An exhausted pending run leaves exactly the prefix.
pub proof fn lemma_seq_cont_done<T>(prefix: Seq<T>, i: int)
    ensures
        seq_cont(prefix, Ok::<(Seq<T>, int), DecodeError>((Seq::empty(), i))) == Ok::<
            (Seq<T>, int),
            DecodeError,
        >((prefix, i)),
{
    assert(prefix + Seq::<T>::empty() =~= prefix);
}

/// Appends every element of a vector of copyable values to another.
pub fn push_all<T: Copy>(out: &mut Vec<T>, src: &Vec<T>)
    ensures
        final(out)@ == old(out)@ + src@,
{
    let mut k: usize = 0;
    while k < src.len()
        invariant
            k <= src@.len(),
            out@ == old(out)@ + src@.subrange(0, k as int),
        decreases src@.len() - k,
    {
        out.push(src[k]);
        assert(out@ =~= old(out)@ + src@.subrange(0, k + 1));
        k = k + 1;
    }
    assert(out@ =~= old(out)@ + src@);
}

/// A rectangular run of rows flattens to exactly rows-times-width elements.
pub proof fn lemma_flatten_rect_len<T>(rows: Seq<Seq<T>>, w: nat)
    requires
        forall|r: int| 0 <= r < rows.len() ==> (#[trigger] rows[r]).len() == w,
    ensures
        rows.flatten().len() == rows.len() * w,
    decreases rows.len(),
{
    if rows.len() == 0 {
    } else {
        lemma_flatten_rect_len(rows.drop_first(), w);
        assert(rows.flatten() == rows[0] + rows.drop_first().flatten());
        assert(w + (rows.len() - 1) * w == rows.len() * w) by (nonlinear_arith);
    }
}


} // verus!
