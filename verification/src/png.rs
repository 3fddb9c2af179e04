//! A small PNG file of one colour: the pixel rows, the chunks with their
//! checksums, and the file around them.

use vstd::prelude::*;
use compression::prelude::{Action, CompressionError, EncodeExt, ZlibEncoder};
use crate::crc32::Hasher;
use crate::model::{law_seed_chain, spec_checksum};

verus! {

/// Width of the image in pixels.
pub const IMAGE_WIDTH: u32 = 10;

/// Height of the image in pixels.
pub const IMAGE_HEIGHT: u32 = 10;

/// The eight bytes that every PNG file starts with.
pub const HEADER: [u8; 8] = [0x89, 0x50, 0x4E, 0x47, 0x0D, 0x0A, 0x1A, 0x0A];

/// The chunk type of the image header, `IHDR`.
pub const IHDR: [u8; 4] = [0x49, 0x48, 0x44, 0x52];

/// The chunk type of the image data, `IDAT`.
pub const IDAT: [u8; 4] = [0x49, 0x44, 0x41, 0x54];

/// The chunk type of the end of the file, `IEND`.
pub const IEND: [u8; 4] = [0x49, 0x45, 0x4E, 0x44];

/// Why no file could be made.
#[derive(Clone, Copy, Debug, PartialEq, Eq, Structural)]
pub enum PngError {
    /// The encoder gave up on the pixel rows.
    Compression,
    /// The compressed rows are longer than the length field of a chunk
    /// can say.
    ChunkTooLong,
}

/// The four bytes of `x`, highest first.
pub open spec fn be_bytes(x: u32) -> Seq<u8> {
    seq![(x >> 24) as u8, (x >> 16) as u8, (x >> 8) as u8, x as u8]
}

/// `n` copies of `unit`, one after the other.
pub open spec fn repeat(unit: Seq<u8>, n: nat) -> Seq<u8>
    decreases n,
{
    if n == 0 {
        Seq::empty()
    } else {
        repeat(unit, (n - 1) as nat) + unit
    }
}

/// One row of the image: the filter byte, then `w` pixels of one colour.
pub open spec fn spec_row(r: u8, g: u8, b: u8, a: u8, w: nat) -> Seq<u8> {
    seq![0u8] + repeat(seq![r, g, b, a], w)
}

/// The rows of an image of `w` by `h` pixels of one colour.
pub open spec fn spec_data(r: u8, g: u8, b: u8, a: u8, w: nat, h: nat) -> Seq<u8> {
    repeat(spec_row(r, g, b, a, w), h)
}

/// The payload of the header chunk.
pub open spec fn spec_ihdr(width: u32, height: u32, bit_depth: u8, color_type: u8) -> Seq<u8> {
    be_bytes(width) + be_bytes(height) + seq![bit_depth, color_type, 0u8, 0u8, 0u8]
}

/// A chunk: the length of the payload, the type, the payload, and the
/// checksum of type and payload.
pub open spec fn spec_chunk(chunk_type: Seq<u8>, data: Seq<u8>) -> Seq<u8> {
    be_bytes(data.len() as u32) + chunk_type + data + be_bytes(spec_checksum(chunk_type + data))
}

/// The file around the compressed rows `idat`.
pub open spec fn spec_png(idat: Seq<u8>) -> Seq<u8> {
    HEADER@ + spec_chunk(IHDR@, spec_ihdr(IMAGE_WIDTH, IMAGE_HEIGHT, 8, 6)) + spec_chunk(
        IDAT@,
        idat,
    ) + spec_chunk(IEND@, Seq::empty())
}

/// Appends the four bytes of `x`, highest first.
fn push_be_bytes(out: &mut Vec<u8>, x: u32)
    ensures
        final(out)@ == old(out)@ + be_bytes(x),
{
    out.push((x >> 24) as u8);
    out.push((x >> 16) as u8);
    out.push((x >> 8) as u8);
    out.push(x as u8);
    assert(out@ =~= old(out)@ + be_bytes(x));
}

/// The rows of an image of `w` by `h` pixels of the colour `r`, `g`, `b`
/// with the opacity `a`.
pub fn generate_data(r: u8, g: u8, b: u8, a: u8, w: u32, h: u32) -> (data: Vec<u8>)
    ensures
        data@ == spec_data(r, g, b, a, w as nat, h as nat),
{
    let mut data: Vec<u8> = Vec::new();
    let mut y: u32 = 0;
    while y < h
        invariant
            y <= h,
            data@ == spec_data(r, g, b, a, w as nat, y as nat),
        decreases h - y,
    {
        let ghost before = data@;
        data.push(0u8);
        let mut x: u32 = 0;
        while x < w
            invariant
                x <= w,
                data@ == before + (seq![0u8] + repeat(seq![r, g, b, a], x as nat)),
            decreases w - x,
        {
            data.push(r);
            data.push(g);
            data.push(b);
            data.push(a);
            x += 1;
            assert(data@ =~= before + (seq![0u8] + repeat(seq![r, g, b, a], x as nat)));
        }
        y += 1;
    }
    data
}

/// The payload of the header chunk.
pub fn ihdr_data(width: u32, height: u32, bit_depth: u8, color_type: u8) -> (data: Vec<u8>)
    ensures
        data@ == spec_ihdr(width, height, bit_depth, color_type),
{
    let mut data: Vec<u8> = Vec::new();
    push_be_bytes(&mut data, width);
    push_be_bytes(&mut data, height);
    data.push(bit_depth);
    data.push(color_type);
    // compression, filter, interlace
    data.push(0u8);
    data.push(0u8);
    data.push(0u8);
    assert(data@ =~= spec_ihdr(width, height, bit_depth, color_type));
    data
}

/// The checksum of a chunk: the type and the payload as one stream.
pub fn chunk_checksum(chunk_type: &[u8], data: &[u8]) -> (checksum: u32)
    requires
        chunk_type@.len() + data@.len() <= u64::MAX,
    ensures
        checksum == spec_checksum(chunk_type@ + data@),
{
    let mut hasher = Hasher::new();
    let mut checksum: u32;

    hasher.append(chunk_type);
    checksum = hasher.checksum();

    hasher.seed(checksum);
    hasher.append(data);
    checksum = hasher.checksum();

    proof {
        law_seed_chain(chunk_type@, data@);
    }
    checksum
}

/// A chunk of the type `chunk_type` with the payload `data`.
pub fn chunk(chunk_type: &[u8], data: &[u8]) -> (bytes: Vec<u8>)
    requires
        data@.len() <= u32::MAX,
        chunk_type@.len() + data@.len() <= u64::MAX,
    ensures
        bytes@ == spec_chunk(chunk_type@, data@),
{
    let mut bytes: Vec<u8> = Vec::new();
    push_be_bytes(&mut bytes, data.len() as u32);
    bytes.extend_from_slice(chunk_type);
    bytes.extend_from_slice(data);
    push_be_bytes(&mut bytes, chunk_checksum(chunk_type, data));
    assert(bytes@ =~= spec_chunk(chunk_type@, data@));
    bytes
}

/// The error type of the `compression` crate, carried through unread.
#[verifier::external_type_specification]
#[verifier::external_body]
pub struct ExCompressionError(CompressionError);

/// What the zlib encoder of the `compression` crate makes of `data` when
/// it is given all of it at once: the compressed stream, or `None` where
/// the encoder reports an error.
pub uninterp spec fn zlib_encoded(data: Seq<u8>) -> Option<Seq<u8>>;

/// Runs `ZlibEncoder` of the `compression` crate over `data` with
/// `Action::Finish`, through `EncodeExt::encode`, and collects what comes
/// out. The encoder keeps no state from one run to the next and asks
/// nothing of its surroundings, so its result is a function of `data`;
/// the contract only gives that result its name and claims nothing of
/// what the stream holds.
#[verifier::external_body]
fn zlib_encode(data: Vec<u8>) -> (out: Result<Vec<u8>, CompressionError>)
    ensures
        match out {
            Ok(stream) => zlib_encoded(data@) == Some(stream@),
            Err(_) => zlib_encoded(data@) is None,
        },
{
    data.encode(&mut ZlibEncoder::new(), Action::Finish).collect::<Result<Vec<u8>, _>>()
}

/// The payload of the data chunk: `data` as a zlib stream.
pub fn idat_data(data: Vec<u8>) -> (out: Result<Vec<u8>, PngError>)
    ensures
        match zlib_encoded(data@) {
            Some(stream) => out matches Ok(bytes) && bytes@ == stream,
            None => out == Err::<Vec<u8>, PngError>(PngError::Compression),
        },
{
    match zlib_encode(data) {
        Ok(bytes) => Ok(bytes),
        Err(_) => Err(PngError::Compression),
    }
}

/// The file of the fixed size around the compressed rows `idat`: the
/// signature, the header chunk, the data chunk and the end chunk.
pub fn assemble_png(idat: &[u8]) -> (png: Vec<u8>)
    requires
        idat@.len() <= u32::MAX,
    ensures
        png@ == spec_png(idat@),
{
    let header = ihdr_data(IMAGE_WIDTH, IMAGE_HEIGHT, 8, 6);
    let empty: Vec<u8> = Vec::new();
    let first = chunk(IHDR.as_slice(), header.as_slice());
    let second = chunk(IDAT.as_slice(), idat);
    let last = chunk(IEND.as_slice(), empty.as_slice());
    let mut png: Vec<u8> = Vec::new();
    png.extend_from_slice(HEADER.as_slice());
    png.extend_from_slice(first.as_slice());
    png.extend_from_slice(second.as_slice());
    png.extend_from_slice(last.as_slice());
    assert(png@ =~= spec_png(idat@));
    png
}

/// The file, or why there is none, given what the encoder makes of the
/// pixel rows.
pub open spec fn spec_generate_png(encoded: Option<Seq<u8>>) -> Result<Seq<u8>, PngError> {
    match encoded {
        Some(stream) => if stream.len() <= u32::MAX {
            Ok(spec_png(stream))
        } else {
            Err(PngError::ChunkTooLong)
        },
        None => Err(PngError::Compression),
    }
}

/// A PNG file of ten by ten pixels of the colour `r`, `g`, `b` with the
/// opacity `a`: the file around the compressed rows, or the reason why
/// the rows could not be compressed or framed.
pub fn generate_png(r: u8, g: u8, b: u8, a: u8) -> (out: Result<Vec<u8>, PngError>)
    ensures
        match spec_generate_png(
            zlib_encoded(spec_data(r, g, b, a, IMAGE_WIDTH as nat, IMAGE_HEIGHT as nat)),
        ) {
            Ok(file) => out matches Ok(png) && png@ == file,
            Err(e) => out == Err::<Vec<u8>, PngError>(e),
        },
{
    let data = generate_data(r, g, b, a, IMAGE_WIDTH, IMAGE_HEIGHT);
    match idat_data(data) {
        Ok(idat) => {
            if idat.len() > 0xFFFF_FFFF {
                Err(PngError::ChunkTooLong)
            } else {
                Ok(assemble_png(idat.as_slice()))
            }
        },
        Err(e) => Err(e),
    }
}

} // verus!
