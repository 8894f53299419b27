use vstd::prelude::*;

use crate::error::DecodeError;
use crate::png::grammar::ImageHeader;

verus! {

/// The IEEE CRC-32 of a byte sequence, as crc32fast computes it.
pub uninterp spec fn crc32_of(data: Seq<u8>) -> u32;

/// Relies on crc32fast::hash: the IEEE CRC-32 checksum, a pure function of
/// the input bytes.
#[verifier::external_body]
fn crc32(data: &Vec<u8>) -> (r: u32)
    ensures
        r == crc32_of(data@),
{
    crc32fast::hash(data)
}

/// The zlib stream that flate2's encoder at its fast compression level
/// produces for a byte sequence.
pub uninterp spec fn zlib_fast_of(data: Seq<u8>) -> Seq<u8>;

/// Relies on flate2::write::ZlibEncoder with Compression::fast and the
/// crate's pure-Rust backend: the output is a function of the input bytes
/// alone. Writing into a Vec sink never fails, per the std documentation of
/// the Write impl for Vec, so the error paths are unreachable.
#[verifier::external_body]
fn zlib_compress_fast(data: &Vec<u8>) -> (r: Vec<u8>)
    ensures
        r@ == zlib_fast_of(data@),
{
    let mut encoder = flate2::write::ZlibEncoder::new(Vec::new(), flate2::Compression::fast());
    std::io::Write::write_all(&mut encoder, data).expect("writing to a Vec sink does not fail");
    encoder.finish().expect("writing to a Vec sink does not fail")
}

/// The four big-endian bytes of a 32-bit value.
pub open spec fn be_bytes_of_u32(v: int) -> Seq<u8> {
    seq![
        (v / 0x1000000 % 0x100) as u8,
        (v / 0x10000 % 0x100) as u8,
        (v / 0x100 % 0x100) as u8,
        (v % 0x100) as u8,
    ]
}

/// Appends the four big-endian bytes of `v` to `out`.
fn push_be_u32(out: &mut Vec<u8>, v: u32)
    ensures
        final(out)@ == old(out)@ + be_bytes_of_u32(v as int),
{
    out.push((v / 0x1000000 % 0x100) as u8);
    out.push((v / 0x10000 % 0x100) as u8);
    out.push((v / 0x100 % 0x100) as u8);
    out.push((v % 0x100) as u8);
    proof {
        assert(out@ =~= old(out)@ + be_bytes_of_u32(v as int));
    }
}

/// Appends every byte of `src` to `out`.
fn push_all(out: &mut Vec<u8>, src: &[u8])
    ensures
        final(out)@ == old(out)@ + src@,
{
    let n = src.len();
    let mut i: usize = 0;
    while i < n
        invariant
            i <= n,
            n == src@.len(),
            out@ == old(out)@ + src@.subrange(0, i as int),
        decreases n - i,
    {
        out.push(src[i]);
        proof {
            assert(out@ =~= old(out)@ + src@.subrange(0, i + 1));
        }
        i = i + 1;
    }
    proof {
        assert(src@.subrange(0, n as int) =~= src@);
    }
}

/// The serialized form of a chunk: the data length as four big-endian
/// bytes, the four name bytes, the data, and the CRC-32 of name and data.
pub open spec fn spec_framed_chunk(name: Seq<u8>, data: Seq<u8>) -> Seq<u8> {
    be_bytes_of_u32(data.len() as int) + name + data + be_bytes_of_u32(
        crc32_of(name + data) as int,
    )
}

/// Frames one chunk for the output stream: length, name, data, and the
/// checksum over name and data.
pub fn frame_chunk(name: &[u8; 4], data: &Vec<u8>) -> (r: Vec<u8>)
    requires
        data@.len() <= 0xFFFFFFFF,
    ensures
        r@ == spec_framed_chunk(name@, data@),
{
    let mut hash_data: Vec<u8> = Vec::new();
    push_all(&mut hash_data, name.as_slice());
    push_all(&mut hash_data, data.as_slice());
    let crc = crc32(&hash_data);

    let mut out: Vec<u8> = Vec::new();
    push_be_u32(&mut out, data.len() as u32);
    push_all(&mut out, name.as_slice());
    push_all(&mut out, data.as_slice());
    push_be_u32(&mut out, crc);
    proof {
        assert(out@ =~= spec_framed_chunk(name@, data@));
    }
    out
}

/// The thirteen data bytes of an image-header chunk.
pub open spec fn spec_ihdr_data(h: ImageHeader) -> Seq<u8> {
    be_bytes_of_u32(h.width as int) + be_bytes_of_u32(h.height as int) + seq![
        h.bit_depth,
        h.color_type.spec_code(),
        h.compression_method,
        h.filter_method,
        (if h.interlace_method {
            1u8
        } else {
            0u8
        }),
    ]
}

/// The image-header chunk of an output stream.
#[derive(Debug)]
pub struct IHDRChunk<'a> {
    pub image_header: &'a ImageHeader,
}

impl<'a> IHDRChunk<'a> {
    /// The four name bytes of this chunk kind.
    pub fn name(&self) -> (r: [u8; 4])
        ensures
            r@ == seq![0x49u8, 0x48u8, 0x44u8, 0x52u8],
    {
        let r = [0x49u8, 0x48u8, 0x44u8, 0x52u8];
        proof {
            assert(r@ =~= seq![0x49u8, 0x48u8, 0x44u8, 0x52u8]);
        }
        r
    }

    /// Serializes the header fields in their wire order.
    pub fn data(&self) -> (r: Vec<u8>)
        ensures
            r@ == spec_ihdr_data(*self.image_header),
    {
        let mut buffer: Vec<u8> = Vec::new();
        push_be_u32(&mut buffer, self.image_header.width);
        push_be_u32(&mut buffer, self.image_header.height);
        buffer.push(self.image_header.bit_depth);
        buffer.push(self.image_header.color_type.code());
        buffer.push(self.image_header.compression_method);
        buffer.push(self.image_header.filter_method);
        buffer.push(if self.image_header.interlace_method {
            1
        } else {
            0
        });
        proof {
            assert(buffer@ =~= spec_ihdr_data(*self.image_header));
        }
        buffer
    }
}

/// The scanline serialization of `rows` rows of `row_len` pixel bytes each:
/// every row prefixed by the filter byte zero.
pub open spec fn spec_scanlines(row_len: int, rows: int, d: Seq<u8>) -> Seq<u8>
    decreases rows,
{
    if rows <= 0 {
        Seq::empty()
    } else {
        spec_scanlines(row_len, rows - 1, d) + seq![0u8] + d.subrange(
            (rows - 1) * row_len,
            (rows - 1) * row_len + row_len,
        )
    }
}

/// The image-data chunk of an output stream.
#[derive(Debug)]
pub struct IDATChunk<'a> {
    pub image_header: &'a ImageHeader,
    pub data: &'a [u8],
}

impl<'a> IDATChunk<'a> {
    /// The four name bytes of this chunk kind.
    pub fn name(&self) -> (r: [u8; 4])
        ensures
            r@ == seq![0x49u8, 0x44u8, 0x41u8, 0x54u8],
    {
        let r = [0x49u8, 0x44u8, 0x41u8, 0x54u8];
        proof {
            assert(r@ =~= seq![0x49u8, 0x44u8, 0x41u8, 0x54u8]);
        }
        r
    }

    /// Serializes the pixel bytes into filtered scanlines — filter type zero
    /// before each row — and compresses them as one zlib stream. Pixel data
    /// whose length does not match the header's dimensions is rejected.
    pub fn data(&self) -> (r: Result<Vec<u8>, DecodeError>)
        ensures
            ({
                let h = *self.image_header;
                let row = h.width * crate::png::grammar::spec_num_bytes_per_pixel(
                    h.color_type,
                    h.bit_depth,
                );
                if self.data@.len() == h.height * row {
                    &&& r is Ok
                    &&& r->Ok_0@ == zlib_fast_of(
                        spec_scanlines(row, h.height as int, self.data@),
                    )
                } else {
                    r == Err::<Vec<u8>, DecodeError>(DecodeError::InconsistentLength)
                }
            }),
    {
        let bpp = self.image_header.num_bytes_per_pixel();
        let height = self.image_header.height;
        proof {
            assert(self.image_header.color_type.spec_num_channels() <= 4);
            assert(bpp <= 128) by (nonlinear_arith)
                requires
                    bpp == (self.image_header.color_type.spec_num_channels()
                        * self.image_header.bit_depth + 7) / 8,
                    self.image_header.color_type.spec_num_channels() <= 4,
                    self.image_header.bit_depth <= 255,
                    self.image_header.color_type.spec_num_channels()
                        * self.image_header.bit_depth >= 0,
            ;
            assert((self.image_header.width as int) * (bpp as int) <= 0xFFFFFFFF * 128)
                by (nonlinear_arith)
                requires
                    self.image_header.width <= 0xFFFFFFFF,
                    0 <= bpp <= 128,
            ;
        }
        let row_wide: u64 = self.image_header.width as u64 * bpp as u64;
        proof {
            assert((row_wide as int) * (height as int) < 0x100000000000000000000000000000000)
                by (nonlinear_arith)
                requires
                    row_wide <= 0xFFFFFFFFu64 * 128,
                    height <= 0xFFFFFFFF,
            ;
        }
        let total: u128 = row_wide as u128 * height as u128;

        if self.data.len() as u128 != total {
            return Err(DecodeError::InconsistentLength);
        }

        let data_len = self.data.len();
        let mut filtered: Vec<u8> = Vec::new();
        if height > 0 {
            proof {
                assert(row_wide <= self.data@.len()) by (nonlinear_arith)
                    requires
                        self.data@.len() == row_wide * height,
                        height >= 1,
                        row_wide >= 0,
                ;
            }
            let row: usize = row_wide as usize;
            let mut off: usize = 0;
            let mut rr: u32 = 0;
            while rr < height
                invariant
                    rr <= height,
                    row == row_wide,
                    off == rr * row,
                    data_len == self.data@.len(),
                    self.data@.len() == row_wide * height,
                    filtered@ == spec_scanlines(row as int, rr as int, self.data@),
                decreases height - rr,
            {
                proof {
                    assert(off + row <= self.data@.len()) by (nonlinear_arith)
                        requires
                            off == rr * row,
                            rr < height,
                            row >= 0,
                            self.data@.len() == row_wide * height,
                            row == row_wide,
                    ;
                }
                filtered.push(0);
                let ghost row_start = filtered@;
                proof {
                    assert(filtered@ =~= row_start + self.data@.subrange(
                        off as int,
                        off as int,
                    ));
                }
                let mut t: usize = 0;
                while t < row
                    invariant
                        t <= row,
                        data_len == self.data@.len(),
                        off + row <= self.data@.len(),
                        filtered@ == row_start + self.data@.subrange(
                            off as int,
                            off + t,
                        ),
                    decreases row - t,
                {
                    filtered.push(self.data[off + t]);
                    proof {
                        assert(filtered@ =~= row_start + self.data@.subrange(
                            off as int,
                            off + t + 1,
                        ));
                    }
                    t = t + 1;
                }
                proof {
                    assert(filtered@ =~= spec_scanlines(row as int, rr + 1, self.data@));
                }
                proof {
                    assert(off + row == (rr + 1) * row) by (nonlinear_arith)
                        requires
                            off == rr * row,
                    ;
                }
                off = off + row;
                rr = rr + 1;
            }
        }

        let compressed_data = zlib_compress_fast(&filtered);
        Ok(compressed_data)
    }
}

/// The end-of-stream chunk, which carries no data.
#[derive(Debug)]
pub struct IENDChunk;

impl IENDChunk {
    /// The four name bytes of this chunk kind.
    pub fn name(&self) -> (r: [u8; 4])
        ensures
            r@ == seq![0x49u8, 0x45u8, 0x4Eu8, 0x44u8],
    {
        let r = [0x49u8, 0x45u8, 0x4Eu8, 0x44u8];
        proof {
            assert(r@ =~= seq![0x49u8, 0x45u8, 0x4Eu8, 0x44u8]);
        }
        r
    }

    /// This chunk kind carries no data bytes.
    pub fn data(&self) -> (r: Vec<u8>)
        ensures
            r@.len() == 0,
    {
        Vec::new()
    }
}

} // verus!
