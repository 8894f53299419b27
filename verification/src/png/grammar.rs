use vstd::prelude::*;

use crate::error::DecodeError;

verus! {

/// The big-endian unsigned 16-bit value of two bytes at position `i`.
pub open spec fn png_be_u16(s: Seq<u8>, i: int) -> int {
    s[i] * 0x100 + s[i + 1]
}

/// The big-endian unsigned 32-bit value of four bytes at position `i`.
pub open spec fn png_be_u32(s: Seq<u8>, i: int) -> int {
    s[i] * 0x1000000 + s[i + 1] * 0x10000 + s[i + 2] * 0x100 + s[i + 3]
}

/// The color type of an image header.
#[derive(Clone, Copy, Debug, PartialEq, Eq, Structural)]
pub enum ColorType {
    Grayscale,
    RGB,
    Palette,
    GrayscaleAlpha,
    RGBA,
}

impl ColorType {
    /// Does a raw code name a color type?
    pub open spec fn spec_recognized(raw: u8) -> bool {
        raw == 0 || raw == 2 || raw == 3 || raw == 4 || raw == 6
    }

    /// The color type a recognized raw code decodes to.
    pub open spec fn spec_from(raw: u8) -> ColorType {
        if raw == 0 {
            ColorType::Grayscale
        } else if raw == 2 {
            ColorType::RGB
        } else if raw == 3 {
            ColorType::Palette
        } else if raw == 4 {
            ColorType::GrayscaleAlpha
        } else {
            ColorType::RGBA
        }
    }

    /// The raw code of a color type.
    pub open spec fn spec_code(self) -> u8 {
        match self {
            ColorType::Grayscale => 0u8,
            ColorType::RGB => 2u8,
            ColorType::Palette => 3u8,
            ColorType::GrayscaleAlpha => 4u8,
            ColorType::RGBA => 6u8,
        }
    }

    /// How many samples one pixel of this color type carries.
    pub open spec fn spec_num_channels(self) -> u8 {
        match self {
            ColorType::Grayscale => 1u8,
            ColorType::RGB => 3u8,
            ColorType::Palette => 1u8,
            ColorType::GrayscaleAlpha => 2u8,
            ColorType::RGBA => 4u8,
        }
    }

    /// Decodes a raw color-type code, rejecting one it does not recognize.
    pub fn try_from(raw: u8) -> (r: Result<ColorType, DecodeError>)
        ensures
            Self::spec_recognized(raw) ==> r == Ok::<ColorType, DecodeError>(Self::spec_from(raw)),
            !Self::spec_recognized(raw) ==> r == Err::<ColorType, DecodeError>(
                DecodeError::MalformedHeader,
            ),
    {
        match raw {
            0 => Ok(ColorType::Grayscale),
            2 => Ok(ColorType::RGB),
            3 => Ok(ColorType::Palette),
            4 => Ok(ColorType::GrayscaleAlpha),
            6 => Ok(ColorType::RGBA),
            _ => Err(DecodeError::MalformedHeader),
        }
    }

    /// The raw code of this color type.
    pub fn code(self) -> (r: u8)
        ensures
            r == self.spec_code(),
    {
        match self {
            ColorType::Grayscale => 0,
            ColorType::RGB => 2,
            ColorType::Palette => 3,
            ColorType::GrayscaleAlpha => 4,
            ColorType::RGBA => 6,
        }
    }

    /// How many samples one pixel of this color type carries.
    pub fn num_channels(self) -> (r: u8)
        ensures
            r == self.spec_num_channels(),
    {
        match self {
            ColorType::Grayscale => 1,
            ColorType::RGB => 3,
            ColorType::Palette => 1,
            ColorType::GrayscaleAlpha => 2,
            ColorType::RGBA => 4,
        }
    }
}

/// The fields of an IHDR chunk.
#[derive(Clone, Copy, Debug, PartialEq, Eq, Structural)]
pub struct ImageHeader {
    pub width: u32,
    pub height: u32,
    pub bit_depth: u8,
    pub color_type: ColorType,
    /// Must always be zero in this image format.
    pub compression_method: u8,
    pub filter_method: u8,
    pub interlace_method: bool,
}

/// How many bytes one pixel occupies: channels times bit depth, rounded up
/// to whole bytes.
pub open spec fn spec_num_bytes_per_pixel(color_type: ColorType, bit_depth: u8) -> int {
    (color_type.spec_num_channels() * bit_depth + 7) / 8
}

impl ImageHeader {
    /// How many bytes one pixel of this header's format occupies.
    pub fn num_bytes_per_pixel(&self) -> (r: usize)
        ensures
            r == spec_num_bytes_per_pixel(self.color_type, self.bit_depth),
    {
        let channels = self.color_type.num_channels();
        assert(channels <= 4);
        proof {
            assert((channels as int) * (self.bit_depth as int) <= 1020) by (nonlinear_arith)
                requires
                    channels <= 4,
                    self.bit_depth <= 255,
            ;
        }
        let bits_per_pixel = channels as u32 * self.bit_depth as u32;
        ((bits_per_pixel + 7) / 8) as usize
    }
}

/// A per-scanline filter method.
#[derive(Clone, Copy, Debug, PartialEq, Eq, Structural)]
pub enum Filter {
    NoFilter,
    Sub,
    Up,
    Average,
    Paeth,
}

impl Filter {
    /// Does a raw filter byte name a filter?
    pub open spec fn spec_recognized(raw: u8) -> bool {
        raw <= 4
    }

    /// The filter a recognized raw byte decodes to.
    pub open spec fn spec_from(raw: u8) -> Filter {
        if raw == 0 {
            Filter::NoFilter
        } else if raw == 1 {
            Filter::Sub
        } else if raw == 2 {
            Filter::Up
        } else if raw == 3 {
            Filter::Average
        } else {
            Filter::Paeth
        }
    }

    /// Decodes a raw filter byte, rejecting one it does not recognize.
    pub fn try_from(value: u8) -> (r: Result<Filter, DecodeError>)
        ensures
            Self::spec_recognized(value) ==> r == Ok::<Filter, DecodeError>(
                Self::spec_from(value),
            ),
            !Self::spec_recognized(value) ==> r == Err::<Filter, DecodeError>(
                DecodeError::MalformedHeader,
            ),
    {
        match value {
            0 => Ok(Filter::NoFilter),
            1 => Ok(Filter::Sub),
            2 => Ok(Filter::Up),
            3 => Ok(Filter::Average),
            4 => Ok(Filter::Paeth),
            _ => Err(DecodeError::MalformedHeader),
        }
    }
}

/// One decoded chunk of an image stream.
#[derive(Debug)]
pub enum Chunk<'a> {
    ImageHeader(ImageHeader),
    Palette(&'a [u8]),
    ImageData(&'a [u8]),
    TextData(Vec<(Vec<u8>, Vec<u8>)>),
    Gamma(u32),
}

/// A decoded image: its header, gamma, and unfiltered pixel bytes.
#[derive(Clone, Debug, PartialEq, Eq)]
pub struct Png {
    pub image_header: ImageHeader,
    pub gamma: u32,
    pub pixel_buffer: Vec<u8>,
}

impl Png {
    pub fn width(&self) -> (r: u32)
        ensures
            r == self.image_header.width,
    {
        self.image_header.width
    }

    pub fn height(&self) -> (r: u32)
        ensures
            r == self.image_header.height,
    {
        self.image_header.height
    }

    pub fn gamma(&self) -> (r: u32)
        ensures
            r == self.gamma,
    {
        self.gamma
    }

    pub fn color_type(&self) -> (r: ColorType)
        ensures
            r == self.image_header.color_type,
    {
        self.image_header.color_type
    }

    /// The pixels as packed RGB triples, one byte per sample. Palette images
    /// carry indices, not samples, and are not convertible here.
    pub fn rgb8(&self) -> (r: Vec<u8>)
        requires
            self.image_header.color_type != ColorType::Palette,
        ensures
            self.image_header.color_type == ColorType::RGB ==> r@ == self.pixel_buffer@,
            self.image_header.color_type == ColorType::RGBA ==> ({
                let b = self.pixel_buffer@;
                &&& r@.len() == 3 * (b.len() / 4)
                &&& forall|p: int|
                    0 <= p < b.len() / 4 ==> #[trigger] r@[3 * p] == b[4 * p] && r@[3 * p + 1] == b[4
                        * p + 1] && r@[3 * p + 2] == b[4 * p + 2]
            }),
            self.image_header.color_type == ColorType::GrayscaleAlpha ==> ({
                let b = self.pixel_buffer@;
                &&& r@.len() == 3 * (b.len() / 2)
                &&& forall|p: int|
                    0 <= p < b.len() / 2 ==> #[trigger] r@[3 * p] == b[2 * p] && r@[3 * p + 1] == b[2
                        * p] && r@[3 * p + 2] == b[2 * p]
            }),
            self.image_header.color_type == ColorType::Grayscale ==> ({
                let b = self.pixel_buffer@;
                &&& r@.len() == 3 * b.len()
                &&& forall|p: int|
                    0 <= p < b.len() ==> #[trigger] r@[3 * p] == b[p] && r@[3 * p + 1] == b[p] && r@[3
                        * p + 2] == b[p]
            }),
    {
        match self.color_type() {
            ColorType::RGB => Self::copy_bytes(&self.pixel_buffer),
            ColorType::RGBA => {
                let n = self.pixel_buffer.len();
                let npix = n / 4;
                let mut out: Vec<u8> = Vec::new();
                let mut p: usize = 0;
                while p < npix
                    invariant
                        n == self.pixel_buffer@.len(),
                        npix == n / 4,
                        p <= npix,
                        out@.len() == 3 * p,
                        forall|q: int|
                            0 <= q < p ==> #[trigger] out@[3 * q] == self.pixel_buffer@[4 * q]
                                && out@[3 * q + 1] == self.pixel_buffer@[4 * q + 1] && out@[3 * q
                                + 2] == self.pixel_buffer@[4 * q + 2],
                    decreases npix - p,
                {
                    out.push(self.pixel_buffer[4 * p]);
                    out.push(self.pixel_buffer[4 * p + 1]);
                    out.push(self.pixel_buffer[4 * p + 2]);
                    proof {
                        assert(out@[3 * p as int] == self.pixel_buffer@[4 * p as int]);
                        assert(out@[3 * p as int + 1] == self.pixel_buffer@[4 * p as int + 1]);
                        assert(out@[3 * p as int + 2] == self.pixel_buffer@[4 * p as int + 2]);
                    }
                    p = p + 1;
                }
                proof {
                    assert(out@.len() == 3 * (self.pixel_buffer@.len() / 4));
                    assert forall|w: int| 0 <= w < self.pixel_buffer@.len() / 4 implies
                        #[trigger] out@[3 * w] == self.pixel_buffer@[4 * w] && out@[3 * w + 1]
                        == self.pixel_buffer@[4 * w + 1] && out@[3 * w + 2]
                        == self.pixel_buffer@[4 * w + 2] by {
                        assert(0 <= w < npix);
                    }
                }
                out
            },
            ColorType::GrayscaleAlpha => {
                let n = self.pixel_buffer.len();
                let npix = n / 2;
                let mut out: Vec<u8> = Vec::new();
                let mut p: usize = 0;
                while p < npix
                    invariant
                        n == self.pixel_buffer@.len(),
                        npix == n / 2,
                        p <= npix,
                        out@.len() == 3 * p,
                        forall|q: int|
                            0 <= q < p ==> #[trigger] out@[3 * q] == self.pixel_buffer@[2 * q]
                                && out@[3 * q + 1] == self.pixel_buffer@[2 * q] && out@[3 * q + 2]
                                == self.pixel_buffer@[2 * q],
                    decreases npix - p,
                {
                    let ghost before = out@;
                    let y = self.pixel_buffer[2 * p];
                    out.push(y);
                    out.push(y);
                    out.push(y);
                    proof {
                        assert(out@ =~= before + seq![y, y, y]);
                        assert forall|q: int| 0 <= q < p + 1 implies #[trigger] out@[3 * q]
                            == self.pixel_buffer@[2 * q] && out@[3 * q + 1]
                            == self.pixel_buffer@[2 * q] && out@[3 * q + 2]
                            == self.pixel_buffer@[2 * q] by {
                            if q < p {
                                assert(before[3 * q] == self.pixel_buffer@[2 * q]);
                            }
                        }
                    }
                    p = p + 1;
                }
                out
            },
            ColorType::Grayscale => {
                let npix = self.pixel_buffer.len();
                let mut out: Vec<u8> = Vec::new();
                let mut p: usize = 0;
                while p < npix
                    invariant
                        npix == self.pixel_buffer@.len(),
                        p <= npix,
                        out@.len() == 3 * p,
                        forall|q: int|
                            0 <= q < p ==> #[trigger] out@[3 * q] == self.pixel_buffer@[q] && out@[3
                                * q + 1] == self.pixel_buffer@[q] && out@[3 * q + 2]
                                == self.pixel_buffer@[q],
                    decreases npix - p,
                {
                    let ghost before = out@;
                    let y = self.pixel_buffer[p];
                    out.push(y);
                    out.push(y);
                    out.push(y);
                    proof {
                        assert(out@ =~= before + seq![y, y, y]);
                        assert forall|q: int| 0 <= q < p + 1 implies #[trigger] out@[3 * q]
                            == self.pixel_buffer@[q] && out@[3 * q + 1] == self.pixel_buffer@[q]
                            && out@[3 * q + 2] == self.pixel_buffer@[q] by {
                            if q < p {
                                assert(before[3 * q] == self.pixel_buffer@[q]);
                            }
                        }
                    }
                    p = p + 1;
                }
                out
            },
            ColorType::Palette => Vec::new(),
        }
    }

    /// The pixels as packed RGBA quadruples; formats without an alpha sample
    /// get zero alpha, matching the renderer this feeds.
    pub fn rgba8(&self) -> (r: Vec<u8>)
        requires
            self.image_header.color_type != ColorType::Palette,
        ensures
            self.image_header.color_type == ColorType::RGBA ==> r@ == self.pixel_buffer@,
            self.image_header.color_type == ColorType::RGB ==> ({
                let b = self.pixel_buffer@;
                &&& r@.len() == 4 * (b.len() / 3)
                &&& forall|p: int|
                    0 <= p < b.len() / 3 ==> #[trigger] r@[4 * p] == b[3 * p] && r@[4 * p + 1] == b[3
                        * p + 1] && r@[4 * p + 2] == b[3 * p + 2] && r@[4 * p + 3] == 0
            }),
            self.image_header.color_type == ColorType::Grayscale ==> ({
                let b = self.pixel_buffer@;
                &&& r@.len() == 4 * b.len()
                &&& forall|p: int|
                    0 <= p < b.len() ==> #[trigger] r@[4 * p] == b[p] && r@[4 * p + 1] == b[p] && r@[4
                        * p + 2] == b[p] && r@[4 * p + 3] == 0
            }),
            self.image_header.color_type == ColorType::GrayscaleAlpha ==> ({
                let b = self.pixel_buffer@;
                &&& r@.len() == 4 * (b.len() / 2)
                &&& forall|p: int|
                    0 <= p < b.len() / 2 ==> #[trigger] r@[4 * p] == b[2 * p] && r@[4 * p + 1] == b[2
                        * p] && r@[4 * p + 2] == b[2 * p] && r@[4 * p + 3] == b[2 * p + 1]
            }),
    {
        match self.color_type() {
            ColorType::RGBA => Self::copy_bytes(&self.pixel_buffer),
            ColorType::RGB => Self::rgb_to_rgba(&self.pixel_buffer),
            ColorType::Grayscale => Self::gray_to_rgba(&self.pixel_buffer),
            ColorType::GrayscaleAlpha => Self::gray_alpha_to_rgba(&self.pixel_buffer),
            ColorType::Palette => Vec::new(),
        }
    }

    /// Widens RGB triples to RGBA quadruples with zero alpha.
    fn rgb_to_rgba(buf: &Vec<u8>) -> (r: Vec<u8>)
        ensures
            r@.len() == 4 * (buf@.len() / 3),
            forall|p: int|
                0 <= p < buf@.len() / 3 ==> #[trigger] r@[4 * p] == buf@[3 * p] && r@[4 * p + 1]
                    == buf@[3 * p + 1] && r@[4 * p + 2] == buf@[3 * p + 2] && r@[4 * p + 3] == 0,
    {
        let n = buf.len();
        let npix = n / 3;
        let mut out: Vec<u8> = Vec::new();
        let mut p: usize = 0;
        while p < npix
            invariant
                n == buf@.len(),
                npix == n / 3,
                p <= npix,
                out@.len() == 4 * p,
                forall|q: int|
                    0 <= q < p ==> #[trigger] out@[4 * q] == buf@[3 * q] && out@[4 * q + 1]
                        == buf@[3 * q + 1] && out@[4 * q + 2] == buf@[3 * q + 2] && out@[4 * q + 3]
                        == 0,
            decreases npix - p,
        {
            let ghost before = out@;
            out.push(buf[3 * p]);
            out.push(buf[3 * p + 1]);
            out.push(buf[3 * p + 2]);
            out.push(0);
            proof {
                assert(out@ =~= before + seq![
                    buf@[3 * p as int],
                    buf@[3 * p as int + 1],
                    buf@[3 * p as int + 2],
                    0u8,
                ]);
                assert forall|q: int|
                    0 <= q < p + 1 implies #[trigger] out@[4 * q] == buf@[3 * q] && out@[4 * q + 1]
                    == buf@[3 * q + 1] && out@[4 * q + 2] == buf@[3 * q + 2] && out@[4 * q + 3]
                    == 0 by {
                    if q < p {
                        assert(before[4 * q] == buf@[3 * q]);
                    }
                }
            }
            p = p + 1;
        }
        out
    }

    /// Widens grayscale samples to RGBA quadruples with zero alpha.
    fn gray_to_rgba(buf: &Vec<u8>) -> (r: Vec<u8>)
        ensures
            r@.len() == 4 * buf@.len(),
            forall|p: int|
                0 <= p < buf@.len() ==> #[trigger] r@[4 * p] == buf@[p] && r@[4 * p + 1] == buf@[p]
                    && r@[4 * p + 2] == buf@[p] && r@[4 * p + 3] == 0,
    {
        let npix = buf.len();
        let mut out: Vec<u8> = Vec::new();
        let mut p: usize = 0;
        while p < npix
            invariant
                npix == buf@.len(),
                p <= npix,
                out@.len() == 4 * p,
                forall|q: int|
                    0 <= q < p ==> #[trigger] out@[4 * q] == buf@[q] && out@[4 * q + 1] == buf@[q]
                        && out@[4 * q + 2] == buf@[q] && out@[4 * q + 3] == 0,
            decreases npix - p,
        {
            let ghost before = out@;
            let y = buf[p];
            out.push(y);
            out.push(y);
            out.push(y);
            out.push(0);
            proof {
                assert(out@ =~= before + seq![y, y, y, 0u8]);
                assert forall|q: int|
                    0 <= q < p + 1 implies #[trigger] out@[4 * q] == buf@[q] && out@[4 * q + 1]
                    == buf@[q] && out@[4 * q + 2] == buf@[q] && out@[4 * q + 3] == 0 by {
                    if q < p {
                        assert(before[4 * q] == buf@[q]);
                    }
                }
            }
            p = p + 1;
        }
        out
    }

    /// Widens (gray, alpha) pairs to RGBA quadruples.
    fn gray_alpha_to_rgba(buf: &Vec<u8>) -> (r: Vec<u8>)
        ensures
            r@.len() == 4 * (buf@.len() / 2),
            forall|p: int|
                0 <= p < buf@.len() / 2 ==> #[trigger] r@[4 * p] == buf@[2 * p] && r@[4 * p + 1]
                    == buf@[2 * p] && r@[4 * p + 2] == buf@[2 * p] && r@[4 * p + 3] == buf@[2 * p
                    + 1],
    {
        let n = buf.len();
        let npix = n / 2;
        let mut out: Vec<u8> = Vec::new();
        let mut p: usize = 0;
        while p < npix
            invariant
                n == buf@.len(),
                npix == n / 2,
                p <= npix,
                out@.len() == 4 * p,
                forall|q: int|
                    0 <= q < p ==> #[trigger] out@[4 * q] == buf@[2 * q] && out@[4 * q + 1]
                        == buf@[2 * q] && out@[4 * q + 2] == buf@[2 * q] && out@[4 * q + 3]
                        == buf@[2 * q + 1],
            decreases npix - p,
        {
            let ghost before = out@;
            let y = buf[2 * p];
            let a = buf[2 * p + 1];
            out.push(y);
            out.push(y);
            out.push(y);
            out.push(a);
            proof {
                assert(out@ =~= before + seq![y, y, y, a]);
                assert forall|q: int|
                    0 <= q < p + 1 implies #[trigger] out@[4 * q] == buf@[2 * q] && out@[4 * q + 1]
                    == buf@[2 * q] && out@[4 * q + 2] == buf@[2 * q] && out@[4 * q + 3]
                    == buf@[2 * q + 1] by {
                    if q < p {
                        assert(before[4 * q] == buf@[2 * q]);
                    }
                }
            }
            p = p + 1;
        }
        out
    }

    /// The pixels as packed 32-bit words, alpha in the high byte.
    pub fn bitmap(&self) -> (r: Vec<u32>)
        requires
            self.image_header.color_type != ColorType::Palette,
        ensures
            self.image_header.color_type == ColorType::RGB ==> ({
                let b = self.pixel_buffer@;
                &&& r@.len() == b.len() / 3
                &&& forall|p: int|
                    0 <= p < b.len() / 3 ==> #[trigger] r@[p] == b[3 * p] * 0x10000 + b[3 * p + 1]
                        * 0x100 + b[3 * p + 2]
            }),
            self.image_header.color_type == ColorType::RGBA ==> ({
                let b = self.pixel_buffer@;
                &&& r@.len() == b.len() / 4
                &&& forall|p: int|
                    0 <= p < b.len() / 4 ==> #[trigger] r@[p] == b[4 * p + 3] * 0x1000000 + b[4 * p]
                        * 0x10000 + b[4 * p + 1] * 0x100 + b[4 * p + 2]
            }),
            self.image_header.color_type == ColorType::Grayscale ==> ({
                let b = self.pixel_buffer@;
                &&& r@.len() == b.len()
                &&& forall|p: int|
                    0 <= p < b.len() ==> #[trigger] r@[p] == b[p] * 0x10000 + b[p] * 0x100 + b[p]
            }),
            self.image_header.color_type == ColorType::GrayscaleAlpha ==> ({
                let b = self.pixel_buffer@;
                &&& r@.len() == b.len() / 2
                &&& forall|p: int|
                    0 <= p < b.len() / 2 ==> #[trigger] r@[p] == b[2 * p + 1] * 0x1000000 + b[2 * p]
                        * 0x10000 + b[2 * p] * 0x100 + b[2 * p]
            }),
    {
        match self.color_type() {
            ColorType::RGB => {
                let n = self.pixel_buffer.len();
                let npix = n / 3;
                let mut out: Vec<u32> = Vec::new();
                let mut p: usize = 0;
                while p < npix
                    invariant
                        n == self.pixel_buffer@.len(),
                        npix == n / 3,
                        p <= npix,
                        out@.len() == p,
                        forall|q: int|
                            0 <= q < p ==> #[trigger] out@[q] == self.pixel_buffer@[3 * q] * 0x10000
                                + self.pixel_buffer@[3 * q + 1] * 0x100 + self.pixel_buffer@[3 * q
                                + 2],
                    decreases npix - p,
                {
                    let v = self.pixel_buffer[3 * p] as u32 * 0x10000 + self.pixel_buffer[3 * p
                        + 1] as u32 * 0x100 + self.pixel_buffer[3 * p + 2] as u32;
                    out.push(v);
                    p = p + 1;
                }
                out
            },
            ColorType::RGBA => {
                let n = self.pixel_buffer.len();
                let npix = n / 4;
                let mut out: Vec<u32> = Vec::new();
                let mut p: usize = 0;
                while p < npix
                    invariant
                        n == self.pixel_buffer@.len(),
                        npix == n / 4,
                        p <= npix,
                        out@.len() == p,
                        forall|q: int|
                            0 <= q < p ==> #[trigger] out@[q] == self.pixel_buffer@[4 * q + 3]
                                * 0x1000000 + self.pixel_buffer@[4 * q] * 0x10000
                                + self.pixel_buffer@[4 * q + 1] * 0x100 + self.pixel_buffer@[4 * q
                                + 2],
                    decreases npix - p,
                {
                    let v = self.pixel_buffer[4 * p + 3] as u32 * 0x1000000 + self.pixel_buffer[4
                        * p] as u32 * 0x10000 + self.pixel_buffer[4 * p + 1] as u32 * 0x100
                        + self.pixel_buffer[4 * p + 2] as u32;
                    out.push(v);
                    p = p + 1;
                }
                out
            },
            ColorType::Grayscale => {
                let npix = self.pixel_buffer.len();
                let mut out: Vec<u32> = Vec::new();
                let mut p: usize = 0;
                while p < npix
                    invariant
                        npix == self.pixel_buffer@.len(),
                        p <= npix,
                        out@.len() == p,
                        forall|q: int|
                            0 <= q < p ==> #[trigger] out@[q] == self.pixel_buffer@[q] * 0x10000
                                + self.pixel_buffer@[q] * 0x100 + self.pixel_buffer@[q],
                    decreases npix - p,
                {
                    let y = self.pixel_buffer[p] as u32;
                    out.push(y * 0x10000 + y * 0x100 + y);
                    p = p + 1;
                }
                out
            },
            ColorType::GrayscaleAlpha => {
                let n = self.pixel_buffer.len();
                let npix = n / 2;
                let mut out: Vec<u32> = Vec::new();
                let mut p: usize = 0;
                while p < npix
                    invariant
                        n == self.pixel_buffer@.len(),
                        npix == n / 2,
                        p <= npix,
                        out@.len() == p,
                        forall|q: int|
                            0 <= q < p ==> #[trigger] out@[q] == self.pixel_buffer@[2 * q + 1]
                                * 0x1000000 + self.pixel_buffer@[2 * q] * 0x10000
                                + self.pixel_buffer@[2 * q] * 0x100 + self.pixel_buffer@[2 * q],
                    decreases npix - p,
                {
                    let y = self.pixel_buffer[2 * p] as u32;
                    let a = self.pixel_buffer[2 * p + 1] as u32;
                    out.push(a * 0x1000000 + y * 0x10000 + y * 0x100 + y);
                    p = p + 1;
                }
                out
            },
            ColorType::Palette => Vec::new(),
        }
    }

    /// Decodes an image from the flat serialized form: a 17-byte header
    /// (width, height, bit depth, color-type code, compression method,
    /// filter method, interlace flag, gamma) followed by the pixel bytes.
    pub fn from_binary_blob(bytes: &[u8]) -> (r: Result<Png, DecodeError>)
        ensures
            bytes@.len() < 17 ==> r == Err::<Png, DecodeError>(DecodeError::Eof),
            bytes@.len() >= 17 && !ColorType::spec_recognized(bytes@[9]) ==> r == Err::<
                Png,
                DecodeError,
            >(DecodeError::MalformedHeader),
            bytes@.len() >= 17 && ColorType::spec_recognized(bytes@[9]) ==> ({
                let b = bytes@;
                &&& r is Ok
                &&& r->Ok_0.image_header.width == png_be_u32(b, 0)
                &&& r->Ok_0.image_header.height == png_be_u32(b, 4)
                &&& r->Ok_0.image_header.bit_depth == b[8]
                &&& r->Ok_0.image_header.color_type == ColorType::spec_from(b[9])
                &&& r->Ok_0.image_header.compression_method == b[10]
                &&& r->Ok_0.image_header.filter_method == b[11]
                &&& r->Ok_0.image_header.interlace_method == (b[12] != 0)
                &&& r->Ok_0.gamma == png_be_u32(b, 13)
                &&& r->Ok_0.pixel_buffer@ == b.subrange(17, b.len() as int)
            }),
    {
        if bytes.len() < 17 {
            return Err(DecodeError::Eof);
        }
        let width = (bytes[0] as u32) * 0x1000000 + (bytes[1] as u32) * 0x10000 + (bytes[2] as u32)
            * 0x100 + (bytes[3] as u32);
        let height = (bytes[4] as u32) * 0x1000000 + (bytes[5] as u32) * 0x10000 + (bytes[6]
            as u32) * 0x100 + (bytes[7] as u32);
        let bit_depth = bytes[8];
        let color_type = ColorType::try_from(bytes[9])?;
        let compression_method = bytes[10];
        let filter_method = bytes[11];
        let interlace_method = bytes[12] != 0;
        let gamma = (bytes[13] as u32) * 0x1000000 + (bytes[14] as u32) * 0x10000 + (bytes[15]
            as u32) * 0x100 + (bytes[16] as u32);

        let mut pixel_buffer: Vec<u8> = Vec::new();
        let n = bytes.len();
        let mut i: usize = 17;
        while i < n
            invariant
                17 <= i <= n,
                n == bytes@.len(),
                pixel_buffer@.len() == i - 17,
                forall|j: int| 0 <= j < i - 17 ==> pixel_buffer@[j] == bytes@[17 + j],
            decreases n - i,
        {
            pixel_buffer.push(bytes[i]);
            i = i + 1;
        }
        proof {
            assert(pixel_buffer@ =~= bytes@.subrange(17, bytes@.len() as int));
        }

        Ok(
            Png {
                image_header: ImageHeader {
                    width,
                    height,
                    bit_depth,
                    color_type,
                    compression_method,
                    filter_method,
                    interlace_method,
                },
                gamma,
                pixel_buffer,
            },
        )
    }

    /// Copies a byte vector element by element.
    fn copy_bytes(v: &Vec<u8>) -> (r: Vec<u8>)
        ensures
            r@ == v@,
    {
        let mut out: Vec<u8> = Vec::new();
        let n = v.len();
        let mut i: usize = 0;
        while i < n
            invariant
                i <= n,
                n == v@.len(),
                out@.len() == i,
                forall|j: int| 0 <= j < i ==> out@[j] == v@[j],
            decreases n - i,
        {
            out.push(v[i]);
            i = i + 1;
        }
        proof {
            assert(out@ =~= v@);
        }
        out
    }
}

} // verus!
