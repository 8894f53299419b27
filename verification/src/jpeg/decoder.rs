use vstd::prelude::*;

use crate::error::DecodeError;
use crate::jpeg::grammar::{
    ByteRange, Component, EncodingProcess, HuffmanTable, Jpeg, Marker, QuantizationTable,
    StartOfFrame, StartOfScan, JFIF,
};

verus! {

/// The big-endian unsigned 16-bit value of two bytes at position `i`.
pub open spec fn jpeg_be_u16(s: Seq<u8>, i: int) -> int {
    s[i] * 0x100 + s[i + 1]
}

/// The five identification bytes that an application header must carry.
pub open spec fn spec_jfif_magic(s: Seq<u8>, i: int) -> bool {
    &&& s[i] == 0x4Au8
    &&& s[i + 1] == 0x46u8
    &&& s[i + 2] == 0x49u8
    &&& s[i + 3] == 0x46u8
    &&& s[i + 4] == 0u8
}

/// A marker value this decoder's segment walk recognizes: application
/// header, quantization table, Huffman table, start of scan, or any
/// start-of-frame marker (low byte in the 0xC0 row).
pub open spec fn spec_jfif_known_marker(m: int) -> bool {
    ||| m == 0xFFE0
    ||| m == 0xFFDB
    ||| m == 0xFFC4
    ||| m == 0xFFDA
    ||| (m % 0x100) / 0x10 == 0x0C
}

/// A marker-segment reader over an immutable byte buffer: every read
/// advances a monotonic position and fails with `Eof` rather than run past
/// the buffer.
#[derive(Debug)]
pub struct JpegDecoder<'a> {
    cursor: usize,
    data: &'a [u8],
}

impl<'a> JpegDecoder<'a> {
    /// The underlying byte buffer.
    pub closed spec fn bytes(self) -> Seq<u8> {
        self.data@
    }

    /// The current read position.
    pub closed spec fn pos(self) -> int {
        self.cursor as int
    }

    /// `n` more bytes are available at the current position.
    pub open spec fn can_read(self, n: int) -> bool {
        0 <= self.pos() && self.pos() + n <= self.bytes().len()
    }

    /// The step relation of a read: same buffer, position advanced by `n`.
    pub open spec fn stepped(pre: Self, post: Self, n: int) -> bool {
        &&& post.bytes() == pre.bytes()
        &&& post.pos() == pre.pos() + n
    }

    pub fn new(data: &'a [u8]) -> (r: Self)
        ensures
            r.bytes() == data@,
            r.pos() == 0,
    {
        Self { cursor: 0, data }
    }

    /// Fails with `Eof` unless `length` more bytes are available.
    fn eof(&self, length: usize) -> (r: Result<(), DecodeError>)
        ensures
            r is Ok <==> self.can_read(length as int),
            r is Err ==> r == Err::<(), DecodeError>(DecodeError::Eof),
    {
        if length <= self.data.len() && self.cursor <= self.data.len() - length {
            Ok(())
        } else {
            Err(DecodeError::Eof)
        }
    }

    fn read_u8(&mut self) -> (r: Result<u8, DecodeError>)
        ensures
            old(self).can_read(1) ==> {
                &&& r is Ok
                &&& r->Ok_0 == old(self).bytes()[old(self).pos()]
                &&& Self::stepped(*old(self), *final(self), 1)
            },
            !old(self).can_read(1) ==> {
                &&& r == Err::<u8, DecodeError>(DecodeError::Eof)
                &&& Self::stepped(*old(self), *final(self), 0)
            },
    {
        if self.cursor < self.data.len() {
            let b = self.data[self.cursor];
            self.cursor = self.cursor + 1;
            Ok(b)
        } else {
            Err(DecodeError::Eof)
        }
    }

    fn read_u16(&mut self) -> (r: Result<u16, DecodeError>)
        ensures
            old(self).can_read(2) ==> {
                &&& r is Ok
                &&& r->Ok_0 == jpeg_be_u16(old(self).bytes(), old(self).pos())
                &&& Self::stepped(*old(self), *final(self), 2)
            },
            !old(self).can_read(2) ==> {
                &&& r == Err::<u16, DecodeError>(DecodeError::Eof)
                &&& Self::stepped(*old(self), *final(self), 0)
            },
    {
        if 2 <= self.data.len() && self.cursor <= self.data.len() - 2 {
            let hi = self.data[self.cursor] as u16;
            let lo = self.data[self.cursor + 1] as u16;
            self.cursor = self.cursor + 2;
            Ok(hi * 256 + lo)
        } else {
            Err(DecodeError::Eof)
        }
    }

    fn read_marker(&mut self) -> (r: Result<Marker, DecodeError>)
        ensures
            old(self).can_read(2) ==> {
                &&& r is Ok
                &&& r->Ok_0 == jpeg_be_u16(old(self).bytes(), old(self).pos())
                &&& Self::stepped(*old(self), *final(self), 2)
            },
            !old(self).can_read(2) ==> {
                &&& r == Err::<Marker, DecodeError>(DecodeError::Eof)
                &&& Self::stepped(*old(self), *final(self), 0)
            },
    {
        self.read_u16()
    }

    /// Reads `count` consecutive bytes.
    fn read_fixed(&mut self, count: usize) -> (r: Result<Vec<u8>, DecodeError>)
        ensures
            final(self).bytes() == old(self).bytes(),
            old(self).can_read(count as int) ==> {
                &&& r is Ok
                &&& r->Ok_0@ == old(self).bytes().subrange(
                    old(self).pos(),
                    old(self).pos() + count,
                )
                &&& Self::stepped(*old(self), *final(self), count as int)
            },
            !old(self).can_read(count as int) ==> {
                &&& r == Err::<Vec<u8>, DecodeError>(DecodeError::Eof)
                &&& Self::stepped(*old(self), *final(self), 0)
            },
    {
        self.eof(count)?;
        let ghost orig = *self;
        let mut list: Vec<u8> = Vec::new();
        let mut k: usize = 0;
        while k < count
            invariant
                orig == *old(self),
                k <= count,
                orig.can_read(count as int),
                Self::stepped(orig, *self, k as int),
                list@.len() == k,
                forall|j: int| 0 <= j < k ==> list@[j] == orig.bytes()[orig.pos() + j],
            decreases count - k,
        {
            let b = self.read_u8()?;
            list.push(b);
            k = k + 1;
        }
        proof {
            assert(list@ =~= orig.bytes().subrange(orig.pos(), orig.pos() + count as int));
        }
        Ok(list)
    }

    /// Reads one start-of-frame component: three consecutive bytes.
    pub fn parse_component(&mut self) -> (r: Result<Component, DecodeError>)
        ensures
            final(self).bytes() == old(self).bytes(),
            old(self).can_read(3) ==> {
                &&& r is Ok
                &&& r->Ok_0.identifier == old(self).bytes()[old(self).pos()]
                &&& r->Ok_0.sampling_factor == old(self).bytes()[old(self).pos() + 1]
                &&& r->Ok_0.quantization_table_destination_selector == old(self).bytes()[old(
                    self,
                ).pos() + 2]
                &&& Self::stepped(*old(self), *final(self), 3)
            },
            !old(self).can_read(3) ==> r == Err::<Component, DecodeError>(DecodeError::Eof),
    {
        self.eof(3)?;
        let identifier = self.read_u8()?;
        let sampling_factor = self.read_u8()?;
        let quantization_table_destination_selector = self.read_u8()?;
        Ok(Component { identifier, sampling_factor, quantization_table_destination_selector })
    }

    /// Reads `count` consecutive start-of-frame components.
    fn read_component_list(&mut self, count: usize) -> (r: Result<Vec<Component>, DecodeError>)
        requires
            count <= 0x100,
        ensures
            final(self).bytes() == old(self).bytes(),
            old(self).can_read(3 * count as int) ==> {
                &&& r is Ok
                &&& r->Ok_0@.len() == count
                &&& forall|j: int|
                    0 <= j < count ==> {
                        &&& (#[trigger] r->Ok_0@[j]).identifier == old(self).bytes()[old(
                            self,
                        ).pos() + 3 * j]
                        &&& r->Ok_0@[j].sampling_factor == old(self).bytes()[old(self).pos() + 3
                            * j + 1]
                        &&& r->Ok_0@[j].quantization_table_destination_selector == old(
                            self,
                        ).bytes()[old(self).pos() + 3 * j + 2]
                    }
                &&& Self::stepped(*old(self), *final(self), 3 * count as int)
            },
            !old(self).can_read(3 * count as int) ==> {
                &&& r == Err::<Vec<Component>, DecodeError>(DecodeError::Eof)
                &&& Self::stepped(*old(self), *final(self), 0)
            },
    {
        self.eof(3 * count)?;
        let ghost orig = *self;
        let mut list: Vec<Component> = Vec::new();
        let mut k: usize = 0;
        while k < count
            invariant
                orig == *old(self),
                k <= count,
                count <= 0x100,
                orig.can_read(3 * count as int),
                Self::stepped(orig, *self, 3 * k as int),
                list@.len() == k,
                forall|j: int|
                    0 <= j < k ==> {
                        &&& (#[trigger] list@[j]).identifier == orig.bytes()[orig.pos() + 3 * j]
                        &&& list@[j].sampling_factor == orig.bytes()[orig.pos() + 3 * j + 1]
                        &&& list@[j].quantization_table_destination_selector == orig.bytes()[orig.pos()
                            + 3 * j + 2]
                    },
            decreases count - k,
        {
            let c = self.parse_component()?;
            list.push(c);
            k = k + 1;
        }
        Ok(list)
    }

    /// Reads `count` consecutive (selector, destination) byte pairs.
    fn read_scan_component_list(&mut self, count: usize) -> (r: Result<Vec<(u8, u8)>, DecodeError>)
        requires
            count <= 0x100,
        ensures
            final(self).bytes() == old(self).bytes(),
            old(self).can_read(2 * count as int) ==> {
                &&& r is Ok
                &&& r->Ok_0@.len() == count
                &&& forall|j: int|
                    0 <= j < count ==> #[trigger] r->Ok_0@[j] == (
                        old(self).bytes()[old(self).pos() + 2 * j],
                        old(self).bytes()[old(self).pos() + 2 * j + 1],
                    )
                &&& Self::stepped(*old(self), *final(self), 2 * count as int)
            },
            !old(self).can_read(2 * count as int) ==> {
                &&& r == Err::<Vec<(u8, u8)>, DecodeError>(DecodeError::Eof)
                &&& Self::stepped(*old(self), *final(self), 0)
            },
    {
        self.eof(2 * count)?;
        let ghost orig = *self;
        let mut list: Vec<(u8, u8)> = Vec::new();
        let mut k: usize = 0;
        while k < count
            invariant
                orig == *old(self),
                k <= count,
                count <= 0x100,
                orig.can_read(2 * count as int),
                Self::stepped(orig, *self, 2 * k as int),
                list@.len() == k,
                forall|j: int|
                    0 <= j < k ==> #[trigger] list@[j] == (
                        orig.bytes()[orig.pos() + 2 * j],
                        orig.bytes()[orig.pos() + 2 * j + 1],
                    ),
            decreases count - k,
        {
            let a = self.read_u8()?;
            let b = self.read_u8()?;
            list.push((a, b));
            k = k + 1;
        }
        Ok(list)
    }

    /// Skips an application header after checking its identification bytes.
    /// The declared length covers the length field itself and the five
    /// identification bytes, so one below seven is inconsistent; a length
    /// running past the buffer is an end-of-input error.
    pub fn parse_application_header(&mut self) -> (r: Result<(), DecodeError>)
        ensures
            final(self).bytes() == old(self).bytes(),
            !old(self).can_read(7) ==> r == Err::<(), DecodeError>(DecodeError::Eof),
            old(self).can_read(7) && !spec_jfif_magic(old(self).bytes(), old(self).pos() + 2)
                ==> r == Err::<(), DecodeError>(DecodeError::MalformedHeader),
            old(self).can_read(7) && spec_jfif_magic(old(self).bytes(), old(self).pos() + 2) ==> ({
                let length = jpeg_be_u16(old(self).bytes(), old(self).pos());
                if length < 7 {
                    r == Err::<(), DecodeError>(DecodeError::InconsistentLength)
                } else if old(self).pos() + length > old(self).bytes().len() {
                    r == Err::<(), DecodeError>(DecodeError::Eof)
                } else {
                    r is Ok && Self::stepped(*old(self), *final(self), length)
                }
            }),
    {
        let offset = self.cursor;
        self.eof(7)?;
        let length = self.read_u16()?;

        let magic = self.read_fixed(5)?;
        if !(magic[0] == 0x4A && magic[1] == 0x46 && magic[2] == 0x49 && magic[3] == 0x46
            && magic[4] == 0) {
            return Err(DecodeError::MalformedHeader);
        }

        if length < 7 {
            return Err(DecodeError::InconsistentLength);
        }
        self.jump_forward(offset, length as usize)?;

        Ok(())
    }

    /// Repositions the cursor to `offset + length`, which must lie within
    /// the buffer.
    fn jump_forward(&mut self, offset: usize, length: usize) -> (r: Result<(), DecodeError>)
        ensures
            final(self).bytes() == old(self).bytes(),
            offset + length <= old(self).bytes().len() ==> r is Ok && final(self).pos() == offset
                + length,
            offset + length > old(self).bytes().len() ==> r == Err::<(), DecodeError>(
                DecodeError::Eof,
            ) && *final(self) == *old(self),
    {
        if length <= self.data.len() && offset <= self.data.len() - length {
            self.cursor = offset + length;
            Ok(())
        } else {
            Err(DecodeError::Eof)
        }
    }

    /// Decodes a quantization-table segment: the flag byte and the range of
    /// the element bytes up to the declared length.
    pub fn parse_quantization_table(&mut self) -> (r: Result<QuantizationTable, DecodeError>)
        ensures
            final(self).bytes() == old(self).bytes(),
            !old(self).can_read(3) ==> r == Err::<QuantizationTable, DecodeError>(DecodeError::Eof),
            old(self).can_read(3) ==> ({
                let s = old(self).bytes();
                let c = old(self).pos();
                let length = jpeg_be_u16(s, c);
                if length < 3 {
                    r == Err::<QuantizationTable, DecodeError>(DecodeError::InconsistentLength)
                } else if c + length > s.len() {
                    r == Err::<QuantizationTable, DecodeError>(DecodeError::Eof)
                } else {
                    &&& r is Ok
                    &&& r->Ok_0.flag == s[c + 2]
                    &&& r->Ok_0.element_range.start == c + 3
                    &&& r->Ok_0.element_range.end == c + length
                    &&& Self::stepped(*old(self), *final(self), length)
                }
            }),
    {
        let offset = self.cursor;
        self.eof(3)?;
        let length = self.read_u16()? as usize;
        let flag = self.read_u8()?;

        if length < 3 {
            return Err(DecodeError::InconsistentLength);
        }
        self.jump_forward(offset, length)?;

        Ok(
            QuantizationTable {
                flag,
                element_range: ByteRange { start: offset + 3, end: offset + length },
            },
        )
    }

    /// Decodes a Huffman-table segment: the flag byte, the sixteen
    /// code-length counts, and the symbol bytes up to the declared length.
    pub fn parse_huffman_table(&mut self) -> (r: Result<HuffmanTable, DecodeError>)
        ensures
            final(self).bytes() == old(self).bytes(),
            !old(self).can_read(3) ==> r == Err::<HuffmanTable, DecodeError>(DecodeError::Eof),
            old(self).can_read(3) ==> ({
                let s = old(self).bytes();
                let c = old(self).pos();
                let length = jpeg_be_u16(s, c);
                if length < 19 {
                    r == Err::<HuffmanTable, DecodeError>(DecodeError::InconsistentLength)
                } else if c + length > s.len() {
                    r == Err::<HuffmanTable, DecodeError>(DecodeError::Eof)
                } else {
                    &&& r is Ok
                    &&& r->Ok_0.flag == s[c + 2]
                    &&& r->Ok_0.code_lengths.start == c + 3
                    &&& r->Ok_0.code_lengths.end == c + 19
                    &&& r->Ok_0.symbols.start == c + 19
                    &&& r->Ok_0.symbols.end == c + length
                    &&& Self::stepped(*old(self), *final(self), length)
                }
            }),
    {
        let offset = self.cursor;
        self.eof(3)?;
        let length = self.read_u16()? as usize;
        let flag = self.read_u8()?;

        if length < 19 {
            return Err(DecodeError::InconsistentLength);
        }
        self.jump_forward(offset, length)?;
        let code_lengths = ByteRange { start: offset + 3, end: offset + 19 };
        let symbols = ByteRange { start: offset + 19, end: offset + length };

        Ok(HuffmanTable { flag, code_lengths, symbols })
    }

    /// Decodes a start-of-frame segment, whose marker's low nibble selects
    /// the encoding process; the bytes consumed must equal the declared
    /// length.
    pub fn parse_start_of_frame(&mut self, start_of_frame: u8) -> (r: Result<
        StartOfFrame,
        DecodeError,
    >)
        ensures
            final(self).bytes() == old(self).bytes(),
            r is Err ==> (r->Err_0 == DecodeError::Eof || r->Err_0 == DecodeError::MalformedHeader
                || r->Err_0 == DecodeError::InconsistentLength),
            !EncodingProcess::spec_recognized(start_of_frame & 0x0Fu8) ==> r == Err::<
                StartOfFrame,
                DecodeError,
            >(DecodeError::MalformedHeader),
            r is Ok ==> ({
                let s = old(self).bytes();
                let c = old(self).pos();
                let ncomp = s[c + 7];
                &&& r->Ok_0.encoding_process == EncodingProcess::spec_from(start_of_frame & 0x0Fu8)
                &&& r->Ok_0.sample_precision == s[c + 2]
                &&& r->Ok_0.lines == jpeg_be_u16(s, c + 3)
                &&& r->Ok_0.samples_per_line == jpeg_be_u16(s, c + 5)
                &&& r->Ok_0.components@.len() == ncomp
                &&& jpeg_be_u16(s, c) == 8 + 3 * ncomp
                &&& Self::stepped(*old(self), *final(self), 8 + 3 * ncomp)
                &&& final(self).pos() <= s.len()
            }),
    {
        let encoding_process = EncodingProcess::try_from(start_of_frame & 0b1111)?;

        let offset = self.cursor;
        let length = self.read_u16()?;

        let sample_precision = self.read_u8()?;
        let lines = self.read_u16()?;
        let samples_per_line = self.read_u16()?;
        let number_of_image_components = self.read_u8()?;
        let components = self.read_component_list(number_of_image_components as usize)?;

        if self.cursor < offset || self.cursor - offset != length as usize {
            return Err(DecodeError::InconsistentLength);
        }

        Ok(StartOfFrame { encoding_process, sample_precision, lines, samples_per_line, components })
    }

    /// Decodes a start-of-scan segment; the bytes consumed must equal the
    /// declared length.
    pub fn parse_start_of_scan(&mut self) -> (r: Result<StartOfScan, DecodeError>)
        ensures
            final(self).bytes() == old(self).bytes(),
            r is Err ==> (r->Err_0 == DecodeError::Eof || r->Err_0
                == DecodeError::InconsistentLength),
            r is Ok ==> ({
                let s = old(self).bytes();
                let c = old(self).pos();
                let ncomp = s[c + 2];
                &&& r->Ok_0.components@.len() == ncomp
                &&& r->Ok_0.spectral_select_start == s[c + 3 + 2 * ncomp]
                &&& r->Ok_0.spectral_select_end == s[c + 4 + 2 * ncomp]
                &&& r->Ok_0.approximation == s[c + 5 + 2 * ncomp]
                &&& jpeg_be_u16(s, c) == 6 + 2 * ncomp
                &&& Self::stepped(*old(self), *final(self), 6 + 2 * ncomp)
                &&& final(self).pos() <= s.len()
            }),
    {
        let offset = self.cursor;
        let length = self.read_u16()?;

        let number_of_image_components = self.read_u8()?;
        let components = self.read_scan_component_list(number_of_image_components as usize)?;

        let spectral_select_start = self.read_u8()?;
        let spectral_select_end = self.read_u8()?;
        let approximation = self.read_u8()?;

        if self.cursor < offset || self.cursor - offset != length as usize {
            return Err(DecodeError::InconsistentLength);
        }

        Ok(StartOfScan { components, spectral_select_start, spectral_select_end, approximation })
    }

    /// Scans forward to the end-of-image marker and returns the range of the
    /// entropy-coded bytes before it. Running out of buffer before finding
    /// the marker is an end-of-input error.
    pub fn parse_image_data(&mut self) -> (r: Result<ByteRange, DecodeError>)
        ensures
            final(self).bytes() == old(self).bytes(),
            r is Err ==> r == Err::<ByteRange, DecodeError>(DecodeError::Eof),
            r is Ok ==> ({
                let s = old(self).bytes();
                let c = old(self).pos();
                let e = r->Ok_0.end as int;
                &&& r->Ok_0.start == c
                &&& c <= e
                &&& e + 2 <= s.len()
                &&& s[e] == 0xFFu8
                &&& s[e + 1] == 0xD9u8
                &&& forall|q: int| c <= q < e ==> !(s[q] == 0xFFu8 && #[trigger] s[q + 1] == 0xD9u8)
                &&& final(self).pos() == e
            }),
    {
        self.eof(0)?;
        let start = self.cursor;
        loop
            invariant
                self.bytes() == old(self).bytes(),
                start == old(self).pos(),
                start <= self.cursor,
                self.pos() <= self.bytes().len(),
                forall|q: int|
                    start <= q < self.pos() ==> !(self.bytes()[q] == 0xFFu8
                        && #[trigger] self.bytes()[q + 1] == 0xD9u8),
            decreases self.bytes().len() - self.pos(),
        {
            self.eof(2)?;
            let a = self.data[self.cursor];
            let b = self.data[self.cursor + 1];
            if a == 0xFF && b == 0xD9 {
                return Ok(ByteRange { start, end: self.cursor });
            }
            self.cursor = self.cursor + 1;
        }
    }

    /// Walks the marker segments of a JFIF stream: the start-of-image
    /// marker, then application headers, quantization tables, Huffman
    /// tables and one start-of-frame, up to the scan and the end-of-image
    /// marker. Exactly four Huffman tables and one frame header are
    /// required; an unrecognized marker is an unsupported format.
    pub fn parse_jfif(&mut self) -> (r: Result<JFIF, DecodeError>)
        ensures
            final(self).bytes() == old(self).bytes(),
            !old(self).can_read(2) ==> r == Err::<JFIF, DecodeError>(DecodeError::Eof),
            old(self).can_read(2) && jpeg_be_u16(old(self).bytes(), old(self).pos()) != 0xFFD8
                ==> r == Err::<JFIF, DecodeError>(DecodeError::MalformedHeader),
            r is Ok ==> ({
                let s = old(self).bytes();
                let e = r->Ok_0.image_data.end as int;
                &&& r->Ok_0.huffman_tables@.len() == 4
                &&& r->Ok_0.image_data.start <= r->Ok_0.image_data.end
                &&& e + 2 <= s.len()
                &&& s[e] == 0xFFu8
                &&& s[e + 1] == 0xD9u8
            }),
            ({
                let s = old(self).bytes();
                let c = old(self).pos();
                &&& 0 <= c
                &&& c + 4 <= s.len()
                &&& jpeg_be_u16(s, c) == 0xFFD8
                &&& !spec_jfif_known_marker(jpeg_be_u16(s, c + 2))
            }) ==> r == Err::<JFIF, DecodeError>(DecodeError::UnsupportedFormat),
            r is Err ==> (r->Err_0 == DecodeError::Eof || r->Err_0 == DecodeError::MalformedHeader
                || r->Err_0 == DecodeError::InconsistentLength || r->Err_0
                == DecodeError::UnsupportedFormat),
    {
        let ghost c0 = old(self).pos();
        let soi = self.read_marker()?;
        if soi != 0xFFD8 {
            return Err(DecodeError::MalformedHeader);
        }

        let mut quantization_tables: Vec<QuantizationTable> = Vec::new();
        let mut huffman_tables: Vec<HuffmanTable> = Vec::new();
        let mut start_of_frame: Option<StartOfFrame> = None;
        let mut start_of_scan: Option<StartOfScan> = None;
        let mut image_data: Option<ByteRange> = None;

        let mut scanning = true;
        while scanning
            invariant
                self.bytes() == old(self).bytes(),
                self.pos() <= self.bytes().len(),
                old(self).can_read(2),
                jpeg_be_u16(old(self).bytes(), old(self).pos()) == 0xFFD8,
                c0 == old(self).pos(),
                (scanning && self.pos() == c0 + 2) || spec_jfif_known_marker(
                    jpeg_be_u16(old(self).bytes(), c0 + 2),
                ),
                scanning ==> start_of_scan is None && image_data is None,
                !scanning ==> start_of_scan is Some && image_data is Some,
                !scanning ==> ({
                    let range = image_data->0;
                    let s = old(self).bytes();
                    &&& range.start <= range.end
                    &&& range.end + 2 <= s.len()
                    &&& s[range.end as int] == 0xFFu8
                    &&& s[range.end as int + 1] == 0xD9u8
                }),
            decreases self.bytes().len() - self.pos(), (if scanning { 1int } else { 0int }),
        {
            let marker = self.read_marker()?;
            if marker == 0xFFE0 {
                self.parse_application_header()?;
            } else if marker == 0xFFDB {
                let table = self.parse_quantization_table()?;
                quantization_tables.push(table);
            } else if marker == 0xFFC4 {
                let table = self.parse_huffman_table()?;
                huffman_tables.push(table);
            } else if marker == 0xFFDA {
                if !(start_of_scan.is_none() && image_data.is_none()) {
                    return Err(DecodeError::MalformedHeader);
                }
                let sos = self.parse_start_of_scan()?;
                let range = self.parse_image_data()?;
                start_of_scan = Some(sos);
                image_data = Some(range);

                scanning = false;
            } else if (marker as u8 & 0xF0) == 0xC0 {
                proof {
                    assert(((marker as u8) & 0xF0 == 0xC0) ==> ((marker as int % 0x100) / 0x10
                        == 0x0C)) by (bit_vector);
                }
                if !start_of_frame.is_none() {
                    return Err(DecodeError::MalformedHeader);
                }
                let sof = self.parse_start_of_frame(marker as u8)?;
                start_of_frame = Some(sof);
            } else {
                proof {
                    assert(((marker as u8) & 0xF0 != 0xC0) ==> ((marker as int % 0x100) / 0x10
                        != 0x0C)) by (bit_vector);
                }
                return Err(DecodeError::UnsupportedFormat);
            }
        }

        let eoi = self.read_marker()?;
        if eoi != 0xFFD9 {
            return Err(DecodeError::MalformedHeader);
        }

        if huffman_tables.len() != 4 {
            return Err(DecodeError::MalformedHeader);
        }

        let start_of_frame = match start_of_frame {
            Some(sof) => sof,
            None => {
                return Err(DecodeError::MalformedHeader);
            },
        };
        let start_of_scan = match start_of_scan {
            Some(sos) => sos,
            None => {
                return Err(DecodeError::MalformedHeader);
            },
        };
        let image_data = match image_data {
            Some(range) => range,
            None => {
                return Err(DecodeError::MalformedHeader);
            },
        };

        Ok(JFIF { quantization_tables, huffman_tables, start_of_frame, start_of_scan, image_data })
    }

    /// Decodes the marker segments and stops there: decoding the
    /// entropy-coded image data itself is not implemented, so every call
    /// ends in an error — an unsupported-format error when the marker
    /// segments themselves are well-formed.
    pub fn decode(&mut self) -> (r: Result<Jpeg, DecodeError>)
        ensures
            final(self).bytes() == old(self).bytes(),
            r is Err,
            r->Err_0 == DecodeError::Eof || r->Err_0 == DecodeError::MalformedHeader || r->Err_0
                == DecodeError::InconsistentLength || r->Err_0 == DecodeError::UnsupportedFormat,
            !old(self).can_read(2) ==> r == Err::<Jpeg, DecodeError>(DecodeError::Eof),
            old(self).can_read(2) && jpeg_be_u16(old(self).bytes(), old(self).pos()) != 0xFFD8
                ==> r == Err::<Jpeg, DecodeError>(DecodeError::MalformedHeader),
            ({
                let s = old(self).bytes();
                let c = old(self).pos();
                &&& 0 <= c
                &&& c + 4 <= s.len()
                &&& jpeg_be_u16(s, c) == 0xFFD8
                &&& !spec_jfif_known_marker(jpeg_be_u16(s, c + 2))
            }) ==> r == Err::<Jpeg, DecodeError>(DecodeError::UnsupportedFormat),
    {
        let _jfif = self.parse_jfif()?;

        Err(DecodeError::UnsupportedFormat)
    }
}

} // verus!
