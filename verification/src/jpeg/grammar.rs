use vstd::prelude::*;

use crate::error::DecodeError;

verus! {

/// A two-byte segment marker, kept as its big-endian value.
pub type Marker = u16;

/// A half-open byte range into the input buffer.
#[derive(Clone, Copy, Debug, PartialEq, Eq, Structural)]
pub struct ByteRange {
    pub start: usize,
    pub end: usize,
}

/// The encoding process a start-of-frame marker's low nibble selects.
#[derive(Clone, Copy, Debug, PartialEq, Eq, Structural)]
pub enum EncodingProcess {
    BaselineDct,
    ExtendedSequentialDct,
    ProgressiveDct,
    Lossless,
    DifferentialSequentialDct,
    DifferentialProgressiveDct,
    DifferentialLossless,
    ExtendedSequentialDctArithmetic,
    ProgressiveDctArithmetic,
    LosslessArithmetic,
    DifferentialSequentialDctArithmetic,
    DifferentialProgressiveDctArithmetic,
    DifferentialLosslessArithmetic,
}

impl EncodingProcess {
    /// Does a low nibble name an encoding process?
    pub open spec fn spec_recognized(raw: u8) -> bool {
        raw != 4 && raw != 8 && raw != 12 && raw <= 15
    }

    /// The encoding process a recognized nibble decodes to.
    pub open spec fn spec_from(raw: u8) -> EncodingProcess {
        if raw == 0 {
            EncodingProcess::BaselineDct
        } else if raw == 1 {
            EncodingProcess::ExtendedSequentialDct
        } else if raw == 2 {
            EncodingProcess::ProgressiveDct
        } else if raw == 3 {
            EncodingProcess::Lossless
        } else if raw == 5 {
            EncodingProcess::DifferentialSequentialDct
        } else if raw == 6 {
            EncodingProcess::DifferentialProgressiveDct
        } else if raw == 7 {
            EncodingProcess::DifferentialLossless
        } else if raw == 9 {
            EncodingProcess::ExtendedSequentialDctArithmetic
        } else if raw == 10 {
            EncodingProcess::ProgressiveDctArithmetic
        } else if raw == 11 {
            EncodingProcess::LosslessArithmetic
        } else if raw == 13 {
            EncodingProcess::DifferentialSequentialDctArithmetic
        } else if raw == 14 {
            EncodingProcess::DifferentialProgressiveDctArithmetic
        } else {
            EncodingProcess::DifferentialLosslessArithmetic
        }
    }

    /// Decodes a start-of-frame low nibble, rejecting one that names no
    /// encoding process.
    pub fn try_from(raw: u8) -> (r: Result<EncodingProcess, DecodeError>)
        ensures
            Self::spec_recognized(raw) ==> r == Ok::<EncodingProcess, DecodeError>(
                Self::spec_from(raw),
            ),
            !Self::spec_recognized(raw) ==> r == Err::<EncodingProcess, DecodeError>(
                DecodeError::MalformedHeader,
            ),
    {
        match raw {
            0 => Ok(EncodingProcess::BaselineDct),
            1 => Ok(EncodingProcess::ExtendedSequentialDct),
            2 => Ok(EncodingProcess::ProgressiveDct),
            3 => Ok(EncodingProcess::Lossless),
            5 => Ok(EncodingProcess::DifferentialSequentialDct),
            6 => Ok(EncodingProcess::DifferentialProgressiveDct),
            7 => Ok(EncodingProcess::DifferentialLossless),
            9 => Ok(EncodingProcess::ExtendedSequentialDctArithmetic),
            10 => Ok(EncodingProcess::ProgressiveDctArithmetic),
            11 => Ok(EncodingProcess::LosslessArithmetic),
            13 => Ok(EncodingProcess::DifferentialSequentialDctArithmetic),
            14 => Ok(EncodingProcess::DifferentialProgressiveDctArithmetic),
            15 => Ok(EncodingProcess::DifferentialLosslessArithmetic),
            _ => Err(DecodeError::MalformedHeader),
        }
    }
}

/// One image component of a start-of-frame segment.
#[derive(Clone, Copy, Debug, PartialEq, Eq, Structural)]
pub struct Component {
    pub identifier: u8,
    pub sampling_factor: u8,
    pub quantization_table_destination_selector: u8,
}

/// A quantization-table segment: its flag byte and the range of its elements.
#[derive(Clone, Copy, Debug, PartialEq, Eq, Structural)]
pub struct QuantizationTable {
    pub flag: u8,
    pub element_range: ByteRange,
}

/// A Huffman-table segment: its flag byte, the sixteen code-length counts,
/// and the symbol bytes, both as ranges into the input.
#[derive(Clone, Copy, Debug, PartialEq, Eq, Structural)]
pub struct HuffmanTable {
    pub flag: u8,
    pub code_lengths: ByteRange,
    pub symbols: ByteRange,
}

/// A start-of-frame segment.
#[derive(Clone, Debug, PartialEq, Eq)]
pub struct StartOfFrame {
    pub encoding_process: EncodingProcess,
    pub sample_precision: u8,
    pub lines: u16,
    pub samples_per_line: u16,
    pub components: Vec<Component>,
}

/// A start-of-scan segment: per-component selector pairs and the spectral
/// selection bounds.
#[derive(Clone, Debug, PartialEq, Eq)]
pub struct StartOfScan {
    pub components: Vec<(u8, u8)>,
    pub spectral_select_start: u8,
    pub spectral_select_end: u8,
    pub approximation: u8,
}

/// The marker segments of a JFIF stream, up to and including the scan.
#[derive(Clone, Debug, PartialEq, Eq)]
pub struct JFIF {
    pub quantization_tables: Vec<QuantizationTable>,
    pub huffman_tables: Vec<HuffmanTable>,
    pub start_of_frame: StartOfFrame,
    pub start_of_scan: StartOfScan,
    pub image_data: ByteRange,
}

/// A fully decoded image. Decoding the entropy-coded data behind the marker
/// segments is not implemented, so no value of this type is ever produced.
#[derive(Clone, Debug, PartialEq, Eq)]
pub struct Jpeg {
    pub jfif: JFIF,
}

} // verus!
