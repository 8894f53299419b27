use iris::error::DecodeError;
use iris::png::chunk::{frame_chunk, IDATChunk, IENDChunk, IHDRChunk};
use iris::png::grammar::{Chunk, ColorType, Filter, ImageHeader, Png};
use std::io::Read;

fn gray_header(width: u32, height: u32) -> ImageHeader {
    ImageHeader {
        width,
        height,
        bit_depth: 8,
        color_type: ColorType::Grayscale,
        compression_method: 0,
        filter_method: 0,
        interlace_method: false,
    }
}

#[test]
fn filter_codes_round_trip() {
    assert_eq!(Filter::try_from(0).unwrap(), Filter::NoFilter);
    assert_eq!(Filter::try_from(1).unwrap(), Filter::Sub);
    assert_eq!(Filter::try_from(2).unwrap(), Filter::Up);
    assert_eq!(Filter::try_from(3).unwrap(), Filter::Average);
    assert_eq!(Filter::try_from(4).unwrap(), Filter::Paeth);
    assert_eq!(Filter::try_from(5).unwrap_err(), DecodeError::MalformedHeader);
}

#[test]
fn color_type_codes_round_trip() {
    for code in [0u8, 2, 3, 4, 6] {
        let ct = ColorType::try_from(code).unwrap();
        assert_eq!(ct.code(), code);
    }
    assert_eq!(ColorType::try_from(1).unwrap_err(), DecodeError::MalformedHeader);
    assert_eq!(ColorType::try_from(5).unwrap_err(), DecodeError::MalformedHeader);
}

#[test]
fn bytes_per_pixel_rounds_up() {
    let mut h = gray_header(1, 1);
    h.bit_depth = 1;
    assert_eq!(h.num_bytes_per_pixel(), 1);
    h.bit_depth = 16;
    assert_eq!(h.num_bytes_per_pixel(), 2);
    h.color_type = ColorType::RGB;
    h.bit_depth = 8;
    assert_eq!(h.num_bytes_per_pixel(), 3);
    h.color_type = ColorType::RGBA;
    assert_eq!(h.num_bytes_per_pixel(), 4);
    h.color_type = ColorType::GrayscaleAlpha;
    h.bit_depth = 16;
    assert_eq!(h.num_bytes_per_pixel(), 4);
}

fn png_with(color_type: ColorType, pixels: Vec<u8>) -> Png {
    Png {
        image_header: ImageHeader {
            width: 1,
            height: 1,
            bit_depth: 8,
            color_type,
            compression_method: 0,
            filter_method: 0,
            interlace_method: false,
        },
        gamma: 45455,
        pixel_buffer: pixels,
    }
}

#[test]
fn rgb8_conversions() {
    assert_eq!(png_with(ColorType::RGB, vec![1, 2, 3]).rgb8(), vec![1, 2, 3]);
    assert_eq!(png_with(ColorType::RGBA, vec![1, 2, 3, 4]).rgb8(), vec![1, 2, 3]);
    assert_eq!(png_with(ColorType::Grayscale, vec![9]).rgb8(), vec![9, 9, 9]);
    assert_eq!(
        png_with(ColorType::GrayscaleAlpha, vec![9, 200]).rgb8(),
        vec![9, 9, 9]
    );
}

#[test]
fn rgba8_conversions() {
    assert_eq!(
        png_with(ColorType::RGBA, vec![1, 2, 3, 4]).rgba8(),
        vec![1, 2, 3, 4]
    );
    assert_eq!(png_with(ColorType::RGB, vec![5, 6, 7]).rgba8(), vec![5, 6, 7, 0]);
    assert_eq!(png_with(ColorType::Grayscale, vec![9]).rgba8(), vec![9, 9, 9, 0]);
    assert_eq!(
        png_with(ColorType::GrayscaleAlpha, vec![9, 128]).rgba8(),
        vec![9, 9, 9, 128]
    );
}

#[test]
fn bitmap_packs_words() {
    assert_eq!(
        png_with(ColorType::RGB, vec![0x11, 0x22, 0x33]).bitmap(),
        vec![0x00112233]
    );
    assert_eq!(
        png_with(ColorType::RGBA, vec![0x11, 0x22, 0x33, 0x44]).bitmap(),
        vec![0x44112233]
    );
    assert_eq!(png_with(ColorType::Grayscale, vec![0x10]).bitmap(), vec![0x00101010]);
    assert_eq!(
        png_with(ColorType::GrayscaleAlpha, vec![0x09, 0x80]).bitmap(),
        vec![0x80090909]
    );
}

#[test]
fn binary_blob_round_trip() {
    let mut blob = Vec::new();
    blob.extend_from_slice(&2u32.to_be_bytes()); // width
    blob.extend_from_slice(&1u32.to_be_bytes()); // height
    blob.push(8); // bit depth
    blob.push(0); // grayscale
    blob.push(0); // compression method
    blob.push(0); // filter method
    blob.push(1); // interlaced
    blob.extend_from_slice(&45455u32.to_be_bytes()); // gamma
    blob.extend_from_slice(&[7, 8]); // pixels

    let png = Png::from_binary_blob(&blob).unwrap();
    assert_eq!(png.width(), 2);
    assert_eq!(png.height(), 1);
    assert_eq!(png.image_header.bit_depth, 8);
    assert_eq!(png.color_type(), ColorType::Grayscale);
    assert!(png.image_header.interlace_method);
    assert_eq!(png.gamma(), 45455);
    assert_eq!(png.pixel_buffer, vec![7, 8]);
}

#[test]
fn binary_blob_too_short_is_eof() {
    let blob = [0u8; 16];
    assert_eq!(Png::from_binary_blob(&blob).unwrap_err(), DecodeError::Eof);
}

#[test]
fn binary_blob_bad_color_code() {
    let mut blob = vec![0u8; 17];
    blob[9] = 9;
    assert_eq!(
        Png::from_binary_blob(&blob).unwrap_err(),
        DecodeError::MalformedHeader
    );
}

#[test]
fn iend_chunk_frames_to_known_bytes() {
    let chunk = IENDChunk;
    let framed = frame_chunk(&chunk.name(), &chunk.data());
    // the canonical empty end chunk, checksum included
    assert_eq!(
        framed,
        vec![0x00, 0x00, 0x00, 0x00, 0x49, 0x45, 0x4E, 0x44, 0xAE, 0x42, 0x60, 0x82]
    );
}

#[test]
fn ihdr_chunk_serializes_fields_in_order() {
    let header = gray_header(1, 1);
    let chunk = IHDRChunk { image_header: &header };
    assert_eq!(chunk.name(), *b"IHDR");
    let data = chunk.data();
    assert_eq!(data, vec![0, 0, 0, 1, 0, 0, 0, 1, 8, 0, 0, 0, 0]);

    let framed = frame_chunk(&chunk.name(), &data);
    assert_eq!(&framed[0..4], &[0, 0, 0, 13]);
    assert_eq!(&framed[4..8], b"IHDR");
    assert_eq!(&framed[8..21], data.as_slice());
    let mut hashed = Vec::new();
    hashed.extend_from_slice(b"IHDR");
    hashed.extend_from_slice(&data);
    assert_eq!(&framed[21..25], &crc32fast::hash(&hashed).to_be_bytes());
}

#[test]
fn idat_chunk_compresses_filtered_scanlines() {
    let header = gray_header(2, 2);
    let pixels = [10u8, 20, 30, 40];
    let chunk = IDATChunk { image_header: &header, data: &pixels };
    assert_eq!(chunk.name(), *b"IDAT");
    let compressed = chunk.data().unwrap();

    let mut decoder = flate2::read::ZlibDecoder::new(compressed.as_slice());
    let mut unpacked = Vec::new();
    decoder.read_to_end(&mut unpacked).unwrap();
    // each scanline carries the filter byte zero before its pixels
    assert_eq!(unpacked, vec![0, 10, 20, 0, 30, 40]);
}

#[test]
fn idat_chunk_rejects_mismatched_dimensions() {
    let header = gray_header(2, 2);
    let pixels = [10u8, 20, 30];
    let chunk = IDATChunk { image_header: &header, data: &pixels };
    assert_eq!(chunk.data().unwrap_err(), DecodeError::InconsistentLength);
}

#[test]
fn chunk_variants_carry_their_payloads() {
    let header = gray_header(3, 1);
    let gamma = Chunk::Gamma(45455);
    match gamma {
        Chunk::Gamma(g) => assert_eq!(g, 45455),
        _ => unreachable!(),
    }
    let ihdr = Chunk::ImageHeader(header);
    match ihdr {
        Chunk::ImageHeader(h) => assert_eq!(h.width, 3),
        _ => unreachable!(),
    }
    let payload = [1u8, 2, 3];
    let data = Chunk::ImageData(&payload);
    match data {
        Chunk::ImageData(d) => assert_eq!(d, &payload),
        _ => unreachable!(),
    }
}
