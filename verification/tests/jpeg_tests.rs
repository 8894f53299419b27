use iris::error::DecodeError;
use iris::jpeg::decoder::JpegDecoder;
use iris::jpeg::grammar::EncodingProcess;

fn push_u16(buf: &mut Vec<u8>, v: u16) {
    buf.push((v >> 8) as u8);
    buf.push(v as u8);
}

fn push_app0(buf: &mut Vec<u8>) {
    push_u16(buf, 0xFFE0);
    push_u16(buf, 16); // segment length
    buf.extend_from_slice(b"JFIF\0");
    buf.extend_from_slice(&[0x01, 0x01, 0x00, 0x00, 0x48, 0x00, 0x48, 0x00, 0x00]);
}

fn push_dqt(buf: &mut Vec<u8>) {
    push_u16(buf, 0xFFDB);
    push_u16(buf, 67); // length: two length bytes, flag, 64 elements
    buf.push(0);
    for i in 0..64u8 {
        buf.push(i + 1);
    }
}

fn push_dht(buf: &mut Vec<u8>) {
    push_u16(buf, 0xFFC4);
    push_u16(buf, 19); // length: two length bytes, flag, 16 counts, no symbols
    buf.push(0);
    buf.extend_from_slice(&[0; 16]);
}

fn push_sof(buf: &mut Vec<u8>) {
    push_u16(buf, 0xFFC0); // baseline
    push_u16(buf, 11); // length for one component
    buf.push(8); // sample precision
    push_u16(buf, 16); // lines
    push_u16(buf, 16); // samples per line
    buf.push(1); // one component
    buf.extend_from_slice(&[1, 0x11, 0]);
}

fn push_sos(buf: &mut Vec<u8>) {
    push_u16(buf, 0xFFDA);
    push_u16(buf, 8); // length for one component
    buf.push(1);
    buf.extend_from_slice(&[1, 0]);
    buf.extend_from_slice(&[0, 63, 0]);
}

/// A minimal, internally consistent marker stream.
fn minimal_jfif() -> Vec<u8> {
    let mut j = Vec::new();
    push_u16(&mut j, 0xFFD8); // start of image
    push_app0(&mut j);
    push_dqt(&mut j);
    push_sof(&mut j);
    for _ in 0..4 {
        push_dht(&mut j);
    }
    push_sos(&mut j);
    j.extend_from_slice(&[0x12, 0x34, 0x56]); // entropy-coded bytes
    push_u16(&mut j, 0xFFD9); // end of image
    j
}

#[test]
fn parse_jfif_collects_segments() {
    let stream = minimal_jfif();
    let mut decoder = JpegDecoder::new(&stream);
    let jfif = decoder.parse_jfif().expect("well-formed stream must parse");

    assert_eq!(jfif.quantization_tables.len(), 1);
    let q = &jfif.quantization_tables[0];
    assert_eq!(q.flag, 0);
    assert_eq!(q.element_range.end - q.element_range.start, 64);
    assert_eq!(stream[q.element_range.start], 1);
    assert_eq!(stream[q.element_range.end - 1], 64);

    assert_eq!(jfif.huffman_tables.len(), 4);
    let h = &jfif.huffman_tables[0];
    assert_eq!(h.code_lengths.end - h.code_lengths.start, 16);
    assert_eq!(h.symbols.start, h.symbols.end);

    assert_eq!(
        jfif.start_of_frame.encoding_process,
        EncodingProcess::BaselineDct
    );
    assert_eq!(jfif.start_of_frame.sample_precision, 8);
    assert_eq!(jfif.start_of_frame.lines, 16);
    assert_eq!(jfif.start_of_frame.samples_per_line, 16);
    assert_eq!(jfif.start_of_frame.components.len(), 1);
    assert_eq!(jfif.start_of_frame.components[0].identifier, 1);
    assert_eq!(jfif.start_of_frame.components[0].sampling_factor, 0x11);

    assert_eq!(jfif.start_of_scan.components, vec![(1, 0)]);
    assert_eq!(jfif.start_of_scan.spectral_select_start, 0);
    assert_eq!(jfif.start_of_scan.spectral_select_end, 63);

    let data = &stream[jfif.image_data.start..jfif.image_data.end];
    assert_eq!(data, &[0x12, 0x34, 0x56]);
}

#[test]
fn decode_stops_at_entropy_coded_data() {
    let stream = minimal_jfif();
    let mut decoder = JpegDecoder::new(&stream);
    assert_eq!(decoder.decode().unwrap_err(), DecodeError::UnsupportedFormat);
}

#[test]
fn missing_start_of_image_rejected() {
    let mut stream = minimal_jfif();
    stream[1] = 0xD7;
    let mut decoder = JpegDecoder::new(&stream);
    assert_eq!(
        decoder.parse_jfif().unwrap_err(),
        DecodeError::MalformedHeader
    );
}

#[test]
fn unrecognized_marker_unsupported() {
    let mut stream = Vec::new();
    push_u16(&mut stream, 0xFFD8);
    push_u16(&mut stream, 0xFFFE); // comment marker, which this decoder does not know
    let mut decoder = JpegDecoder::new(&stream);
    assert_eq!(
        decoder.parse_jfif().unwrap_err(),
        DecodeError::UnsupportedFormat
    );
}

#[test]
fn wrong_huffman_table_count_rejected() {
    let mut j = Vec::new();
    push_u16(&mut j, 0xFFD8);
    push_app0(&mut j);
    push_sof(&mut j);
    for _ in 0..3 {
        push_dht(&mut j);
    }
    push_sos(&mut j);
    j.extend_from_slice(&[0x12]);
    push_u16(&mut j, 0xFFD9);
    let mut decoder = JpegDecoder::new(&j);
    assert_eq!(
        decoder.parse_jfif().unwrap_err(),
        DecodeError::MalformedHeader
    );
}

#[test]
fn truncated_stream_is_eof() {
    let stream = minimal_jfif();
    let short = &stream[..stream.len() - 2];
    let mut decoder = JpegDecoder::new(short);
    // without the end-of-image marker the scan for it runs off the buffer
    assert_eq!(decoder.parse_jfif().unwrap_err(), DecodeError::Eof);
}

#[test]
fn bad_application_header_magic_rejected() {
    let mut stream = minimal_jfif();
    stream[6] = b'X'; // corrupt the identification bytes
    let mut decoder = JpegDecoder::new(&stream);
    assert_eq!(
        decoder.parse_jfif().unwrap_err(),
        DecodeError::MalformedHeader
    );
}

#[test]
fn undersized_segment_length_rejected() {
    let mut stream = Vec::new();
    push_u16(&mut stream, 0xFFD8);
    push_u16(&mut stream, 0xFFDB);
    push_u16(&mut stream, 2); // a quantization segment needs at least its flag
    stream.push(0);
    let mut decoder = JpegDecoder::new(&stream);
    assert_eq!(
        decoder.parse_jfif().unwrap_err(),
        DecodeError::InconsistentLength
    );
}

#[test]
fn jpg_extension_frame_marker_rejected() {
    let mut stream = Vec::new();
    push_u16(&mut stream, 0xFFD8);
    push_u16(&mut stream, 0xFFC8); // reserved frame marker: nibble 8 names no process
    push_u16(&mut stream, 11);
    let mut decoder = JpegDecoder::new(&stream);
    assert_eq!(
        decoder.parse_jfif().unwrap_err(),
        DecodeError::MalformedHeader
    );
}
