use iris::error::{DecodeError, TableId};
use iris::font::grammar::{
    CMapSubtable, ComponentGlyphArgument, ComponentGlyphTransformation, Glyph, TableTag, TAG_GLYF,
    TAG_HEAD,
};
use iris::font::parser::TrueTypeFontParser;

fn push_u16(buf: &mut Vec<u8>, v: u16) {
    buf.push((v >> 8) as u8);
    buf.push(v as u8);
}

fn push_u32(buf: &mut Vec<u8>, v: u32) {
    buf.push((v >> 24) as u8);
    buf.push((v >> 16) as u8);
    buf.push((v >> 8) as u8);
    buf.push(v as u8);
}

fn push_tag(buf: &mut Vec<u8>, tag: &[u8; 4]) {
    buf.extend_from_slice(tag);
}

/// A minimal, internally consistent font: six required tables, one glyph,
/// one format-6 cmap subtable.
fn minimal_font() -> Vec<u8> {
    let mut f = Vec::new();
    // offset sub-table
    push_u32(&mut f, 0x00010000);
    push_u16(&mut f, 6); // num_tables
    push_u16(&mut f, 0x0060);
    push_u16(&mut f, 0x0003);
    push_u16(&mut f, 0x0000);
    // directory entries: (tag, checksum, offset, length)
    for (tag, offset, length) in [
        (b"head", 108u32, 54u32),
        (b"hhea", 162, 36),
        (b"maxp", 198, 32),
        (b"hmtx", 230, 4),
        (b"cmap", 234, 24),
        (b"glyf", 258, 24),
    ] {
        push_tag(&mut f, tag);
        push_u32(&mut f, 0);
        push_u32(&mut f, offset);
        push_u32(&mut f, length);
    }
    assert_eq!(f.len(), 108);
    // head
    push_u32(&mut f, 0x00010000);
    push_u32(&mut f, 0x00010000); // font revision
    push_u32(&mut f, 0); // checksum adjustment
    push_u32(&mut f, 0x5F0F3CF5); // magic
    push_u16(&mut f, 0); // flags
    push_u16(&mut f, 1024); // units per em
    f.extend_from_slice(&[0; 8]); // created
    f.extend_from_slice(&[0; 8]); // modified
    push_u16(&mut f, 0); // x_min
    push_u16(&mut f, 0); // y_min
    push_u16(&mut f, 64); // x_max
    push_u16(&mut f, 128); // y_max
    push_u16(&mut f, 0); // mac style
    push_u16(&mut f, 8); // lowest rec ppem
    push_u16(&mut f, 2); // font direction hint
    push_u16(&mut f, 0); // index to loc format
    push_u16(&mut f, 0); // glyph data format
    assert_eq!(f.len(), 162);
    // hhea
    push_u32(&mut f, 0x00010000);
    push_u16(&mut f, 800); // ascent
    push_u16(&mut f, 0xFF38); // descent: -200
    push_u16(&mut f, 0); // line gap
    push_u16(&mut f, 512); // advance width max
    push_u16(&mut f, 0);
    push_u16(&mut f, 0);
    push_u16(&mut f, 0);
    push_u16(&mut f, 1); // caret slope rise
    push_u16(&mut f, 0); // caret slope run
    push_u16(&mut f, 0); // caret offset
    f.extend_from_slice(&[0; 8]); // reserved
    push_u16(&mut f, 0); // metric data format
    push_u16(&mut f, 1); // num_of_long_hor_metrics
    assert_eq!(f.len(), 198);
    // maxp
    push_u32(&mut f, 0x00010000);
    push_u16(&mut f, 1); // num_glyphs
    for _ in 0..13 {
        push_u16(&mut f, 0);
    }
    assert_eq!(f.len(), 230);
    // hmtx: one long metric
    push_u16(&mut f, 512); // advance width
    push_u16(&mut f, 10); // left side bearing
    assert_eq!(f.len(), 234);
    // cmap: version, one entry pointing at a format-6 subtable
    push_u16(&mut f, 0);
    push_u16(&mut f, 1);
    push_u16(&mut f, 0); // platform: unicode
    push_u16(&mut f, 3); // platform specific id
    push_u32(&mut f, 12); // subtable offset
    push_u16(&mut f, 6); // format
    push_u16(&mut f, 12); // length
    push_u16(&mut f, 0); // language
    push_u16(&mut f, 65); // first code
    push_u16(&mut f, 1); // entry count
    push_u16(&mut f, 1); // glyph index
    assert_eq!(f.len(), 258);
    // glyf: one simple glyph, one contour, two points
    push_u16(&mut f, 1); // number of contours
    push_u16(&mut f, 0); // x_min
    push_u16(&mut f, 0); // y_min
    push_u16(&mut f, 100); // x_max
    push_u16(&mut f, 100); // y_max
    push_u16(&mut f, 1); // end point of contour 0
    push_u16(&mut f, 0); // instruction length
    f.push(0x01); // flag: on curve, long x, long y
    f.push(0x01);
    push_u16(&mut f, 100); // x delta point 0
    push_u16(&mut f, 0xFFCE); // x delta point 1: -50
    push_u16(&mut f, 10); // y delta point 0
    push_u16(&mut f, 5); // y delta point 1
    assert_eq!(f.len(), 282);
    f
}

#[test]
fn parse_well_formed_font() {
    let font = minimal_font();
    let mut parser = TrueTypeFontParser::new(&font);
    let file = parser.parse().expect("well-formed font must parse");

    assert_eq!(file.font_directory.offset_sub_table.num_tables, 6);
    assert_eq!(file.head.magic_number, 0x5F0F3CF5);
    assert_eq!(file.head.units_per_em, 1024);
    assert_eq!(file.head.glyph_data_format, 0);
    assert!(!file.head.index_to_loc_format);
    assert_eq!(file.hhea.ascent, 800);
    assert_eq!(file.hhea.descent, -200);
    assert_eq!(file.hhea.num_of_long_hor_metrics, 1);
    assert_eq!(file.maxp.num_glyphs, 1);
    assert_eq!(file.hmtx.h_metrics.len(), 1);
    assert_eq!(file.hmtx.h_metrics[0].advance_width, 512);
    assert_eq!(file.hmtx.h_metrics[0].left_side_bearing, 10);
    assert_eq!(file.hmtx.left_side_bearing.len(), 0);
    assert_eq!(file.cmap.subtables.len(), 1);
    match &file.cmap.subtables[0].0 {
        CMapSubtable::Six(six) => {
            assert_eq!(six.first_code, 65);
            assert_eq!(six.glyph_index_array, vec![1]);
        }
        other => panic!("expected a format-6 subtable, got {:?}", other),
    }
    assert_eq!(file.glyph.0.len(), 1);
    let (description, glyph) = &file.glyph.0[0];
    assert_eq!(description.number_of_contours, 1);
    match glyph {
        Glyph::Simple {
            end_points_of_contours,
            instruction_length,
            flags,
            coordinates,
            ..
        } => {
            assert_eq!(end_points_of_contours, &vec![1]);
            assert_eq!(*instruction_length, 0);
            assert_eq!(flags.len(), 2);
            assert_eq!(coordinates, &vec![(100, 10), (50, 15)]);
        }
        other => panic!("expected a simple glyph, got {:?}", other),
    }
}

#[test]
fn directory_lookup_bounds() {
    let font = minimal_font();
    let mut parser = TrueTypeFontParser::new(&font);
    let file = parser.parse().unwrap();
    for tag in [b"head", b"hhea", b"maxp", b"hmtx", b"cmap", b"glyf"] {
        let raw = u32::from_be_bytes(*tag);
        let record = file
            .font_directory
            .get_table_record(TableTag(raw))
            .expect("required table must be present");
        assert!((record.offset as usize) + (record.length as usize) <= font.len());
    }
}

#[test]
fn missing_required_table() {
    let mut font = minimal_font();
    // rename the glyf directory entry
    font[12 + 5 * 16] = b'x';
    let mut parser = TrueTypeFontParser::new(&font);
    let err = parser.parse().unwrap_err();
    assert_eq!(err.table, TableId::Glyf);
    assert_eq!(err.kind, DecodeError::MissingTable);
}

#[test]
fn duplicate_directory_tag_rejected() {
    let mut font = minimal_font();
    // second entry gets the first entry's tag
    font[28..32].copy_from_slice(b"head");
    let mut parser = TrueTypeFontParser::new(&font);
    let err = parser.parse().unwrap_err();
    assert_eq!(err.table, TableId::Directory);
    assert_eq!(err.kind, DecodeError::MalformedHeader);
}

#[test]
fn unknown_scalar_type_rejected() {
    let mut font = minimal_font();
    font[0..4].copy_from_slice(&[0xDE, 0xAD, 0xBE, 0xEF]);
    let mut parser = TrueTypeFontParser::new(&font);
    let err = parser.parse().unwrap_err();
    assert_eq!(err.table, TableId::Directory);
    assert_eq!(err.kind, DecodeError::MalformedHeader);
}

#[test]
fn bad_head_magic_rejected() {
    let mut font = minimal_font();
    // magic number sits 12 bytes into the head table
    font[108 + 12] = 0;
    let mut parser = TrueTypeFontParser::new(&font);
    let err = parser.parse().unwrap_err();
    assert_eq!(err.table, TableId::Head);
    assert_eq!(err.kind, DecodeError::MalformedHeader);
}

#[test]
fn truncated_declared_head_length() {
    let mut font = minimal_font();
    // head directory entry length 54 -> 53
    font[12 + 15] = 53;
    let mut parser = TrueTypeFontParser::new(&font);
    let err = parser.parse().unwrap_err();
    assert_eq!(err.table, TableId::Head);
    assert_eq!(err.kind, DecodeError::InconsistentLength);
}

#[test]
fn truncated_declared_glyf_length() {
    let mut font = minimal_font();
    // glyf directory entry length 24 -> 23
    font[12 + 5 * 16 + 15] = 23;
    let mut parser = TrueTypeFontParser::new(&font);
    let err = parser.parse().unwrap_err();
    assert_eq!(err.table, TableId::Glyf);
    assert_eq!(err.kind, DecodeError::InconsistentLength);
}

#[test]
fn truncated_buffer_is_eof() {
    let font = minimal_font();
    let short = &font[..font.len() - 1];
    let mut parser = TrueTypeFontParser::new(short);
    let err = parser.parse().unwrap_err();
    assert_eq!(err.table, TableId::Glyf);
    assert_eq!(err.kind, DecodeError::Eof);
}

#[test]
fn truncations_never_panic() {
    let font = minimal_font();
    for cut in 0..font.len() {
        let mut parser = TrueTypeFontParser::new(&font[..cut]);
        let err = parser.parse().unwrap_err();
        assert!(matches!(
            err.kind,
            DecodeError::Eof | DecodeError::InconsistentLength
        ));
    }
}

#[test]
fn read_past_end_is_eof() {
    let mut parser = TrueTypeFontParser::new(&[0x01]);
    assert_eq!(
        parser.parse_long_horizontal_metric().unwrap_err(),
        DecodeError::Eof
    );
    let mut parser = TrueTypeFontParser::new(&[0, 0, 0, 0, 0]);
    assert_eq!(parser.parse_glyph_description().unwrap_err(), DecodeError::Eof);
}

#[test]
fn hmtx_underflow_is_arithmetic_range() {
    let bytes = [0u8; 16];
    let mut parser = TrueTypeFontParser::new(&bytes);
    let err = parser.parse_hmtx_table(2, 1).unwrap_err();
    assert_eq!(err, DecodeError::ArithmeticRange);
}

#[test]
fn cmap_format0_length_must_be_262() {
    let bytes = [0x01, 0x05];
    let mut parser = TrueTypeFontParser::new(&bytes);
    let err = parser.validate_cmap_subtable_length(&0).unwrap_err();
    assert_eq!(err, DecodeError::InconsistentLength);

    let bytes = [0x01, 0x06];
    let mut parser = TrueTypeFontParser::new(&bytes);
    assert_eq!(parser.validate_cmap_subtable_length(&0).unwrap(), 262);
}

#[test]
fn cmap_format0_decodes_256_codes() {
    let mut body = vec![0x00, 0x07]; // language 7
    for i in 0..256u16 {
        body.push(i as u8);
    }
    let mut parser = TrueTypeFontParser::new(&body);
    let zero = parser.parse_cmap_subtable_format_0().unwrap();
    assert_eq!(zero.language, 7);
    assert_eq!(zero.glyph_index_array.len(), 256);
    assert_eq!(zero.glyph_index_array[65], 65);
}

#[test]
fn cmap_unsupported_format_rejected() {
    for format in [2u16, 8, 10, 12, 13, 14, 99] {
        let mut bytes = Vec::new();
        push_u16(&mut bytes, format);
        push_u16(&mut bytes, 16);
        let mut parser = TrueTypeFontParser::new(&bytes);
        assert_eq!(
            parser.parse_cmap_subtable().unwrap_err(),
            DecodeError::UnsupportedFormat
        );
    }
}

#[test]
fn cmap_format4_missing_sentinel() {
    let mut body = Vec::new();
    push_u16(&mut body, 0); // language
    push_u16(&mut body, 2); // seg_count_x2 -> one segment
    push_u16(&mut body, 0);
    push_u16(&mut body, 0);
    push_u16(&mut body, 0);
    push_u16(&mut body, 0x1234); // end code, not the sentinel
    let mut parser = TrueTypeFontParser::new(&body);
    assert_eq!(
        parser.parse_cmap_subtable_format_4().unwrap_err(),
        DecodeError::InvalidSentinel
    );
}

#[test]
fn cmap_format4_decodes_one_segment() {
    let mut body = Vec::new();
    push_u16(&mut body, 0); // language
    push_u16(&mut body, 2); // seg_count_x2
    push_u16(&mut body, 2); // search range
    push_u16(&mut body, 0); // entry selector
    push_u16(&mut body, 0); // range shift
    push_u16(&mut body, 0xFFFF); // end code
    push_u16(&mut body, 0); // reserved
    push_u16(&mut body, 0xFFFF); // start code
    push_u16(&mut body, 1); // id delta
    push_u16(&mut body, 0); // id range offset
    let mut parser = TrueTypeFontParser::new(&body);
    let four = parser.parse_cmap_subtable_format_4().unwrap();
    assert_eq!(four.end_codes, vec![0xFFFF]);
    assert_eq!(*four.end_codes.last().unwrap(), 0xFFFF);
    assert_eq!(four.start_codes, vec![0xFFFF]);
    assert_eq!(four.id_deltas, vec![1]);
    assert_eq!(four.id_range_offset, vec![0]);
    assert!(four.glyph_index_array.is_empty());
}

#[test]
fn cmap_format4_indirection_unsupported() {
    let mut body = Vec::new();
    push_u16(&mut body, 0);
    push_u16(&mut body, 2);
    push_u16(&mut body, 0);
    push_u16(&mut body, 0);
    push_u16(&mut body, 0);
    push_u16(&mut body, 0xFFFF); // end code
    push_u16(&mut body, 0); // reserved
    push_u16(&mut body, 0xFFFF); // start code
    push_u16(&mut body, 0); // id delta
    push_u16(&mut body, 2); // non-zero id range offset
    let mut parser = TrueTypeFontParser::new(&body);
    assert_eq!(
        parser.parse_cmap_subtable_format_4().unwrap_err(),
        DecodeError::UnsupportedFormat
    );
}

#[test]
fn simple_glyph_flag_expansion() {
    let mut body = Vec::new();
    push_u16(&mut body, 3); // end point: four points
    push_u16(&mut body, 0); // instruction length
    body.push(0x09); // on curve + repeat
    body.push(3); // three extra copies
    for _ in 0..4 {
        push_u16(&mut body, 1); // x deltas
    }
    for _ in 0..4 {
        push_u16(&mut body, 2); // y deltas
    }
    let mut parser = TrueTypeFontParser::new(&body);
    let glyph = parser.parse_simple_glyph(1).unwrap();
    match glyph {
        Glyph::Simple { flags, coordinates, .. } => {
            assert_eq!(flags.len(), 4);
            assert_eq!(coordinates, vec![(1, 2), (2, 4), (3, 6), (4, 8)]);
        }
        other => panic!("expected a simple glyph, got {:?}", other),
    }
}

#[test]
fn simple_glyph_flag_overflow_rejected() {
    let mut body = Vec::new();
    push_u16(&mut body, 1); // end point: two points
    push_u16(&mut body, 0); // instruction length
    body.push(0x09); // repeat flag
    body.push(5); // five extra copies for only two points
    let mut parser = TrueTypeFontParser::new(&body);
    assert_eq!(
        parser.parse_simple_glyph(1).unwrap_err(),
        DecodeError::InconsistentLength
    );
}

#[test]
fn same_or_sign_consumes_nothing() {
    let empty: [u8; 0] = [];
    let mut parser = TrueTypeFontParser::new(&empty);
    assert_eq!(parser.parse_glyph_coordinate(false, true).unwrap(), None);
    // a short vector with the sign bit set reads one unsigned byte
    let one = [200u8];
    let mut parser = TrueTypeFontParser::new(&one);
    assert_eq!(parser.parse_glyph_coordinate(true, true).unwrap(), Some(200));
    // a short vector with the sign bit clear negates it
    let mut parser = TrueTypeFontParser::new(&one);
    assert_eq!(parser.parse_glyph_coordinate(true, false).unwrap(), Some(-200));
    // neither bit: a signed 16-bit delta
    let two = [0xFF, 0xCE];
    let mut parser = TrueTypeFontParser::new(&two);
    assert_eq!(parser.parse_glyph_coordinate(false, false).unwrap(), Some(-50));
}

#[test]
fn compound_glyph_default_transform() {
    let mut body = Vec::new();
    push_u16(&mut body, 0x0002); // xy args, byte width, no scale, no more
    push_u16(&mut body, 5); // glyph index
    body.push(7); // arg 1
    body.push(0xF9); // arg 2: -7
    let mut parser = TrueTypeFontParser::new(&body);
    let glyph = parser.parse_compound_glyph().unwrap();
    match glyph {
        Glyph::Compound { components } => {
            assert_eq!(components.len(), 1);
            assert_eq!(components[0].glyph_index, 5);
            assert_eq!(components[0].arg_1, ComponentGlyphArgument::Coord(7));
            assert_eq!(components[0].arg_2, ComponentGlyphArgument::Coord(-7));
            assert_eq!(
                components[0].transformation,
                ComponentGlyphTransformation::Uniform(16384)
            );
        }
        other => panic!("expected a compound glyph, got {:?}", other),
    }
}

#[test]
fn compound_glyph_uniform_scale() {
    let mut body = Vec::new();
    push_u16(&mut body, 0x0009); // word xy? words + have-a-scale, args are point indices
    push_u16(&mut body, 3); // glyph index
    push_u16(&mut body, 11); // arg 1: point index
    push_u16(&mut body, 12); // arg 2: point index
    push_u16(&mut body, 0x2000); // scale 0.5 in 2.14
    let mut parser = TrueTypeFontParser::new(&body);
    let glyph = parser.parse_compound_glyph().unwrap();
    match glyph {
        Glyph::Compound { components } => {
            assert_eq!(components[0].arg_1, ComponentGlyphArgument::Point(11));
            assert_eq!(components[0].arg_2, ComponentGlyphArgument::Point(12));
            assert_eq!(
                components[0].transformation,
                ComponentGlyphTransformation::Uniform(0x2000)
            );
        }
        other => panic!("expected a compound glyph, got {:?}", other),
    }
}

#[test]
fn tag_constants_spell_the_table_names() {
    assert_eq!(TAG_HEAD, u32::from_be_bytes(*b"head"));
    assert_eq!(TAG_GLYF, u32::from_be_bytes(*b"glyf"));
}

#[test]
fn cmap_shared_offset_groups_platform_pairs() {
    let mut t = Vec::new();
    push_u16(&mut t, 0); // version
    push_u16(&mut t, 2); // two encoding entries
    push_u16(&mut t, 0); // platform: unicode
    push_u16(&mut t, 3);
    push_u32(&mut t, 20); // shared subtable offset
    push_u16(&mut t, 3); // platform: microsoft
    push_u16(&mut t, 1);
    push_u32(&mut t, 20); // same offset
    // one format-6 subtable at offset 20
    push_u16(&mut t, 6);
    push_u16(&mut t, 12);
    push_u16(&mut t, 0);
    push_u16(&mut t, 65);
    push_u16(&mut t, 1);
    push_u16(&mut t, 7);
    push_u32(&mut t, 0); // slack the subtable bounds check looks past
    let mut parser = TrueTypeFontParser::new(&t);
    let cmap = parser.parse_cmap_table().unwrap();
    assert_eq!(cmap.subtables.len(), 1);
    let (subtable, pairs) = &cmap.subtables[0];
    match subtable {
        CMapSubtable::Six(six) => assert_eq!(six.glyph_index_array, vec![7]),
        other => panic!("expected a format-6 subtable, got {:?}", other),
    }
    assert_eq!(pairs.len(), 2);
    assert_eq!(pairs[0].platform_specific_id, 3);
    assert_eq!(pairs[1].platform_specific_id, 1);
}

#[test]
fn cmap_equal_subtables_at_two_offsets_rejected() {
    let mut t = Vec::new();
    push_u16(&mut t, 0); // version
    push_u16(&mut t, 2); // two encoding entries
    push_u16(&mut t, 0);
    push_u16(&mut t, 3);
    push_u32(&mut t, 20); // first offset
    push_u16(&mut t, 0);
    push_u16(&mut t, 4);
    push_u32(&mut t, 32); // second, distinct offset
    for _ in 0..2 {
        // two byte-identical format-6 subtables
        push_u16(&mut t, 6);
        push_u16(&mut t, 12);
        push_u16(&mut t, 0);
        push_u16(&mut t, 65);
        push_u16(&mut t, 1);
        push_u16(&mut t, 7);
    }
    push_u32(&mut t, 0); // slack the subtable bounds check looks past
    let mut parser = TrueTypeFontParser::new(&t);
    assert_eq!(
        parser.parse_cmap_table().unwrap_err(),
        DecodeError::MalformedHeader
    );
}
