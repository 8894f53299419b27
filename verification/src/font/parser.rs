use vstd::prelude::*;

use crate::error::{DecodeError, FontError, TableId};
use crate::font::grammar::{
    cmap_subtable_eq, cmap_subtable_wf, dir_has_tag, dir_record_of, dir_tags_unique, glyph_wf,
    spec_cmap_subtable_eq, TrueTypeFontFile, TAG_CMAP, TAG_GLYF, TAG_HEAD, TAG_HHEA, TAG_HMTX,
    TAG_MAXP, CMapFormat0,
    CMapFormat4, CMapFormat6, CMapSubtable, CMapTable, ComponentGlyph, ComponentGlyphArgument,
    ComponentGlyphFlag, ComponentGlyphTransformation, FWord, Fixed, FontDirectory, Glyph,
    GlyphDescription, GlyphTable, HHeaTable, HMtxTable, HeadTable, LongDateTime,
    LongHorizontalMetric, MaxPTable, OffsetSubTable, Platform, PlatformDouble, ScalarType,
    SimpleGlyphFlag, TableRecord, TableTag, UnsignedFWord, END_CODE_SENTINEL, F2DOT14_ONE,
    HEAD_MAGIC, VERSION_1_0,
};

verus! {

/// The big-endian unsigned 16-bit value of two bytes at position `i`.
pub open spec fn be_u16(s: Seq<u8>, i: int) -> int {
    s[i] * 0x100 + s[i + 1]
}

/// The big-endian unsigned 32-bit value of four bytes at position `i`.
pub open spec fn be_u32(s: Seq<u8>, i: int) -> int {
    s[i] * 0x1000000 + s[i + 1] * 0x10000 + s[i + 2] * 0x100 + s[i + 3]
}

/// The big-endian unsigned 64-bit value of eight bytes at position `i`.
pub open spec fn be_u64(s: Seq<u8>, i: int) -> int {
    be_u32(s, i) * 0x100000000 + be_u32(s, i + 4)
}

/// Reinterprets an unsigned 8-bit value as two's-complement.
pub open spec fn to_signed_8(v: int) -> int {
    if v < 0x80 {
        v
    } else {
        v - 0x100
    }
}

/// Reinterprets an unsigned 16-bit value as two's-complement.
pub open spec fn to_signed_16(v: int) -> int {
    if v < 0x8000 {
        v
    } else {
        v - 0x10000
    }
}

/// Reinterprets an unsigned 64-bit value as two's-complement.
pub open spec fn to_signed_64(v: int) -> int {
    if v < 0x8000000000000000 {
        v
    } else {
        v - 0x10000000000000000
    }
}

/// The big-endian signed 16-bit value of two bytes at position `i`.
pub open spec fn be_i16(s: Seq<u8>, i: int) -> int {
    to_signed_16(be_u16(s, i))
}

/// The big-endian signed 64-bit value of eight bytes at position `i`.
pub open spec fn be_i64(s: Seq<u8>, i: int) -> int {
    to_signed_64(be_u64(s, i))
}

/// The tag of directory entry `i` of a directory starting at `c`.
pub open spec fn spec_dir_entry_tag(s: Seq<u8>, c: int, i: int) -> int {
    be_u32(s, c + 12 + 16 * i)
}

/// Directory entry `i` of a directory starting at `c`.
pub open spec fn spec_dir_entry(s: Seq<u8>, c: int, i: int) -> (TableTag, TableRecord) {
    (
        TableTag(be_u32(s, c + 12 + 16 * i) as u32),
        TableRecord {
            checksum: be_u32(s, c + 12 + 16 * i + 4) as u32,
            offset: be_u32(s, c + 12 + 16 * i + 8) as u32,
            length: be_u32(s, c + 12 + 16 * i + 12) as u32,
        },
    )
}

/// The first `n` directory entry tags at `c` are pairwise distinct.
pub open spec fn spec_dir_tags_distinct(s: Seq<u8>, c: int, n: int) -> bool {
    forall|i: int, j: int|
        0 <= i < j < n ==> #[trigger] spec_dir_entry_tag(s, c, i) != #[trigger] spec_dir_entry_tag(
            s,
            c,
            j,
        )
}

/// The offset sub-table decoded from the 12 bytes at `c`.
pub open spec fn spec_offset_sub_table(s: Seq<u8>, c: int) -> OffsetSubTable {
    OffsetSubTable {
        scalar_type: ScalarType::spec_from(be_u32(s, c) as u32),
        num_tables: be_u16(s, c + 4) as u16,
        search_range: be_u16(s, c + 6) as u16,
        entry_selector: be_u16(s, c + 8) as u16,
        range_shift: be_u16(s, c + 10) as u16,
    }
}

/// The head table decoded from the 54 bytes at `c`.
pub open spec fn spec_head_table(s: Seq<u8>, c: int) -> HeadTable {
    HeadTable {
        font_revision: be_u32(s, c + 4) as u32,
        checksum_adjustment: be_u32(s, c + 8) as u32,
        magic_number: be_u32(s, c + 12) as u32,
        flags: be_u16(s, c + 16) as u16,
        units_per_em: be_u16(s, c + 18) as u16,
        created: be_i64(s, c + 20) as i64,
        modified: be_i64(s, c + 28) as i64,
        x_min: be_i16(s, c + 36) as i16,
        y_min: be_i16(s, c + 38) as i16,
        x_max: be_i16(s, c + 40) as i16,
        y_max: be_i16(s, c + 42) as i16,
        mac_style: be_u16(s, c + 44) as u16,
        lowest_rec_ppem: be_u16(s, c + 46) as u16,
        font_direction_hint: be_i16(s, c + 48) as i16,
        index_to_loc_format: be_i16(s, c + 50) == 1,
        glyph_data_format: be_i16(s, c + 52) as i16,
    }
}

/// What decoding a head table at `c` yields: the decoded value, or the first
/// error in read order.
pub open spec fn spec_head_result(s: Seq<u8>, c: int) -> Result<HeadTable, DecodeError> {
    if c + 4 > s.len() {
        Err(DecodeError::Eof)
    } else if be_u32(s, c) != VERSION_1_0 {
        Err(DecodeError::MalformedHeader)
    } else if c + 16 > s.len() {
        Err(DecodeError::Eof)
    } else if be_u32(s, c + 12) != HEAD_MAGIC {
        Err(DecodeError::MalformedHeader)
    } else if c + 52 > s.len() {
        Err(DecodeError::Eof)
    } else if be_i16(s, c + 50) != 0 && be_i16(s, c + 50) != 1 {
        Err(DecodeError::MalformedHeader)
    } else if c + 54 > s.len() {
        Err(DecodeError::Eof)
    } else if be_i16(s, c + 52) != 0 {
        Err(DecodeError::MalformedHeader)
    } else {
        Ok(spec_head_table(s, c))
    }
}

/// The horizontal header table decoded from the 36 bytes at `c`.
pub open spec fn spec_hhea_table(s: Seq<u8>, c: int) -> HHeaTable {
    HHeaTable {
        ascent: be_i16(s, c + 4) as i16,
        descent: be_i16(s, c + 6) as i16,
        line_gap: be_i16(s, c + 8) as i16,
        advance_width_max: be_u16(s, c + 10) as u16,
        min_left_side_bearing: be_i16(s, c + 12) as i16,
        min_right_side_bearing: be_i16(s, c + 14) as i16,
        x_max_extent: be_i16(s, c + 16) as i16,
        caret_slope_rise: be_i16(s, c + 18) as i16,
        caret_slope_run: be_i16(s, c + 20) as i16,
        caret_offset: be_i16(s, c + 22) as i16,
        reserved: be_i64(s, c + 24) as i64,
        metric_data_format: be_i16(s, c + 32) as i16,
        num_of_long_hor_metrics: be_u16(s, c + 34) as u16,
    }
}

/// What decoding a horizontal header table at `c` yields.
pub open spec fn spec_hhea_result(s: Seq<u8>, c: int) -> Result<HHeaTable, DecodeError> {
    if c + 4 > s.len() {
        Err(DecodeError::Eof)
    } else if be_u32(s, c) != VERSION_1_0 {
        Err(DecodeError::MalformedHeader)
    } else if c + 36 > s.len() {
        Err(DecodeError::Eof)
    } else {
        Ok(spec_hhea_table(s, c))
    }
}

/// The maximum-profile table decoded from the 32 bytes at `c`.
pub open spec fn spec_maxp_table(s: Seq<u8>, c: int) -> MaxPTable {
    MaxPTable {
        num_glyphs: be_u16(s, c + 4) as u16,
        max_points: be_u16(s, c + 6) as u16,
        max_contours: be_u16(s, c + 8) as u16,
        max_component_points: be_u16(s, c + 10) as u16,
        max_component_contours: be_u16(s, c + 12) as u16,
        max_zones: be_u16(s, c + 14) as u16,
        max_twilight_points: be_u16(s, c + 16) as u16,
        max_storage: be_u16(s, c + 18) as u16,
        max_function_defs: be_u16(s, c + 20) as u16,
        max_instruction_defs: be_u16(s, c + 22) as u16,
        max_stack_elements: be_u16(s, c + 24) as u16,
        max_size_of_instructions: be_u16(s, c + 26) as u16,
        max_component_elements: be_u16(s, c + 28) as u16,
        max_component_depth: be_u16(s, c + 30) as u16,
    }
}

/// What decoding a maximum-profile table at `c` yields.
pub open spec fn spec_maxp_result(s: Seq<u8>, c: int) -> Result<MaxPTable, DecodeError> {
    if c + 4 > s.len() {
        Err(DecodeError::Eof)
    } else if be_u32(s, c) != VERSION_1_0 {
        Err(DecodeError::MalformedHeader)
    } else if c + 32 > s.len() {
        Err(DecodeError::Eof)
    } else {
        Ok(spec_maxp_table(s, c))
    }
}

/// The byte width of a horizontal-metrics table with `num_long` explicit
/// pairs covering `num_glyphs` glyphs.
pub open spec fn spec_hmtx_len(num_long: int, num_glyphs: int) -> int {
    4 * num_long + 2 * (num_glyphs - num_long)
}

/// The segment count of a format-4 subtable whose body starts at `p`.
pub open spec fn spec_cmap4_seg(s: Seq<u8>, p: int) -> int {
    be_u16(s, p + 2) / 2
}

/// The fields of a decoded format-4 subtable whose body starts at `p`.
pub open spec fn spec_cmap4_fields(t: CMapFormat4, s: Seq<u8>, p: int) -> bool {
    let seg = spec_cmap4_seg(s, p);
    &&& t.language == be_u16(s, p)
    &&& t.seg_count_x2 == be_u16(s, p + 2)
    &&& t.search_range == be_u16(s, p + 4)
    &&& t.entry_selector == be_u16(s, p + 6)
    &&& t.range_shift == be_u16(s, p + 8)
    &&& t.end_codes@.len() == seg
    &&& forall|j: int| 0 <= j < seg ==> #[trigger] t.end_codes@[j] == be_u16(s, p + 10 + 2 * j)
    &&& t.start_codes@.len() == seg
    &&& forall|j: int|
        0 <= j < seg ==> #[trigger] t.start_codes@[j] == be_u16(s, p + 12 + 2 * seg + 2 * j)
    &&& t.id_deltas@.len() == seg
    &&& forall|j: int|
        0 <= j < seg ==> #[trigger] t.id_deltas@[j] == be_u16(s, p + 12 + 4 * seg + 2 * j)
    &&& t.id_range_offset@.len() == seg
    &&& forall|j: int|
        0 <= j < seg ==> #[trigger] t.id_range_offset@[j] == be_u16(s, p + 12 + 6 * seg + 2 * j)
    &&& t.glyph_index_array@.len() == 0
}

/// The fields of a decoded format-6 subtable whose body starts at `p`.
pub open spec fn spec_cmap6_fields(t: CMapFormat6, s: Seq<u8>, p: int) -> bool {
    let count = be_u16(s, p + 4);
    &&& t.language == be_u16(s, p)
    &&& t.first_code == be_u16(s, p + 2)
    &&& t.glyph_index_array@.len() == count
    &&& forall|j: int|
        0 <= j < count ==> #[trigger] t.glyph_index_array@[j] == be_u16(s, p + 6 + 2 * j)
}

/// Offsets of an encoding-entry grouping are strictly ascending.
pub open spec fn spec_offsets_sorted(m: Seq<(u32, Vec<PlatformDouble>)>) -> bool {
    forall|i: int, j: int| 0 <= i < j < m.len() ==> (#[trigger] m[i]).0 < (#[trigger] m[j]).0
}

/// Every group of an encoding-entry grouping holds at least one pair.
pub open spec fn spec_groups_nonempty(m: Seq<(u32, Vec<PlatformDouble>)>) -> bool {
    forall|i: int| 0 <= i < m.len() ==> (#[trigger] m[i]).1@.len() > 0
}

/// A cmap subtable starting at `c` (at its format word) decodes: the format
/// is one of 0, 4 and 6; the declared length leaves enough buffer behind the
/// format and length words; the format body decodes; and the bytes consumed
/// equal the declared length.
pub open spec fn spec_cmap_subtable_ok(s: Seq<u8>, c: int) -> bool {
    let f = be_u16(s, c);
    let l = be_u16(s, c + 2);
    &&& 0 <= c
    &&& c + 4 <= s.len()
    &&& (f == 0 || f == 4 || f == 6)
    &&& c + 4 + l <= s.len()
    &&& (f == 0 ==> l == 262)
    &&& (f == 4 ==> ({
        let p = c + 4;
        let seg = spec_cmap4_seg(s, p);
        &&& seg > 0
        &&& p + 12 + 8 * seg <= s.len()
        &&& be_u16(s, p + 10 + 2 * (seg - 1)) == END_CODE_SENTINEL
        &&& forall|j: int| 0 <= j < seg ==> #[trigger] be_u16(s, p + 12 + 6 * seg + 2 * j) == 0
        &&& l == 16 + 8 * seg
    }))
    &&& (f == 6 ==> ({
        let count = be_u16(s, c + 8);
        &&& c + 10 + 2 * count <= s.len()
        &&& l == 10 + 2 * count
    }))
}

/// The decoded subtable `t` is what the bytes at `c` describe: its variant is
/// the format word there and its fields are the decoded body.
pub open spec fn spec_cmap_subtable_matches(t: CMapSubtable, s: Seq<u8>, c: int) -> bool {
    match t {
        CMapSubtable::Zero(z) => {
            &&& be_u16(s, c) == 0
            &&& z.language == be_u16(s, c + 4)
            &&& z.glyph_index_array@ == s.subrange(c + 6, c + 262)
        },
        CMapSubtable::Four(f4) => {
            &&& be_u16(s, c) == 4
            &&& spec_cmap4_fields(f4, s, c + 4)
        },
        CMapSubtable::Six(f6) => {
            &&& be_u16(s, c) == 6
            &&& spec_cmap6_fields(f6, s, c + 4)
        },
    }
}

/// Decoding `count` glyph records at `p` reaches this end position, or None
/// where one of them does not decode.
pub open spec fn spec_glyph_table_end(s: Seq<u8>, p: int, count: int) -> Option<int>
    decreases count,
{
    if count <= 0 {
        Some(p)
    } else if p < 0 || p + 10 > s.len() {
        None
    } else {
        let ncont = be_i16(s, p);
        if ncont == 0 {
            spec_glyph_table_end(s, p + 10, count - 1)
        } else if ncont > 0 {
            match spec_simple_glyph(s, p + 10, ncont) {
                None => None,
                Some(g) => spec_glyph_table_end(s, g.5, count - 1),
            }
        } else {
            match spec_compound_components(s, p + 10) {
                None => None,
                Some(d) => spec_glyph_table_end(s, d.1, count - 1),
            }
        }
    }
}

/// The records `gs` are what decoding `count` glyph headers at `p` yields,
/// in input order: one (header, outline) pair per header with a non-zero
/// contour count — a simple glyph where the count is positive, a compound
/// glyph where it is negative — and no record for an empty glyph.
pub open spec fn spec_glyph_entries_match(
    gs: Seq<(GlyphDescription, Glyph)>,
    s: Seq<u8>,
    p: int,
    count: int,
) -> bool
    decreases count,
{
    if count <= 0 {
        gs.len() == 0
    } else if p < 0 || p + 10 > s.len() {
        false
    } else {
        let desc = GlyphDescription {
            number_of_contours: be_i16(s, p) as i16,
            x_min: be_i16(s, p + 2) as i16,
            y_min: be_i16(s, p + 4) as i16,
            x_max: be_i16(s, p + 6) as i16,
            y_max: be_i16(s, p + 8) as i16,
        };
        let ncont = be_i16(s, p);
        if ncont == 0 {
            spec_glyph_entries_match(gs, s, p + 10, count - 1)
        } else if ncont > 0 {
            match spec_simple_glyph(s, p + 10, ncont) {
                None => false,
                Some(g) => {
                    &&& gs.len() > 0
                    &&& gs[0].0 == desc
                    &&& (gs[0].1 matches Glyph::Simple {
                        end_points_of_contours,
                        instruction_length,
                        instructions,
                        flags,
                        coordinates,
                    } && end_points_of_contours@ == g.0 && instruction_length == g.1
                        && instructions@ == g.2 && flags@ == g.3 && coordinates@ == g.4)
                    &&& spec_glyph_entries_match(gs.drop_first(), s, g.5, count - 1)
                },
            }
        } else {
            match spec_compound_components(s, p + 10) {
                None => false,
                Some(d) => {
                    &&& gs.len() > 0
                    &&& gs[0].0 == desc
                    &&& (gs[0].1 matches Glyph::Compound { components } && components@ == d.0)
                    &&& spec_glyph_entries_match(gs.drop_first(), s, d.1, count - 1)
                },
            }
        }
    }
}

/// The run-length flag expansion at `p`: flag bytes, each possibly followed
/// by an extra repeat count, until exactly `need` flags are produced. None
/// where a byte is missing or a repeat would exceed the required count.
pub open spec fn spec_flag_expansion(s: Seq<u8>, p: int, need: int) -> Option<
    (Seq<SimpleGlyphFlag>, int),
>
    decreases need,
{
    if need <= 0 {
        Some((Seq::empty(), p))
    } else if p < 0 || p + 1 > s.len() {
        None
    } else {
        let f = SimpleGlyphFlag(s[p]);
        if f.spec_should_repeat() {
            if p + 2 > s.len() {
                None
            } else {
                let rep = s[p + 1] as int;
                if 1 + rep > need {
                    None
                } else {
                    match spec_flag_expansion(s, p + 2, need - 1 - rep) {
                        None => None,
                        Some(d) => Some((Seq::new((1 + rep) as nat, |i: int| f) + d.0, d.1)),
                    }
                }
            }
        } else {
            match spec_flag_expansion(s, p + 1, need - 1) {
                None => None,
                Some(d) => Some((seq![f] + d.0, d.1)),
            }
        }
    }
}

/// A run-length expansion that succeeds yields exactly `need` flags.
pub proof fn lemma_flag_expansion_len(s: Seq<u8>, p: int, need: int)
    requires
        spec_flag_expansion(s, p, need) is Some,
    ensures
        spec_flag_expansion(s, p, need)->Some_0.0.len() == if need <= 0 {
            0
        } else {
            need
        },
    decreases need,
{
    if need <= 0 {
    } else {
        let f = SimpleGlyphFlag(s[p]);
        if f.spec_should_repeat() {
            let rep = s[p + 1] as int;
            lemma_flag_expansion_len(s, p + 2, need - 1 - rep);
        } else {
            lemma_flag_expansion_len(s, p + 1, need - 1);
        }
    }
}

/// One coordinate per flag from index `i` on, as the axis bits dictate:
/// deltas read and accumulated from `prev`, an unchanged coordinate where
/// the short bit is clear and the same bit set. None where a byte is
/// missing or an accumulation leaves the 16-bit range.
pub open spec fn spec_coordinate_stream(
    s: Seq<u8>,
    p: int,
    flags: Seq<SimpleGlyphFlag>,
    i: int,
    prev: int,
    x_axis: bool,
) -> Option<(Seq<i16>, int)>
    decreases flags.len() - i,
{
    if i < 0 || i >= flags.len() {
        Some((Seq::empty(), p))
    } else {
        let f = flags[i];
        let short = if x_axis {
            f.spec_x_short_vector()
        } else {
            f.spec_y_short_vector()
        };
        let same = if x_axis {
            f.spec_x_is_same_or_sign()
        } else {
            f.spec_y_is_same_or_sign()
        };
        if !short && same {
            match spec_coordinate_stream(s, p, flags, i + 1, prev, x_axis) {
                None => None,
                Some(d) => Some((seq![prev as i16] + d.0, d.1)),
            }
        } else if short {
            if p < 0 || p + 1 > s.len() {
                None
            } else {
                let delta: int = if same {
                    s[p] as int
                } else {
                    -(s[p] as int)
                };
                let v = prev + delta;
                if v < -0x8000 || v > 0x7FFF {
                    None
                } else {
                    match spec_coordinate_stream(s, p + 1, flags, i + 1, v, x_axis) {
                        None => None,
                        Some(d) => Some((seq![v as i16] + d.0, d.1)),
                    }
                }
            }
        } else {
            if p < 0 || p + 2 > s.len() {
                None
            } else {
                let v = prev + be_i16(s, p);
                if v < -0x8000 || v > 0x7FFF {
                    None
                } else {
                    match spec_coordinate_stream(s, p + 2, flags, i + 1, v, x_axis) {
                        None => None,
                        Some(d) => Some((seq![v as i16] + d.0, d.1)),
                    }
                }
            }
        }
    }
}

/// A coordinate stream that succeeds yields one value per remaining flag.
pub proof fn lemma_coordinate_stream_len(
    s: Seq<u8>,
    p: int,
    flags: Seq<SimpleGlyphFlag>,
    i: int,
    prev: int,
    x_axis: bool,
)
    requires
        0 <= i <= flags.len(),
        spec_coordinate_stream(s, p, flags, i, prev, x_axis) is Some,
    ensures
        spec_coordinate_stream(s, p, flags, i, prev, x_axis)->Some_0.0.len() == flags.len() - i,
    decreases flags.len() - i,
{
    if i >= flags.len() {
    } else {
        let f = flags[i];
        let short = if x_axis {
            f.spec_x_short_vector()
        } else {
            f.spec_y_short_vector()
        };
        let same = if x_axis {
            f.spec_x_is_same_or_sign()
        } else {
            f.spec_y_is_same_or_sign()
        };
        if !short && same {
            lemma_coordinate_stream_len(s, p, flags, i + 1, prev, x_axis);
        } else if short {
            let delta: int = if same {
                s[p] as int
            } else {
                -(s[p] as int)
            };
            lemma_coordinate_stream_len(s, p + 1, flags, i + 1, prev + delta, x_axis);
        } else {
            lemma_coordinate_stream_len(s, p + 2, flags, i + 1, prev + be_i16(s, p), x_axis);
        }
    }
}

/// The whole simple-glyph body at `c` for `contours` contours: the contour
/// end points, instruction length and bytes, expanded flags, accumulated
/// coordinate pairs, and the end position.
pub open spec fn spec_simple_glyph(s: Seq<u8>, c: int, contours: int) -> Option<
    (Seq<u16>, int, Seq<u8>, Seq<SimpleGlyphFlag>, Seq<(i16, i16)>, int),
>
    recommends
        contours >= 1,
{
    if c < 0 || c + 2 * contours + 2 > s.len() {
        None
    } else {
        let end_points = Seq::new(contours as nat, |j: int| be_u16(s, c + 2 * j) as u16);
        let last = be_u16(s, c + 2 * (contours - 1));
        let instruction_length = be_u16(s, c + 2 * contours);
        let p_instr = c + 2 * contours + 2;
        if p_instr + instruction_length > s.len() {
            None
        } else {
            let instructions = s.subrange(p_instr, p_instr + instruction_length);
            match spec_flag_expansion(s, p_instr + instruction_length, last + 1) {
                None => None,
                Some(fd) => match spec_coordinate_stream(s, fd.1, fd.0, 0, 0, true) {
                    None => None,
                    Some(xd) => match spec_coordinate_stream(s, xd.1, fd.0, 0, 0, false) {
                        None => None,
                        Some(yd) => Some(
                            (
                                end_points,
                                instruction_length,
                                instructions,
                                fd.0,
                                Seq::new(fd.0.len(), |k: int| (xd.0[k], yd.0[k])),
                                yd.1,
                            ),
                        ),
                    },
                },
            }
        }
    }
}

/// `whole` is `done` followed by whatever `rem` expands to.
pub open spec fn spec_flags_compose(
    whole: Option<(Seq<SimpleGlyphFlag>, int)>,
    done: Seq<SimpleGlyphFlag>,
    rem: Option<(Seq<SimpleGlyphFlag>, int)>,
) -> bool {
    match rem {
        None => whole is None,
        Some(d) => whole == Some::<(Seq<SimpleGlyphFlag>, int)>((done + d.0, d.1)),
    }
}

/// `whole` is `done` followed by whatever `rem` accumulates to.
pub open spec fn spec_coords_compose(
    whole: Option<(Seq<i16>, int)>,
    done: Seq<i16>,
    rem: Option<(Seq<i16>, int)>,
) -> bool {
    match rem {
        None => whole is None,
        Some(d) => whole == Some::<(Seq<i16>, int)>((done + d.0, d.1)),
    }
}

/// The component records beginning at `p` (at a flag word) and, through the
/// continuation bit, all that follow: the decoded components and the
/// position after the last record, or None where the bytes run out.
pub open spec fn spec_compound_components(s: Seq<u8>, p: int) -> Option<(Seq<ComponentGlyph>, int)>
    decreases s.len() - p,
{
    if p < 0 || p + 4 > s.len() {
        None
    } else {
        let flag = ComponentGlyphFlag(be_u16(s, p) as u16);
        let q = p + 4;
        let arg_width: int = if flag.spec_arg1_2_are_words() {
            4
        } else {
            2
        };
        if q + arg_width > s.len() {
            None
        } else {
            let t = q + arg_width;
            let scale_width: int = if flag.spec_we_have_a_scale() {
                2
            } else if flag.spec_we_have_an_xy_scale() {
                4
            } else if flag.spec_we_have_two_by_two() {
                8
            } else {
                0
            };
            if t + scale_width > s.len() {
                None
            } else {
                let (arg_1, arg_2) = if flag.spec_args_are_xy_values() {
                    if flag.spec_arg1_2_are_words() {
                        (
                            ComponentGlyphArgument::Coord(be_i16(s, q) as i16),
                            ComponentGlyphArgument::Coord(be_i16(s, q + 2) as i16),
                        )
                    } else {
                        (
                            ComponentGlyphArgument::Coord(to_signed_8(s[q] as int) as i16),
                            ComponentGlyphArgument::Coord(to_signed_8(s[q + 1] as int) as i16),
                        )
                    }
                } else {
                    if flag.spec_arg1_2_are_words() {
                        (
                            ComponentGlyphArgument::Point(be_u16(s, q) as u16),
                            ComponentGlyphArgument::Point(be_u16(s, q + 2) as u16),
                        )
                    } else {
                        (
                            ComponentGlyphArgument::Point(s[q] as u16),
                            ComponentGlyphArgument::Point(s[q + 1] as u16),
                        )
                    }
                };
                let transformation = if flag.spec_we_have_a_scale() {
                    ComponentGlyphTransformation::Uniform(be_i16(s, t) as i16)
                } else if flag.spec_we_have_an_xy_scale() {
                    ComponentGlyphTransformation::NonUniform {
                        x_scale: be_i16(s, t) as i16,
                        y_scale: be_i16(s, t + 2) as i16,
                    }
                } else if flag.spec_we_have_two_by_two() {
                    ComponentGlyphTransformation::Affine {
                        x_scale: be_i16(s, t) as i16,
                        scale_01: be_i16(s, t + 2) as i16,
                        scale_10: be_i16(s, t + 4) as i16,
                        y_scale: be_i16(s, t + 6) as i16,
                    }
                } else {
                    ComponentGlyphTransformation::Uniform(F2DOT14_ONE)
                };
                let comp = ComponentGlyph {
                    flag,
                    glyph_index: be_u16(s, p + 2) as u16,
                    arg_1,
                    arg_2,
                    transformation,
                };
                let e = t + scale_width;
                if flag.spec_more_components() {
                    match spec_compound_components(s, e) {
                        None => None,
                        Some(d) => Some((seq![comp] + d.0, d.1)),
                    }
                } else {
                    Some((seq![comp], e))
                }
            }
        }
    }
}

/// `whole` is `done` followed by whatever `rem` decodes: None where `rem` is
/// None, and the concatenation with `rem`'s components otherwise.
pub open spec fn spec_components_compose(
    whole: Option<(Seq<ComponentGlyph>, int)>,
    done: Seq<ComponentGlyph>,
    rem: Option<(Seq<ComponentGlyph>, int)>,
) -> bool {
    match rem {
        None => whole is None,
        Some(d) => whole == Some::<(Seq<ComponentGlyph>, int)>((done + d.0, d.1)),
    }
}

/// The (platform, platform-specific id) pair of encoding entry `i` of a
/// cmap table at `c`.
pub open spec fn spec_cmap_entry_pd(s: Seq<u8>, c: int, i: int) -> PlatformDouble {
    PlatformDouble {
        platform: Platform::spec_from(be_u16(s, c + 4 + 8 * i) as u16),
        platform_specific_id: be_u16(s, c + 4 + 8 * i + 2) as u16,
    }
}

/// The subtable byte offset of encoding entry `i` of a cmap table at `c`.
pub open spec fn spec_cmap_entry_off(s: Seq<u8>, c: int, i: int) -> int {
    be_u32(s, c + 4 + 8 * i + 4)
}

/// The platform pairs of the first `k` encoding entries whose subtable
/// offset is `off`, in entry order.
pub open spec fn spec_pds_for_offset(s: Seq<u8>, c: int, k: int, off: int) -> Seq<PlatformDouble>
    decreases k,
{
    if k <= 0 {
        Seq::empty()
    } else if spec_cmap_entry_off(s, c, k - 1) == off {
        spec_pds_for_offset(s, c, k - 1, off).push(spec_cmap_entry_pd(s, c, k - 1))
    } else {
        spec_pds_for_offset(s, c, k - 1, off)
    }
}

/// No entry among the first `k` carries `off`, so its group is empty.
pub proof fn lemma_pds_filter_empty(s: Seq<u8>, c: int, k: int, off: int)
    requires
        forall|i: int| 0 <= i < k ==> #[trigger] spec_cmap_entry_off(s, c, i) != off,
    ensures
        spec_pds_for_offset(s, c, k, off) == Seq::<PlatformDouble>::empty(),
    decreases k,
{
    if k > 0 {
        lemma_pds_filter_empty(s, c, k - 1, off);
    }
}

/// `post` is `pre` with `pd` appended to the existing group `j0` of `offset`.
pub open spec fn spec_grouped_appended(
    pre: Seq<(u32, Vec<PlatformDouble>)>,
    post: Seq<(u32, Vec<PlatformDouble>)>,
    offset: u32,
    pd: PlatformDouble,
    j0: int,
) -> bool {
    &&& 0 <= j0 < pre.len()
    &&& pre[j0].0 == offset
    &&& post.len() == pre.len()
    &&& (forall|j: int| 0 <= j < post.len() ==> (#[trigger] post[j]).0 == pre[j].0)
    &&& (forall|j: int| 0 <= j < post.len() && j != j0 ==> (#[trigger] post[j]).1@ == pre[j].1@)
    &&& post[j0].1@ == pre[j0].1@.push(pd)
}

/// `post` is `pre` with a fresh one-pair group for the new `offset` put in
/// at position `j0`.
pub open spec fn spec_grouped_inserted(
    pre: Seq<(u32, Vec<PlatformDouble>)>,
    post: Seq<(u32, Vec<PlatformDouble>)>,
    offset: u32,
    pd: PlatformDouble,
    j0: int,
) -> bool {
    &&& 0 <= j0 <= pre.len()
    &&& !spec_mapping_has(pre, offset)
    &&& post.len() == pre.len() + 1
    &&& (forall|j: int| 0 <= j < j0 ==> #[trigger] post[j] == pre[j])
    &&& post[j0].0 == offset
    &&& post[j0].1@ == seq![pd]
    &&& (forall|j: int| j0 < j < post.len() ==> #[trigger] post[j] == pre[j - 1])
}

/// Some group of the mapping is keyed by `off`.
pub open spec fn spec_mapping_has(m: Seq<(u32, Vec<PlatformDouble>)>, off: u32) -> bool {
    exists|j: int| 0 <= j < m.len() && (#[trigger] m[j]).0 == off
}

/// The cmap table at `c` decodes: version zero, every encoding entry
/// readable with a recognized platform, every referenced subtable inside
/// the buffer and itself decodable, and no two distinct offsets whose
/// subtables decode structurally equal.
pub open spec fn spec_cmap_table_ok(s: Seq<u8>, c: int) -> bool {
    let n = be_u16(s, c + 2);
    &&& 0 <= c
    &&& c + 4 <= s.len()
    &&& be_u16(s, c) == 0
    &&& c + 4 + 8 * n <= s.len()
    &&& forall|i: int|
        0 <= i < n ==> Platform::spec_recognized(#[trigger] be_u16(s, c + 4 + 8 * i) as u16)
    &&& forall|i: int| 0 <= i < n ==> c + #[trigger] spec_cmap_entry_off(s, c, i) < s.len()
    &&& forall|i: int|
        0 <= i < n ==> spec_cmap_subtable_ok(s, c + #[trigger] spec_cmap_entry_off(s, c, i))
    &&& forall|i: int, j: int|
        0 <= i < n && 0 <= j < n && #[trigger] spec_cmap_entry_off(s, c, i)
            != #[trigger] spec_cmap_entry_off(s, c, j) ==> !(exists|
            t1: CMapSubtable,
            t2: CMapSubtable,
        |
            spec_cmap_subtable_matches(t1, s, c + spec_cmap_entry_off(s, c, i))
                && spec_cmap_subtable_matches(t2, s, c + spec_cmap_entry_off(s, c, j))
                && spec_cmap_subtable_eq(t1, t2))
}

/// Offset `o` is still waiting in `pend` or already consumed into `done`.
pub open spec fn spec_offset_scheduled(
    done: Seq<int>,
    pend: Seq<(u32, Vec<PlatformDouble>)>,
    o: int,
) -> bool {
    ||| exists|kk: int| 0 <= kk < done.len() && #[trigger] done[kk] == o
    ||| exists|j: int| 0 <= j < pend.len() && (#[trigger] pend[j]).0 as int == o
}

/// Some returned group's subtable is decoded from the bytes at offset `o`
/// and carries the platform pairs of the entries sharing `o`.
pub open spec fn spec_cmap_entry_served(
    subs: Seq<(CMapSubtable, Vec<PlatformDouble>)>,
    s: Seq<u8>,
    c: int,
    o: int,
) -> bool {
    exists|kk: int|
        0 <= kk < subs.len() && #[trigger] spec_cmap_subtable_matches(subs[kk].0, s, c + o)
            && subs[kk].1@ == spec_pds_for_offset(s, c, be_u16(s, c + 2), o)
}

/// The subtables at two positions decode to structurally equal values.
pub open spec fn spec_cmap_equal_decodes_at(s: Seq<u8>, c: int, o1: int, o2: int) -> bool {
    exists|t1: CMapSubtable, t2: CMapSubtable|
        spec_cmap_subtable_matches(t1, s, c + o1) && spec_cmap_subtable_matches(t2, s, c + o2)
            && spec_cmap_subtable_eq(t1, t2)
}

/// Two decoded values matching the same bytes are structurally equal.
pub proof fn lemma_cmap_matches_functional(t1: CMapSubtable, t2: CMapSubtable, s: Seq<u8>, p: int)
    requires
        spec_cmap_subtable_matches(t1, s, p),
        spec_cmap_subtable_matches(t2, s, p),
    ensures
        spec_cmap_subtable_eq(t1, t2),
{
    match (t1, t2) {
        (CMapSubtable::Zero(a), CMapSubtable::Zero(b)) => {
            assert(a.glyph_index_array@ == b.glyph_index_array@);
        },
        (CMapSubtable::Four(a), CMapSubtable::Four(b)) => {
            assert(a.end_codes@ =~= b.end_codes@);
            assert(a.start_codes@ =~= b.start_codes@);
            assert(a.id_deltas@ =~= b.id_deltas@);
            assert(a.id_range_offset@ =~= b.id_range_offset@);
            assert(a.glyph_index_array@ =~= b.glyph_index_array@);
        },
        (CMapSubtable::Six(a), CMapSubtable::Six(b)) => {
            assert(a.glyph_index_array@ =~= b.glyph_index_array@);
        },
        _ => {},
    }
}

/// One decoded group comes from the encoding entries: some entry's offset
/// leads to bytes this subtable matches, and the group holds exactly the
/// platform pairs of the entries sharing that offset, in entry order.
pub open spec fn spec_cmap_group_from_entries(
    g: (CMapSubtable, Vec<PlatformDouble>),
    s: Seq<u8>,
    c: int,
) -> bool {
    exists|o: int|
        {
            &&& (exists|i: int|
                0 <= i < be_u16(s, c + 2) && #[trigger] spec_cmap_entry_off(s, c, i) == o)
            &&& #[trigger] spec_cmap_subtable_matches(g.0, s, c + o)
            &&& g.1@ == spec_pds_for_offset(s, c, be_u16(s, c + 2), o)
        }
}

/// `o` is the subtable offset of one of the first `k` encoding entries.
pub open spec fn spec_is_entry_offset(s: Seq<u8>, c: int, k: int, o: int) -> bool {
    exists|i: int| 0 <= i < k && #[trigger] spec_cmap_entry_off(s, c, i) == o
}

/// Every group key of the mapping is among the first `k` entries' offsets.
pub open spec fn spec_offsets_from_entries(
    m: Seq<(u32, Vec<PlatformDouble>)>,
    s: Seq<u8>,
    c: int,
    k: int,
) -> bool {
    forall|j: int|
        0 <= j < m.len() ==> spec_is_entry_offset(s, c, k, (#[trigger] m[j]).0 as int)
}

/// Every group holds the platform pairs of the first `k` entries sharing
/// its offset, in entry order.
pub open spec fn spec_groups_from_entries(
    m: Seq<(u32, Vec<PlatformDouble>)>,
    s: Seq<u8>,
    c: int,
    k: int,
) -> bool {
    forall|j: int|
        0 <= j < m.len() ==> (#[trigger] m[j]).1@ == spec_pds_for_offset(s, c, k, m[j].0 as int)
}

/// The grouping invariant after `k` encoding entries: the mapping's offsets
/// are exactly the first `k` entries' offsets and each group holds the
/// matching entries' platform pairs in entry order.
pub open spec fn spec_grouping_inv(
    m: Seq<(u32, Vec<PlatformDouble>)>,
    s: Seq<u8>,
    c: int,
    k: int,
) -> bool {
    &&& spec_offsets_from_entries(m, s, c, k)
    &&& forall|i: int|
        0 <= i < k ==> spec_mapping_has(m, #[trigger] spec_cmap_entry_off(s, c, i) as u32)
    &&& spec_groups_from_entries(m, s, c, k)
}

/// One grouping step: after entry `k` is inserted, the mapping's offsets
/// are exactly the first `k + 1` entries' offsets and each group holds the
/// matching entries' platform pairs in entry order.
pub proof fn lemma_grouping_step(
    pre: Seq<(u32, Vec<PlatformDouble>)>,
    post: Seq<(u32, Vec<PlatformDouble>)>,
    s: Seq<u8>,
    c: int,
    k: int,
    offset: u32,
    pd: PlatformDouble,
)
    requires
        k >= 0,
        spec_offsets_sorted(pre),
        offset as int == spec_cmap_entry_off(s, c, k),
        pd == spec_cmap_entry_pd(s, c, k),
        (exists|j0: int| spec_grouped_appended(pre, post, offset, pd, j0)) || (exists|j0: int|
            spec_grouped_inserted(pre, post, offset, pd, j0)),
        spec_grouping_inv(pre, s, c, k),
    ensures
        spec_grouping_inv(post, s, c, k + 1),
{
    if exists|j0: int| spec_grouped_appended(pre, post, offset, pd, j0) {
        let j0 = choose|j0: int| spec_grouped_appended(pre, post, offset, pd, j0);
        assert forall|j: int|
            0 <= j < post.len() implies (#[trigger] post[j]).1@ == spec_pds_for_offset(
            s,
            c,
            k + 1,
            post[j].0 as int,
        ) by {
            if j == j0 {
                assert(pre[j].1@ == spec_pds_for_offset(s, c, k, offset as int));
            } else {
                assert(post[j].0 == pre[j].0);
                if pre[j].0 == offset {
                    assert(pre[j].0 == pre[j0].0);
                    assert(j == j0);
                }
                assert(pre[j].1@ == spec_pds_for_offset(s, c, k, pre[j].0 as int));
            }
        }
        assert forall|j: int|
            0 <= j < post.len() implies spec_is_entry_offset(
            s,
            c,
            k + 1,
            (#[trigger] post[j]).0 as int,
        ) by {
            assert(pre[j].0 == post[j].0);
            assert(spec_is_entry_offset(s, c, k, pre[j].0 as int));
        }
        assert forall|i: int|
            0 <= i < k + 1 implies spec_mapping_has(
            post,
            #[trigger] spec_cmap_entry_off(s, c, i) as u32,
        ) by {
            if i < k {
                let jw = choose|j: int|
                    0 <= j < pre.len() && (#[trigger] pre[j]).0 == spec_cmap_entry_off(s, c, i)
                        as u32;
                assert(post[jw].0 == pre[jw].0);
            } else {
                assert(post[j0].0 == offset);
            }
        }
    } else {
        let j0 = choose|j0: int| spec_grouped_inserted(pre, post, offset, pd, j0);
        assert(spec_grouped_inserted(pre, post, offset, pd, j0));
        assert forall|i: int|
            0 <= i < k implies #[trigger] spec_cmap_entry_off(s, c, i) != offset as int by {
            assert(spec_mapping_has(pre, spec_cmap_entry_off(s, c, i) as u32));
        }
        lemma_pds_filter_empty(s, c, k, offset as int);
        assert(Seq::<PlatformDouble>::empty().push(pd) =~= seq![pd]);
        assert forall|j: int|
            0 <= j < post.len() implies (#[trigger] post[j]).1@ == spec_pds_for_offset(
            s,
            c,
            k + 1,
            post[j].0 as int,
        ) by {
            if j < j0 {
                assert(post[j] == pre[j]);
                assert(post[j].0 != offset);
                assert(pre[j].1@ == spec_pds_for_offset(s, c, k, pre[j].0 as int));
            } else if j > j0 {
                assert(post[j] == pre[j - 1]);
                assert(post[j].0 != offset);
                assert(pre[j - 1].1@ == spec_pds_for_offset(s, c, k, pre[j - 1].0 as int));
            }
        }
        assert forall|j: int|
            0 <= j < post.len() implies spec_is_entry_offset(
            s,
            c,
            k + 1,
            (#[trigger] post[j]).0 as int,
        ) by {
            if j < j0 {
                assert(post[j].0 == pre[j].0);
                assert(spec_is_entry_offset(s, c, k, pre[j].0 as int));
            } else if j > j0 {
                assert(post[j].0 == pre[j - 1].0);
                assert(spec_is_entry_offset(s, c, k, pre[j - 1].0 as int));
            } else {
                assert(spec_cmap_entry_off(s, c, k) == post[j].0 as int);
            }
        }
        assert forall|i: int|
            0 <= i < k + 1 implies spec_mapping_has(
            post,
            #[trigger] spec_cmap_entry_off(s, c, i) as u32,
        ) by {
            if i < k {
                let jw = choose|j: int|
                    0 <= j < pre.len() && (#[trigger] pre[j]).0 == spec_cmap_entry_off(s, c, i)
                        as u32;
                if jw < j0 {
                    assert(post[jw].0 == pre[jw].0);
                } else {
                    assert(post[jw + 1].0 == pre[jw].0);
                }
            } else {
                assert(post[j0].0 == offset);
            }
        }
    }
}

/// The directory at `c` parses: header readable, scalar type recognized,
/// every entry readable, tags pairwise distinct.
pub open spec fn spec_dir_ok(s: Seq<u8>, c: int) -> bool {
    &&& 0 <= c
    &&& c + 12 <= s.len()
    &&& ScalarType::spec_recognized(be_u32(s, c) as u32)
    &&& c + 12 + 16 * be_u16(s, c + 4) <= s.len()
    &&& spec_dir_tags_distinct(s, c, be_u16(s, c + 4))
}

/// Some entry of the directory at `c` carries `tag`.
pub open spec fn spec_dir_has(s: Seq<u8>, c: int, tag: int) -> bool {
    exists|i: int|
        0 <= i < be_u16(s, c + 4) && #[trigger] spec_dir_entry_tag(s, c, i) == tag
}

/// The record of the entry carrying `tag`; meaningful when `spec_dir_has`
/// holds and the tags are distinct.
pub open spec fn spec_dir_record(s: Seq<u8>, c: int, tag: int) -> TableRecord {
    spec_dir_entry(
        s,
        c,
        choose|i: int| 0 <= i < be_u16(s, c + 4) && #[trigger] spec_dir_entry_tag(s, c, i) == tag,
    ).1
}

/// A record's byte range lies inside a buffer of `len` bytes.
pub open spec fn spec_jumpable(rec: TableRecord, len: int) -> bool {
    &&& rec.offset < len
    &&& rec.offset + rec.length <= len
}

/// The head stage of a whole-font parse goes through: the tag is present,
/// its range lies in the buffer, the table decodes, and it consumes exactly
/// the declared length.
pub open spec fn spec_head_stage_ok(s: Seq<u8>, c: int) -> bool {
    let rec = spec_dir_record(s, c, TAG_HEAD as int);
    &&& spec_dir_has(s, c, TAG_HEAD as int)
    &&& spec_jumpable(rec, s.len() as int)
    &&& spec_head_result(s, rec.offset as int) is Ok
    &&& rec.length == 54
}

/// The horizontal-header stage of a whole-font parse goes through.
pub open spec fn spec_hhea_stage_ok(s: Seq<u8>, c: int) -> bool {
    let rec = spec_dir_record(s, c, TAG_HHEA as int);
    &&& spec_dir_has(s, c, TAG_HHEA as int)
    &&& spec_jumpable(rec, s.len() as int)
    &&& spec_hhea_result(s, rec.offset as int) is Ok
    &&& rec.length == 36
}

/// The maximum-profile stage of a whole-font parse goes through.
pub open spec fn spec_maxp_stage_ok(s: Seq<u8>, c: int) -> bool {
    let rec = spec_dir_record(s, c, TAG_MAXP as int);
    &&& spec_dir_has(s, c, TAG_MAXP as int)
    &&& spec_jumpable(rec, s.len() as int)
    &&& spec_maxp_result(s, rec.offset as int) is Ok
    &&& rec.length == 32
}

/// The horizontal-metrics stage of a whole-font parse goes through, for the
/// counts the decoded hhea and maxp tables supply.
pub open spec fn spec_hmtx_stage_ok(s: Seq<u8>, c: int) -> bool {
    let nl = spec_hhea_table(
        s,
        spec_dir_record(s, c, TAG_HHEA as int).offset as int,
    ).num_of_long_hor_metrics as int;
    let ng = spec_maxp_table(
        s,
        spec_dir_record(s, c, TAG_MAXP as int).offset as int,
    ).num_glyphs as int;
    let rec = spec_dir_record(s, c, TAG_HMTX as int);
    &&& spec_dir_has(s, c, TAG_HMTX as int)
    &&& spec_jumpable(rec, s.len() as int)
    &&& ng >= nl
    &&& rec.offset + spec_hmtx_len(nl, ng) <= s.len()
    &&& spec_hmtx_len(nl, ng) == rec.length
}

/// The cmap stage of a whole-font parse goes through.
pub open spec fn spec_cmap_stage_ok(s: Seq<u8>, c: int) -> bool {
    let rec = spec_dir_record(s, c, TAG_CMAP as int);
    &&& spec_dir_has(s, c, TAG_CMAP as int)
    &&& spec_jumpable(rec, s.len() as int)
    &&& spec_cmap_table_ok(s, rec.offset as int)
}

/// The glyph stage of a whole-font parse goes through: the table decodes
/// for the glyph count maxp declares and consumes exactly the declared
/// length.
pub open spec fn spec_glyf_stage_ok(s: Seq<u8>, c: int) -> bool {
    let rec = spec_dir_record(s, c, TAG_GLYF as int);
    let ng = spec_maxp_table(
        s,
        spec_dir_record(s, c, TAG_MAXP as int).offset as int,
    ).num_glyphs;
    &&& spec_dir_has(s, c, TAG_GLYF as int)
    &&& spec_jumpable(rec, s.len() as int)
    &&& spec_glyph_table_end(s, rec.offset as int, ng as int) == Some(
        rec.offset + rec.length as int,
    )
}

/// A whole font decodes: the directory and every one of its six required
/// tables, each consistent with its declared length.
pub open spec fn spec_font_ok(s: Seq<u8>, c: int) -> bool {
    &&& spec_dir_ok(s, c)
    &&& spec_head_stage_ok(s, c)
    &&& spec_hhea_stage_ok(s, c)
    &&& spec_maxp_stage_ok(s, c)
    &&& spec_hmtx_stage_ok(s, c)
    &&& spec_cmap_stage_ok(s, c)
    &&& spec_glyf_stage_ok(s, c)
}

/// A directory whose entries are the spec-level entries finds a tag exactly
/// where the byte-level directory holds it, and, with distinct tags, finds
/// the same record.
pub proof fn lemma_dir_bridge(entries: Seq<(TableTag, TableRecord)>, s: Seq<u8>, c: int, tag: u32)
    requires
        entries.len() == be_u16(s, c + 4),
        forall|i: int| 0 <= i < entries.len() ==> #[trigger] entries[i] == spec_dir_entry(s, c, i),
    ensures
        dir_has_tag(entries, tag) <==> spec_dir_has(s, c, tag as int),
        dir_has_tag(entries, tag) && dir_tags_unique(entries) ==> dir_record_of(entries, tag)
            == spec_dir_record(s, c, tag as int),
{
    assert forall|i: int| 0 <= i < entries.len() implies #[trigger] entries[i].0.0
        == spec_dir_entry_tag(s, c, i) by {
        assert(entries[i] == spec_dir_entry(s, c, i));
    }
    if dir_has_tag(entries, tag) {
        let i = choose|i: int|
            0 <= i < entries.len() && #[trigger] entries[i].0.0 == tag;
        assert(spec_dir_entry_tag(s, c, i) == tag as int);
        assert(spec_dir_has(s, c, tag as int));
    }
    if spec_dir_has(s, c, tag as int) {
        let i = choose|i: int|
            0 <= i < be_u16(s, c + 4) && #[trigger] spec_dir_entry_tag(s, c, i) == tag as int;
        assert(entries[i].0.0 == tag);
        assert(dir_has_tag(entries, tag));
    }
    if dir_has_tag(entries, tag) && dir_tags_unique(entries) {
        let i1 = choose|i: int|
            0 <= i < entries.len() && #[trigger] entries[i].0.0 == tag;
        let i2 = choose|i: int|
            0 <= i < be_u16(s, c + 4) && #[trigger] spec_dir_entry_tag(s, c, i) == tag as int;
        assert(entries[i1].0.0 == tag && entries[i2].0.0 == tag);
        assert(i1 == i2);
    }
}

/// A bounds-checked sequential reader over an immutable byte buffer.
///
/// Every read advances a monotonic position and fails with `Eof` if the
/// requested width would run past the buffer; the buffer itself is never
/// mutated.
#[derive(Debug)]
pub struct TrueTypeFontParser<'a> {
    cursor: usize,
    data: &'a [u8],
}

impl<'a> TrueTypeFontParser<'a> {
    /// The underlying byte buffer.
    pub closed spec fn bytes(self) -> Seq<u8> {
        self.data@
    }

    /// The current read position.
    pub closed spec fn pos(self) -> int {
        self.cursor as int
    }

    /// `n` more bytes are available at the current position.
    pub open spec fn can_read(self, n: int) -> bool {
        0 <= self.pos() && self.pos() + n <= self.bytes().len()
    }

    /// The step relation of a read: same buffer, position advanced by `n`.
    pub open spec fn stepped(pre: Self, post: Self, n: int) -> bool {
        &&& post.bytes() == pre.bytes()
        &&& post.pos() == pre.pos() + n
    }

    pub fn new(data: &'a [u8]) -> (r: Self)
        ensures
            r.bytes() == data@,
            r.pos() == 0,
    {
        Self { cursor: 0, data }
    }

    /// Fails with `Eof` unless `length` more bytes are available.
    fn eof(&self, length: usize) -> (r: Result<(), DecodeError>)
        ensures
            r is Ok <==> self.can_read(length as int),
            r is Err ==> r == Err::<(), DecodeError>(DecodeError::Eof),
    {
        if length <= self.data.len() && self.cursor <= self.data.len() - length {
            Ok(())
        } else {
            Err(DecodeError::Eof)
        }
    }

    fn read_u8(&mut self) -> (r: Result<u8, DecodeError>)
        ensures
            old(self).can_read(1) ==> {
                &&& r is Ok
                &&& r->Ok_0 == old(self).bytes()[old(self).pos()]
                &&& Self::stepped(*old(self), *final(self), 1)
            },
            !old(self).can_read(1) ==> {
                &&& r == Err::<u8, DecodeError>(DecodeError::Eof)
                &&& Self::stepped(*old(self), *final(self), 0)
            },
    {
        if self.cursor < self.data.len() {
            let b = self.data[self.cursor];
            self.cursor = self.cursor + 1;
            Ok(b)
        } else {
            Err(DecodeError::Eof)
        }
    }

    fn read_i8(&mut self) -> (r: Result<i8, DecodeError>)
        ensures
            old(self).can_read(1) ==> {
                &&& r is Ok
                &&& r->Ok_0 == to_signed_8(old(self).bytes()[old(self).pos()] as int)
                &&& Self::stepped(*old(self), *final(self), 1)
            },
            !old(self).can_read(1) ==> {
                &&& r == Err::<i8, DecodeError>(DecodeError::Eof)
                &&& Self::stepped(*old(self), *final(self), 0)
            },
    {
        let raw = self.read_u8()?;
        if raw < 128 {
            Ok(raw as i8)
        } else {
            Ok(((raw as i16) - 256) as i8)
        }
    }

    fn read_u16(&mut self) -> (r: Result<u16, DecodeError>)
        ensures
            old(self).can_read(2) ==> {
                &&& r is Ok
                &&& r->Ok_0 == be_u16(old(self).bytes(), old(self).pos())
                &&& Self::stepped(*old(self), *final(self), 2)
            },
            !old(self).can_read(2) ==> {
                &&& r == Err::<u16, DecodeError>(DecodeError::Eof)
                &&& Self::stepped(*old(self), *final(self), 0)
            },
    {
        if 2 <= self.data.len() && self.cursor <= self.data.len() - 2 {
            let hi = self.data[self.cursor] as u16;
            let lo = self.data[self.cursor + 1] as u16;
            self.cursor = self.cursor + 2;
            Ok(hi * 256 + lo)
        } else {
            Err(DecodeError::Eof)
        }
    }

    fn read_i16(&mut self) -> (r: Result<i16, DecodeError>)
        ensures
            old(self).can_read(2) ==> {
                &&& r is Ok
                &&& r->Ok_0 == be_i16(old(self).bytes(), old(self).pos())
                &&& Self::stepped(*old(self), *final(self), 2)
            },
            !old(self).can_read(2) ==> {
                &&& r == Err::<i16, DecodeError>(DecodeError::Eof)
                &&& Self::stepped(*old(self), *final(self), 0)
            },
    {
        let raw = self.read_u16()?;
        if raw < 32768 {
            Ok(raw as i16)
        } else {
            Ok(((raw as i32) - 65536) as i16)
        }
    }

    fn read_u32(&mut self) -> (r: Result<u32, DecodeError>)
        ensures
            old(self).can_read(4) ==> {
                &&& r is Ok
                &&& r->Ok_0 == be_u32(old(self).bytes(), old(self).pos())
                &&& Self::stepped(*old(self), *final(self), 4)
            },
            !old(self).can_read(4) ==> {
                &&& r == Err::<u32, DecodeError>(DecodeError::Eof)
                &&& Self::stepped(*old(self), *final(self), 0)
            },
    {
        if 4 <= self.data.len() && self.cursor <= self.data.len() - 4 {
            let b0 = self.data[self.cursor] as u32;
            let b1 = self.data[self.cursor + 1] as u32;
            let b2 = self.data[self.cursor + 2] as u32;
            let b3 = self.data[self.cursor + 3] as u32;
            self.cursor = self.cursor + 4;
            Ok(b0 * 0x1000000 + b1 * 0x10000 + b2 * 0x100 + b3)
        } else {
            Err(DecodeError::Eof)
        }
    }

    fn read_i64(&mut self) -> (r: Result<i64, DecodeError>)
        ensures
            old(self).can_read(8) ==> {
                &&& r is Ok
                &&& r->Ok_0 == be_i64(old(self).bytes(), old(self).pos())
                &&& Self::stepped(*old(self), *final(self), 8)
            },
            !old(self).can_read(8) ==> {
                &&& r == Err::<i64, DecodeError>(DecodeError::Eof)
                &&& Self::stepped(*old(self), *final(self), 0)
            },
    {
        self.eof(8)?;
        let hi = self.read_u32()?;
        let lo = self.read_u32()?;
        let raw = (hi as u64) * 0x100000000 + (lo as u64);
        if raw < 0x8000000000000000 {
            Ok(raw as i64)
        } else {
            Ok(((raw as i128) - 0x10000000000000000i128) as i64)
        }
    }

    fn read_fixed(&mut self) -> (r: Result<Fixed, DecodeError>)
        ensures
            old(self).can_read(4) ==> {
                &&& r is Ok
                &&& r->Ok_0 == be_u32(old(self).bytes(), old(self).pos())
                &&& Self::stepped(*old(self), *final(self), 4)
            },
            !old(self).can_read(4) ==> {
                &&& r == Err::<Fixed, DecodeError>(DecodeError::Eof)
                &&& Self::stepped(*old(self), *final(self), 0)
            },
    {
        self.read_u32()
    }

    fn read_fword(&mut self) -> (r: Result<FWord, DecodeError>)
        ensures
            old(self).can_read(2) ==> {
                &&& r is Ok
                &&& r->Ok_0 == be_i16(old(self).bytes(), old(self).pos())
                &&& Self::stepped(*old(self), *final(self), 2)
            },
            !old(self).can_read(2) ==> {
                &&& r == Err::<FWord, DecodeError>(DecodeError::Eof)
                &&& Self::stepped(*old(self), *final(self), 0)
            },
    {
        self.read_i16()
    }

    fn read_unsigned_fword(&mut self) -> (r: Result<UnsignedFWord, DecodeError>)
        ensures
            old(self).can_read(2) ==> {
                &&& r is Ok
                &&& r->Ok_0 == be_u16(old(self).bytes(), old(self).pos())
                &&& Self::stepped(*old(self), *final(self), 2)
            },
            !old(self).can_read(2) ==> {
                &&& r == Err::<UnsignedFWord, DecodeError>(DecodeError::Eof)
                &&& Self::stepped(*old(self), *final(self), 0)
            },
    {
        self.read_u16()
    }

    fn read_f2dot14(&mut self) -> (r: Result<i16, DecodeError>)
        ensures
            old(self).can_read(2) ==> {
                &&& r is Ok
                &&& r->Ok_0 == be_i16(old(self).bytes(), old(self).pos())
                &&& Self::stepped(*old(self), *final(self), 2)
            },
            !old(self).can_read(2) ==> {
                &&& r == Err::<i16, DecodeError>(DecodeError::Eof)
                &&& Self::stepped(*old(self), *final(self), 0)
            },
    {
        self.read_i16()
    }

    fn read_long_date_time(&mut self) -> (r: Result<LongDateTime, DecodeError>)
        ensures
            old(self).can_read(8) ==> {
                &&& r is Ok
                &&& r->Ok_0 == be_i64(old(self).bytes(), old(self).pos())
                &&& Self::stepped(*old(self), *final(self), 8)
            },
            !old(self).can_read(8) ==> {
                &&& r == Err::<LongDateTime, DecodeError>(DecodeError::Eof)
                &&& Self::stepped(*old(self), *final(self), 0)
            },
    {
        self.read_i64()
    }

    /// Repositions the cursor to `offset` and re-validates that `length`
    /// bytes remain there.
    pub fn jump(&mut self, offset: usize, length: usize) -> (r: Result<(), DecodeError>)
        ensures
            final(self).bytes() == old(self).bytes(),
            r is Ok <==> (offset < old(self).bytes().len() && offset + length <= old(
                self,
            ).bytes().len()),
            r is Ok ==> final(self).pos() == offset,
            r is Err ==> r == Err::<(), DecodeError>(DecodeError::Eof),
    {
        if offset < self.data.len() {
            self.cursor = offset;
            self.eof(length)?;
            Ok(())
        } else {
            Err(DecodeError::Eof)
        }
    }

    /// Repositions the cursor to a directory record's byte range.
    pub fn jump_to_table_record(&mut self, table_record: &TableRecord) -> (r: Result<
        (),
        DecodeError,
    >)
        ensures
            final(self).bytes() == old(self).bytes(),
            r is Ok <==> (table_record.offset < old(self).bytes().len() && table_record.offset
                + table_record.length <= old(self).bytes().len()),
            r is Ok ==> final(self).pos() == table_record.offset,
            r is Err ==> r == Err::<(), DecodeError>(DecodeError::Eof),
    {
        self.jump(table_record.offset as usize, table_record.length as usize)
    }

    /// Reads `count` consecutive bytes.
    fn read_u8_list(&mut self, count: usize) -> (r: Result<Vec<u8>, DecodeError>)
        ensures
            final(self).bytes() == old(self).bytes(),
            old(self).can_read(count as int) ==> {
                &&& r is Ok
                &&& r->Ok_0@ == old(self).bytes().subrange(
                    old(self).pos(),
                    old(self).pos() + count,
                )
                &&& Self::stepped(*old(self), *final(self), count as int)
            },
            !old(self).can_read(count as int) ==> {
                &&& r == Err::<Vec<u8>, DecodeError>(DecodeError::Eof)
                &&& Self::stepped(*old(self), *final(self), 0)
            },
    {
        self.eof(count)?;
        let ghost orig = *self;
        let mut list: Vec<u8> = Vec::new();
        let mut k: usize = 0;
        while k < count
            invariant
                k <= count,
                orig.can_read(count as int),
                Self::stepped(orig, *self, k as int),
                list@.len() == k,
                forall|j: int| 0 <= j < k ==> list@[j] == orig.bytes()[orig.pos() + j],
            decreases count - k,
        {
            let b = self.read_u8()?;
            list.push(b);
            k = k + 1;
        }
        proof {
            assert(list@ =~= orig.bytes().subrange(orig.pos(), orig.pos() + count as int));
        }
        Ok(list)
    }

    /// Reads `count` consecutive big-endian 16-bit values.
    fn read_u16_list(&mut self, count: usize) -> (r: Result<Vec<u16>, DecodeError>)
        requires
            count <= 0x10000,
        ensures
            final(self).bytes() == old(self).bytes(),
            old(self).can_read(2 * count as int) ==> {
                &&& r is Ok
                &&& r->Ok_0@.len() == count
                &&& forall|j: int|
                    0 <= j < count ==> #[trigger] r->Ok_0@[j] == be_u16(
                        old(self).bytes(),
                        old(self).pos() + 2 * j,
                    )
                &&& Self::stepped(*old(self), *final(self), 2 * count as int)
            },
            !old(self).can_read(2 * count as int) ==> {
                &&& r == Err::<Vec<u16>, DecodeError>(DecodeError::Eof)
                &&& Self::stepped(*old(self), *final(self), 0)
            },
    {
        self.eof(2 * count)?;
        let ghost orig = *self;
        let mut list: Vec<u16> = Vec::new();
        let mut k: usize = 0;
        while k < count
            invariant
                k <= count,
                count <= 0x10000,
                orig.can_read(2 * count as int),
                Self::stepped(orig, *self, 2 * k as int),
                list@.len() == k,
                forall|j: int|
                    0 <= j < k ==> #[trigger] list@[j] == be_u16(orig.bytes(), orig.pos() + 2 * j),
            decreases count - k,
        {
            let v = self.read_u16()?;
            list.push(v);
            k = k + 1;
        }
        Ok(list)
    }

    /// Reads `count` consecutive big-endian signed 16-bit values.
    fn read_fword_list(&mut self, count: usize) -> (r: Result<Vec<FWord>, DecodeError>)
        requires
            count <= 0x10000,
        ensures
            final(self).bytes() == old(self).bytes(),
            old(self).can_read(2 * count as int) ==> {
                &&& r is Ok
                &&& r->Ok_0@.len() == count
                &&& forall|j: int|
                    0 <= j < count ==> #[trigger] r->Ok_0@[j] == be_i16(
                        old(self).bytes(),
                        old(self).pos() + 2 * j,
                    )
                &&& Self::stepped(*old(self), *final(self), 2 * count as int)
            },
            !old(self).can_read(2 * count as int) ==> {
                &&& r == Err::<Vec<FWord>, DecodeError>(DecodeError::Eof)
                &&& Self::stepped(*old(self), *final(self), 0)
            },
    {
        self.eof(2 * count)?;
        let ghost orig = *self;
        let mut list: Vec<FWord> = Vec::new();
        let mut k: usize = 0;
        while k < count
            invariant
                k <= count,
                count <= 0x10000,
                orig.can_read(2 * count as int),
                Self::stepped(orig, *self, 2 * k as int),
                list@.len() == k,
                forall|j: int|
                    0 <= j < k ==> #[trigger] list@[j] == be_i16(orig.bytes(), orig.pos() + 2 * j),
            decreases count - k,
        {
            let v = self.read_fword()?;
            list.push(v);
            k = k + 1;
        }
        Ok(list)
    }

    /// Reads one explicit (advance width, left side bearing) pair.
    pub fn parse_long_horizontal_metric(&mut self) -> (r: Result<
        LongHorizontalMetric,
        DecodeError,
    >)
        ensures
            final(self).bytes() == old(self).bytes(),
            old(self).can_read(4) ==> {
                &&& r is Ok
                &&& r->Ok_0.advance_width == be_u16(old(self).bytes(), old(self).pos())
                &&& r->Ok_0.left_side_bearing == be_i16(old(self).bytes(), old(self).pos() + 2)
                &&& Self::stepped(*old(self), *final(self), 4)
            },
            !old(self).can_read(4) ==> {
                &&& r == Err::<LongHorizontalMetric, DecodeError>(DecodeError::Eof)
                &&& Self::stepped(*old(self), *final(self), 0)
            },
    {
        self.eof(4)?;
        let advance_width = self.read_u16()?;
        let left_side_bearing = self.read_i16()?;
        Ok(LongHorizontalMetric { advance_width, left_side_bearing })
    }

    /// Reads `count` consecutive long horizontal metrics.
    fn read_metric_list(&mut self, count: usize) -> (r: Result<
        Vec<LongHorizontalMetric>,
        DecodeError,
    >)
        requires
            count <= 0x10000,
        ensures
            final(self).bytes() == old(self).bytes(),
            old(self).can_read(4 * count as int) ==> {
                &&& r is Ok
                &&& r->Ok_0@.len() == count
                &&& forall|j: int|
                    0 <= j < count ==> {
                        &&& (#[trigger] r->Ok_0@[j]).advance_width == be_u16(
                            old(self).bytes(),
                            old(self).pos() + 4 * j,
                        )
                        &&& r->Ok_0@[j].left_side_bearing == be_i16(
                            old(self).bytes(),
                            old(self).pos() + 4 * j + 2,
                        )
                    }
                &&& Self::stepped(*old(self), *final(self), 4 * count as int)
            },
            !old(self).can_read(4 * count as int) ==> {
                &&& r == Err::<Vec<LongHorizontalMetric>, DecodeError>(DecodeError::Eof)
                &&& Self::stepped(*old(self), *final(self), 0)
            },
    {
        self.eof(4 * count)?;
        let ghost orig = *self;
        let mut list: Vec<LongHorizontalMetric> = Vec::new();
        let mut k: usize = 0;
        while k < count
            invariant
                k <= count,
                count <= 0x10000,
                orig.can_read(4 * count as int),
                Self::stepped(orig, *self, 4 * k as int),
                list@.len() == k,
                forall|j: int|
                    0 <= j < k ==> {
                        &&& (#[trigger] list@[j]).advance_width == be_u16(
                            orig.bytes(),
                            orig.pos() + 4 * j,
                        )
                        &&& list@[j].left_side_bearing == be_i16(
                            orig.bytes(),
                            orig.pos() + 4 * j + 2,
                        )
                    },
            decreases count - k,
        {
            let m = self.parse_long_horizontal_metric()?;
            list.push(m);
            k = k + 1;
        }
        Ok(list)
    }

    /// Decodes the head table, validating its version, magic number, long-loca
    /// flag and glyph data format.
    pub fn parse_head_table(&mut self) -> (r: Result<HeadTable, DecodeError>)
        ensures
            final(self).bytes() == old(self).bytes(),
            r == spec_head_result(old(self).bytes(), old(self).pos()),
            r is Ok ==> Self::stepped(*old(self), *final(self), 54),
    {
        let version = self.read_fixed()?;
        if version != VERSION_1_0 {
            return Err(DecodeError::MalformedHeader);
        }
        let font_revision = self.read_fixed()?;
        let checksum_adjustment = self.read_u32()?;
        let magic_number = self.read_u32()?;
        if magic_number != HEAD_MAGIC {
            return Err(DecodeError::MalformedHeader);
        }
        let flags = self.read_u16()?;
        let units_per_em = self.read_u16()?;
        let created = self.read_long_date_time()?;
        let modified = self.read_long_date_time()?;
        let x_min = self.read_fword()?;
        let y_min = self.read_fword()?;
        let x_max = self.read_fword()?;
        let y_max = self.read_fword()?;
        let mac_style = self.read_u16()?;
        let lowest_rec_ppem = self.read_u16()?;
        let font_direction_hint = self.read_i16()?;
        let loc_format_flag = self.read_i16()?;
        if loc_format_flag != 0 && loc_format_flag != 1 {
            return Err(DecodeError::MalformedHeader);
        }
        let glyph_data_format = self.read_i16()?;
        if glyph_data_format != 0 {
            return Err(DecodeError::MalformedHeader);
        }
        Ok(
            HeadTable {
                font_revision,
                checksum_adjustment,
                magic_number,
                flags,
                units_per_em,
                created,
                modified,
                x_min,
                y_min,
                x_max,
                y_max,
                mac_style,
                lowest_rec_ppem,
                font_direction_hint,
                index_to_loc_format: loc_format_flag == 1,
                glyph_data_format,
            },
        )
    }

    /// Decodes the horizontal header table, validating its version.
    pub fn parse_hhea_table(&mut self) -> (r: Result<HHeaTable, DecodeError>)
        ensures
            final(self).bytes() == old(self).bytes(),
            r == spec_hhea_result(old(self).bytes(), old(self).pos()),
            r is Ok ==> Self::stepped(*old(self), *final(self), 36),
    {
        let version = self.read_fixed()?;
        if version != VERSION_1_0 {
            return Err(DecodeError::MalformedHeader);
        }
        let ascent = self.read_fword()?;
        let descent = self.read_fword()?;
        let line_gap = self.read_fword()?;
        let advance_width_max = self.read_unsigned_fword()?;
        let min_left_side_bearing = self.read_fword()?;
        let min_right_side_bearing = self.read_fword()?;
        let x_max_extent = self.read_fword()?;
        let caret_slope_rise = self.read_i16()?;
        let caret_slope_run = self.read_i16()?;
        let caret_offset = self.read_fword()?;
        let reserved = self.read_i64()?;
        let metric_data_format = self.read_i16()?;
        let num_of_long_hor_metrics = self.read_u16()?;
        Ok(
            HHeaTable {
                ascent,
                descent,
                line_gap,
                advance_width_max,
                min_left_side_bearing,
                min_right_side_bearing,
                x_max_extent,
                caret_slope_rise,
                caret_slope_run,
                caret_offset,
                reserved,
                metric_data_format,
                num_of_long_hor_metrics,
            },
        )
    }

    /// Decodes the maximum-profile table, validating its version.
    pub fn parse_maxp_table(&mut self) -> (r: Result<MaxPTable, DecodeError>)
        ensures
            final(self).bytes() == old(self).bytes(),
            r == spec_maxp_result(old(self).bytes(), old(self).pos()),
            r is Ok ==> Self::stepped(*old(self), *final(self), 32),
    {
        let version = self.read_fixed()?;
        if version != VERSION_1_0 {
            return Err(DecodeError::MalformedHeader);
        }
        let num_glyphs = self.read_u16()?;
        let max_points = self.read_u16()?;
        let max_contours = self.read_u16()?;
        let max_component_points = self.read_u16()?;
        let max_component_contours = self.read_u16()?;
        let max_zones = self.read_u16()?;
        let max_twilight_points = self.read_u16()?;
        let max_storage = self.read_u16()?;
        let max_function_defs = self.read_u16()?;
        let max_instruction_defs = self.read_u16()?;
        let max_stack_elements = self.read_u16()?;
        let max_size_of_instructions = self.read_u16()?;
        let max_component_elements = self.read_u16()?;
        let max_component_depth = self.read_u16()?;
        Ok(
            MaxPTable {
                num_glyphs,
                max_points,
                max_contours,
                max_component_points,
                max_component_contours,
                max_zones,
                max_twilight_points,
                max_storage,
                max_function_defs,
                max_instruction_defs,
                max_stack_elements,
                max_size_of_instructions,
                max_component_elements,
                max_component_depth,
            },
        )
    }

    /// Decodes the horizontal-metrics table. A glyph count below the explicit
    /// metric count would make the bare-bearing count underflow; that is
    /// rejected as an arithmetic-range error before any subtraction.
    pub fn parse_hmtx_table(&mut self, num_of_long_hor_metrics: u16, num_glyphs: u16) -> (r: Result<
        HMtxTable,
        DecodeError,
    >)
        ensures
            final(self).bytes() == old(self).bytes(),
            num_glyphs < num_of_long_hor_metrics ==> r == Err::<HMtxTable, DecodeError>(
                DecodeError::ArithmeticRange,
            ) && Self::stepped(*old(self), *final(self), 0),
            num_glyphs >= num_of_long_hor_metrics && old(self).can_read(
                spec_hmtx_len(num_of_long_hor_metrics as int, num_glyphs as int),
            ) ==> {
                &&& r is Ok
                &&& r->Ok_0.h_metrics@.len() == num_of_long_hor_metrics
                &&& forall|j: int|
                    0 <= j < num_of_long_hor_metrics ==> {
                        &&& (#[trigger] r->Ok_0.h_metrics@[j]).advance_width == be_u16(
                            old(self).bytes(),
                            old(self).pos() + 4 * j,
                        )
                        &&& r->Ok_0.h_metrics@[j].left_side_bearing == be_i16(
                            old(self).bytes(),
                            old(self).pos() + 4 * j + 2,
                        )
                    }
                &&& r->Ok_0.left_side_bearing@.len() == num_glyphs - num_of_long_hor_metrics
                &&& forall|j: int|
                    0 <= j < num_glyphs - num_of_long_hor_metrics
                        ==> #[trigger] r->Ok_0.left_side_bearing@[j] == be_i16(
                        old(self).bytes(),
                        old(self).pos() + 4 * num_of_long_hor_metrics + 2 * j,
                    )
                &&& Self::stepped(
                    *old(self),
                    *final(self),
                    spec_hmtx_len(num_of_long_hor_metrics as int, num_glyphs as int),
                )
            },
            num_glyphs >= num_of_long_hor_metrics && !old(self).can_read(
                spec_hmtx_len(num_of_long_hor_metrics as int, num_glyphs as int),
            ) ==> r == Err::<HMtxTable, DecodeError>(DecodeError::Eof),
    {
        if num_glyphs < num_of_long_hor_metrics {
            return Err(DecodeError::ArithmeticRange);
        }
        let h_metrics = self.read_metric_list(num_of_long_hor_metrics as usize)?;
        let num_left_side_bearing = num_glyphs - num_of_long_hor_metrics;
        let left_side_bearing = self.read_fword_list(num_left_side_bearing as usize)?;
        Ok(HMtxTable { h_metrics, left_side_bearing })
    }

    /// Decodes the offset sub-table and the table directory, rejecting an
    /// unrecognized scalar type and a repeated table tag.
    pub fn parse_font_directory(&mut self) -> (r: Result<FontDirectory, DecodeError>)
        ensures
            final(self).bytes() == old(self).bytes(),
            r is Ok <==> ({
                let s = old(self).bytes();
                let c = old(self).pos();
                &&& old(self).can_read(12)
                &&& ScalarType::spec_recognized(be_u32(s, c) as u32)
                &&& old(self).can_read(12 + 16 * be_u16(s, c + 4))
                &&& spec_dir_tags_distinct(s, c, be_u16(s, c + 4))
            }),
            r is Ok ==> ({
                let s = old(self).bytes();
                let c = old(self).pos();
                let n = be_u16(s, c + 4);
                &&& r->Ok_0.offset_sub_table == spec_offset_sub_table(s, c)
                &&& r->Ok_0.table_directory@.len() == n
                &&& forall|i: int|
                    0 <= i < n ==> #[trigger] r->Ok_0.table_directory@[i] == spec_dir_entry(s, c, i)
                &&& r->Ok_0.wf()
                &&& Self::stepped(*old(self), *final(self), 12 + 16 * n)
            }),
            r is Err ==> (r->Err_0 == DecodeError::Eof || r->Err_0 == DecodeError::MalformedHeader),
            r == Err::<FontDirectory, DecodeError>(DecodeError::MalformedHeader) ==> ({
                let s = old(self).bytes();
                let c = old(self).pos();
                !ScalarType::spec_recognized(be_u32(s, c) as u32) || !spec_dir_tags_distinct(
                    s,
                    c,
                    be_u16(s, c + 4),
                )
            }),
            old(self).can_read(12) && !ScalarType::spec_recognized(
                be_u32(old(self).bytes(), old(self).pos()) as u32,
            ) ==> r == Err::<FontDirectory, DecodeError>(DecodeError::MalformedHeader),
    {
        let ghost orig = *self;
        self.eof(12)?;
        let scalar_raw = self.read_u32()?;
        let scalar_type = ScalarType::try_from(scalar_raw)?;
        let num_tables = self.read_u16()?;
        let search_range = self.read_u16()?;
        let entry_selector = self.read_u16()?;
        let range_shift = self.read_u16()?;
        let offset_sub_table = OffsetSubTable {
            scalar_type,
            num_tables,
            search_range,
            entry_selector,
            range_shift,
        };

        let mut table_directory: Vec<(TableTag, TableRecord)> = Vec::new();
        let mut k: usize = 0;
        while k < num_tables as usize
            invariant
                orig == *old(self),
                k <= num_tables as usize,
                orig.can_read(12),
                ScalarType::spec_recognized(be_u32(orig.bytes(), orig.pos()) as u32),
                self.pos() <= self.bytes().len(),
                num_tables == be_u16(orig.bytes(), orig.pos() + 4),
                Self::stepped(orig, *self, 12 + 16 * k as int),
                table_directory@.len() == k,
                forall|i: int|
                    0 <= i < k ==> #[trigger] table_directory@[i] == spec_dir_entry(
                        orig.bytes(),
                        orig.pos(),
                        i,
                    ),
                spec_dir_tags_distinct(orig.bytes(), orig.pos(), k as int),
            decreases num_tables as usize - k,
        {
            let tag_raw = self.read_u32()?;
            let table_tag = TableTag(tag_raw);
            if Self::directory_contains(&table_directory, table_tag) {
                proof {
                    let i0 = choose|i: int|
                        0 <= i < table_directory@.len() && #[trigger] table_directory@[i].0.0
                            == table_tag.0;
                    assert(spec_dir_entry_tag(orig.bytes(), orig.pos(), i0) == spec_dir_entry_tag(
                        orig.bytes(),
                        orig.pos(),
                        k as int,
                    ));
                }
                return Err(DecodeError::MalformedHeader);
            }
            proof {
                let s = orig.bytes();
                let c = orig.pos();
                assert forall|i: int|
                    0 <= i < k implies #[trigger] spec_dir_entry_tag(s, c, i)
                    != spec_dir_entry_tag(s, c, k as int) by {
                    assert(table_directory@[i].0.0 != table_tag.0);
                    assert(table_directory@[i] == spec_dir_entry(s, c, i));
                }
            }
            let checksum = self.read_u32()?;
            let offset = self.read_u32()?;
            let length = self.read_u32()?;
            table_directory.push((table_tag, TableRecord { checksum, offset, length }));
            k = k + 1;
        }
        proof {
            assert forall|i: int, j: int|
                0 <= i < j < table_directory@.len() implies #[trigger] table_directory@[i].0.0
                != #[trigger] table_directory@[j].0.0 by {
                assert(spec_dir_entry_tag(orig.bytes(), orig.pos(), i) != spec_dir_entry_tag(
                    orig.bytes(),
                    orig.pos(),
                    j,
                ));
            }
        }
        Ok(FontDirectory { offset_sub_table, table_directory })
    }

    /// Reads the declared length of a cmap subtable. A format-0 subtable must
    /// declare exactly 262 bytes; formats other than 0, 4 and 6 are rejected
    /// as unsupported before any further byte is consumed.
    pub fn validate_cmap_subtable_length(&mut self, format: &u16) -> (r: Result<usize, DecodeError>)
        ensures
            final(self).bytes() == old(self).bytes(),
            (*format != 0 && *format != 4 && *format != 6) ==> r == Err::<usize, DecodeError>(
                DecodeError::UnsupportedFormat,
            ) && Self::stepped(*old(self), *final(self), 0),
            (*format == 0 || *format == 4 || *format == 6) && !old(self).can_read(2) ==> r == Err::<
                usize,
                DecodeError,
            >(DecodeError::Eof) && Self::stepped(*old(self), *final(self), 0),
            (*format == 0 || *format == 4 || *format == 6) && old(self).can_read(2) ==> ({
                let l = be_u16(old(self).bytes(), old(self).pos());
                if *format == 0 && l != 262 {
                    r == Err::<usize, DecodeError>(DecodeError::InconsistentLength)
                        && Self::stepped(*old(self), *final(self), 2)
                } else {
                    r is Ok && r->Ok_0 == l && Self::stepped(*old(self), *final(self), 2)
                }
            }),
    {
        if *format == 0 {
            let length = self.read_u16()? as usize;
            if length != 262 {
                return Err(DecodeError::InconsistentLength);
            }
            Ok(length)
        } else if *format == 4 || *format == 6 {
            let length = self.read_u16()? as usize;
            Ok(length)
        } else {
            Err(DecodeError::UnsupportedFormat)
        }
    }

    /// Decodes a format-0 subtable body: a language field and the byte-array
    /// mapping for the 256 single-byte character codes.
    pub fn parse_cmap_subtable_format_0(&mut self) -> (r: Result<CMapFormat0, DecodeError>)
        ensures
            final(self).bytes() == old(self).bytes(),
            old(self).can_read(258) ==> {
                &&& r is Ok
                &&& r->Ok_0.language == be_u16(old(self).bytes(), old(self).pos())
                &&& r->Ok_0.glyph_index_array@ == old(self).bytes().subrange(
                    old(self).pos() + 2,
                    old(self).pos() + 258,
                )
                &&& Self::stepped(*old(self), *final(self), 258)
            },
            !old(self).can_read(258) ==> r == Err::<CMapFormat0, DecodeError>(DecodeError::Eof),
    {
        self.eof(258)?;
        let language = self.read_u16()?;
        let glyph_index_array = self.read_u8_list(256)?;
        Ok(CMapFormat0 { language, glyph_index_array })
    }

    /// Decodes a format-4 subtable body. The end-code array must be non-empty
    /// and end in the sentinel; a non-zero ID range offset, which would demand
    /// indirection through a trailing glyph-index array, is unsupported.
    pub fn parse_cmap_subtable_format_4(&mut self) -> (r: Result<CMapFormat4, DecodeError>)
        ensures
            final(self).bytes() == old(self).bytes(),
            r is Err ==> (r->Err_0 == DecodeError::Eof || r->Err_0 == DecodeError::InvalidSentinel
                || r->Err_0 == DecodeError::UnsupportedFormat),
            ({
                let seg = spec_cmap4_seg(old(self).bytes(), old(self).pos());
                !old(self).can_read(10 + 2 * seg)
            }) ==> r == Err::<CMapFormat4, DecodeError>(DecodeError::Eof),
            ({
                let s = old(self).bytes();
                let p = old(self).pos();
                let seg = spec_cmap4_seg(s, p);
                &&& old(self).can_read(10 + 2 * seg)
                &&& (seg == 0 || be_u16(s, p + 10 + 2 * (seg - 1)) != END_CODE_SENTINEL)
            }) ==> r == Err::<CMapFormat4, DecodeError>(DecodeError::InvalidSentinel),
            ({
                let s = old(self).bytes();
                let p = old(self).pos();
                let seg = spec_cmap4_seg(s, p);
                &&& old(self).can_read(10 + 2 * seg)
                &&& seg > 0
                &&& be_u16(s, p + 10 + 2 * (seg - 1)) == END_CODE_SENTINEL
                &&& !old(self).can_read(12 + 8 * seg)
            }) ==> r == Err::<CMapFormat4, DecodeError>(DecodeError::Eof),
            ({
                let s = old(self).bytes();
                let p = old(self).pos();
                let seg = spec_cmap4_seg(s, p);
                &&& old(self).can_read(12 + 8 * seg)
                &&& seg > 0
                &&& be_u16(s, p + 10 + 2 * (seg - 1)) == END_CODE_SENTINEL
                &&& exists|j: int| 0 <= j < seg && #[trigger] be_u16(s, p + 12 + 6 * seg + 2 * j) != 0
            }) ==> r == Err::<CMapFormat4, DecodeError>(DecodeError::UnsupportedFormat),
            ({
                let s = old(self).bytes();
                let p = old(self).pos();
                let seg = spec_cmap4_seg(s, p);
                &&& old(self).can_read(12 + 8 * seg)
                &&& seg > 0
                &&& be_u16(s, p + 10 + 2 * (seg - 1)) == END_CODE_SENTINEL
                &&& forall|j: int| 0 <= j < seg ==> #[trigger] be_u16(s, p + 12 + 6 * seg + 2 * j) == 0
            }) ==> ({
                let s = old(self).bytes();
                let p = old(self).pos();
                let seg = spec_cmap4_seg(s, p);
                &&& r is Ok
                &&& spec_cmap4_fields(r->Ok_0, s, p)
                &&& Self::stepped(*old(self), *final(self), 12 + 8 * seg)
            }),
            r is Ok ==> cmap_subtable_wf(CMapSubtable::Four(r->Ok_0)),
    {
        let language = self.read_u16()?;
        let seg_count_x2 = self.read_u16()?;
        let search_range = self.read_u16()?;
        let entry_selector = self.read_u16()?;
        let range_shift = self.read_u16()?;

        let seg_count = (seg_count_x2 / 2) as usize;
        let end_codes = self.read_u16_list(seg_count)?;
        if end_codes.len() == 0 || end_codes[end_codes.len() - 1] != END_CODE_SENTINEL {
            return Err(DecodeError::InvalidSentinel);
        }

        let _reserved = self.read_u16()?;
        let start_codes = self.read_u16_list(seg_count)?;
        let id_deltas = self.read_u16_list(seg_count)?;
        let id_range_offset = self.read_u16_list(seg_count)?;

        let ghost s = old(self).bytes();
        let ghost p = old(self).pos();
        let ghost seg = spec_cmap4_seg(s, p);
        if !Self::all_zero(&id_range_offset) {
            proof {
                let j1 = choose|j: int|
                    0 <= j < id_range_offset@.len() && #[trigger] id_range_offset@[j] != 0;
                assert(id_range_offset@[j1] == be_u16(s, p + 12 + 6 * seg + 2 * j1));
                assert(0 <= j1 < seg && be_u16(s, p + 12 + 6 * seg + 2 * j1) != 0);
            }
            return Err(DecodeError::UnsupportedFormat);
        }
        proof {
            assert forall|j: int| 0 <= j < seg implies #[trigger] be_u16(
                s,
                p + 12 + 6 * seg + 2 * j,
            ) == 0 by {
                assert(id_range_offset@[j] == 0);
                assert(id_range_offset@[j] == be_u16(s, p + 12 + 6 * seg + 2 * j));
            }
        }

        let glyph_index_array: Vec<u16> = Vec::new();

        Ok(
            CMapFormat4 {
                language,
                seg_count_x2,
                search_range,
                entry_selector,
                range_shift,
                end_codes,
                start_codes,
                id_deltas,
                id_range_offset,
                glyph_index_array,
            },
        )
    }

    /// Does every element of the vector equal zero?
    fn all_zero(values: &Vec<u16>) -> (r: bool)
        ensures
            r <==> forall|j: int| 0 <= j < values@.len() ==> #[trigger] values@[j] == 0,
    {
        let n = values.len();
        for i in 0..n
            invariant
                n == values@.len(),
                forall|j: int| 0 <= j < i ==> #[trigger] values@[j] == 0,
        {
            if values[i] != 0 {
                return false;
            }
        }
        true
    }

    /// Decodes a format-6 subtable body: a trimmed glyph-index array covering
    /// one contiguous range of character codes.
    pub fn parse_cmap_subtable_format_6(&mut self) -> (r: Result<CMapFormat6, DecodeError>)
        ensures
            final(self).bytes() == old(self).bytes(),
            ({
                let count = be_u16(old(self).bytes(), old(self).pos() + 4);
                old(self).can_read(6 + 2 * count)
            }) ==> {
                &&& r is Ok
                &&& spec_cmap6_fields(r->Ok_0, old(self).bytes(), old(self).pos())
                &&& Self::stepped(
                    *old(self),
                    *final(self),
                    6 + 2 * be_u16(old(self).bytes(), old(self).pos() + 4),
                )
            },
            ({
                let count = be_u16(old(self).bytes(), old(self).pos() + 4);
                !old(self).can_read(6 + 2 * count)
            }) ==> r == Err::<CMapFormat6, DecodeError>(DecodeError::Eof),
    {
        let language = self.read_u16()?;
        let first_code = self.read_u16()?;
        let entry_count = self.read_u16()?;
        let glyph_index_array = self.read_u16_list(entry_count as usize)?;
        Ok(CMapFormat6 { language, first_code, glyph_index_array })
    }

    /// Decodes one cmap subtable at the current position and verifies that
    /// the bytes consumed equal its declared length.
    pub fn parse_cmap_subtable(&mut self) -> (r: Result<CMapSubtable, DecodeError>)
        ensures
            final(self).bytes() == old(self).bytes(),
            r is Err ==> (r->Err_0 == DecodeError::Eof || r->Err_0 == DecodeError::MalformedHeader
                || r->Err_0 == DecodeError::InconsistentLength || r->Err_0
                == DecodeError::InvalidSentinel || r->Err_0 == DecodeError::UnsupportedFormat),
            old(self).can_read(2) && ({
                let f = be_u16(old(self).bytes(), old(self).pos());
                f != 0 && f != 4 && f != 6
            }) ==> r == Err::<CMapSubtable, DecodeError>(DecodeError::UnsupportedFormat),
            !old(self).can_read(2) ==> r == Err::<CMapSubtable, DecodeError>(DecodeError::Eof),
            r is Ok <==> spec_cmap_subtable_ok(old(self).bytes(), old(self).pos()),
            r is Ok ==> {
                &&& cmap_subtable_wf(r->Ok_0)
                &&& spec_cmap_subtable_matches(r->Ok_0, old(self).bytes(), old(self).pos())
                &&& Self::stepped(
                    *old(self),
                    *final(self),
                    be_u16(old(self).bytes(), old(self).pos() + 2),
                )
            },
            r is Ok && be_u16(old(self).bytes(), old(self).pos()) == 0 ==> be_u16(
                old(self).bytes(),
                old(self).pos() + 2,
            ) == 262 && Self::stepped(*old(self), *final(self), 262),
            ({
                let s = old(self).bytes();
                let c = old(self).pos();
                let l = be_u16(s, c + 2);
                let seg = spec_cmap4_seg(s, c + 4);
                &&& 0 <= c
                &&& c + 4 <= s.len()
                &&& be_u16(s, c) == 4
                &&& c + 4 + l <= s.len()
                &&& seg > 0
                &&& c + 16 + 8 * seg <= s.len()
                &&& be_u16(s, c + 14 + 2 * (seg - 1)) == END_CODE_SENTINEL
                &&& (forall|j: int| 0 <= j < seg ==> #[trigger] be_u16(s, c + 16 + 6 * seg + 2 * j) == 0)
                &&& l != 16 + 8 * seg
            }) ==> r == Err::<CMapSubtable, DecodeError>(DecodeError::InconsistentLength),
            ({
                let s = old(self).bytes();
                let c = old(self).pos();
                let l = be_u16(s, c + 2);
                let count = be_u16(s, c + 8);
                &&& 0 <= c
                &&& c + 4 <= s.len()
                &&& be_u16(s, c) == 6
                &&& c + 4 + l <= s.len()
                &&& c + 10 + 2 * count <= s.len()
                &&& l != 10 + 2 * count
            }) ==> r == Err::<CMapSubtable, DecodeError>(DecodeError::InconsistentLength),
    {
        let offset = self.cursor;
        let format = self.read_u16()?;
        let length = self.validate_cmap_subtable_length(&format)?;

        self.eof(length)?;

        let subtable = if format == 0 {
            CMapSubtable::Zero(self.parse_cmap_subtable_format_0()?)
        } else if format == 4 {
            CMapSubtable::Four(self.parse_cmap_subtable_format_4()?)
        } else {
            CMapSubtable::Six(self.parse_cmap_subtable_format_6()?)
        };

        if self.cursor - offset != length {
            return Err(DecodeError::InconsistentLength);
        }

        Ok(subtable)
    }

    /// Adds one platform pair to the group of its subtable offset, keeping
    /// the groups ordered by ascending offset: an existing group gets the
    /// pair appended, a new offset gets a fresh one-pair group at its sorted
    /// position.
    fn insert_grouped(
        mapping: &mut Vec<(u32, Vec<PlatformDouble>)>,
        offset: u32,
        pd: PlatformDouble,
    )
        requires
            spec_offsets_sorted(old(mapping)@),
            spec_groups_nonempty(old(mapping)@),
        ensures
            spec_offsets_sorted(final(mapping)@),
            spec_groups_nonempty(final(mapping)@),
            (exists|j0: int|
                spec_grouped_appended(old(mapping)@, final(mapping)@, offset, pd, j0)) || (
            exists|j0: int| spec_grouped_inserted(old(mapping)@, final(mapping)@, offset, pd, j0)),
    {
        let n = mapping.len();
        for i in 0..n
            invariant
                n == mapping@.len(),
                mapping@ == old(mapping)@,
                spec_offsets_sorted(mapping@),
                spec_groups_nonempty(mapping@),
                forall|j: int| 0 <= j < i ==> (#[trigger] mapping@[j]).0 < offset,
        {
            let current = mapping[i].0;
            if current == offset {
                let ghost before = mapping@;
                let (o, mut group) = mapping.remove(i);
                group.push(pd);
                mapping.insert(i, (o, group));
                proof {
                    assert forall|k: int| 0 <= k < mapping@.len() implies (#[trigger] mapping@[k]).0
                        == before[k].0 by {}
                    assert forall|k: int|
                        0 <= k < mapping@.len() && k != i implies (#[trigger] mapping@[k]).1@
                        == before[k].1@ by {}
                    assert(spec_grouped_appended(before, mapping@, offset, pd, i as int));
                }
                return;
            }
            if current > offset {
                let mut group: Vec<PlatformDouble> = Vec::new();
                group.push(pd);
                mapping.insert(i, (offset, group));
                proof {
                    assert(spec_grouped_inserted(old(mapping)@, mapping@, offset, pd, i as int));
                }
                return;
            }
        }
        let mut group: Vec<PlatformDouble> = Vec::new();
        group.push(pd);
        mapping.push((offset, group));
        proof {
            assert(spec_grouped_inserted(
                old(mapping)@,
                mapping@,
                offset,
                pd,
                old(mapping)@.len() as int,
            ));
        }
    }

    /// Is a structurally equal subtable already among those decoded?
    fn contains_subtable(
        subtables: &Vec<(CMapSubtable, Vec<PlatformDouble>)>,
        t: &CMapSubtable,
    ) -> (r: bool)
        ensures
            r <==> exists|i: int|
                0 <= i < subtables@.len() && spec_cmap_subtable_eq(
                    (#[trigger] subtables@[i]).0,
                    *t,
                ),
    {
        let n = subtables.len();
        for i in 0..n
            invariant
                n == subtables@.len(),
                forall|j: int|
                    0 <= j < i ==> !spec_cmap_subtable_eq((#[trigger] subtables@[j]).0, *t),
        {
            if cmap_subtable_eq(&subtables[i].0, t) {
                assert(spec_cmap_subtable_eq(subtables@[i as int].0, *t));
                return true;
            }
        }
        false
    }

    /// Decodes the cmap table: validates the version, groups the encoding
    /// entries by subtable offset, decodes one subtable per distinct offset
    /// in ascending offset order, and rejects two offsets whose subtables
    /// decode structurally equal.
    #[verifier::rlimit(100)]
    #[verifier::spinoff_prover]
    pub fn parse_cmap_table(&mut self) -> (r: Result<CMapTable, DecodeError>)
        ensures
            final(self).bytes() == old(self).bytes(),
            !old(self).can_read(2) ==> r == Err::<CMapTable, DecodeError>(DecodeError::Eof),
            old(self).can_read(2) && be_u16(old(self).bytes(), old(self).pos()) != 0 ==> r
                == Err::<CMapTable, DecodeError>(DecodeError::MalformedHeader),
            r is Err ==> r->Err_0 != DecodeError::MissingTable && r->Err_0
                != DecodeError::ArithmeticRange,
            spec_cmap_table_ok(old(self).bytes(), old(self).pos()) ==> r is Ok,
            r is Ok ==> (forall|kk: int|
                0 <= kk < r->Ok_0.subtables@.len() ==> spec_cmap_group_from_entries(
                    #[trigger] r->Ok_0.subtables@[kk],
                    old(self).bytes(),
                    old(self).pos(),
                )),
            r is Ok ==> (forall|i: int|
                0 <= i < be_u16(old(self).bytes(), old(self).pos() + 2)
                    ==> spec_cmap_entry_served(
                    r->Ok_0.subtables@,
                    old(self).bytes(),
                    old(self).pos(),
                    #[trigger] spec_cmap_entry_off(old(self).bytes(), old(self).pos(), i),
                )),
            r is Ok ==> (forall|i: int, j: int|
                0 <= i < be_u16(old(self).bytes(), old(self).pos() + 2) && 0 <= j < be_u16(
                    old(self).bytes(),
                    old(self).pos() + 2,
                ) && #[trigger] spec_cmap_entry_off(old(self).bytes(), old(self).pos(), i)
                    != #[trigger] spec_cmap_entry_off(old(self).bytes(), old(self).pos(), j)
                    ==> !spec_cmap_equal_decodes_at(
                    old(self).bytes(),
                    old(self).pos(),
                    spec_cmap_entry_off(old(self).bytes(), old(self).pos(), i),
                    spec_cmap_entry_off(old(self).bytes(), old(self).pos(), j),
                )),
            r is Ok ==> ({
                let subs = r->Ok_0.subtables@;
                &&& forall|i: int| 0 <= i < subs.len() ==> cmap_subtable_wf((#[trigger] subs[i]).0)
                &&& forall|i: int, j: int|
                    0 <= i < j < subs.len() ==> !spec_cmap_subtable_eq(
                        (#[trigger] subs[i]).0,
                        (#[trigger] subs[j]).0,
                    )
                &&& forall|i: int| 0 <= i < subs.len() ==> (#[trigger] subs[i]).1@.len() > 0
            }),
    {
        let ghost s = old(self).bytes();
        let ghost c = old(self).pos();

        let cmap_offset = self.cursor;
        let version = self.read_u16()?;
        if version != 0 {
            return Err(DecodeError::MalformedHeader);
        }
        let number_of_subtables = self.read_u16()?;
        let ghost n_g = number_of_subtables as int;

        let mut mapping: Vec<(u32, Vec<PlatformDouble>)> = Vec::new();
        let mut k: usize = 0;
        while k < number_of_subtables as usize
            invariant
                s == old(self).bytes(),
                c == old(self).pos(),
                self.bytes() == s,
                self.pos() == c + 4 + 8 * k,
                self.pos() <= s.len(),
                old(self).can_read(2),
                be_u16(s, c) == 0,
                cmap_offset == c,
                n_g == number_of_subtables as int,
                n_g == be_u16(s, c + 2),
                spec_offsets_sorted(mapping@),
                spec_groups_nonempty(mapping@),
                k <= number_of_subtables as usize,
                spec_grouping_inv(mapping@, s, c, k as int),
            decreases number_of_subtables as usize - k,
        {
            let platform_raw = self.read_u16()?;
            let platform = Platform::try_from(platform_raw)?;
            let platform_specific_id = self.read_u16()?;
            let pd = PlatformDouble { platform, platform_specific_id };
            let offset = self.read_u32()?;
            proof {
                assert(offset as int == spec_cmap_entry_off(s, c, k as int));
                assert(pd == spec_cmap_entry_pd(s, c, k as int));
            }
            let ghost pre_map = mapping@;
            Self::insert_grouped(&mut mapping, offset, pd);
            proof {
                lemma_grouping_step(pre_map, mapping@, s, c, k as int, offset, pd);
            }
            k = k + 1;
        }

        let buffer_len = self.data.len();
        proof {
            assert(spec_grouping_inv(mapping@, s, c, n_g));
        }

        proof {
            assert forall|i: int|
                0 <= i < n_g implies spec_offset_scheduled(
                Seq::<int>::empty(),
                mapping@,
                #[trigger] spec_cmap_entry_off(s, c, i),
            ) by {
                assert(spec_mapping_has(mapping@, spec_cmap_entry_off(s, c, i) as u32));
                let j = choose|j: int|
                    0 <= j < mapping@.len() && (#[trigger] mapping@[j]).0 == spec_cmap_entry_off(
                        s,
                        c,
                        i,
                    ) as u32;
                assert((mapping@[j]).0 as int == spec_cmap_entry_off(s, c, i));
            }
        }
        let mut subtables: Vec<(CMapSubtable, Vec<PlatformDouble>)> = Vec::new();
        let ghost mut done_offs: Seq<int> = Seq::empty();
        let mut pending = mapping;
        while pending.len() > 0
            invariant
                s == old(self).bytes(),
                c == old(self).pos(),
                self.bytes() == s,
                old(self).can_read(2),
                be_u16(s, c) == 0,
                cmap_offset == c,
                n_g == be_u16(s, c + 2),
                buffer_len == s.len(),
                spec_offsets_sorted(pending@),
                spec_groups_nonempty(pending@),
                done_offs.len() == subtables@.len(),
                forall|k1: int, k2: int|
                    0 <= k1 < k2 < done_offs.len() ==> #[trigger] done_offs[k1]
                        < #[trigger] done_offs[k2],
                forall|i: int|
                    0 <= i < n_g ==> spec_offset_scheduled(
                        done_offs,
                        pending@,
                        #[trigger] spec_cmap_entry_off(s, c, i),
                    ),
                spec_offsets_from_entries(pending@, s, c, n_g),
                spec_groups_from_entries(pending@, s, c, n_g),
                forall|kk: int, j: int|
                    0 <= kk < done_offs.len() && 0 <= j < pending@.len()
                        ==> #[trigger] done_offs[kk] < (#[trigger] pending@[j]).0 as int,
                forall|kk: int|
                    0 <= kk < done_offs.len() ==> spec_is_entry_offset(
                        s,
                        c,
                        n_g,
                        #[trigger] done_offs[kk],
                    ),
                forall|kk: int|
                    0 <= kk < done_offs.len() ==> spec_cmap_subtable_matches(
                        (#[trigger] subtables@[kk]).0,
                        s,
                        c + done_offs[kk],
                    ),
                forall|kk: int|
                    0 <= kk < done_offs.len() ==> (#[trigger] subtables@[kk]).1@
                        == spec_pds_for_offset(s, c, n_g, done_offs[kk]),
                forall|i: int|
                    0 <= i < subtables@.len() ==> cmap_subtable_wf((#[trigger] subtables@[i]).0),
                forall|i: int, j: int|
                    0 <= i < j < subtables@.len() ==> !spec_cmap_subtable_eq(
                        (#[trigger] subtables@[i]).0,
                        (#[trigger] subtables@[j]).0,
                    ),
                forall|i: int| 0 <= i < subtables@.len() ==> (#[trigger] subtables@[i]).1@.len() > 0,
            decreases pending@.len(),
        {
            let ghost pending_pre = pending@;
            let ghost done_pre = done_offs;
            let (offset, platform_doubles) = pending.remove(0);
            proof {
                assert(spec_is_entry_offset(s, c, n_g, pending_pre[0].0 as int));
                assert(pending_pre[0].1@ == spec_pds_for_offset(s, c, n_g, pending_pre[0].0 as int));
                assert forall|j: int|
                    0 <= j < pending@.len() implies spec_is_entry_offset(
                    s,
                    c,
                    n_g,
                    (#[trigger] pending@[j]).0 as int,
                ) by {
                    assert(pending@[j] == pending_pre[j + 1]);
                    assert(spec_is_entry_offset(s, c, n_g, pending_pre[j + 1].0 as int));
                }
                assert forall|j: int|
                    0 <= j < pending@.len() implies (#[trigger] pending@[j]).1@
                    == spec_pds_for_offset(s, c, n_g, pending@[j].0 as int) by {
                    assert(pending@[j] == pending_pre[j + 1]);
                    assert(pending_pre[j + 1].1@ == spec_pds_for_offset(
                        s,
                        c,
                        n_g,
                        pending_pre[j + 1].0 as int,
                    ));
                }
                if spec_cmap_table_ok(s, c) {
                    let iw = choose|i: int|
                        0 <= i < n_g && #[trigger] spec_cmap_entry_off(s, c, i) == offset as int;
                    assert(c + spec_cmap_entry_off(s, c, iw) < s.len());
                    assert(spec_cmap_subtable_ok(s, c + spec_cmap_entry_off(s, c, iw)));
                }
            }
            let target = match cmap_offset.checked_add(offset as usize) {
                Some(t) => t,
                None => {
                    return Err(DecodeError::Eof);
                },
            };
            self.jump(target, 0)?;

            let cmap_subtable = self.parse_cmap_subtable()?;

            if Self::contains_subtable(&subtables, &cmap_subtable) {
                proof {
                    if spec_cmap_table_ok(s, c) {
                        let jw = choose|i: int|
                            0 <= i < subtables@.len() && spec_cmap_subtable_eq(
                                (#[trigger] subtables@[i]).0,
                                cmap_subtable,
                            );
                        assert(spec_is_entry_offset(s, c, n_g, done_offs[jw]));
                        let i1 = choose|i: int|
                            0 <= i < n_g && #[trigger] spec_cmap_entry_off(s, c, i)
                                == done_offs[jw];
                        let i2 = choose|i: int|
                            0 <= i < n_g && #[trigger] spec_cmap_entry_off(s, c, i) == offset
                                as int;
                        assert(done_offs[jw] < offset as int);
                        assert(spec_cmap_subtable_matches(
                            subtables@[jw].0,
                            s,
                            c + spec_cmap_entry_off(s, c, i1),
                        ) && spec_cmap_subtable_matches(
                            cmap_subtable,
                            s,
                            c + spec_cmap_entry_off(s, c, i2),
                        ) && spec_cmap_subtable_eq(subtables@[jw].0, cmap_subtable));
                        assert(false);
                    }
                }
                return Err(DecodeError::MalformedHeader);
            }

            subtables.push((cmap_subtable, platform_doubles));
            proof {
                done_offs = done_offs.push(offset as int);
                assert forall|i: int|
                    0 <= i < n_g implies spec_offset_scheduled(
                    done_offs,
                    pending@,
                    #[trigger] spec_cmap_entry_off(s, c, i),
                ) by {
                    let o = spec_cmap_entry_off(s, c, i);
                    assert(spec_offset_scheduled(done_pre, pending_pre, o));
                    if exists|kk: int| 0 <= kk < done_pre.len() && #[trigger] done_pre[kk] == o {
                        let kk = choose|kk: int|
                            0 <= kk < done_pre.len() && #[trigger] done_pre[kk] == o;
                        assert(done_offs[kk] == o);
                    } else {
                        let j = choose|j: int|
                            0 <= j < pending_pre.len() && (#[trigger] pending_pre[j]).0 as int
                                == o;
                        if j == 0 {
                            assert(done_offs[done_offs.len() - 1] == o);
                        } else {
                            assert((pending@[j - 1]).0 as int == o);
                        }
                    }
                }
            }
        }

        proof {
            assert forall|i: int|
                0 <= i < n_g implies spec_cmap_entry_served(
                subtables@,
                s,
                c,
                #[trigger] spec_cmap_entry_off(s, c, i),
            ) by {
                let o = spec_cmap_entry_off(s, c, i);
                assert(spec_offset_scheduled(done_offs, pending@, o));
                let kk = choose|kk: int| 0 <= kk < done_offs.len() && #[trigger] done_offs[kk] == o;
                assert(spec_cmap_subtable_matches(subtables@[kk].0, s, c + o));
                assert(subtables@[kk].1@ == spec_pds_for_offset(s, c, n_g, o));
            }
            assert forall|i: int, j: int|
                0 <= i < be_u16(s, c + 2) && 0 <= j < be_u16(s, c + 2)
                    && #[trigger] spec_cmap_entry_off(s, c, i) != #[trigger] spec_cmap_entry_off(
                    s,
                    c,
                    j,
                ) implies !spec_cmap_equal_decodes_at(
                s,
                c,
                spec_cmap_entry_off(s, c, i),
                spec_cmap_entry_off(s, c, j),
            ) by {
                let o1 = spec_cmap_entry_off(s, c, i);
                let o2 = spec_cmap_entry_off(s, c, j);
                if spec_cmap_equal_decodes_at(s, c, o1, o2) {
                    let (t1, t2) = choose|t1: CMapSubtable, t2: CMapSubtable|
                        spec_cmap_subtable_matches(t1, s, c + o1) && spec_cmap_subtable_matches(
                            t2,
                            s,
                            c + o2,
                        ) && spec_cmap_subtable_eq(t1, t2);
                    assert(spec_offset_scheduled(done_offs, pending@, o1));
                    assert(spec_offset_scheduled(done_offs, pending@, o2));
                    let kk1 = choose|kk: int|
                        0 <= kk < done_offs.len() && #[trigger] done_offs[kk] == o1;
                    let kk2 = choose|kk: int|
                        0 <= kk < done_offs.len() && #[trigger] done_offs[kk] == o2;
                    assert(kk1 != kk2);
                    lemma_cmap_matches_functional(t1, subtables@[kk1].0, s, c + o1);
                    lemma_cmap_matches_functional(t2, subtables@[kk2].0, s, c + o2);
                    assert(spec_cmap_subtable_eq(subtables@[kk1].0, subtables@[kk2].0));
                    assert(false);
                }
            }
            assert forall|kk: int|
                0 <= kk < subtables@.len() implies spec_cmap_group_from_entries(
                #[trigger] subtables@[kk],
                s,
                c,
            ) by {
                let o = done_offs[kk];
                assert(spec_is_entry_offset(s, c, n_g, o));
                assert((exists|i: int|
                    0 <= i < be_u16(s, c + 2) && #[trigger] spec_cmap_entry_off(s, c, i) == o)
                    && spec_cmap_subtable_matches(subtables@[kk].0, s, c + o) && subtables@[kk].1@
                    == spec_pds_for_offset(s, c, be_u16(s, c + 2), o));
            }
        }
        Ok(CMapTable { subtables })
    }

    /// Reads one per-glyph header.
    pub fn parse_glyph_description(&mut self) -> (r: Result<GlyphDescription, DecodeError>)
        ensures
            final(self).bytes() == old(self).bytes(),
            old(self).can_read(10) ==> {
                &&& r is Ok
                &&& r->Ok_0.number_of_contours == be_i16(old(self).bytes(), old(self).pos())
                &&& r->Ok_0.x_min == be_i16(old(self).bytes(), old(self).pos() + 2)
                &&& r->Ok_0.y_min == be_i16(old(self).bytes(), old(self).pos() + 4)
                &&& r->Ok_0.x_max == be_i16(old(self).bytes(), old(self).pos() + 6)
                &&& r->Ok_0.y_max == be_i16(old(self).bytes(), old(self).pos() + 8)
                &&& Self::stepped(*old(self), *final(self), 10)
            },
            !old(self).can_read(10) ==> r == Err::<GlyphDescription, DecodeError>(DecodeError::Eof),
    {
        self.eof(10)?;
        let number_of_contours = self.read_i16()?;
        let x_min = self.read_fword()?;
        let y_min = self.read_fword()?;
        let x_max = self.read_fword()?;
        let y_max = self.read_fword()?;
        Ok(GlyphDescription { number_of_contours, x_min, y_min, x_max, y_max })
    }

    /// Reads one coordinate delta as the flag bits dictate: a short vector is
    /// one unsigned byte whose sign the same-or-sign bit selects; a cleared
    /// short-vector bit with the same-or-sign bit set consumes nothing and
    /// yields no delta; both bits clear mean a signed 16-bit delta.
    pub fn parse_glyph_coordinate(&mut self, is_short_vector: bool, same_or_sign: bool) -> (r:
        Result<Option<i16>, DecodeError>)
        ensures
            final(self).bytes() == old(self).bytes(),
            (!is_short_vector && same_or_sign) ==> r == Ok::<Option<i16>, DecodeError>(None)
                && Self::stepped(*old(self), *final(self), 0),
            (is_short_vector && same_or_sign && old(self).can_read(1)) ==> r == Ok::<
                Option<i16>,
                DecodeError,
            >(Some(old(self).bytes()[old(self).pos()] as i16)) && Self::stepped(
                *old(self),
                *final(self),
                1,
            ),
            (is_short_vector && !same_or_sign && old(self).can_read(1)) ==> r == Ok::<
                Option<i16>,
                DecodeError,
            >(Some((0 - old(self).bytes()[old(self).pos()] as int) as i16)) && Self::stepped(
                *old(self),
                *final(self),
                1,
            ),
            (is_short_vector && !old(self).can_read(1)) ==> r == Err::<Option<i16>, DecodeError>(
                DecodeError::Eof,
            ) && Self::stepped(*old(self), *final(self), 0),
            (!is_short_vector && !same_or_sign && old(self).can_read(2)) ==> r == Ok::<
                Option<i16>,
                DecodeError,
            >(Some(be_i16(old(self).bytes(), old(self).pos()) as i16)) && Self::stepped(
                *old(self),
                *final(self),
                2,
            ),
            (!is_short_vector && !same_or_sign && !old(self).can_read(2)) ==> r == Err::<
                Option<i16>,
                DecodeError,
            >(DecodeError::Eof) && Self::stepped(*old(self), *final(self), 0),
    {
        if is_short_vector {
            let b = self.read_u8()?;
            if same_or_sign {
                Ok(Some(b as i16))
            } else {
                Ok(Some(-(b as i16)))
            }
        } else {
            if same_or_sign {
                Ok(None)
            } else {
                let d = self.read_i16()?;
                Ok(Some(d))
            }
        }
    }

    /// Decodes a simple glyph: contour end points, instructions, run-length
    /// expanded flags, and delta-accumulated coordinates. The flag expansion
    /// produces exactly one flag per point; a repeat count that would exceed
    /// the point count is rejected, as is a coordinate accumulation that
    /// would leave the 16-bit range.
    #[verifier::rlimit(100)]
    #[verifier::spinoff_prover]
    pub fn parse_simple_glyph(&mut self, number_of_contours: usize) -> (r: Result<
        Glyph,
        DecodeError,
    >)
        requires
            1 <= number_of_contours <= 0x8000,
        ensures
            final(self).bytes() == old(self).bytes(),
            r is Err ==> (r->Err_0 == DecodeError::Eof || r->Err_0 == DecodeError::InconsistentLength
                || r->Err_0 == DecodeError::ArithmeticRange),
            r is Ok <==> spec_simple_glyph(
                old(self).bytes(),
                old(self).pos(),
                number_of_contours as int,
            ) is Some,
            spec_simple_glyph(old(self).bytes(), old(self).pos(), number_of_contours as int)
                matches Some(g) ==> {
                &&& r is Ok
                &&& r->Ok_0 matches Glyph::Simple {
                    end_points_of_contours,
                    instruction_length,
                    instructions,
                    flags,
                    coordinates,
                }
                &&& end_points_of_contours@ == g.0
                &&& instruction_length == g.1
                &&& instructions@ == g.2
                &&& flags@ == g.3
                &&& coordinates@ == g.4
                &&& final(self).pos() == g.5
            },
            r is Ok ==> glyph_wf(r->Ok_0),
    {
        let ghost s = old(self).bytes();
        let ghost c = old(self).pos();

        let end_points_of_contours = self.read_u16_list(number_of_contours)?;

        let instruction_length = self.read_u16()?;
        let instructions = self.read_u8_list(instruction_length as usize)?;

        proof {
            assert(end_points_of_contours@ =~= Seq::new(
                number_of_contours as nat,
                |j: int| be_u16(s, c + 2 * j) as u16,
            ));
        }

        let last_end_point = end_points_of_contours[number_of_contours - 1];
        let number_of_points = last_end_point as usize + 1;

        let ghost flags_start = self.pos();
        let ghost whole_flags = spec_flag_expansion(s, flags_start, number_of_points as int);

        let mut flags: Vec<SimpleGlyphFlag> = Vec::new();
        while flags.len() < number_of_points
            invariant
                s == old(self).bytes(),
                self.bytes() == s,
                self.pos() <= s.len(),
                c == old(self).pos(),
                1 <= number_of_contours <= 0x8000,
                c + 2 * number_of_contours + 2 <= s.len(),
                instruction_length == be_u16(s, c + 2 * number_of_contours),
                flags_start == c + 2 * number_of_contours + 2 + instruction_length,
                flags_start <= s.len(),
                number_of_points == be_u16(s, c + 2 * (number_of_contours - 1)) + 1,
                flags@.len() <= number_of_points,
                number_of_points <= 0x10000,
                whole_flags == spec_flag_expansion(s, flags_start, number_of_points as int),
                spec_flags_compose(
                    whole_flags,
                    flags@,
                    spec_flag_expansion(
                        s,
                        self.pos(),
                        number_of_points - flags@.len(),
                    ),
                ),
            decreases s.len() - self.pos(),
        {
            let ghost pos_pre = self.pos();
            let ghost done_pre = flags@;
            let ghost need = number_of_points - flags@.len();
            let ghost rem_pre = spec_flag_expansion(s, pos_pre, need);

            let flag_byte = self.read_u8()?;
            let flag = SimpleGlyphFlag(flag_byte);
            flags.push(flag);

            if flag.should_repeat() {
                let repeat_count = self.read_u8()?;
                let mut extra: u8 = 0;
                while extra < repeat_count
                    invariant
                        s == old(self).bytes(),
                        self.bytes() == s,
                        self.pos() == pos_pre + 2,
                        self.pos() <= s.len(),
                        c == old(self).pos(),
                        1 <= number_of_contours <= 0x8000,
                        c + 2 * number_of_contours + 2 <= s.len(),
                        instruction_length == be_u16(s, c + 2 * number_of_contours),
                        flags_start == c + 2 * number_of_contours + 2 + instruction_length,
                        flags_start <= s.len(),
                        number_of_points == be_u16(s, c + 2 * (number_of_contours - 1)) + 1,
                        extra <= repeat_count,
                        1 <= need <= number_of_points - done_pre.len(),
                        flags@.len() == done_pre.len() + 1 + extra,
                        flags@ == done_pre + Seq::new((1 + extra) as nat, |i: int| flag),
                        flags@.len() <= number_of_points,
                        number_of_points <= 0x10000,
                        need == number_of_points - done_pre.len(),
                        s[pos_pre] == flag.0,
                        flag.spec_should_repeat(),
                        s[pos_pre + 1] == repeat_count,
                        rem_pre == spec_flag_expansion(s, pos_pre, need),
                        whole_flags == spec_flag_expansion(
                            s,
                            flags_start,
                            number_of_points as int,
                        ),
                        spec_flags_compose(whole_flags, done_pre, rem_pre),
                    decreases repeat_count - extra,
                {
                    if flags.len() == number_of_points {
                        proof {
                            assert(1 + repeat_count > need);
                            assert(rem_pre is None);
                        }
                        return Err(DecodeError::InconsistentLength);
                    }
                    flags.push(flag);
                    proof {
                        assert(flags@ =~= done_pre + Seq::new((1 + extra + 1) as nat, |i: int| flag));
                    }
                    extra = extra + 1;
                }
                proof {
                    assert(1 + repeat_count <= need);
                    let rem_next = spec_flag_expansion(
                        s,
                        pos_pre + 2,
                        need - 1 - repeat_count,
                    );
                    assert(rem_next matches Some(d) ==> done_pre + (Seq::new(
                        (1 + repeat_count) as nat,
                        |i: int| flag,
                    ) + d.0) =~= flags@ + d.0);
                }
            } else {
                proof {
                    let rem_next = spec_flag_expansion(s, pos_pre + 1, need - 1);
                    assert(rem_next matches Some(d) ==> done_pre + (seq![flag] + d.0) =~= flags@
                        + d.0);
                }
            }
        }
        proof {
            assert(spec_flag_expansion(s, self.pos(), 0) == Some::<(Seq<SimpleGlyphFlag>, int)>(
                (Seq::empty(), self.pos()),
            ));
            assert(flags@ + Seq::empty() =~= flags@);
            assert(whole_flags == Some::<(Seq<SimpleGlyphFlag>, int)>((flags@, self.pos())));
        }

        let point_count = flags.len();
        let ghost x_start = self.pos();
        let ghost whole_x = spec_coordinate_stream(s, x_start, flags@, 0, 0, true);

        let mut x_coordinates: Vec<i16> = Vec::new();
        let mut prev_x: i16 = 0;
        let mut idx: usize = 0;
        while idx < point_count
            invariant
                s == old(self).bytes(),
                self.bytes() == s,
                self.pos() <= s.len(),
                c == old(self).pos(),
                1 <= number_of_contours <= 0x8000,
                c + 2 * number_of_contours + 2 <= s.len(),
                instruction_length == be_u16(s, c + 2 * number_of_contours),
                flags_start == c + 2 * number_of_contours + 2 + instruction_length,
                flags_start <= s.len(),
                number_of_points == be_u16(s, c + 2 * (number_of_contours - 1)) + 1,
                whole_flags == spec_flag_expansion(s, flags_start, number_of_points as int),
                whole_flags == Some::<(Seq<SimpleGlyphFlag>, int)>((flags@, x_start)),
                point_count == flags@.len(),
                point_count == number_of_points,
                idx <= point_count,
                x_coordinates@.len() == idx,
                whole_x == spec_coordinate_stream(s, x_start, flags@, 0, 0, true),
                spec_coords_compose(
                    whole_x,
                    x_coordinates@,
                    spec_coordinate_stream(
                        s,
                        self.pos(),
                        flags@,
                        idx as int,
                        prev_x as int,
                        true,
                    ),
                ),
            decreases point_count - idx,
        {
            let ghost done_pre = x_coordinates@;
            let ghost rem_pre = spec_coordinate_stream(
                s,
                self.pos(),
                flags@,
                idx as int,
                prev_x as int,
                true,
            );
            let flag = flags[idx];
            let delta = self.parse_glyph_coordinate(
                flag.x_short_vector(),
                flag.x_is_same_or_sign(),
            )?;
            match delta {
                Some(delta_coord) => {
                    match prev_x.checked_add(delta_coord) {
                        Some(v) => {
                            prev_x = v;
                        },
                        None => {
                            proof {
                                assert(rem_pre is None);
                            }
                            return Err(DecodeError::ArithmeticRange);
                        },
                    }
                },
                None => {},
            }
            x_coordinates.push(prev_x);
            proof {
                assert(spec_coordinate_stream(
                    s,
                    self.pos(),
                    flags@,
                    idx + 1,
                    prev_x as int,
                    true,
                ) matches Some(d) ==> done_pre + (seq![prev_x] + d.0) =~= x_coordinates@ + d.0);
            }
            idx = idx + 1;
        }
        proof {
            assert(x_coordinates@ + Seq::empty() =~= x_coordinates@);
            assert(whole_x == Some::<(Seq<i16>, int)>((x_coordinates@, self.pos())));
        }

        let ghost y_start = self.pos();
        let ghost whole_y = spec_coordinate_stream(s, y_start, flags@, 0, 0, false);

        let mut y_coordinates: Vec<i16> = Vec::new();
        let mut prev_y: i16 = 0;
        let mut idy: usize = 0;
        while idy < point_count
            invariant
                s == old(self).bytes(),
                self.bytes() == s,
                self.pos() <= s.len(),
                c == old(self).pos(),
                1 <= number_of_contours <= 0x8000,
                c + 2 * number_of_contours + 2 <= s.len(),
                instruction_length == be_u16(s, c + 2 * number_of_contours),
                flags_start == c + 2 * number_of_contours + 2 + instruction_length,
                flags_start <= s.len(),
                number_of_points == be_u16(s, c + 2 * (number_of_contours - 1)) + 1,
                whole_flags == spec_flag_expansion(s, flags_start, number_of_points as int),
                whole_flags == Some::<(Seq<SimpleGlyphFlag>, int)>((flags@, x_start)),
                whole_x == spec_coordinate_stream(s, x_start, flags@, 0, 0, true),
                whole_x == Some::<(Seq<i16>, int)>((x_coordinates@, y_start)),
                point_count == flags@.len(),
                point_count == number_of_points,
                idy <= point_count,
                y_coordinates@.len() == idy,
                whole_y == spec_coordinate_stream(s, y_start, flags@, 0, 0, false),
                spec_coords_compose(
                    whole_y,
                    y_coordinates@,
                    spec_coordinate_stream(
                        s,
                        self.pos(),
                        flags@,
                        idy as int,
                        prev_y as int,
                        false,
                    ),
                ),
            decreases point_count - idy,
        {
            let ghost done_pre = y_coordinates@;
            let ghost rem_pre = spec_coordinate_stream(
                s,
                self.pos(),
                flags@,
                idy as int,
                prev_y as int,
                false,
            );
            let flag = flags[idy];
            let delta = self.parse_glyph_coordinate(
                flag.y_short_vector(),
                flag.y_is_same_or_sign(),
            )?;
            match delta {
                Some(delta_coord) => {
                    match prev_y.checked_add(delta_coord) {
                        Some(v) => {
                            prev_y = v;
                        },
                        None => {
                            proof {
                                assert(rem_pre is None);
                            }
                            return Err(DecodeError::ArithmeticRange);
                        },
                    }
                },
                None => {},
            }
            y_coordinates.push(prev_y);
            proof {
                assert(spec_coordinate_stream(
                    s,
                    self.pos(),
                    flags@,
                    idy + 1,
                    prev_y as int,
                    false,
                ) matches Some(d) ==> done_pre + (seq![prev_y] + d.0) =~= y_coordinates@ + d.0);
            }
            idy = idy + 1;
        }
        proof {
            assert(y_coordinates@ + Seq::empty() =~= y_coordinates@);
            assert(whole_y == Some::<(Seq<i16>, int)>((y_coordinates@, self.pos())));
        }

        let mut coordinates: Vec<(i16, i16)> = Vec::new();
        let mut iz: usize = 0;
        while iz < point_count
            invariant
                iz <= point_count,
                point_count == x_coordinates@.len(),
                point_count == y_coordinates@.len(),
                coordinates@.len() == iz,
                forall|k: int|
                    0 <= k < iz ==> #[trigger] coordinates@[k] == (
                        x_coordinates@[k],
                        y_coordinates@[k],
                    ),
            decreases point_count - iz,
        {
            coordinates.push((x_coordinates[iz], y_coordinates[iz]));
            iz = iz + 1;
        }

        proof {
            assert(coordinates@ =~= Seq::new(
                flags@.len(),
                |k: int| (x_coordinates@[k], y_coordinates@[k]),
            ));
            assert(spec_simple_glyph(s, c, number_of_contours as int)
                == Some::<(Seq<u16>, int, Seq<u8>, Seq<SimpleGlyphFlag>, Seq<(i16, i16)>, int)>(
                (
                    end_points_of_contours@,
                    instruction_length as int,
                    instructions@,
                    flags@,
                    coordinates@,
                    self.pos(),
                ),
            ));
        }

        Ok(
            Glyph::Simple {
                end_points_of_contours,
                instruction_length,
                instructions,
                flags,
                coordinates,
            },
        )
    }

    /// Decodes a compound glyph: one component record per iteration until a
    /// record clears the more-components bit. Each component's arguments and
    /// transformation follow its flag bits; without any scale bit the
    /// transform is the uniform identity.
    #[verifier::rlimit(100)]
    #[verifier::spinoff_prover]
    pub fn parse_compound_glyph(&mut self) -> (r: Result<Glyph, DecodeError>)
        ensures
            final(self).bytes() == old(self).bytes(),
            r is Err ==> r == Err::<Glyph, DecodeError>(DecodeError::Eof),
            r is Ok <==> spec_compound_components(old(self).bytes(), old(self).pos()) is Some,
            spec_compound_components(old(self).bytes(), old(self).pos()) matches Some(d) ==> {
                &&& r is Ok
                &&& r->Ok_0 matches Glyph::Compound { components }
                &&& components@ == d.0
                &&& final(self).pos() == d.1
            },
            r is Ok ==> glyph_wf(r->Ok_0),
    {
        let ghost c0 = old(self).pos();
        let mut components: Vec<ComponentGlyph> = Vec::new();
        let first_flag_raw = self.read_u16()?;
        let mut flag = ComponentGlyphFlag(first_flag_raw);
        let mut more = true;
        let ghost mut pending: int = c0;

        while more
            invariant
                self.bytes() == old(self).bytes(),
                self.pos() <= self.bytes().len(),
                c0 == old(self).pos(),
                more == (components@.len() == 0
                    || components@.last().flag.spec_more_components()),
                forall|i: int|
                    0 <= i < components@.len() - 1
                        ==> (#[trigger] components@[i].flag).spec_more_components(),
                forall|i: int|
                    0 <= i < components@.len() && (
                    #[trigger] components@[i].flag).spec_default_transform()
                        ==> components@[i].transformation == ComponentGlyphTransformation::Uniform(
                        F2DOT14_ONE,
                    ),
                more ==> {
                    &&& 0 <= pending
                    &&& pending + 2 == self.pos()
                    &&& flag.0 == be_u16(old(self).bytes(), pending)
                    &&& spec_components_compose(
                        spec_compound_components(old(self).bytes(), c0),
                        components@,
                        spec_compound_components(old(self).bytes(), pending),
                    )
                },
                !more ==> (spec_compound_components(old(self).bytes(), c0) matches Some(d)
                    && components@ == d.0 && self.pos() == d.1),
            decreases self.bytes().len() - self.pos(),
        {
            let ghost s = old(self).bytes();
            let ghost rem_pre = spec_compound_components(s, pending);

            let glyph_index = self.read_u16()?;

            let (arg_1, arg_2) = if flag.arg1_2_are_words() && flag.args_are_xy_values() {
                let a = self.read_i16()?;
                let b = self.read_i16()?;
                (ComponentGlyphArgument::Coord(a), ComponentGlyphArgument::Coord(b))
            } else if !flag.arg1_2_are_words() && flag.args_are_xy_values() {
                let a = self.read_i8()?;
                let b = self.read_i8()?;
                (
                    ComponentGlyphArgument::Coord(a as i16),
                    ComponentGlyphArgument::Coord(b as i16),
                )
            } else if flag.arg1_2_are_words() {
                let a = self.read_u16()?;
                let b = self.read_u16()?;
                (ComponentGlyphArgument::Point(a), ComponentGlyphArgument::Point(b))
            } else {
                let a = self.read_u8()?;
                let b = self.read_u8()?;
                (
                    ComponentGlyphArgument::Point(a as u16),
                    ComponentGlyphArgument::Point(b as u16),
                )
            };

            let transformation = if flag.we_have_a_scale() {
                ComponentGlyphTransformation::Uniform(self.read_f2dot14()?)
            } else if flag.we_have_an_xy_scale() {
                let x_scale = self.read_f2dot14()?;
                let y_scale = self.read_f2dot14()?;
                ComponentGlyphTransformation::NonUniform { x_scale, y_scale }
            } else if flag.we_have_two_by_two() {
                let x_scale = self.read_f2dot14()?;
                let scale_01 = self.read_f2dot14()?;
                let scale_10 = self.read_f2dot14()?;
                let y_scale = self.read_f2dot14()?;
                ComponentGlyphTransformation::Affine { x_scale, scale_01, scale_10, y_scale }
            } else {
                ComponentGlyphTransformation::Uniform(F2DOT14_ONE)
            };

            let component_glyph = ComponentGlyph { flag, glyph_index, arg_1, arg_2, transformation };
            let ghost done_pre = components@;
            components.push(component_glyph);

            if flag.more_components() {
                proof {
                    let e = self.pos();
                    assert(rem_pre == match spec_compound_components(s, e) {
                        None => None::<(Seq<ComponentGlyph>, int)>,
                        Some(d2) => Some((seq![component_glyph] + d2.0, d2.1)),
                    });
                    assert(spec_compound_components(s, e) matches Some(d2) ==> done_pre + (seq![
                        component_glyph,
                    ] + d2.0) =~= components@ + d2.0);
                    pending = e;
                }
                let next_flag_raw = self.read_u16()?;
                flag = ComponentGlyphFlag(next_flag_raw);
            } else {
                proof {
                    assert(rem_pre == Some((seq![component_glyph], self.pos() as int)));
                    assert(done_pre + seq![component_glyph] =~= components@);
                }
                more = false;
            }
        }

        Ok(Glyph::Compound { components })
    }

    /// Decodes the glyph table: one header per glyph in input order, no
    /// record for a zero-contour glyph, a simple outline where the contour
    /// count is positive and a compound outline where it is negative.
    #[verifier::rlimit(100)]
    #[verifier::spinoff_prover]
    pub fn parse_glyph_table(&mut self, num_glyphs: u16) -> (r: Result<GlyphTable, DecodeError>)
        ensures
            final(self).bytes() == old(self).bytes(),
            r is Err ==> (r->Err_0 == DecodeError::Eof || r->Err_0 == DecodeError::InconsistentLength
                || r->Err_0 == DecodeError::ArithmeticRange),
            r is Ok <==> spec_glyph_table_end(
                old(self).bytes(),
                old(self).pos(),
                num_glyphs as int,
            ) is Some,
            spec_glyph_table_end(old(self).bytes(), old(self).pos(), num_glyphs as int)
                matches Some(e) ==> (r is Ok && final(self).pos() == e),
            r is Ok ==> spec_glyph_entries_match(
                r->Ok_0.0@,
                old(self).bytes(),
                old(self).pos(),
                num_glyphs as int,
            ),
            r is Ok ==> ({
                let gs = r->Ok_0.0@;
                &&& gs.len() <= num_glyphs
                &&& forall|i: int|
                    0 <= i < gs.len() ==> (#[trigger] gs[i]).0.number_of_contours != 0
                &&& forall|i: int| 0 <= i < gs.len() ==> glyph_wf((#[trigger] gs[i]).1)
            }),
    {
        let ghost s = old(self).bytes();
        let ghost c = old(self).pos();
        let ghost n = num_glyphs as int;

        let mut glyphs: Vec<(GlyphDescription, Glyph)> = Vec::new();
        let mut i: usize = 0;
        while i < num_glyphs as usize
            invariant
                s == old(self).bytes(),
                c == old(self).pos(),
                n == num_glyphs as int,
                self.bytes() == s,
                i <= num_glyphs as usize,
                glyphs@.len() <= i,
                forall|k: int|
                    0 <= k < glyphs@.len() ==> (#[trigger] glyphs@[k]).0.number_of_contours != 0,
                forall|k: int| 0 <= k < glyphs@.len() ==> glyph_wf((#[trigger] glyphs@[k]).1),
                ({
                    let whole = spec_glyph_table_end(s, c, n);
                    match spec_glyph_table_end(s, self.pos(), n - i) {
                        None => whole is None,
                        Some(e) => whole == Some(e),
                    }
                }),
                forall|rest: Seq<(GlyphDescription, Glyph)>|
                    #[trigger] spec_glyph_entries_match(rest, s, self.pos(), n - i)
                        ==> spec_glyph_entries_match(glyphs@ + rest, s, c, n),
            decreases num_glyphs as usize - i,
        {
            let ghost pos_pre = self.pos();
            let ghost done_pre = glyphs@;

            let glyph_description = self.parse_glyph_description()?;

            if glyph_description.number_of_contours != 0 {
                let glyph = if glyph_description.is_simple() {
                    self.parse_simple_glyph(glyph_description.number_of_contours as usize)?
                } else {
                    self.parse_compound_glyph()?
                };
                let ghost entry = (glyph_description, glyph);
                glyphs.push((glyph_description, glyph));
                proof {
                    assert forall|rest: Seq<(GlyphDescription, Glyph)>|
                        #[trigger] spec_glyph_entries_match(
                            rest,
                            s,
                            self.pos(),
                            n - i - 1,
                        ) implies spec_glyph_entries_match(glyphs@ + rest, s, c, n) by {
                        let gs = seq![entry] + rest;
                        assert(gs.drop_first() =~= rest);
                        assert(gs[0] == entry);
                        assert(spec_glyph_entries_match(gs, s, pos_pre, n - i));
                        assert(done_pre + gs =~= glyphs@ + rest);
                    }
                }
            } else {
                proof {
                    assert forall|rest: Seq<(GlyphDescription, Glyph)>|
                        #[trigger] spec_glyph_entries_match(
                            rest,
                            s,
                            self.pos(),
                            n - i - 1,
                        ) implies spec_glyph_entries_match(glyphs@ + rest, s, c, n) by {
                        assert(spec_glyph_entries_match(rest, s, pos_pre, n - i));
                    }
                }
            }
            i = i + 1;
        }
        proof {
            assert(spec_glyph_entries_match(Seq::empty(), s, self.pos(), 0));
            assert(glyphs@ + Seq::<(GlyphDescription, Glyph)>::empty() =~= glyphs@);
        }

        Ok(GlyphTable(glyphs))
    }

    /// Decodes a whole font file: the directory first, then every required
    /// table at the byte range its directory record declares. Each
    /// fixed-layout table must consume exactly the length its record
    /// declares; a mismatch is an inconsistent-length error. The returned
    /// value carries the directory and all six decoded tables; an error
    /// carries the table it surfaced in.
    #[verifier::rlimit(80)]
    pub fn parse(&mut self) -> (r: Result<TrueTypeFontFile, FontError>)
        ensures
            final(self).bytes() == old(self).bytes(),
            r is Ok ==> ({
                let s = old(self).bytes();
                let file = r->Ok_0;
                let dir = file.font_directory.table_directory@;
                &&& file.font_directory.wf()
                &&& dir_has_tag(dir, TAG_HEAD)
                &&& dir_has_tag(dir, TAG_HHEA)
                &&& dir_has_tag(dir, TAG_MAXP)
                &&& dir_has_tag(dir, TAG_HMTX)
                &&& dir_has_tag(dir, TAG_CMAP)
                &&& dir_has_tag(dir, TAG_GLYF)
                &&& dir_record_of(dir, TAG_HEAD).offset + dir_record_of(dir, TAG_HEAD).length
                    <= s.len()
                &&& dir_record_of(dir, TAG_HHEA).offset + dir_record_of(dir, TAG_HHEA).length
                    <= s.len()
                &&& dir_record_of(dir, TAG_MAXP).offset + dir_record_of(dir, TAG_MAXP).length
                    <= s.len()
                &&& dir_record_of(dir, TAG_HMTX).offset + dir_record_of(dir, TAG_HMTX).length
                    <= s.len()
                &&& dir_record_of(dir, TAG_CMAP).offset + dir_record_of(dir, TAG_CMAP).length
                    <= s.len()
                &&& dir_record_of(dir, TAG_GLYF).offset + dir_record_of(dir, TAG_GLYF).length
                    <= s.len()
                &&& file.head == spec_head_table(s, dir_record_of(dir, TAG_HEAD).offset as int)
                &&& file.hhea == spec_hhea_table(s, dir_record_of(dir, TAG_HHEA).offset as int)
                &&& file.maxp == spec_maxp_table(s, dir_record_of(dir, TAG_MAXP).offset as int)
                &&& file.maxp.num_glyphs >= file.hhea.num_of_long_hor_metrics
                &&& file.hmtx.h_metrics@.len() == file.hhea.num_of_long_hor_metrics
                &&& file.hmtx.left_side_bearing@.len() == file.maxp.num_glyphs
                    - file.hhea.num_of_long_hor_metrics
                &&& forall|i: int|
                    0 <= i < file.cmap.subtables@.len() ==> cmap_subtable_wf(
                        (#[trigger] file.cmap.subtables@[i]).0,
                    )
                &&& forall|i: int, j: int|
                    0 <= i < j < file.cmap.subtables@.len() ==> !spec_cmap_subtable_eq(
                        (#[trigger] file.cmap.subtables@[i]).0,
                        (#[trigger] file.cmap.subtables@[j]).0,
                    )
                &&& file.glyph.0@.len() <= file.maxp.num_glyphs
                &&& forall|i: int|
                    0 <= i < file.glyph.0@.len() ==> (
                    #[trigger] file.glyph.0@[i]).0.number_of_contours != 0
                &&& forall|i: int|
                    0 <= i < file.glyph.0@.len() ==> glyph_wf((#[trigger] file.glyph.0@[i]).1)
                &&& ({
                    let hoff = dir_record_of(dir, TAG_HMTX).offset as int;
                    let nl = file.hhea.num_of_long_hor_metrics as int;
                    &&& (forall|j: int|
                        0 <= j < nl ==> {
                            &&& (#[trigger] file.hmtx.h_metrics@[j]).advance_width == be_u16(
                                s,
                                hoff + 4 * j,
                            )
                            &&& file.hmtx.h_metrics@[j].left_side_bearing == be_i16(
                                s,
                                hoff + 4 * j + 2,
                            )
                        })
                    &&& (forall|j: int|
                        0 <= j < file.maxp.num_glyphs - nl
                            ==> #[trigger] file.hmtx.left_side_bearing@[j] == be_i16(
                            s,
                            hoff + 4 * nl + 2 * j,
                        ))
                })
                &&& (forall|kk: int|
                    0 <= kk < file.cmap.subtables@.len() ==> spec_cmap_group_from_entries(
                        #[trigger] file.cmap.subtables@[kk],
                        s,
                        dir_record_of(dir, TAG_CMAP).offset as int,
                    ))
                &&& (forall|i: int|
                    0 <= i < be_u16(s, dir_record_of(dir, TAG_CMAP).offset + 2)
                        ==> spec_cmap_entry_served(
                        file.cmap.subtables@,
                        s,
                        dir_record_of(dir, TAG_CMAP).offset as int,
                        #[trigger] spec_cmap_entry_off(
                            s,
                            dir_record_of(dir, TAG_CMAP).offset as int,
                            i,
                        ),
                    ))
                &&& spec_glyph_entries_match(
                    file.glyph.0@,
                    s,
                    dir_record_of(dir, TAG_GLYF).offset as int,
                    file.maxp.num_glyphs as int,
                )
            }),
            (r is Err && r->Err_0.table == TableId::Directory) <==> !spec_dir_ok(
                old(self).bytes(),
                old(self).pos(),
            ),
            ({
                let s = old(self).bytes();
                let c = old(self).pos();
                spec_dir_ok(s, c) && !spec_dir_has(s, c, TAG_HEAD as int)
            }) ==> r == Err::<TrueTypeFontFile, FontError>(
                FontError { table: TableId::Head, kind: DecodeError::MissingTable },
            ),
            ({
                let s = old(self).bytes();
                let c = old(self).pos();
                let rec = spec_dir_record(s, c, TAG_HEAD as int);
                spec_dir_ok(s, c) && spec_dir_has(s, c, TAG_HEAD as int) && !spec_jumpable(
                    rec,
                    s.len() as int,
                )
            }) ==> r == Err::<TrueTypeFontFile, FontError>(
                FontError { table: TableId::Head, kind: DecodeError::Eof },
            ),
            ({
                let s = old(self).bytes();
                let c = old(self).pos();
                let rec = spec_dir_record(s, c, TAG_HEAD as int);
                &&& spec_dir_ok(s, c)
                &&& spec_dir_has(s, c, TAG_HEAD as int)
                &&& spec_jumpable(rec, s.len() as int)
                &&& spec_head_result(s, rec.offset as int) is Err
            }) ==> r == Err::<TrueTypeFontFile, FontError>(
                FontError {
                    table: TableId::Head,
                    kind: spec_head_result(
                        old(self).bytes(),
                        spec_dir_record(
                            old(self).bytes(),
                            old(self).pos(),
                            TAG_HEAD as int,
                        ).offset as int,
                    )->Err_0,
                },
            ),
            ({
                let s = old(self).bytes();
                let c = old(self).pos();
                let rec = spec_dir_record(s, c, TAG_HEAD as int);
                &&& spec_dir_ok(s, c)
                &&& spec_dir_has(s, c, TAG_HEAD as int)
                &&& spec_jumpable(rec, s.len() as int)
                &&& spec_head_result(s, rec.offset as int) is Ok
                &&& rec.length != 54
            }) ==> r == Err::<TrueTypeFontFile, FontError>(
                FontError { table: TableId::Head, kind: DecodeError::InconsistentLength },
            ),
            ({
                let s = old(self).bytes();
                let c = old(self).pos();
                spec_dir_ok(s, c) && spec_head_stage_ok(s, c) && !spec_dir_has(
                    s,
                    c,
                    TAG_HHEA as int,
                )
            }) ==> r == Err::<TrueTypeFontFile, FontError>(
                FontError { table: TableId::HHea, kind: DecodeError::MissingTable },
            ),
            ({
                let s = old(self).bytes();
                let c = old(self).pos();
                spec_dir_ok(s, c) && spec_head_stage_ok(s, c) && spec_hhea_stage_ok(s, c)
                    && !spec_dir_has(s, c, TAG_MAXP as int)
            }) ==> r == Err::<TrueTypeFontFile, FontError>(
                FontError { table: TableId::MaxP, kind: DecodeError::MissingTable },
            ),
            ({
                let s = old(self).bytes();
                let c = old(self).pos();
                spec_dir_ok(s, c) && spec_head_stage_ok(s, c) && spec_hhea_stage_ok(s, c)
                    && spec_maxp_stage_ok(s, c) && !spec_dir_has(s, c, TAG_HMTX as int)
            }) ==> r == Err::<TrueTypeFontFile, FontError>(
                FontError { table: TableId::HMtx, kind: DecodeError::MissingTable },
            ),
            ({
                let s = old(self).bytes();
                let c = old(self).pos();
                spec_dir_ok(s, c) && spec_head_stage_ok(s, c) && spec_hhea_stage_ok(s, c)
                    && spec_maxp_stage_ok(s, c) && spec_hmtx_stage_ok(s, c) && !spec_dir_has(
                    s,
                    c,
                    TAG_CMAP as int,
                )
            }) ==> r == Err::<TrueTypeFontFile, FontError>(
                FontError { table: TableId::CMap, kind: DecodeError::MissingTable },
            ),
            ({
                let s = old(self).bytes();
                let c = old(self).pos();
                let rec = spec_dir_record(s, c, TAG_HHEA as int);
                &&& spec_dir_ok(s, c)
                &&& spec_head_stage_ok(s, c)
                &&& spec_dir_has(s, c, TAG_HHEA as int)
                &&& !spec_jumpable(rec, s.len() as int)
            }) ==> r == Err::<TrueTypeFontFile, FontError>(
                FontError { table: TableId::HHea, kind: DecodeError::Eof },
            ),
            ({
                let s = old(self).bytes();
                let c = old(self).pos();
                let rec = spec_dir_record(s, c, TAG_HHEA as int);
                &&& spec_dir_ok(s, c)
                &&& spec_head_stage_ok(s, c)
                &&& spec_dir_has(s, c, TAG_HHEA as int)
                &&& spec_jumpable(rec, s.len() as int)
                &&& spec_hhea_result(s, rec.offset as int) is Err
            }) ==> r == Err::<TrueTypeFontFile, FontError>(
                FontError {
                    table: TableId::HHea,
                    kind: spec_hhea_result(
                        old(self).bytes(),
                        spec_dir_record(
                            old(self).bytes(),
                            old(self).pos(),
                            TAG_HHEA as int,
                        ).offset as int,
                    )->Err_0,
                },
            ),
            ({
                let s = old(self).bytes();
                let c = old(self).pos();
                let rec = spec_dir_record(s, c, TAG_HHEA as int);
                &&& spec_dir_ok(s, c)
                &&& spec_head_stage_ok(s, c)
                &&& spec_dir_has(s, c, TAG_HHEA as int)
                &&& spec_jumpable(rec, s.len() as int)
                &&& spec_hhea_result(s, rec.offset as int) is Ok
                &&& rec.length != 36
            }) ==> r == Err::<TrueTypeFontFile, FontError>(
                FontError { table: TableId::HHea, kind: DecodeError::InconsistentLength },
            ),
            ({
                let s = old(self).bytes();
                let c = old(self).pos();
                let rec = spec_dir_record(s, c, TAG_MAXP as int);
                &&& spec_dir_ok(s, c)
                &&& spec_head_stage_ok(s, c)
                &&& spec_hhea_stage_ok(s, c)
                &&& spec_dir_has(s, c, TAG_MAXP as int)
                &&& !spec_jumpable(rec, s.len() as int)
            }) ==> r == Err::<TrueTypeFontFile, FontError>(
                FontError { table: TableId::MaxP, kind: DecodeError::Eof },
            ),
            ({
                let s = old(self).bytes();
                let c = old(self).pos();
                let rec = spec_dir_record(s, c, TAG_MAXP as int);
                &&& spec_dir_ok(s, c)
                &&& spec_head_stage_ok(s, c)
                &&& spec_hhea_stage_ok(s, c)
                &&& spec_dir_has(s, c, TAG_MAXP as int)
                &&& spec_jumpable(rec, s.len() as int)
                &&& spec_maxp_result(s, rec.offset as int) is Err
            }) ==> r == Err::<TrueTypeFontFile, FontError>(
                FontError {
                    table: TableId::MaxP,
                    kind: spec_maxp_result(
                        old(self).bytes(),
                        spec_dir_record(
                            old(self).bytes(),
                            old(self).pos(),
                            TAG_MAXP as int,
                        ).offset as int,
                    )->Err_0,
                },
            ),
            ({
                let s = old(self).bytes();
                let c = old(self).pos();
                let rec = spec_dir_record(s, c, TAG_MAXP as int);
                &&& spec_dir_ok(s, c)
                &&& spec_head_stage_ok(s, c)
                &&& spec_hhea_stage_ok(s, c)
                &&& spec_dir_has(s, c, TAG_MAXP as int)
                &&& spec_jumpable(rec, s.len() as int)
                &&& spec_maxp_result(s, rec.offset as int) is Ok
                &&& rec.length != 32
            }) ==> r == Err::<TrueTypeFontFile, FontError>(
                FontError { table: TableId::MaxP, kind: DecodeError::InconsistentLength },
            ),
            ({
                let s = old(self).bytes();
                let c = old(self).pos();
                let rec = spec_dir_record(s, c, TAG_HMTX as int);
                &&& spec_dir_ok(s, c)
                &&& spec_head_stage_ok(s, c)
                &&& spec_hhea_stage_ok(s, c)
                &&& spec_maxp_stage_ok(s, c)
                &&& spec_dir_has(s, c, TAG_HMTX as int)
                &&& !spec_jumpable(rec, s.len() as int)
            }) ==> r == Err::<TrueTypeFontFile, FontError>(
                FontError { table: TableId::HMtx, kind: DecodeError::Eof },
            ),
            ({
                let s = old(self).bytes();
                let c = old(self).pos();
                let rec = spec_dir_record(s, c, TAG_HMTX as int);
                let nl = spec_hhea_table(
                    s,
                    spec_dir_record(s, c, TAG_HHEA as int).offset as int,
                ).num_of_long_hor_metrics;
                let ng = spec_maxp_table(
                    s,
                    spec_dir_record(s, c, TAG_MAXP as int).offset as int,
                ).num_glyphs;
                &&& spec_dir_ok(s, c)
                &&& spec_head_stage_ok(s, c)
                &&& spec_hhea_stage_ok(s, c)
                &&& spec_maxp_stage_ok(s, c)
                &&& spec_dir_has(s, c, TAG_HMTX as int)
                &&& spec_jumpable(rec, s.len() as int)
                &&& ng < nl
            }) ==> r == Err::<TrueTypeFontFile, FontError>(
                FontError { table: TableId::HMtx, kind: DecodeError::ArithmeticRange },
            ),
            ({
                let s = old(self).bytes();
                let c = old(self).pos();
                let rec = spec_dir_record(s, c, TAG_HMTX as int);
                let nl = spec_hhea_table(
                    s,
                    spec_dir_record(s, c, TAG_HHEA as int).offset as int,
                ).num_of_long_hor_metrics;
                let ng = spec_maxp_table(
                    s,
                    spec_dir_record(s, c, TAG_MAXP as int).offset as int,
                ).num_glyphs;
                &&& spec_dir_ok(s, c)
                &&& spec_head_stage_ok(s, c)
                &&& spec_hhea_stage_ok(s, c)
                &&& spec_maxp_stage_ok(s, c)
                &&& spec_dir_has(s, c, TAG_HMTX as int)
                &&& spec_jumpable(rec, s.len() as int)
                &&& ng >= nl
                &&& rec.offset + spec_hmtx_len(nl as int, ng as int) > s.len()
            }) ==> r == Err::<TrueTypeFontFile, FontError>(
                FontError { table: TableId::HMtx, kind: DecodeError::Eof },
            ),
            ({
                let s = old(self).bytes();
                let c = old(self).pos();
                let rec = spec_dir_record(s, c, TAG_HMTX as int);
                let nl = spec_hhea_table(
                    s,
                    spec_dir_record(s, c, TAG_HHEA as int).offset as int,
                ).num_of_long_hor_metrics;
                let ng = spec_maxp_table(
                    s,
                    spec_dir_record(s, c, TAG_MAXP as int).offset as int,
                ).num_glyphs;
                &&& spec_dir_ok(s, c)
                &&& spec_head_stage_ok(s, c)
                &&& spec_hhea_stage_ok(s, c)
                &&& spec_maxp_stage_ok(s, c)
                &&& spec_dir_has(s, c, TAG_HMTX as int)
                &&& spec_jumpable(rec, s.len() as int)
                &&& ng >= nl
                &&& rec.offset + spec_hmtx_len(nl as int, ng as int) <= s.len()
                &&& spec_hmtx_len(nl as int, ng as int) != rec.length
            }) ==> r == Err::<TrueTypeFontFile, FontError>(
                FontError { table: TableId::HMtx, kind: DecodeError::InconsistentLength },
            ),
            ({
                let s = old(self).bytes();
                let c = old(self).pos();
                let rec = spec_dir_record(s, c, TAG_CMAP as int);
                &&& spec_dir_ok(s, c)
                &&& spec_head_stage_ok(s, c)
                &&& spec_hhea_stage_ok(s, c)
                &&& spec_maxp_stage_ok(s, c)
                &&& spec_hmtx_stage_ok(s, c)
                &&& spec_dir_has(s, c, TAG_CMAP as int)
                &&& !spec_jumpable(rec, s.len() as int)
            }) ==> r == Err::<TrueTypeFontFile, FontError>(
                FontError { table: TableId::CMap, kind: DecodeError::Eof },
            ),
            r is Err && r->Err_0.table == TableId::HHea && r->Err_0.kind
                != DecodeError::MissingTable ==> spec_dir_ok(old(self).bytes(), old(self).pos())
                && spec_head_stage_ok(old(self).bytes(), old(self).pos()),
            r is Err && r->Err_0.table == TableId::MaxP && r->Err_0.kind
                != DecodeError::MissingTable ==> spec_hhea_stage_ok(
                old(self).bytes(),
                old(self).pos(),
            ),
            r is Err && r->Err_0.table == TableId::HMtx && r->Err_0.kind
                != DecodeError::MissingTable ==> spec_maxp_stage_ok(
                old(self).bytes(),
                old(self).pos(),
            ),
            r is Err && r->Err_0.table == TableId::CMap ==> spec_hmtx_stage_ok(
                old(self).bytes(),
                old(self).pos(),
            ),
            r is Err && r->Err_0.table == TableId::CMap && r->Err_0.kind
                != DecodeError::MissingTable ==> (r->Err_0.kind == DecodeError::Eof || r->Err_0.kind
                == DecodeError::MalformedHeader || r->Err_0.kind == DecodeError::InconsistentLength
                || r->Err_0.kind == DecodeError::InvalidSentinel || r->Err_0.kind
                == DecodeError::UnsupportedFormat),
            r == Err::<TrueTypeFontFile, FontError>(
                FontError { table: TableId::Glyf, kind: DecodeError::MissingTable },
            ) ==> !spec_dir_has(old(self).bytes(), old(self).pos(), TAG_GLYF as int),
            r is Err && r->Err_0.table == TableId::Glyf ==> ({
                let s = old(self).bytes();
                let c = old(self).pos();
                &&& spec_dir_ok(s, c)
                &&& spec_head_stage_ok(s, c)
                &&& spec_hhea_stage_ok(s, c)
                &&& spec_maxp_stage_ok(s, c)
                &&& spec_hmtx_stage_ok(s, c)
            }),
            ({
                let s = old(self).bytes();
                let c = old(self).pos();
                let grec = spec_dir_record(s, c, TAG_GLYF as int);
                let ng = spec_maxp_table(
                    s,
                    spec_dir_record(s, c, TAG_MAXP as int).offset as int,
                ).num_glyphs;
                &&& spec_dir_has(s, c, TAG_GLYF as int)
                &&& spec_jumpable(grec, s.len() as int)
                &&& (spec_glyph_table_end(s, grec.offset as int, ng as int) matches Some(e)
                    && e == grec.offset + grec.length)
            }) ==> !(r is Err && r->Err_0.table == TableId::Glyf),
            ({
                let s = old(self).bytes();
                let c = old(self).pos();
                let grec = spec_dir_record(s, c, TAG_GLYF as int);
                let ng = spec_maxp_table(
                    s,
                    spec_dir_record(s, c, TAG_MAXP as int).offset as int,
                ).num_glyphs;
                &&& spec_dir_ok(s, c)
                &&& spec_head_stage_ok(s, c)
                &&& spec_hhea_stage_ok(s, c)
                &&& spec_maxp_stage_ok(s, c)
                &&& spec_hmtx_stage_ok(s, c)
                &&& spec_cmap_stage_ok(s, c)
                &&& spec_dir_has(s, c, TAG_GLYF as int)
                &&& spec_jumpable(grec, s.len() as int)
                &&& (spec_glyph_table_end(s, grec.offset as int, ng as int) matches Some(e)
                    && e != grec.offset + grec.length)
            }) ==> r == Err::<TrueTypeFontFile, FontError>(
                FontError { table: TableId::Glyf, kind: DecodeError::InconsistentLength },
            ),
            spec_font_ok(old(self).bytes(), old(self).pos()) ==> r is Ok,
    {
        let ghost spec_s = old(self).bytes();
        let ghost spec_c = old(self).pos();
        let font_directory = match self.parse_font_directory() {
            Ok(d) => d,
            Err(e) => {
                return Err(FontError { table: TableId::Directory, kind: e });
            },
        };
        proof {
            lemma_dir_bridge(font_directory.table_directory@, spec_s, spec_c, TAG_HEAD);
            lemma_dir_bridge(font_directory.table_directory@, spec_s, spec_c, TAG_HHEA);
            lemma_dir_bridge(font_directory.table_directory@, spec_s, spec_c, TAG_MAXP);
            lemma_dir_bridge(font_directory.table_directory@, spec_s, spec_c, TAG_HMTX);
            lemma_dir_bridge(font_directory.table_directory@, spec_s, spec_c, TAG_CMAP);
            lemma_dir_bridge(font_directory.table_directory@, spec_s, spec_c, TAG_GLYF);
        }

        let head = {
            let head_table_record = match font_directory.get_table_record(TableTag(TAG_HEAD)) {
                Ok(rec) => rec,
                Err(e) => {
                    return Err(FontError { table: TableId::Head, kind: e });
                },
            };
            if let Err(e) = self.jump_to_table_record(&head_table_record) {
                return Err(FontError { table: TableId::Head, kind: e });
            }

            let offset = self.cursor;
            let head = match self.parse_head_table() {
                Ok(t) => t,
                Err(e) => {
                    return Err(FontError { table: TableId::Head, kind: e });
                },
            };
            if self.cursor - offset != head_table_record.length as usize {
                return Err(FontError { table: TableId::Head, kind: DecodeError::InconsistentLength });
            }

            head
        };

        let hhea = {
            let hhea_table_record = match font_directory.get_table_record(TableTag(TAG_HHEA)) {
                Ok(rec) => rec,
                Err(e) => {
                    return Err(FontError { table: TableId::HHea, kind: e });
                },
            };
            if let Err(e) = self.jump_to_table_record(&hhea_table_record) {
                return Err(FontError { table: TableId::HHea, kind: e });
            }

            let offset = self.cursor;
            let hhea = match self.parse_hhea_table() {
                Ok(t) => t,
                Err(e) => {
                    return Err(FontError { table: TableId::HHea, kind: e });
                },
            };
            if self.cursor - offset != hhea_table_record.length as usize {
                return Err(FontError { table: TableId::HHea, kind: DecodeError::InconsistentLength });
            }

            hhea
        };

        let maxp = {
            let maxp_table_record = match font_directory.get_table_record(TableTag(TAG_MAXP)) {
                Ok(rec) => rec,
                Err(e) => {
                    return Err(FontError { table: TableId::MaxP, kind: e });
                },
            };
            if let Err(e) = self.jump_to_table_record(&maxp_table_record) {
                return Err(FontError { table: TableId::MaxP, kind: e });
            }

            let offset = self.cursor;
            let maxp = match self.parse_maxp_table() {
                Ok(t) => t,
                Err(e) => {
                    return Err(FontError { table: TableId::MaxP, kind: e });
                },
            };
            if self.cursor - offset != maxp_table_record.length as usize {
                return Err(FontError { table: TableId::MaxP, kind: DecodeError::InconsistentLength });
            }

            maxp
        };

        let hmtx = {
            let hmtx_table_record = match font_directory.get_table_record(TableTag(TAG_HMTX)) {
                Ok(rec) => rec,
                Err(e) => {
                    return Err(FontError { table: TableId::HMtx, kind: e });
                },
            };
            if let Err(e) = self.jump_to_table_record(&hmtx_table_record) {
                return Err(FontError { table: TableId::HMtx, kind: e });
            }

            let offset = self.cursor;
            let hmtx = match self.parse_hmtx_table(hhea.num_of_long_hor_metrics, maxp.num_glyphs) {
                Ok(t) => t,
                Err(e) => {
                    return Err(FontError { table: TableId::HMtx, kind: e });
                },
            };
            if self.cursor - offset != hmtx_table_record.length as usize {
                return Err(FontError { table: TableId::HMtx, kind: DecodeError::InconsistentLength });
            }

            hmtx
        };

        let cmap = {
            let cmap_table_record = match font_directory.get_table_record(TableTag(TAG_CMAP)) {
                Ok(rec) => rec,
                Err(e) => {
                    return Err(FontError { table: TableId::CMap, kind: e });
                },
            };
            if let Err(e) = self.jump_to_table_record(&cmap_table_record) {
                return Err(FontError { table: TableId::CMap, kind: e });
            }

            match self.parse_cmap_table() {
                Ok(t) => t,
                Err(e) => {
                    return Err(FontError { table: TableId::CMap, kind: e });
                },
            }
        };

        let glyph = {
            let glyph_table_record = match font_directory.get_table_record(TableTag(TAG_GLYF)) {
                Ok(rec) => rec,
                Err(e) => {
                    return Err(FontError { table: TableId::Glyf, kind: e });
                },
            };
            if let Err(e) = self.jump_to_table_record(&glyph_table_record) {
                return Err(FontError { table: TableId::Glyf, kind: e });
            }

            let offset = self.cursor;
            let glyph = match self.parse_glyph_table(maxp.num_glyphs) {
                Ok(t) => t,
                Err(e) => {
                    return Err(FontError { table: TableId::Glyf, kind: e });
                },
            };
            if self.cursor < offset || self.cursor - offset != glyph_table_record.length as usize {
                return Err(FontError { table: TableId::Glyf, kind: DecodeError::InconsistentLength });
            }

            glyph
        };

        Ok(TrueTypeFontFile { font_directory, head, hhea, maxp, hmtx, cmap, glyph })
    }

    /// Is a tag already present among the entries read so far?
    fn directory_contains(entries: &Vec<(TableTag, TableRecord)>, tag: TableTag) -> (r: bool)
        ensures
            r == dir_has_tag(entries@, tag.0),
    {
        let n = entries.len();
        for i in 0..n
            invariant
                n == entries@.len(),
                forall|j: int| 0 <= j < i ==> #[trigger] entries@[j].0.0 != tag.0,
        {
            let (t, _record) = entries[i];
            if t.0 == tag.0 {
                assert(entries@[i as int].0.0 == tag.0);
                return true;
            }
        }
        false
    }
}

} // verus!
