use vstd::prelude::*;

use crate::error::DecodeError;

verus! {

/// 16.16 fixed-point number, kept as its raw big-endian bits.
pub type Fixed = u32;

/// Signed 16-bit distance in font design units.
pub type FWord = i16;

/// Unsigned 16-bit distance in font design units.
pub type UnsignedFWord = u16;

/// 2.14 fixed-point number, kept as its raw bits; `16384` represents `1.0`.
pub type F2Dot14 = i16;

/// Seconds since 1904-01-01 00:00:00, as a signed 64-bit integer.
pub type LongDateTime = i64;

/// The fixed-point value that `F2Dot14` uses for `1.0`.
pub const F2DOT14_ONE: i16 = 16384;

/// The mandatory magic number of the head table.
pub const HEAD_MAGIC: u32 = 0x5F0F3CF5;

/// The version constant `1.0` shared by the head, hhea and maxp tables.
pub const VERSION_1_0: u32 = 0x00010000;

/// The sentinel that terminates a format-4 cmap end-code array.
pub const END_CODE_SENTINEL: u16 = 0xFFFF;

pub const TAG_HEAD: u32 = 0x68656164;
pub const TAG_HHEA: u32 = 0x68686561;
pub const TAG_MAXP: u32 = 0x6D617870;
pub const TAG_HMTX: u32 = 0x686D7478;
pub const TAG_CMAP: u32 = 0x636D6170;
pub const TAG_GLYF: u32 = 0x676C7966;

/// The scalar type tag that opens the offset sub-table.
#[derive(Clone, Copy, Debug, PartialEq, Eq, Structural)]
pub enum ScalarType {
    /// `0x00010000`, the common TrueType outline tag.
    TrueType,
    /// `true`, the legacy Macintosh TrueType tag.
    AppleTrue,
    /// `OTTO`, the OpenType tag for PostScript-flavored outlines.
    OpenType,
    /// `typ1`, the legacy PostScript-in-sfnt tag.
    PostScript,
}

impl ScalarType {
    /// Does a raw four-byte value name a recognized scalar type?
    pub open spec fn spec_recognized(raw: u32) -> bool {
        raw == VERSION_1_0 || raw == 0x74727565 || raw == 0x4F54544F || raw == 0x74797031
    }

    /// The scalar type a recognized raw value decodes to.
    pub open spec fn spec_from(raw: u32) -> ScalarType {
        if raw == VERSION_1_0 {
            ScalarType::TrueType
        } else if raw == 0x74727565 {
            ScalarType::AppleTrue
        } else if raw == 0x4F54544F {
            ScalarType::OpenType
        } else {
            ScalarType::PostScript
        }
    }

    /// Decodes a raw scalar type tag, rejecting one it does not recognize.
    pub fn try_from(raw: u32) -> (r: Result<ScalarType, DecodeError>)
        ensures
            Self::spec_recognized(raw) ==> r == Ok::<ScalarType, DecodeError>(Self::spec_from(raw)),
            !Self::spec_recognized(raw) ==> r == Err::<ScalarType, DecodeError>(
                DecodeError::MalformedHeader,
            ),
    {
        if raw == VERSION_1_0 {
            Ok(ScalarType::TrueType)
        } else if raw == 0x74727565 {
            Ok(ScalarType::AppleTrue)
        } else if raw == 0x4F54544F {
            Ok(ScalarType::OpenType)
        } else if raw == 0x74797031 {
            Ok(ScalarType::PostScript)
        } else {
            Err(DecodeError::MalformedHeader)
        }
    }
}

/// A four-byte table identifier, kept as its big-endian value.
#[derive(Clone, Copy, Debug, PartialEq, Eq, Structural)]
pub struct TableTag(pub u32);

/// One entry of the table directory: where a table lives in the buffer.
#[derive(Clone, Copy, Debug, PartialEq, Eq, Structural)]
pub struct TableRecord {
    pub checksum: u32,
    pub offset: u32,
    pub length: u32,
}

/// The 12-byte header that opens the font directory.
#[derive(Clone, Copy, Debug, PartialEq, Eq, Structural)]
pub struct OffsetSubTable {
    pub scalar_type: ScalarType,
    pub num_tables: u16,
    pub search_range: u16,
    pub entry_selector: u16,
    pub range_shift: u16,
}

/// Does the directory sequence hold an entry for `tag`?
pub open spec fn dir_has_tag(entries: Seq<(TableTag, TableRecord)>, tag: u32) -> bool {
    exists|i: int| 0 <= i < entries.len() && #[trigger] entries[i].0.0 == tag
}

/// The record of some entry carrying `tag`; meaningful only when `dir_has_tag` holds.
pub open spec fn dir_record_of(entries: Seq<(TableTag, TableRecord)>, tag: u32) -> TableRecord {
    entries[choose|i: int| 0 <= i < entries.len() && #[trigger] entries[i].0.0 == tag].1
}

/// Tags are pairwise distinct.
pub open spec fn dir_tags_unique(entries: Seq<(TableTag, TableRecord)>) -> bool {
    forall|i: int, j: int|
        0 <= i < j < entries.len() ==> #[trigger] entries[i].0.0 != #[trigger] entries[j].0.0
}

/// The table of contents of a font file: the offset sub-table followed by a
/// tag-to-record mapping with pairwise distinct tags.
#[derive(Clone, Debug)]
pub struct FontDirectory {
    pub offset_sub_table: OffsetSubTable,
    pub table_directory: Vec<(TableTag, TableRecord)>,
}

impl FontDirectory {
    /// The directory's structural invariant: every tag appears at most once.
    pub open spec fn wf(self) -> bool {
        dir_tags_unique(self.table_directory@)
    }

    /// Looks a tag up in the directory, or reports the table as missing.
    pub fn get_table_record(&self, tag: TableTag) -> (r: Result<TableRecord, DecodeError>)
        ensures
            r is Ok <==> dir_has_tag(self.table_directory@, tag.0),
            r is Ok ==> exists|i: int|
                0 <= i < self.table_directory@.len() && #[trigger] self.table_directory@[i] == (
                tag,
                r->Ok_0,
                ),
            r is Ok && self.wf() ==> r->Ok_0 == dir_record_of(self.table_directory@, tag.0),
            r is Err ==> r == Err::<TableRecord, DecodeError>(DecodeError::MissingTable),
    {
        let n = self.table_directory.len();
        for i in 0..n
            invariant
                n == self.table_directory@.len(),
                forall|j: int| 0 <= j < i ==> #[trigger] self.table_directory@[j].0.0 != tag.0,
        {
            let (t, record) = self.table_directory[i];
            if t.0 == tag.0 {
                assert(self.table_directory@[i as int].0 == tag);
                proof {
                    if dir_tags_unique(self.table_directory@) {
                        let entries = self.table_directory@;
                        let j = choose|j: int|
                            0 <= j < entries.len() && #[trigger] entries[j].0.0 == tag.0;
                        assert(entries[j].0.0 == tag.0);
                        assert(j == i);
                    }
                }
                return Ok(record);
            }
        }
        Err(DecodeError::MissingTable)
    }
}

/// The head table: global font properties and layout switches.
#[derive(Clone, Copy, Debug, PartialEq, Eq, Structural)]
pub struct HeadTable {
    pub font_revision: Fixed,
    pub checksum_adjustment: u32,
    pub magic_number: u32,
    pub flags: u16,
    pub units_per_em: u16,
    pub created: LongDateTime,
    pub modified: LongDateTime,
    pub x_min: FWord,
    pub y_min: FWord,
    pub x_max: FWord,
    pub y_max: FWord,
    pub mac_style: u16,
    pub lowest_rec_ppem: u16,
    pub font_direction_hint: i16,
    pub index_to_loc_format: bool,
    pub glyph_data_format: i16,
}

/// The horizontal header table.
#[derive(Clone, Copy, Debug, PartialEq, Eq, Structural)]
pub struct HHeaTable {
    pub ascent: FWord,
    pub descent: FWord,
    pub line_gap: FWord,
    pub advance_width_max: UnsignedFWord,
    pub min_left_side_bearing: FWord,
    pub min_right_side_bearing: FWord,
    pub x_max_extent: FWord,
    pub caret_slope_rise: i16,
    pub caret_slope_run: i16,
    pub caret_offset: FWord,
    pub reserved: i64,
    pub metric_data_format: i16,
    pub num_of_long_hor_metrics: u16,
}

/// The maximum-profile table.
#[derive(Clone, Copy, Debug, PartialEq, Eq, Structural)]
pub struct MaxPTable {
    pub num_glyphs: u16,
    pub max_points: u16,
    pub max_contours: u16,
    pub max_component_points: u16,
    pub max_component_contours: u16,
    pub max_zones: u16,
    pub max_twilight_points: u16,
    pub max_storage: u16,
    pub max_function_defs: u16,
    pub max_instruction_defs: u16,
    pub max_stack_elements: u16,
    pub max_size_of_instructions: u16,
    pub max_component_elements: u16,
    pub max_component_depth: u16,
}

/// One explicit (advance width, left side bearing) pair of the hmtx table.
#[derive(Clone, Copy, Debug, PartialEq, Eq, Structural)]
pub struct LongHorizontalMetric {
    pub advance_width: u16,
    pub left_side_bearing: i16,
}

/// The horizontal-metrics table: explicit pairs followed by bare bearings.
#[derive(Clone, Debug, PartialEq, Eq)]
pub struct HMtxTable {
    pub h_metrics: Vec<LongHorizontalMetric>,
    pub left_side_bearing: Vec<FWord>,
}

/// A platform identifier of a cmap encoding entry.
#[derive(Clone, Copy, Debug, PartialEq, Eq, Structural)]
pub enum Platform {
    Unicode,
    Macintosh,
    Iso,
    Microsoft,
}

impl Platform {
    /// Does a raw platform number name a recognized platform?
    pub open spec fn spec_recognized(raw: u16) -> bool {
        raw == 0 || raw == 1 || raw == 2 || raw == 3
    }

    /// The platform a recognized raw number decodes to.
    pub open spec fn spec_from(raw: u16) -> Platform {
        if raw == 0 {
            Platform::Unicode
        } else if raw == 1 {
            Platform::Macintosh
        } else if raw == 2 {
            Platform::Iso
        } else {
            Platform::Microsoft
        }
    }

    /// Decodes a raw platform number, rejecting one it does not recognize.
    pub fn try_from(raw: u16) -> (r: Result<Platform, DecodeError>)
        ensures
            Self::spec_recognized(raw) ==> r == Ok::<Platform, DecodeError>(Self::spec_from(raw)),
            !Self::spec_recognized(raw) ==> r == Err::<Platform, DecodeError>(
                DecodeError::MalformedHeader,
            ),
    {
        match raw {
            0 => Ok(Platform::Unicode),
            1 => Ok(Platform::Macintosh),
            2 => Ok(Platform::Iso),
            3 => Ok(Platform::Microsoft),
            _ => Err(DecodeError::MalformedHeader),
        }
    }
}

/// A (platform, platform-specific encoding id) pair referencing a subtable.
#[derive(Clone, Copy, Debug, PartialEq, Eq, Structural)]
pub struct PlatformDouble {
    pub platform: Platform,
    pub platform_specific_id: u16,
}

/// Format 0: a byte-array mapping for character codes 0 through 255.
#[derive(Clone, Debug, PartialEq, Eq)]
pub struct CMapFormat0 {
    pub language: u16,
    pub glyph_index_array: Vec<u8>,
}

/// Format 4: a segmented, delta-encoded mapping.
#[derive(Clone, Debug, PartialEq, Eq)]
pub struct CMapFormat4 {
    pub language: u16,
    pub seg_count_x2: u16,
    pub search_range: u16,
    pub entry_selector: u16,
    pub range_shift: u16,
    pub end_codes: Vec<u16>,
    pub start_codes: Vec<u16>,
    pub id_deltas: Vec<u16>,
    pub id_range_offset: Vec<u16>,
    pub glyph_index_array: Vec<u16>,
}

/// Format 6: a trimmed mapping over one contiguous code range.
#[derive(Clone, Debug, PartialEq, Eq)]
pub struct CMapFormat6 {
    pub language: u16,
    pub first_code: u16,
    pub glyph_index_array: Vec<u16>,
}

/// A decoded cmap subtable, tagged by its format.
#[derive(Clone, Debug, PartialEq, Eq)]
pub enum CMapSubtable {
    Zero(CMapFormat0),
    Four(CMapFormat4),
    Six(CMapFormat6),
}

/// Structural equality of decoded subtables, comparing array contents.
pub open spec fn spec_cmap_subtable_eq(a: CMapSubtable, b: CMapSubtable) -> bool {
    match (a, b) {
        (CMapSubtable::Zero(x), CMapSubtable::Zero(y)) => {
            &&& x.language == y.language
            &&& x.glyph_index_array@ == y.glyph_index_array@
        },
        (CMapSubtable::Four(x), CMapSubtable::Four(y)) => {
            &&& x.language == y.language
            &&& x.seg_count_x2 == y.seg_count_x2
            &&& x.search_range == y.search_range
            &&& x.entry_selector == y.entry_selector
            &&& x.range_shift == y.range_shift
            &&& x.end_codes@ == y.end_codes@
            &&& x.start_codes@ == y.start_codes@
            &&& x.id_deltas@ == y.id_deltas@
            &&& x.id_range_offset@ == y.id_range_offset@
            &&& x.glyph_index_array@ == y.glyph_index_array@
        },
        (CMapSubtable::Six(x), CMapSubtable::Six(y)) => {
            &&& x.language == y.language
            &&& x.first_code == y.first_code
            &&& x.glyph_index_array@ == y.glyph_index_array@
        },
        _ => false,
    }
}

/// Compares two byte vectors element by element.
fn u8_vec_eq(a: &Vec<u8>, b: &Vec<u8>) -> (r: bool)
    ensures
        r <==> a@ == b@,
{
    if a.len() != b.len() {
        return false;
    }
    let n = a.len();
    for i in 0..n
        invariant
            n == a@.len(),
            n == b@.len(),
            forall|j: int| 0 <= j < i ==> a@[j] == b@[j],
    {
        if a[i] != b[i] {
            return false;
        }
    }
    proof {
        assert(a@ =~= b@);
    }
    true
}

/// Compares two vectors of 16-bit values element by element.
fn u16_vec_eq(a: &Vec<u16>, b: &Vec<u16>) -> (r: bool)
    ensures
        r <==> a@ == b@,
{
    if a.len() != b.len() {
        return false;
    }
    let n = a.len();
    for i in 0..n
        invariant
            n == a@.len(),
            n == b@.len(),
            forall|j: int| 0 <= j < i ==> a@[j] == b@[j],
    {
        if a[i] != b[i] {
            return false;
        }
    }
    proof {
        assert(a@ =~= b@);
    }
    true
}

/// Decides structural equality of two decoded cmap subtables.
pub fn cmap_subtable_eq(a: &CMapSubtable, b: &CMapSubtable) -> (r: bool)
    ensures
        r == spec_cmap_subtable_eq(*a, *b),
{
    match (a, b) {
        (CMapSubtable::Zero(x), CMapSubtable::Zero(y)) => {
            x.language == y.language && u8_vec_eq(&x.glyph_index_array, &y.glyph_index_array)
        },
        (CMapSubtable::Four(x), CMapSubtable::Four(y)) => {
            x.language == y.language && x.seg_count_x2 == y.seg_count_x2 && x.search_range
                == y.search_range && x.entry_selector == y.entry_selector && x.range_shift
                == y.range_shift && u16_vec_eq(&x.end_codes, &y.end_codes) && u16_vec_eq(
                &x.start_codes,
                &y.start_codes,
            ) && u16_vec_eq(&x.id_deltas, &y.id_deltas) && u16_vec_eq(
                &x.id_range_offset,
                &y.id_range_offset,
            ) && u16_vec_eq(&x.glyph_index_array, &y.glyph_index_array)
        },
        (CMapSubtable::Six(x), CMapSubtable::Six(y)) => {
            x.language == y.language && x.first_code == y.first_code && u16_vec_eq(
                &x.glyph_index_array,
                &y.glyph_index_array,
            )
        },
        _ => false,
    }
}

/// Structural well-formedness of a decoded subtable: a format-0 mapping
/// covers exactly the 256 single-byte codes, and a format-4 mapping has a
/// non-empty end-code array terminated by the sentinel, parallel arrays of
/// equal segment count, and (with every range offset zero) an empty trailing
/// glyph-index array.
pub open spec fn cmap_subtable_wf(t: CMapSubtable) -> bool {
    match t {
        CMapSubtable::Zero(z) => z.glyph_index_array@.len() == 256,
        CMapSubtable::Four(f) => {
            &&& f.end_codes@.len() > 0
            &&& f.end_codes@.last() == END_CODE_SENTINEL
            &&& f.start_codes@.len() == f.end_codes@.len()
            &&& f.id_deltas@.len() == f.end_codes@.len()
            &&& f.id_range_offset@.len() == f.end_codes@.len()
            &&& forall|j: int|
                0 <= j < f.id_range_offset@.len() ==> #[trigger] f.id_range_offset@[j] == 0
            &&& f.glyph_index_array@.len() == 0
        },
        CMapSubtable::Six(_) => true,
    }
}

/// The decoded cmap table: each distinct subtable with the ordered list of
/// platform pairs that reference it.
#[derive(Clone, Debug, PartialEq, Eq)]
pub struct CMapTable {
    pub subtables: Vec<(CMapSubtable, Vec<PlatformDouble>)>,
}

/// The per-glyph header preceding each outline.
#[derive(Clone, Copy, Debug, PartialEq, Eq, Structural)]
pub struct GlyphDescription {
    pub number_of_contours: i16,
    pub x_min: FWord,
    pub y_min: FWord,
    pub x_max: FWord,
    pub y_max: FWord,
}

impl GlyphDescription {
    /// A positive contour count marks a simple glyph.
    pub fn is_simple(&self) -> (r: bool)
        ensures
            r == (self.number_of_contours > 0),
    {
        self.number_of_contours > 0
    }
}

/// One per-point flag byte of a simple glyph.
#[derive(Clone, Copy, Debug, PartialEq, Eq, Structural)]
pub struct SimpleGlyphFlag(pub u8);

impl SimpleGlyphFlag {
    pub open spec fn spec_on_curve(self) -> bool {
        self.0 & 0x01u8 != 0
    }

    pub open spec fn spec_x_short_vector(self) -> bool {
        self.0 & 0x02u8 != 0
    }

    pub open spec fn spec_y_short_vector(self) -> bool {
        self.0 & 0x04u8 != 0
    }

    pub open spec fn spec_should_repeat(self) -> bool {
        self.0 & 0x08u8 != 0
    }

    pub open spec fn spec_x_is_same_or_sign(self) -> bool {
        self.0 & 0x10u8 != 0
    }

    pub open spec fn spec_y_is_same_or_sign(self) -> bool {
        self.0 & 0x20u8 != 0
    }

    pub fn on_curve(&self) -> (r: bool)
        ensures
            r == self.spec_on_curve(),
    {
        self.0 & 0x01 != 0
    }

    pub fn x_short_vector(&self) -> (r: bool)
        ensures
            r == self.spec_x_short_vector(),
    {
        self.0 & 0x02 != 0
    }

    pub fn y_short_vector(&self) -> (r: bool)
        ensures
            r == self.spec_y_short_vector(),
    {
        self.0 & 0x04 != 0
    }

    pub fn should_repeat(&self) -> (r: bool)
        ensures
            r == self.spec_should_repeat(),
    {
        self.0 & 0x08 != 0
    }

    pub fn x_is_same_or_sign(&self) -> (r: bool)
        ensures
            r == self.spec_x_is_same_or_sign(),
    {
        self.0 & 0x10 != 0
    }

    pub fn y_is_same_or_sign(&self) -> (r: bool)
        ensures
            r == self.spec_y_is_same_or_sign(),
    {
        self.0 & 0x20 != 0
    }
}

/// The 16-bit flag word that opens each compound-glyph component.
#[derive(Clone, Copy, Debug, PartialEq, Eq, Structural)]
pub struct ComponentGlyphFlag(pub u16);

impl ComponentGlyphFlag {
    pub open spec fn spec_arg1_2_are_words(self) -> bool {
        self.0 & 0x0001u16 != 0
    }

    pub open spec fn spec_args_are_xy_values(self) -> bool {
        self.0 & 0x0002u16 != 0
    }

    pub open spec fn spec_we_have_a_scale(self) -> bool {
        self.0 & 0x0008u16 != 0
    }

    pub open spec fn spec_more_components(self) -> bool {
        self.0 & 0x0020u16 != 0
    }

    pub open spec fn spec_we_have_an_xy_scale(self) -> bool {
        self.0 & 0x0040u16 != 0
    }

    pub open spec fn spec_we_have_two_by_two(self) -> bool {
        self.0 & 0x0080u16 != 0
    }

    /// No scale bit at all: the transform defaults to the identity.
    pub open spec fn spec_default_transform(self) -> bool {
        !self.spec_we_have_a_scale() && !self.spec_we_have_an_xy_scale()
            && !self.spec_we_have_two_by_two()
    }

    pub fn arg1_2_are_words(&self) -> (r: bool)
        ensures
            r == self.spec_arg1_2_are_words(),
    {
        self.0 & 0x0001 != 0
    }

    pub fn args_are_xy_values(&self) -> (r: bool)
        ensures
            r == self.spec_args_are_xy_values(),
    {
        self.0 & 0x0002 != 0
    }

    pub fn we_have_a_scale(&self) -> (r: bool)
        ensures
            r == self.spec_we_have_a_scale(),
    {
        self.0 & 0x0008 != 0
    }

    pub fn more_components(&self) -> (r: bool)
        ensures
            r == self.spec_more_components(),
    {
        self.0 & 0x0020 != 0
    }

    pub fn we_have_an_xy_scale(&self) -> (r: bool)
        ensures
            r == self.spec_we_have_an_xy_scale(),
    {
        self.0 & 0x0040 != 0
    }

    pub fn we_have_two_by_two(&self) -> (r: bool)
        ensures
            r == self.spec_we_have_two_by_two(),
    {
        self.0 & 0x0080 != 0
    }
}

/// A component argument: either a coordinate offset or a point anchor index.
#[derive(Clone, Copy, Debug, PartialEq, Eq, Structural)]
pub enum ComponentGlyphArgument {
    Coord(i16),
    Point(u16),
}

/// The transformation attached to a component, in 2.14 fixed point.
#[derive(Clone, Copy, Debug, PartialEq, Eq, Structural)]
pub enum ComponentGlyphTransformation {
    Uniform(F2Dot14),
    NonUniform { x_scale: F2Dot14, y_scale: F2Dot14 },
    Affine { x_scale: F2Dot14, scale_01: F2Dot14, scale_10: F2Dot14, y_scale: F2Dot14 },
}

/// One component reference of a compound glyph.
#[derive(Clone, Copy, Debug, PartialEq, Eq, Structural)]
pub struct ComponentGlyph {
    pub flag: ComponentGlyphFlag,
    pub glyph_index: u16,
    pub arg_1: ComponentGlyphArgument,
    pub arg_2: ComponentGlyphArgument,
    pub transformation: ComponentGlyphTransformation,
}

/// A decoded glyph outline: direct contours or assembled components.
#[derive(Clone, Debug, PartialEq, Eq)]
pub enum Glyph {
    Simple {
        end_points_of_contours: Vec<u16>,
        instruction_length: u16,
        instructions: Vec<u8>,
        flags: Vec<SimpleGlyphFlag>,
        coordinates: Vec<(i16, i16)>,
    },
    Compound { components: Vec<ComponentGlyph> },
}

/// Structural well-formedness of a decoded glyph: a simple glyph has exactly
/// one flag and one coordinate pair per point, a compound glyph has at least
/// one component, only its last component clears the continuation bit, and a
/// component without scale bits carries the uniform identity scale.
pub open spec fn glyph_wf(g: Glyph) -> bool {
    match g {
        Glyph::Simple { end_points_of_contours, instruction_length, instructions, flags, coordinates } => {
            &&& end_points_of_contours.len() > 0
            &&& flags@.len() == end_points_of_contours@.last() + 1
            &&& coordinates@.len() == flags@.len()
            &&& instructions@.len() == instruction_length
        },
        Glyph::Compound { components } => {
            &&& components@.len() > 0
            &&& !components@.last().flag.spec_more_components()
            &&& forall|i: int|
                0 <= i < components@.len() - 1
                    ==> (#[trigger] components@[i].flag).spec_more_components()
            &&& forall|i: int|
                0 <= i < components@.len() && (#[trigger] components@[i].flag).spec_default_transform()
                    ==> components@[i].transformation == ComponentGlyphTransformation::Uniform(
                    F2DOT14_ONE,
                )
        },
    }
}

/// The decoded glyph table: one (header, outline) pair per non-empty glyph.
#[derive(Clone, Debug, PartialEq, Eq)]
pub struct GlyphTable(pub Vec<(GlyphDescription, Glyph)>);

/// The fully decoded font file: the directory and every required table.
#[derive(Clone, Debug)]
pub struct TrueTypeFontFile {
    pub font_directory: FontDirectory,
    pub head: HeadTable,
    pub hhea: HHeaTable,
    pub maxp: MaxPTable,
    pub hmtx: HMtxTable,
    pub cmap: CMapTable,
    pub glyph: GlyphTable,
}

} // verus!
