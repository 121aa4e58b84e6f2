//! Decoding of paragraph and section properties from grpprls.
use vstd::prelude::*;
use crate::bytes::{i16_at, i16_from, i32_at, i32_from, u16_at, u16_from, u32_at, u32_from, fits, le_u16, slice_range};
use crate::ir::{
    plain_properties, empty_section, Alignment, Border, BorderModel, BordersModel, NumberingRef,
    ParagraphProperties, PropertiesModel, SectionProperties, Shading, ShadingModel,
    TableParagraphProperties, opt_border_view, opt_shading_view,
};
use crate::sprm::{operand, parse_prls, prls, prls_in_bounds, truncated_message, truncated_text, Prl};
use crate::strings::{hex_fixed, owned, push_hex};

verus! {

/// OOXML name of a DOC border type.
pub open spec fn border_style_name(v: u8) -> Seq<char> {
    match v {
        0x00u8 => "none"@,
        0x01u8 | 0x05u8 => "single"@,
        0x03u8 => "double"@,
        0x06u8 => "dotted"@,
        0x07u8 => "dashed"@,
        0x08u8 => "dotDash"@,
        0x09u8 => "dotDotDash"@,
        0x0Au8 => "triple"@,
        0x0Bu8 => "thinThickSmallGap"@,
        0x0Cu8 => "thickThinSmallGap"@,
        0x0Du8 => "thinThickThinSmallGap"@,
        0x0Eu8 => "thinThickMediumGap"@,
        0x0Fu8 => "thickThinMediumGap"@,
        0x10u8 => "thinThickThinMediumGap"@,
        0x11u8 => "thinThickLargeGap"@,
        0x12u8 => "thickThinLargeGap"@,
        0x13u8 => "thinThickThinLargeGap"@,
        0x14u8 => "wave"@,
        0x15u8 => "doubleWave"@,
        0x16u8 => "dashSmallGap"@,
        0x17u8 => "dashDotStroked"@,
        0x18u8 => "threeDEmboss"@,
        0x19u8 => "threeDEngrave"@,
        0x1Au8 => "outset"@,
        0x1Bu8 => "inset"@,
        _ => "single"@,
    }
}

/// OOXML name of a DOC border type.
pub fn border_style(value: u8) -> (r: &'static str)
    ensures
        r@ == border_style_name(value),
{
    match value {
        0x00u8 => "none",
        0x01u8 | 0x05u8 => "single",
        0x03u8 => "double",
        0x06u8 => "dotted",
        0x07u8 => "dashed",
        0x08u8 => "dotDash",
        0x09u8 => "dotDotDash",
        0x0Au8 => "triple",
        0x0Bu8 => "thinThickSmallGap",
        0x0Cu8 => "thickThinSmallGap",
        0x0Du8 => "thinThickThinSmallGap",
        0x0Eu8 => "thinThickMediumGap",
        0x0Fu8 => "thickThinMediumGap",
        0x10u8 => "thinThickThinMediumGap",
        0x11u8 => "thinThickLargeGap",
        0x12u8 => "thickThinLargeGap",
        0x13u8 => "thinThickThinLargeGap",
        0x14u8 => "wave",
        0x15u8 => "doubleWave",
        0x16u8 => "dashSmallGap",
        0x17u8 => "dashDotStroked",
        0x18u8 => "threeDEmboss",
        0x19u8 => "threeDEngrave",
        0x1Au8 => "outset",
        0x1Bu8 => "inset",
        _ => "single",
    }
}

/// OOXML name of a DOC shading pattern.
pub open spec fn shading_pattern_name(v: u16) -> Seq<char> {
    match v {
        0u16 => "clear"@,
        1u16 => "solid"@,
        2u16 => "pct5"@,
        3u16 => "pct10"@,
        4u16 => "pct20"@,
        5u16 => "pct25"@,
        6u16 => "pct30"@,
        7u16 => "pct40"@,
        8u16 => "pct50"@,
        9u16 => "pct60"@,
        10u16 => "pct70"@,
        11u16 => "pct75"@,
        12u16 => "pct80"@,
        13u16 => "pct90"@,
        14u16 => "horzStripe"@,
        15u16 => "vertStripe"@,
        16u16 => "reverseDiagStripe"@,
        17u16 => "diagStripe"@,
        18u16 => "horzCross"@,
        19u16 => "diagCross"@,
        20u16 => "thinHorzStripe"@,
        21u16 => "thinVertStripe"@,
        22u16 => "thinReverseDiagStripe"@,
        23u16 => "thinDiagStripe"@,
        24u16 => "thinHorzCross"@,
        25u16 => "thinDiagCross"@,
        37u16 => "pct12"@,
        38u16 => "pct15"@,
        _ => "clear"@,
    }
}

/// OOXML name of a DOC shading pattern.
pub fn shading_pattern(value: u16) -> (r: &'static str)
    ensures
        r@ == shading_pattern_name(value),
{
    match value {
        0u16 => "clear",
        1u16 => "solid",
        2u16 => "pct5",
        3u16 => "pct10",
        4u16 => "pct20",
        5u16 => "pct25",
        6u16 => "pct30",
        7u16 => "pct40",
        8u16 => "pct50",
        9u16 => "pct60",
        10u16 => "pct70",
        11u16 => "pct75",
        12u16 => "pct80",
        13u16 => "pct90",
        14u16 => "horzStripe",
        15u16 => "vertStripe",
        16u16 => "reverseDiagStripe",
        17u16 => "diagStripe",
        18u16 => "horzCross",
        19u16 => "diagCross",
        20u16 => "thinHorzStripe",
        21u16 => "thinVertStripe",
        22u16 => "thinReverseDiagStripe",
        23u16 => "thinDiagStripe",
        24u16 => "thinHorzCross",
        25u16 => "thinDiagCross",
        37u16 => "pct12",
        38u16 => "pct15",
        _ => "clear",
    }
}

/// RGB hex of a color from the 16-entry palette.
pub open spec fn indexed_color_name(v: u8) -> Option<Seq<char>> {
    match v {
        1u8 => Some("000000"@),
        2u8 => Some("0000FF"@),
        3u8 => Some("00FFFF"@),
        4u8 => Some("00FF00"@),
        5u8 => Some("FF00FF"@),
        6u8 => Some("FF0000"@),
        7u8 => Some("FFFF00"@),
        8u8 => Some("FFFFFF"@),
        9u8 => Some("000080"@),
        10u8 => Some("008080"@),
        11u8 => Some("008000"@),
        12u8 => Some("800080"@),
        13u8 => Some("800000"@),
        14u8 => Some("808000"@),
        15u8 => Some("808080"@),
        16u8 => Some("C0C0C0"@),
        _ => None,
    }
}

/// RGB hex of a color from the 16-entry palette.
pub fn indexed_color(value: u8) -> (r: Option<String>)
    ensures
        crate::ir::opt_string_view(r) == indexed_color_name(value),
{
    let color: &'static str = match value {
        1u8 => "000000",
        2u8 => "0000FF",
        3u8 => "00FFFF",
        4u8 => "00FF00",
        5u8 => "FF00FF",
        6u8 => "FF0000",
        7u8 => "FFFF00",
        8u8 => "FFFFFF",
        9u8 => "000080",
        10u8 => "008080",
        11u8 => "008000",
        12u8 => "800080",
        13u8 => "800000",
        14u8 => "808000",
        15u8 => "808080",
        16u8 => "C0C0C0",
        _ => {
            return None;
        },
    };
    Some(owned(color))
}

/// Hex RGB of a COLORREF, `None` for "auto" or a non-RGB value.
pub open spec fn colorref_name(b: Seq<u8>) -> Option<Seq<char>> {
    if b[3] != 0 || (b[0] == 0xFF && b[1] == 0xFF && b[2] == 0xFF) {
        None
    } else {
        Some(hex_fixed(b[0] as nat, 2) + hex_fixed(b[1] as nat, 2) + hex_fixed(b[2] as nat, 2))
    }
}

/// Hex RGB of the COLORREF in the first four bytes.
pub fn colorref(bytes: &[u8]) -> (r: Option<String>)
    requires
        bytes.len() >= 4,
    ensures
        crate::ir::opt_string_view(r) == colorref_name(bytes@),
{
    if bytes[3] != 0 || (bytes[0] == 0xFF && bytes[1] == 0xFF && bytes[2] == 0xFF) {
        None
    } else {
        let mut s = String::new();
        push_hex(&mut s, bytes[0] as u32, 2);
        push_hex(&mut s, bytes[1] as u32, 2);
        push_hex(&mut s, bytes[2] as u32, 2);
        assert(s@ =~= hex_fixed(bytes@[0] as nat, 2) + hex_fixed(bytes@[1] as nat, 2) + hex_fixed(bytes@[2] as nat, 2));
        Some(s)
    }
}

pub open spec fn max2(v: u8) -> u8 {
    if v < 2 {
        2
    } else {
        v
    }
}

/// A Brc80 border (four bytes).
pub open spec fn border80_model(b: Seq<u8>) -> Option<BorderModel> {
    if b[1] == 0 || (b.len() == 4 && b[0] == 0xFF && b[1] == 0xFF && b[2] == 0xFF && b[3] == 0xFF) {
        None
    } else {
        Some(
            BorderModel {
                style: border_style_name(b[1]),
                size: max2(b[0]),
                space: b[3] & 0x1F,
                color: indexed_color_name(b[2]),
                shadow: b[3] & 0x20 != 0,
                frame: b[3] & 0x40 != 0,
            },
        )
    }
}

/// Decodes a Brc80 border.
pub fn decode_border80(bytes: &[u8]) -> (r: Option<Border>)
    requires
        bytes.len() >= 4,
    ensures
        opt_border_view(r) == border80_model(bytes@),
{
    let style = border_style(bytes[1]);
    if bytes[1] == 0 || (bytes.len() == 4 && bytes[0] == 0xFF && bytes[1] == 0xFF && bytes[2] == 0xFF
        && bytes[3] == 0xFF) {
        return None;
    }
    Some(
        Border {
            style: owned(style),
            size: if bytes[0] < 2 {
                2
            } else {
                bytes[0]
            },
            space: bytes[3] & 0x1F,
            color: indexed_color(bytes[2]),
            shadow: bytes[3] & 0x20 != 0,
            frame: bytes[3] & 0x40 != 0,
        },
    )
}

/// A Brc border (eight bytes).
pub open spec fn border_model(b: Seq<u8>) -> Option<BorderModel> {
    if b[5] == 0 {
        None
    } else {
        let flags = u16_at(b, 6);
        Some(
            BorderModel {
                style: border_style_name(b[5]),
                size: max2(b[4]),
                space: (flags & 0x1F) as u8,
                color: colorref_name(b.subrange(0, 4)),
                shadow: flags & 0x20 != 0,
                frame: flags & 0x40 != 0,
            },
        )
    }
}

/// Decodes a Brc border.
pub fn decode_border(bytes: &[u8]) -> (r: Option<Border>)
    requires
        bytes.len() >= 8,
    ensures
        opt_border_view(r) == border_model(bytes@),
{
    let style = border_style(bytes[5]);
    if bytes[5] == 0 {
        return None;
    }
    let flags = u16_from(slice_range(bytes, 6, 8));
    Some(
        Border {
            style: owned(style),
            size: if bytes[4] < 2 {
                2
            } else {
                bytes[4]
            },
            space: (flags & 0x1F) as u8,
            color: colorref(slice_range(bytes, 0, 4)),
            shadow: flags & 0x20 != 0,
            frame: flags & 0x40 != 0,
        },
    )
}

/// A Shd shading (ten bytes).
pub open spec fn shading_model(b: Seq<u8>) -> Option<ShadingModel> {
    let pattern = u16_at(b, 8);
    if pattern == 0 && colorref_name(b.subrange(4, 8)) is None {
        None
    } else {
        Some(
            ShadingModel {
                pattern: shading_pattern_name(pattern),
                foreground: colorref_name(b.subrange(0, 4)),
                background: colorref_name(b.subrange(4, 8)),
            },
        )
    }
}

/// Decodes a Shd shading.
pub fn decode_shading(bytes: &[u8]) -> (r: Option<Shading>)
    requires
        bytes.len() >= 10,
    ensures
        opt_shading_view(r) == shading_model(bytes@),
{
    let pattern = u16_from(slice_range(bytes, 8, 10));
    let background = colorref(slice_range(bytes, 4, 8));
    if pattern == 0 && background.is_none() {
        return None;
    }
    Some(
        Shading {
            pattern: owned(shading_pattern(pattern)),
            foreground: colorref(slice_range(bytes, 0, 4)),
            background,
        },
    )
}

/// Paragraph alignment of a `jc` value.
pub open spec fn alignment_of(v: u8) -> Option<Alignment> {
    match v {
        0u8 => Some(Alignment::Left),
        1u8 => Some(Alignment::Center),
        2u8 => Some(Alignment::Right),
        3u8 => Some(Alignment::Both),
        4u8 => Some(Alignment::Distribute),
        5u8 => Some(Alignment::MediumKashida),
        7u8 => Some(Alignment::HighKashida),
        8u8 => Some(Alignment::LowKashida),
        9u8 => Some(Alignment::ThaiDistribute),
        _ => None,
    }
}

/// Paragraph alignment of a `jc` value.
pub fn alignment_from_u8(value: u8) -> (r: Option<Alignment>)
    ensures
        r == alignment_of(value),
{
    match value {
        0 => Some(Alignment::Left),
        1 => Some(Alignment::Center),
        2 => Some(Alignment::Right),
        3 => Some(Alignment::Both),
        4 => Some(Alignment::Distribute),
        5 => Some(Alignment::MediumKashida),
        7 => Some(Alignment::HighKashida),
        8 => Some(Alignment::LowKashida),
        9 => Some(Alignment::ThaiDistribute),
        _ => None,
    }
}

/// Effect of one Prl on section properties.
pub open spec fn section_step(s: SectionProperties, sprm: u16, op: Seq<u8>) -> SectionProperties {
    if sprm == 0x301D && op.len() >= 1 {
        SectionProperties { landscape: Some(op[0] == 2), ..s }
    } else if sprm == 0xB01F && op.len() >= 2 {
        SectionProperties { page_width: Some(u16_at(op, 0)), ..s }
    } else if sprm == 0xB020 && op.len() >= 2 {
        SectionProperties { page_height: Some(u16_at(op, 0)), ..s }
    } else if sprm == 0xB021 && op.len() >= 2 {
        SectionProperties { margin_left: Some(u16_at(op, 0)), ..s }
    } else if sprm == 0xB022 && op.len() >= 2 {
        SectionProperties { margin_right: Some(u16_at(op, 0)), ..s }
    } else if sprm == 0x9023 && op.len() >= 2 {
        SectionProperties { margin_top: Some(i16_at(op, 0)), ..s }
    } else if sprm == 0x9024 && op.len() >= 2 {
        SectionProperties { margin_bottom: Some(i16_at(op, 0)), ..s }
    } else if sprm == 0x3228 && op.len() >= 1 {
        SectionProperties { bidi: Some(op[0] != 0), ..s }
    } else if sprm == 0x322A && op.len() >= 1 {
        SectionProperties { rtl_gutter: Some(op[0] != 0), ..s }
    } else {
        s
    }
}

/// Section properties after the first `n` Prls.
pub open spec fn section_fold(g: Seq<u8>, ps: Seq<Prl>, n: int) -> SectionProperties
    decreases n,
{
    if n <= 0 {
        empty_section()
    } else {
        section_step(section_fold(g, ps, n - 1), ps[n - 1].sprm, operand(g, ps[n - 1]))
    }
}

/// The section properties a Sepx grpprl describes, or why it is truncated.
pub open spec fn section_model(g: Seq<u8>) -> Result<SectionProperties, Seq<char>> {
    match prls(g) {
        Err(m) => Err(m),
        Ok(ps) => Ok(section_fold(g, ps, ps.len() as int)),
    }
}

/// Decodes the section properties of a Sepx grpprl.
pub fn decode_section_properties(grpprl: &[u8]) -> (r: Result<SectionProperties, String>)
    ensures
        match r {
            Ok(p) => section_model(grpprl@) == Ok::<SectionProperties, Seq<char>>(p),
            Err(m) => section_model(grpprl@) == Err::<SectionProperties, Seq<char>>(m@),
        },
{
    let ps = parse_prls(grpprl)?;
    let mut properties = SectionProperties::default();
    let mut k: usize = 0;
    while k < ps.len()
        invariant
            k <= ps@.len(),
            prls(grpprl@) == Ok::<Seq<Prl>, Seq<char>>(ps@),
            prls_in_bounds(grpprl@, ps@),
            properties == section_fold(grpprl@, ps@, k as int),
        decreases ps@.len() - k,
    {
        let prl = ps[k];
        let op = slice_range(grpprl, prl.start, prl.end);
        let sprm = prl.sprm;
        if sprm == 0x301D && op.len() >= 1 {
            properties.landscape = Some(op[0] == 2);
        } else if sprm == 0xB01F && op.len() >= 2 {
            properties.page_width = Some(u16_from(op));
        } else if sprm == 0xB020 && op.len() >= 2 {
            properties.page_height = Some(u16_from(op));
        } else if sprm == 0xB021 && op.len() >= 2 {
            properties.margin_left = Some(u16_from(op));
        } else if sprm == 0xB022 && op.len() >= 2 {
            properties.margin_right = Some(u16_from(op));
        } else if sprm == 0x9023 && op.len() >= 2 {
            properties.margin_top = Some(i16_from(op));
        } else if sprm == 0x9024 && op.len() >= 2 {
            properties.margin_bottom = Some(i16_from(op));
        } else if sprm == 0x3228 && op.len() >= 1 {
            properties.bidi = Some(op[0] != 0);
        } else if sprm == 0x322A && op.len() >= 1 {
            properties.rtl_gutter = Some(op[0] != 0);
        }
        k = k + 1;
    }
    Ok(properties)
}

/// Working state while decoding a paragraph grpprl.
pub struct PapState {
    pub props: PropertiesModel,
    pub physical_left: Option<i16>,
    pub physical_right: Option<i16>,
    pub logical_start: Option<i16>,
    pub logical_end: Option<i16>,
    pub nest: i16,
    pub list_level: u8,
    pub list_instance: Option<u32>,
}

pub open spec fn pap_initial() -> PapState {
    PapState {
        props: plain_properties(),
        physical_left: None,
        physical_right: None,
        logical_start: None,
        logical_end: None,
        nest: 0,
        list_level: 0,
        list_instance: None,
    }
}

pub open spec fn with_props(s: PapState, p: PropertiesModel) -> PapState {
    PapState { props: p, ..s }
}

pub open spec fn with_table(s: PapState, t: TableParagraphProperties) -> PapState {
    PapState { props: PropertiesModel { table: t, ..s.props }, ..s }
}

pub open spec fn with_borders(s: PapState, b: BordersModel) -> PapState {
    PapState { props: PropertiesModel { borders: b, ..s.props }, ..s }
}

/// Clamps a table depth into `0..=255`.
pub open spec fn clamp_depth(v: int) -> u8 {
    if v < 0 {
        0
    } else if v > 255 {
        255
    } else {
        v as u8
    }
}

/// The sprms that set borders or shading.
pub open spec fn is_border_sprm(sprm: u16) -> bool {
    sprm == 0x6424 || sprm == 0x6425 || sprm == 0x6426 || sprm == 0x6427 || sprm == 0x6428
        || sprm == 0xC64D || sprm == 0xC64E || sprm == 0xC64F || sprm == 0xC650 || sprm
        == 0xC651 || sprm == 0xC652
}

/// Effect of a border or shading Prl.
pub open spec fn border_step(s: PapState, sprm: u16, op: Seq<u8>) -> PapState {
    let b = s.props.borders;
    if sprm == 0x6424 && op.len() >= 4 {
        with_borders(s, BordersModel { top: border80_model(op), ..b })
    } else if sprm == 0x6425 && op.len() >= 4 {
        with_borders(s, BordersModel { start: border80_model(op), ..b })
    } else if sprm == 0x6426 && op.len() >= 4 {
        with_borders(s, BordersModel { bottom: border80_model(op), ..b })
    } else if sprm == 0x6427 && op.len() >= 4 {
        with_borders(s, BordersModel { end: border80_model(op), ..b })
    } else if sprm == 0x6428 && op.len() >= 4 {
        with_borders(s, BordersModel { between: border80_model(op), ..b })
    } else if sprm == 0xC64D && op.len() >= 11 && op[0] == 10 {
        with_props(s, PropertiesModel { shading: shading_model(op.subrange(1, 11)), ..s.props })
    } else if sprm == 0xC64E && op.len() >= 9 && op[0] == 8 {
        with_borders(s, BordersModel { top: border_model(op.subrange(1, 9)), ..b })
    } else if sprm == 0xC64F && op.len() >= 9 && op[0] == 8 {
        with_borders(s, BordersModel { start: border_model(op.subrange(1, 9)), ..b })
    } else if sprm == 0xC650 && op.len() >= 9 && op[0] == 8 {
        with_borders(s, BordersModel { bottom: border_model(op.subrange(1, 9)), ..b })
    } else if sprm == 0xC651 && op.len() >= 9 && op[0] == 8 {
        with_borders(s, BordersModel { end: border_model(op.subrange(1, 9)), ..b })
    } else if sprm == 0xC652 && op.len() >= 9 && op[0] == 8 {
        with_borders(s, BordersModel { between: border_model(op.subrange(1, 9)), ..b })
    } else {
        s
    }
}

/// Effect of any other paragraph Prl; `depth` is the indirection depth of the grpprl.
pub open spec fn basic_step(s: PapState, sprm: u16, op: Seq<u8>, depth: int) -> PapState {
    let p = s.props;
    let t = p.table;
    if sprm == 0x260A && op.len() >= 1 {
        PapState { list_level: op[0], ..s }
    } else if sprm == 0x460B && op.len() >= 2 {
        let v = i16_at(op, 0);
        PapState {
            list_instance: if v != 0 && v != -2047 {
                Some(
                    (if v < 0 {
                        -v
                    } else {
                        v as int
                    }) as u32,
                )
            } else {
                None
            },
            ..s
        }
    } else if (sprm == 0x2403 || sprm == 0x2461) && op.len() >= 1 {
        with_props(s, PropertiesModel { alignment: alignment_of(op[0]), ..p })
    } else if sprm == 0x2441 && op.len() >= 1 {
        with_props(s, PropertiesModel { bidi: Some(op[0] != 0), ..p })
    } else if sprm == 0x2416 && op.len() >= 1 {
        with_table(s, TableParagraphProperties { in_table: op[0] != 0, ..t })
    } else if sprm == 0x2417 && op.len() >= 1 {
        with_table(s, TableParagraphProperties { row_end: op[0] != 0, ..t })
    } else if sprm == 0x6649 && op.len() >= 4 {
        let d = clamp_depth(u32_at(op, 0) as int);
        with_table(s, TableParagraphProperties { depth: d, in_table: d != 0, ..t })
    } else if sprm == 0x664A && op.len() >= 4 {
        let d = clamp_depth(t.depth + i32_at(op, 0));
        with_table(s, TableParagraphProperties { depth: d, in_table: d != 0, ..t })
    } else if (sprm == 0x560B || sprm == 0x5664) && op.len() >= 2 {
        let rtl = u16_at(op, 0) != 0;
        with_table(s, TableParagraphProperties { rtl, reverse_cells: rtl && depth == 0, ..t })
    } else if sprm == 0x840E && op.len() >= 2 {
        PapState { physical_right: Some(i16_at(op, 0)), ..s }
    } else if sprm == 0x840F && op.len() >= 2 {
        PapState { physical_left: Some(i16_at(op, 0)), ..s }
    } else if sprm == 0x845D && op.len() >= 2 {
        PapState { logical_end: Some(i16_at(op, 0)), ..s }
    } else if sprm == 0x845E && op.len() >= 2 {
        PapState { logical_start: Some(i16_at(op, 0)), ..s }
    } else if (sprm == 0x8411 || sprm == 0x8460) && op.len() >= 2 {
        with_props(s, PropertiesModel { indent_first_line: Some(i16_at(op, 0)), ..p })
    } else if (sprm == 0x4610 || sprm == 0x465F) && op.len() >= 2 {
        PapState { nest: i16_at(op, 0), ..s }
    } else if sprm == 0xA413 && op.len() >= 2 {
        with_props(s, PropertiesModel { space_before: Some(u16_at(op, 0)), ..p })
    } else if sprm == 0xA414 && op.len() >= 2 {
        with_props(s, PropertiesModel { space_after: Some(u16_at(op, 0)), ..p })
    } else {
        s
    }
}

/// Effect of one paragraph Prl.
pub open spec fn pap_step(s: PapState, sprm: u16, op: Seq<u8>, depth: int) -> PapState {
    if is_border_sprm(sprm) {
        border_step(s, sprm, op)
    } else {
        basic_step(s, sprm, op, depth)
    }
}

/// State after the first `n` Prls.
pub open spec fn pap_fold(g: Seq<u8>, ps: Seq<Prl>, depth: int, n: int) -> PapState
    decreases n,
{
    if n <= 0 {
        pap_initial()
    } else {
        pap_step(pap_fold(g, ps, depth, n - 1), ps[n - 1].sprm, operand(g, ps[n - 1]), depth)
    }
}

pub open spec fn or_else(a: Option<i16>, b: Option<i16>) -> Option<i16> {
    if a is Some {
        a
    } else {
        b
    }
}

/// `a + b` saturated to `i16`.
pub open spec fn sat_add_i16(a: i16, b: i16) -> i16 {
    if a + b > i16::MAX {
        i16::MAX
    } else if a + b < i16::MIN {
        i16::MIN
    } else {
        (a + b) as i16
    }
}

/// Resolves logical indents, nesting, the list reference and table depth.
pub open spec fn pap_finish(s: PapState) -> PropertiesModel {
    let p = s.props;
    let bidi = p.bidi == Some(true);
    let start0 = or_else(
        s.logical_start,
        if bidi {
            s.physical_right
        } else {
            s.physical_left
        },
    );
    let end = or_else(
        s.logical_end,
        if bidi {
            s.physical_left
        } else {
            s.physical_right
        },
    );
    let start = if s.nest != 0 {
        Some(
            sat_add_i16(
                match start0 {
                    Some(v) => v,
                    None => 0i16,
                },
                s.nest,
            ),
        )
    } else {
        start0
    };
    let numbering = if s.list_level <= 8 {
        match s.list_instance {
            Some(i) => Some(NumberingRef { instance: i, level: s.list_level }),
            None => None,
        }
    } else {
        p.numbering
    };
    let t = p.table;
    let table = if t.in_table && t.depth == 0 {
        TableParagraphProperties { depth: 1, ..t }
    } else {
        t
    };
    PropertiesModel { indent_start: start, indent_end: end, numbering, table, ..p }
}

/// The indirect PrcData offset named by the last sprmPHugePapx among the first `n` Prls.
pub open spec fn indirect_fold(g: Seq<u8>, ps: Seq<Prl>, n: int) -> Option<u32>
    decreases n,
{
    if n <= 0 {
        None
    } else {
        let p = ps[n - 1];
        let op = operand(g, p);
        if (p.sprm == 0x6646 || p.sprm == 0x646B) && op.len() >= 4 {
            Some(u32_at(op, 0))
        } else {
            indirect_fold(g, ps, n - 1)
        }
    }
}

/// The paragraph properties a PAPX grpprl describes (following indirections into the Data
/// stream at most eight levels deep), or why a grpprl or indirection is malformed.
pub open spec fn papx_model(g: Seq<u8>, data: Seq<u8>, depth: int) -> Result<
    PropertiesModel,
    Seq<char>,
>
    decreases 9 - depth,
{
    if depth > 8 || depth < 0 {
        Err("paragraph property indirection is too deep"@)
    } else {
        match prls(g) {
            Err(m) => Err(m),
            Ok(ps) => match indirect_fold(g, ps, ps.len() as int) {
                Some(off) => if !fits(data, off as int, 2) {
                    Err(truncated_text("PrcData.cbGrpprl"@))
                } else if off + 2 + u16_at(data, off as int) > data.len() {
                    Err("PrcData.grpprl is outside Data stream"@)
                } else {
                    papx_model(
                        data.subrange(off + 2, off + 2 + u16_at(data, off as int)),
                        data,
                        depth + 1,
                    )
                },
                None => Ok(pap_finish(pap_fold(g, ps, depth, ps.len() as int))),
            },
        }
    }
}

/// Exec counterpart of `PapState`.
struct PapAcc {
    properties: ParagraphProperties,
    physical_left: Option<i16>,
    physical_right: Option<i16>,
    logical_start: Option<i16>,
    logical_end: Option<i16>,
    nest: i16,
    list_level: u8,
    list_instance: Option<u32>,
}

impl PapAcc {
    spec fn model(&self) -> PapState {
        PapState {
            props: self.properties@,
            physical_left: self.physical_left,
            physical_right: self.physical_right,
            logical_start: self.logical_start,
            logical_end: self.logical_end,
            nest: self.nest,
            list_level: self.list_level,
            list_instance: self.list_instance,
        }
    }

    fn apply_border(&mut self, sprm: u16, op: &[u8])
        requires
            is_border_sprm(sprm),
        ensures
            final(self).model() == border_step(old(self).model(), sprm, op@),
    {
        if sprm == 0x6424 && op.len() >= 4 {
            self.properties.borders.top = decode_border80(op);
        } else if sprm == 0x6425 && op.len() >= 4 {
            self.properties.borders.start = decode_border80(op);
        } else if sprm == 0x6426 && op.len() >= 4 {
            self.properties.borders.bottom = decode_border80(op);
        } else if sprm == 0x6427 && op.len() >= 4 {
            self.properties.borders.end = decode_border80(op);
        } else if sprm == 0x6428 && op.len() >= 4 {
            self.properties.borders.between = decode_border80(op);
        } else if sprm == 0xC64D && op.len() >= 11 && op[0] == 10 {
            self.properties.shading = decode_shading(slice_range(op, 1, 11));
        } else if sprm == 0xC64E && op.len() >= 9 && op[0] == 8 {
            self.properties.borders.top = decode_border(slice_range(op, 1, 9));
        } else if sprm == 0xC64F && op.len() >= 9 && op[0] == 8 {
            self.properties.borders.start = decode_border(slice_range(op, 1, 9));
        } else if sprm == 0xC650 && op.len() >= 9 && op[0] == 8 {
            self.properties.borders.bottom = decode_border(slice_range(op, 1, 9));
        } else if sprm == 0xC651 && op.len() >= 9 && op[0] == 8 {
            self.properties.borders.end = decode_border(slice_range(op, 1, 9));
        } else if sprm == 0xC652 && op.len() >= 9 && op[0] == 8 {
            self.properties.borders.between = decode_border(slice_range(op, 1, 9));
        }
    }

    #[verifier::rlimit(30)]
    fn apply_basic(&mut self, sprm: u16, op: &[u8], depth: usize)
        ensures
            final(self).model() == basic_step(old(self).model(), sprm, op@, depth as int),
    {
        if sprm == 0x260A && op.len() >= 1 {
            self.list_level = op[0];
        } else if sprm == 0x460B && op.len() >= 2 {
            let value = i16_from(op);
            if value != 0 && value != -2047 {
                let magnitude: u32 = if value < 0 {
                    (-(value as i32)) as u32
                } else {
                    value as u32
                };
                self.list_instance = Some(magnitude);
            } else {
                self.list_instance = None;
            }
        } else if (sprm == 0x2403 || sprm == 0x2461) && op.len() >= 1 {
            self.properties.alignment = alignment_from_u8(op[0]);
        } else if sprm == 0x2441 && op.len() >= 1 {
            self.properties.bidi = Some(op[0] != 0);
        } else if sprm == 0x2416 && op.len() >= 1 {
            self.properties.table.in_table = op[0] != 0;
        } else if sprm == 0x2417 && op.len() >= 1 {
            self.properties.table.row_end = op[0] != 0;
        } else if sprm == 0x6649 && op.len() >= 4 {
            let v = u32_from(op);
            let d: u8 = if v > 255 {
                255
            } else {
                v as u8
            };
            self.properties.table.depth = d;
            self.properties.table.in_table = d != 0;
        } else if sprm == 0x664A && op.len() >= 4 {
            let delta = i32_from(op);
            let sum: i64 = self.properties.table.depth as i64 + delta as i64;
            let d: u8 = if sum < 0 {
                0
            } else if sum > 255 {
                255
            } else {
                sum as u8
            };
            self.properties.table.depth = d;
            self.properties.table.in_table = d != 0;
        } else if (sprm == 0x560B || sprm == 0x5664) && op.len() >= 2 {
            let rtl = u16_from(op) != 0;
            self.properties.table.rtl = rtl;
            self.properties.table.reverse_cells = rtl && depth == 0;
        } else if sprm == 0x840E && op.len() >= 2 {
            self.physical_right = Some(i16_from(op));
        } else if sprm == 0x840F && op.len() >= 2 {
            self.physical_left = Some(i16_from(op));
        } else if sprm == 0x845D && op.len() >= 2 {
            self.logical_end = Some(i16_from(op));
        } else if sprm == 0x845E && op.len() >= 2 {
            self.logical_start = Some(i16_from(op));
        } else if (sprm == 0x8411 || sprm == 0x8460) && op.len() >= 2 {
            self.properties.indent_first_line = Some(i16_from(op));
        } else if (sprm == 0x4610 || sprm == 0x465F) && op.len() >= 2 {
            self.nest = i16_from(op);
        } else if sprm == 0xA413 && op.len() >= 2 {
            self.properties.space_before = Some(u16_from(op));
        } else if sprm == 0xA414 && op.len() >= 2 {
            self.properties.space_after = Some(u16_from(op));
        }
    }

    fn finish(self) -> (r: ParagraphProperties)
        ensures
            r@ == pap_finish(self.model()),
    {
        let mut properties = self.properties;
        let bidi = match properties.bidi {
            Some(b) => b,
            None => false,
        };
        let fallback_start = if bidi {
            self.physical_right
        } else {
            self.physical_left
        };
        let fallback_end = if bidi {
            self.physical_left
        } else {
            self.physical_right
        };
        let start0 = if self.logical_start.is_some() {
            self.logical_start
        } else {
            fallback_start
        };
        properties.indent_end = if self.logical_end.is_some() {
            self.logical_end
        } else {
            fallback_end
        };
        properties.indent_start = if self.nest != 0 {
            let base: i16 = match start0 {
                Some(v) => v,
                None => 0,
            };
            let sum: i32 = base as i32 + self.nest as i32;
            let v: i16 = if sum > 32767 {
                32767
            } else if sum < -32768 {
                -32768
            } else {
                sum as i16
            };
            Some(v)
        } else {
            start0
        };
        if self.list_level <= 8 {
            properties.numbering = match self.list_instance {
                Some(instance) => Some(NumberingRef { instance, level: self.list_level }),
                None => None,
            };
        }
        if properties.table.in_table && properties.table.depth == 0 {
            properties.table.depth = 1;
        }
        properties
    }
}

/// The offset of the last indirection among the Prls.
fn find_indirect(grpprl: &[u8], ps: &Vec<Prl>) -> (r: Option<u32>)
    requires
        prls_in_bounds(grpprl@, ps@),
    ensures
        r == indirect_fold(grpprl@, ps@, ps@.len() as int),
{
    let mut indirect: Option<u32> = None;
    let mut k: usize = 0;
    while k < ps.len()
        invariant
            k <= ps@.len(),
            prls_in_bounds(grpprl@, ps@),
            indirect == indirect_fold(grpprl@, ps@, k as int),
        decreases ps@.len() - k,
    {
        let prl = ps[k];
        let op = slice_range(grpprl, prl.start, prl.end);
        if (prl.sprm == 0x6646 || prl.sprm == 0x646B) && op.len() >= 4 {
            indirect = Some(u32_from(op));
        }
        k = k + 1;
    }
    indirect
}

/// Decodes a paragraph grpprl reached at indirection depth `depth`; PPRL references into the
/// data stream are followed one level deeper.
pub fn decode_paragraph_properties_inner(grpprl: &[u8], data_stream: &[u8], depth: usize) -> (r: Result<
    ParagraphProperties,
    String,
>)
    ensures
        match r {
            Ok(p) => papx_model(grpprl@, data_stream@, depth as int) == Ok::<
                PropertiesModel,
                Seq<char>,
            >(p@),
            Err(m) => papx_model(grpprl@, data_stream@, depth as int) == Err::<
                PropertiesModel,
                Seq<char>,
            >(m@),
        },
    decreases 9 - (if depth < 9 {
        depth as int
    } else {
        9
    }),
{
    if depth > 8 {
        return Err(owned("paragraph property indirection is too deep"));
    }
    let ps = parse_prls(grpprl)?;
    if let Some(offset) = find_indirect(grpprl, &ps) {
        let off = offset as usize;
        let length = match le_u16(data_stream, off) {
            Some(v) => v as usize,
            None => {
                return Err(truncated_message("PrcData.cbGrpprl"));
            },
        };
        if data_stream.len() - off - 2 < length {
            return Err(owned("PrcData.grpprl is outside Data stream"));
        }
        let referenced = slice_range(data_stream, off + 2, off + 2 + length);
        return decode_paragraph_properties_inner(referenced, data_stream, depth + 1);
    }
    let mut acc = PapAcc {
        properties: ParagraphProperties::default(),
        physical_left: None,
        physical_right: None,
        logical_start: None,
        logical_end: None,
        nest: 0,
        list_level: 0,
        list_instance: None,
    };
    let mut k: usize = 0;
    while k < ps.len()
        invariant
            k <= ps@.len(),
            prls(grpprl@) == Ok::<Seq<Prl>, Seq<char>>(ps@),
            prls_in_bounds(grpprl@, ps@),
            depth <= 8,
            acc.model() == pap_fold(grpprl@, ps@, depth as int, k as int),
        decreases ps@.len() - k,
    {
        let prl = ps[k];
        let op = slice_range(grpprl, prl.start, prl.end);
        if prl.sprm == 0x6424 || prl.sprm == 0x6425 || prl.sprm == 0x6426 || prl.sprm == 0x6427
            || prl.sprm == 0x6428 || prl.sprm == 0xC64D || prl.sprm == 0xC64E || prl.sprm == 0xC64F
            || prl.sprm == 0xC650 || prl.sprm == 0xC651 || prl.sprm == 0xC652 {
            acc.apply_border(prl.sprm, op);
        } else {
            acc.apply_basic(prl.sprm, op, depth);
        }
        k = k + 1;
    }
    Ok(acc.finish())
}

/// Decodes the paragraph properties of a PAPX grpprl.
pub fn decode_paragraph_properties(grpprl: &[u8], data_stream: &[u8]) -> (r: Result<
    ParagraphProperties,
    String,
>)
    ensures
        match r {
            Ok(p) => papx_model(grpprl@, data_stream@, 0) == Ok::<PropertiesModel, Seq<char>>(p@),
            Err(m) => papx_model(grpprl@, data_stream@, 0) == Err::<PropertiesModel, Seq<char>>(
                m@,
            ),
        },
{
    decode_paragraph_properties_inner(grpprl, data_stream, 0)
}

} // verus!
