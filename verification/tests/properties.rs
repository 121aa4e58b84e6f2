use docxthedocs::ir::{Alignment, NumberingRef, NumberingSuffix, SectionProperties};
use docxthedocs::numbering::parse_numbering_level;
use docxthedocs::props::{decode_paragraph_properties, decode_section_properties};

#[test]
fn rtl_paragraph_indents_resolve_to_logical_sides() {
    // sprmPFBiDi = 1, sprmPJc80 = 2 (right), sprmPDxaRight80 = 720, sprmPDxaLeft80 = 360,
    // sprmPDxaLeft180 = -200, list level 1 of list 3.
    let grpprl = [
        0x41, 0x24, 0x01, //
        0x03, 0x24, 0x02, //
        0x0E, 0x84, 0xD0, 0x02, //
        0x0F, 0x84, 0x68, 0x01, //
        0x11, 0x84, 0x38, 0xFF, //
        0x0A, 0x26, 0x01, //
        0x0B, 0x46, 0x03, 0x00,
    ];
    let p = decode_paragraph_properties(&grpprl, &[]).unwrap();
    assert_eq!(p.bidi, Some(true));
    assert_eq!(p.alignment, Some(Alignment::Right));
    assert_eq!(p.indent_start, Some(720));
    assert_eq!(p.indent_end, Some(360));
    assert_eq!(p.indent_first_line, Some(-200));
    assert_eq!(p.numbering, Some(NumberingRef { instance: 3, level: 1 }));
}

#[test]
fn ltr_paragraph_indents_keep_physical_sides() {
    let grpprl = [0x0E, 0x84, 0xD0, 0x02, 0x0F, 0x84, 0x68, 0x01];
    let p = decode_paragraph_properties(&grpprl, &[]).unwrap();
    assert_eq!(p.bidi, None);
    assert_eq!(p.indent_start, Some(360));
    assert_eq!(p.indent_end, Some(720));
}

#[test]
fn huge_papx_indirection_reads_the_data_stream() {
    // sprmPHugePapx pointing at offset 2 of the Data stream, whose grpprl sets bidi.
    let grpprl = [0x46, 0x66, 0x02, 0x00, 0x00, 0x00];
    let data = [0xFF, 0xFF, 0x03, 0x00, 0x41, 0x24, 0x01];
    let p = decode_paragraph_properties(&grpprl, &data).unwrap();
    assert_eq!(p.bidi, Some(true));
    let outside = [0x46, 0x66, 0x05, 0x00, 0x00, 0x00];
    assert_eq!(
        decode_paragraph_properties(&outside, &data).unwrap_err(),
        "PrcData.grpprl is outside Data stream"
    );
    let loop_to_self = [0x46, 0x66, 0x00, 0x00, 0x00, 0x00];
    let self_data = [0x06, 0x00, 0x46, 0x66, 0x00, 0x00, 0x00, 0x00];
    assert_eq!(
        decode_paragraph_properties(&loop_to_self, &self_data).unwrap_err(),
        "paragraph property indirection is too deep"
    );
}

#[test]
fn section_properties_decode_layout_and_direction() {
    let grpprl = [
        0x1D, 0x30, 0x02, //
        0x1F, 0xB0, 0xE0, 0x2E, //
        0x20, 0xB0, 0x40, 0x3D, //
        0x23, 0x90, 0x9C, 0xFF, //
        0x28, 0x32, 0x01, //
        0x2A, 0x32, 0x01,
    ];
    let s = decode_section_properties(&grpprl).unwrap();
    assert_eq!(
        s,
        SectionProperties {
            page_width: Some(12000),
            page_height: Some(15680),
            margin_top: Some(-100),
            margin_bottom: None,
            margin_left: None,
            margin_right: None,
            landscape: Some(true),
            bidi: Some(true),
            rtl_gutter: Some(true),
        }
    );
}

fn lvl(nfc: u8, placeholders: [u8; 9], units: &[u16]) -> Vec<u8> {
    let mut t = vec![0_u8; 28];
    t[0..4].copy_from_slice(&1_i32.to_le_bytes());
    t[4] = nfc;
    t[5] = 2;
    t[6..15].copy_from_slice(&placeholders);
    t[15] = 1;
    t.extend_from_slice(&(units.len() as u16).to_le_bytes());
    for u in units {
        t.extend_from_slice(&u.to_le_bytes());
    }
    t
}

#[test]
fn numbering_level_label_and_format() {
    let bytes = lvl(0x2D, [2, 0, 0, 0, 0, 0, 0, 0, 0], &[0x0028, 0x0000, 0x0029]);
    let (level, next) = parse_numbering_level(&bytes, 0, 0).unwrap();
    assert_eq!(next, bytes.len());
    assert_eq!(level.format, "hebrew1");
    assert_eq!(level.text, "(%1)");
    assert_eq!(level.alignment, Alignment::Right);
    assert_eq!(level.suffix, NumberingSuffix::Space);
    assert_eq!(level.start, 1);
    assert_eq!(
        parse_numbering_level(&bytes[..20], 0, 0).unwrap_err(),
        "LVLF is truncated"
    );
    assert_eq!(
        parse_numbering_level(&bytes[..bytes.len() - 1], 0, 0).unwrap_err(),
        "LVL.xst is truncated"
    );
}
