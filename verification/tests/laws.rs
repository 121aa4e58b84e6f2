use docxthedocs::ir::{
    Alignment, Document, Inline, NumberingDefinition, NumberingLevel, NumberingRef, NumberingSuffix,
    Paragraph, ParagraphProperties, SectionProperties, TableParagraphProperties,
};
use docxthedocs::ooxml::{docx_parts, document_xml};
use docxthedocs::paragraphs::{infer_rtl_paragraphs, text_to_ir};
use docxthedocs::tags::TagSet;
use docxthedocs::textbox::TextboxPlacements;
use docxthedocs::validation::check_entries;

fn text_paragraph(text: &str) -> Paragraph {
    Paragraph {
        properties: ParagraphProperties::default(),
        children: vec![Inline::Text(text.to_owned())],
    }
}

fn document_of(paragraphs: Vec<Paragraph>) -> Document {
    Document { paragraphs, section: SectionProperties::default(), numbering: Vec::new() }
}

#[test]
fn text_is_kept_by_paragraph_in_logical_order() {
    let mut features = TagSet::new();
    let mut unsupported = TagSet::new();
    let mut warnings = Vec::new();
    let chars: Vec<char> = "שלום עולם 123 ABC\rSecond line\rtail".chars().collect();
    let symbols = vec![None; chars.len()];
    let (doc, cps) = text_to_ir(
        &chars,
        &symbols,
        &TextboxPlacements::default(),
        &mut features,
        &mut unsupported,
        &mut warnings,
    );
    assert_eq!(doc.paragraphs.len(), 3);
    assert_eq!(doc.paragraphs[0].children, vec![Inline::Text("שלום עולם 123 ABC".to_owned())]);
    assert_eq!(doc.paragraphs[1].children, vec![Inline::Text("Second line".to_owned())]);
    assert_eq!(doc.paragraphs[2].children, vec![Inline::Text("tail".to_owned())]);
    assert_eq!(cps, vec![17, 29, 33]);
    assert!(warnings.is_empty());
    assert!(unsupported.is_empty());
}

#[test]
fn direction_is_inferred_only_without_explicit_bidi() {
    let mut explicit = text_paragraph("שלום");
    explicit.properties.bidi = Some(false);
    let mut document = document_of(vec![text_paragraph("שלום עולם x"), explicit, text_paragraph("hello")]);
    let inferred = infer_rtl_paragraphs(&mut document);
    assert_eq!(inferred, 1);
    assert_eq!(document.paragraphs[0].properties.bidi, Some(true));
    assert_eq!(document.paragraphs[0].children, vec![Inline::Text("שלום עולם x".to_owned())]);
    assert_eq!(document.paragraphs[1].properties.bidi, Some(false));
    assert_eq!(document.paragraphs[2].properties.bidi, None);
}

#[test]
fn rtl_paragraph_is_written_with_bidi() {
    let mut p = text_paragraph("שלום");
    p.properties.bidi = Some(true);
    let xml = String::from_utf8(document_xml(&document_of(vec![p])).unwrap()).unwrap();
    assert!(xml.contains("<w:p><w:pPr><w:bidi/></w:pPr><w:r><w:t>שלום</w:t></w:r></w:p>"));
}

#[test]
fn numbered_paragraph_names_its_list_instance_and_level() {
    let mut p = text_paragraph("item");
    p.properties.numbering = Some(NumberingRef { instance: 3, level: 1 });
    let xml = String::from_utf8(document_xml(&document_of(vec![p])).unwrap()).unwrap();
    assert!(xml.contains(
        "<w:p><w:pPr><w:numPr><w:ilvl w:val=\"1\"/><w:numId w:val=\"3\"/></w:numPr></w:pPr>"
    ));
}

fn table_paragraph(text: &str, cell_end: bool, row_end: bool, rtl: bool, reverse: bool) -> Paragraph {
    let mut p = text_paragraph(text);
    p.properties.table = TableParagraphProperties {
        in_table: true,
        depth: 1,
        cell_end,
        row_end,
        rtl,
        reverse_cells: reverse,
    };
    p
}

#[test]
fn rtl_table_asks_for_visual_order_and_keeps_cells() {
    let document = document_of(vec![
        table_paragraph("a", true, false, true, false),
        table_paragraph("b", true, false, true, false),
        table_paragraph("", false, true, true, false),
    ]);
    let xml = String::from_utf8(document_xml(&document).unwrap()).unwrap();
    assert!(xml.contains("<w:tbl><w:tblPr><w:bidiVisual/></w:tblPr><w:tblGrid/><w:tr><w:tc>"));
    let a = xml.find("<w:t>a</w:t>").unwrap();
    let b = xml.find("<w:t>b</w:t>").unwrap();
    assert!(a < b);
    assert_eq!(xml.matches("<w:tc>").count(), 3);
}

#[test]
fn reversed_row_writes_cells_in_reverse() {
    let document = document_of(vec![
        table_paragraph("a", true, false, false, true),
        table_paragraph("b", true, false, false, true),
        table_paragraph("", false, true, false, true),
    ]);
    let xml = String::from_utf8(document_xml(&document).unwrap()).unwrap();
    assert!(!xml.contains("w:bidiVisual"));
    let a = xml.find("<w:t>a</w:t>").unwrap();
    let b = xml.find("<w:t>b</w:t>").unwrap();
    assert!(b < a);
}

fn bullet_level() -> NumberingLevel {
    NumberingLevel {
        level: 0,
        start: 1,
        format: "bullet".to_owned(),
        text: "\u{2022}".to_owned(),
        alignment: Alignment::Left,
        suffix: NumberingSuffix::Tab,
        paragraph: ParagraphProperties::default(),
    }
}

#[test]
fn numbering_part_exists_exactly_with_numbering() {
    let plain = document_of(vec![text_paragraph("x")]);
    let parts = docx_parts(&plain).unwrap();
    let names: Vec<&str> = parts.iter().map(|(n, _)| n.as_str()).collect();
    assert_eq!(
        names,
        vec![
            "[Content_Types].xml",
            "_rels/.rels",
            "word/document.xml",
            "word/styles.xml",
            "word/_rels/document.xml.rels"
        ]
    );
    let mut numbered = document_of(vec![text_paragraph("x")]);
    numbered.numbering.push(NumberingDefinition {
        instance: 1,
        levels: vec![bullet_level()],
        overrides: Vec::new(),
    });
    let parts = docx_parts(&numbered).unwrap();
    assert_eq!(parts.len(), 6);
    assert_eq!(parts[4].0, "word/numbering.xml");
    let xml = String::from_utf8(parts[4].1.clone()).unwrap();
    assert!(xml.contains("<w:abstractNum w:abstractNumId=\"1\"><w:multiLevelType w:val=\"hybridMultilevel\"/><w:lvl w:ilvl=\"0\"><w:start w:val=\"1\"/><w:numFmt w:val=\"bullet\"/>"));
    assert!(xml.contains("<w:num w:numId=\"1\"><w:abstractNumId w:val=\"1\"/></w:num>"));
    let types = String::from_utf8(parts[0].1.clone()).unwrap();
    assert!(types.contains("/word/numbering.xml"));
}

#[test]
fn text_without_markup_is_written_verbatim() {
    let xml = String::from_utf8(document_xml(&document_of(vec![text_paragraph("אבג def")])).unwrap()).unwrap();
    assert!(xml.contains("<w:t>אבג def</w:t>"));
}

#[test]
fn same_document_gives_same_package() {
    let document = document_of(vec![text_paragraph("one"), text_paragraph("two")]);
    assert_eq!(docx_parts(&document).unwrap(), docx_parts(&document).unwrap());
}

#[test]
fn written_package_passes_entry_checks() {
    let document = document_of(vec![text_paragraph("one")]);
    let parts = docx_parts(&document).unwrap();
    let entries: Vec<(String, u64)> = parts.iter().map(|(n, b)| (n.clone(), b.len() as u64)).collect();
    assert_eq!(check_entries(&entries), Ok(()));
}

#[test]
fn direction_inference_is_idempotent() {
    let mut document = document_of(vec![text_paragraph("שלום עולם"), text_paragraph("hello")]);
    assert_eq!(infer_rtl_paragraphs(&mut document), 1);
    let after_first = document.clone();
    assert_eq!(infer_rtl_paragraphs(&mut document), 0);
    assert_eq!(document, after_first);
}

#[test]
fn empty_text_is_one_paragraph_ending_at_zero() {
    let mut features = TagSet::new();
    let mut unsupported = TagSet::new();
    let mut warnings = Vec::new();
    let (doc, cps) = text_to_ir(
        &[],
        &[],
        &TextboxPlacements::default(),
        &mut features,
        &mut unsupported,
        &mut warnings,
    );
    assert_eq!(doc.paragraphs.len(), 1);
    assert!(doc.paragraphs[0].children.is_empty());
    assert_eq!(cps, vec![0]);
}

#[test]
fn runs_are_split_only_by_other_inlines() {
    let mut features = TagSet::new();
    let mut unsupported = TagSet::new();
    let mut warnings = Vec::new();
    let chars: Vec<char> = "a\tb\u{13}x\u{14}c\u{15}d\r".chars().collect();
    let symbols = vec![None; chars.len()];
    let (doc, cps) = text_to_ir(
        &chars,
        &symbols,
        &TextboxPlacements::default(),
        &mut features,
        &mut unsupported,
        &mut warnings,
    );
    assert_eq!(cps, vec![9]);
    assert_eq!(
        doc.paragraphs[0].children,
        vec![Inline::Text("a".to_owned()), Inline::Tab, Inline::Text("bcd".to_owned())]
    );
}
