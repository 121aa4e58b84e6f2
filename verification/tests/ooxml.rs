use docxthedocs::ir::{
    Alignment, Document, Inline, Paragraph, ParagraphBorders, ParagraphProperties,
    SectionProperties, TableParagraphProperties,
};
use docxthedocs::ooxml::document_xml;

#[test]
fn escapes_text_and_preserves_whitespace() {
    let document = Document {
        paragraphs: vec![Paragraph {
            properties: ParagraphProperties::default(),
            children: vec![Inline::Text(" א<&ב ".to_owned())],
        }],
        section: SectionProperties::default(),
        numbering: Vec::new(),
    };
    let xml = String::from_utf8(document_xml(&document).unwrap()).unwrap();
    assert!(xml.contains("xml:space=\"preserve\""));
    assert!(xml.contains(" א&lt;&amp;ב "));
}

#[test]
fn writes_rtl_alignment_indents_and_page_margins() {
    let document = Document {
        paragraphs: vec![Paragraph {
            properties: ParagraphProperties {
                bidi: Some(true),
                alignment: Some(Alignment::Right),
                indent_start: Some(720),
                indent_end: Some(360),
                indent_first_line: Some(-240),
                space_before: Some(120),
                space_after: Some(80),
                numbering: None,
                borders: ParagraphBorders::default(),
                shading: None,
                table: TableParagraphProperties::default(),
            },
            children: vec![Inline::Text("עברית".to_owned())],
        }],
        section: SectionProperties {
            page_width: Some(16_839),
            page_height: Some(11_907),
            margin_top: Some(1_440),
            margin_bottom: Some(1_440),
            margin_left: Some(1_800),
            margin_right: Some(1_800),
            landscape: Some(true),
            bidi: Some(true),
            rtl_gutter: Some(true),
        },
        numbering: Vec::new(),
    };
    let xml = String::from_utf8(document_xml(&document).unwrap()).unwrap();
    assert!(xml.contains("<w:bidi/>") && xml.contains("w:val=\"right\""));
    assert!(xml.contains("w:start=\"720\"") && xml.contains("w:hanging=\"240\""));
    assert!(xml.contains("<w:pgSz w:w=\"16839\" w:h=\"11907\" w:orient=\"landscape\"/>"));
    assert!(xml.contains(
        "<w:pgMar w:top=\"1440\" w:bottom=\"1440\" w:left=\"1800\" w:right=\"1800\"/>"
    ));
    assert!(xml.contains("<w:rtlGutter/>"));
}
