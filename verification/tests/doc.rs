use docxthedocs::fib::{parse_fib, DocError};
use docxthedocs::document::parse_document;
use docxthedocs::ir::Inline;
use docxthedocs::paragraphs::text_to_ir;
use docxthedocs::tags::TagSet;
use docxthedocs::textbox::TextboxPlacements;

fn synthetic_doc(text: &[u8]) -> (Vec<u8>, Vec<u8>) {
    let text_offset = 1024_usize;
    let mut word = vec![0_u8; text_offset + text.len()];
    word[0..2].copy_from_slice(&0xA5EC_u16.to_le_bytes());
    word[2..4].copy_from_slice(&0x00C1_u16.to_le_bytes());
    word[10..12].copy_from_slice(&(0x1000_u16 | 0x0200_u16).to_le_bytes());
    word[32..34].copy_from_slice(&0x000E_u16.to_le_bytes());
    word[62..64].copy_from_slice(&0x0016_u16.to_le_bytes());
    let word_len = word.len() as u32;
    word[64..68].copy_from_slice(&word_len.to_le_bytes());
    word[76..80].copy_from_slice(&(text.len() as u32).to_le_bytes());
    word[152..154].copy_from_slice(&0x005D_u16.to_le_bytes());
    word[418..422].copy_from_slice(&0_u32.to_le_bytes());
    word[422..426].copy_from_slice(&21_u32.to_le_bytes());
    word[text_offset..].copy_from_slice(text);

    let mut table = Vec::new();
    table.push(0x02);
    table.extend_from_slice(&16_u32.to_le_bytes());
    table.extend_from_slice(&0_i32.to_le_bytes());
    table.extend_from_slice(&(text.len() as i32).to_le_bytes());
    table.extend_from_slice(&0_u16.to_le_bytes());
    let encoded_fc = ((text_offset as u32) * 2) | 0x4000_0000;
    table.extend_from_slice(&encoded_fc.to_le_bytes());
    table.extend_from_slice(&0_u16.to_le_bytes());
    (word, table)
}

#[test]
fn parses_compressed_piece_table_into_paragraphs() {
    let (word, table) = synthetic_doc(b"first\rsecond\r");
    let fib = parse_fib(&word).unwrap();
    assert_eq!(fib.table_stream, "1Table");
    let parsed = parse_document(&word, &table, &[], fib).unwrap();
    assert_eq!(parsed.piece_count, 1);
    assert_eq!(parsed.document.paragraphs.len(), 2);
    assert_eq!(
        parsed.document.paragraphs[0].children,
        vec![Inline::Text("first".to_owned())]
    );
    assert_eq!(
        parsed.document.paragraphs[1].children,
        vec![Inline::Text("second".to_owned())]
    );
}

#[test]
fn rejects_encrypted_documents() {
    let (mut word, _) = synthetic_doc(b"x\r");
    let flags = u16::from_le_bytes([word[10], word[11]]) | (1 << 8);
    word[10..12].copy_from_slice(&flags.to_le_bytes());
    assert_eq!(parse_fib(&word), Err(DocError::Encrypted));
}

#[test]
fn preserves_field_result_but_not_instruction() {
    let mut features = TagSet::new();
    let mut unsupported = TagSet::new();
    let mut warnings = Vec::new();
    let chars: Vec<char> = "before \u{13}PAGE\u{14}4\u{15} after\r".chars().collect();
    let symbols = vec![None; chars.len()];
    let (doc, _) = text_to_ir(
        &chars,
        &symbols,
        &TextboxPlacements::default(),
        &mut features,
        &mut unsupported,
        &mut warnings,
    );
    assert_eq!(
        doc.paragraphs[0].children,
        vec![Inline::Text("before 4 after".to_owned())]
    );
    assert!(unsupported.contains("fields"));
}
