use docxthedocs::document::parse_document;
use docxthedocs::fib::parse_fib;
use docxthedocs::ooxml::docx_parts;
use docxthedocs::validation::{check_entries, validate_xml_part};

fn synthetic_streams(text: &str) -> (Vec<u8>, Vec<u8>) {
    let encoded: Vec<u16> = text.encode_utf16().collect();
    let text_offset = 1024_usize;
    let mut word = vec![0_u8; text_offset + encoded.len() * 2];
    word[0..2].copy_from_slice(&0xA5EC_u16.to_le_bytes());
    word[2..4].copy_from_slice(&0x00C1_u16.to_le_bytes());
    word[10..12].copy_from_slice(&(0x1000_u16 | 0x0200_u16).to_le_bytes());
    word[32..34].copy_from_slice(&0x000E_u16.to_le_bytes());
    word[62..64].copy_from_slice(&0x0016_u16.to_le_bytes());
    let word_len = word.len() as u32;
    word[64..68].copy_from_slice(&word_len.to_le_bytes());
    word[76..80].copy_from_slice(&(encoded.len() as u32).to_le_bytes());
    word[152..154].copy_from_slice(&0x005D_u16.to_le_bytes());
    word[418..422].copy_from_slice(&0_u32.to_le_bytes());
    word[422..426].copy_from_slice(&21_u32.to_le_bytes());
    for (index, unit) in encoded.iter().enumerate() {
        let offset = text_offset + index * 2;
        word[offset..offset + 2].copy_from_slice(&unit.to_le_bytes());
    }
    let mut table = Vec::new();
    table.push(0x02);
    table.extend_from_slice(&16_u32.to_le_bytes());
    table.extend_from_slice(&0_i32.to_le_bytes());
    table.extend_from_slice(&(encoded.len() as i32).to_le_bytes());
    table.extend_from_slice(&0_u16.to_le_bytes());
    table.extend_from_slice(&(text_offset as u32).to_le_bytes());
    table.extend_from_slice(&0_u16.to_le_bytes());
    (word, table)
}

fn package_of(word: &[u8], table: &[u8]) -> Vec<(String, Vec<u8>)> {
    let fib = parse_fib(word).unwrap();
    let parsed = parse_document(word, table, &[], fib).unwrap();
    docx_parts(&parsed.document).unwrap()
}

#[test]
fn hebrew_document_converts_to_the_same_valid_package_twice() {
    let (word, table) = synthetic_streams("שלום עולם 123 ABC\rSecond line\r");
    let first = package_of(&word, &table);
    let second = package_of(&word, &table);
    assert_eq!(first, second);

    let sizes: Vec<(String, u64)> = first
        .iter()
        .map(|(name, bytes)| (name.clone(), bytes.len() as u64))
        .collect();
    assert_eq!(check_entries(&sizes), Ok(()));

    let document = &first
        .iter()
        .find(|(name, _)| name == "word/document.xml")
        .unwrap()
        .1;
    assert_eq!(validate_xml_part(document, "word/document.xml", "w:document"), Ok(()));
    let xml = String::from_utf8(document.clone()).unwrap();
    assert!(xml.contains("שלום עולם 123 ABC"));
    assert!(xml.contains("Second line"));
    assert!(xml.contains("<w:bidi"));
}
