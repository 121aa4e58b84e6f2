use docxthedocs::clx::Piece;
use docxthedocs::document::parse_document;
use docxthedocs::fib::{parse_fib, DocError, Fib};
use docxthedocs::ir::{Inline, StoryCounts};
use docxthedocs::story::{decode_ansi_byte, reconstruct_main_text, reconstruct_text_range};
use docxthedocs::sprm::parse_prls;
use docxthedocs::textbox::parse_textboxes;

fn word_header(main: u32, flags: u16, len: usize) -> Vec<u8> {
    let mut word = vec![0_u8; len];
    word[0..2].copy_from_slice(&0xA5EC_u16.to_le_bytes());
    word[2..4].copy_from_slice(&0x00C1_u16.to_le_bytes());
    word[10..12].copy_from_slice(&flags.to_le_bytes());
    word[32..34].copy_from_slice(&0x000E_u16.to_le_bytes());
    word[62..64].copy_from_slice(&0x0016_u16.to_le_bytes());
    let word_len = word.len() as u32;
    word[64..68].copy_from_slice(&word_len.to_le_bytes());
    word[76..80].copy_from_slice(&main.to_le_bytes());
    word[152..154].copy_from_slice(&0x005D_u16.to_le_bytes());
    word[418..422].copy_from_slice(&0_u32.to_le_bytes());
    word[422..426].copy_from_slice(&21_u32.to_le_bytes());
    word
}

fn clx_table(cps: u32, raw_fc: u32) -> Vec<u8> {
    let mut table = Vec::new();
    table.push(0x02);
    table.extend_from_slice(&16_u32.to_le_bytes());
    table.extend_from_slice(&0_i32.to_le_bytes());
    table.extend_from_slice(&(cps as i32).to_le_bytes());
    table.extend_from_slice(&0_u16.to_le_bytes());
    table.extend_from_slice(&raw_fc.to_le_bytes());
    table.extend_from_slice(&0_u16.to_le_bytes());
    table
}

fn utf16_doc(text: &str) -> (Vec<u8>, Vec<u8>) {
    let units: Vec<u16> = text.encode_utf16().collect();
    let mut word = word_header(units.len() as u32, 0x1000 | 0x0200, 1024 + units.len() * 2);
    for (i, u) in units.iter().enumerate() {
        word[1024 + 2 * i..1026 + 2 * i].copy_from_slice(&u.to_le_bytes());
    }
    (word, clx_table(units.len() as u32, 1024))
}

#[test]
fn unicode_pieces_keep_hebrew_text() {
    let (word, table) = utf16_doc("שלום עולם\rabc\r");
    let fib = parse_fib(&word).unwrap();
    let parsed = parse_document(&word, &table, &[], fib).unwrap();
    assert_eq!(parsed.document.paragraphs.len(), 2);
    assert_eq!(parsed.document.paragraphs[0].children, vec![Inline::Text("שלום עולם".to_owned())]);
    assert_eq!(parsed.document.paragraphs[0].properties.bidi, Some(true));
    assert!(parsed.features_seen.contains("rtl-inferred-from-text"));
    assert!(parsed.unsupported.contains("styles:not-resolved"));
    assert!(parsed.features_seen.contains("main-text"));
    assert_eq!(
        parsed.warnings[0],
        "style-inherited formatting is not resolved; direct paragraph and section properties are preserved"
    );
    assert_eq!(
        parsed.warnings[1],
        "inferred RTL direction for 1 Hebrew/Arabic paragraphs without a direct bidi property"
    );
}

#[test]
fn pictures_flag_is_reported_unsupported() {
    let text = b"x\r";
    let mut word = word_header(2, 0x1000 | 0x0200 | 0x0008, 1024 + text.len());
    word[1024..].copy_from_slice(text);
    let table = clx_table(2, (1024 * 2) | 0x4000_0000);
    let fib = parse_fib(&word).unwrap();
    assert!(fib.f_has_pic);
    let parsed = parse_document(&word, &table, &[], fib).unwrap();
    assert!(parsed.features_seen.contains("pictures"));
    assert!(parsed.unsupported.contains("pictures"));
}

#[test]
fn truncated_fib_is_refused() {
    assert_eq!(
        parse_fib(&[0_u8; 10]),
        Err(DocError::TruncatedFib { field: "FibBase" })
    );
}

#[test]
fn wrong_signature_is_refused() {
    let mut word = word_header(1, 0x0200, 1100);
    word[0] = 0;
    match parse_fib(&word) {
        Err(e) => {
            assert_eq!(e, DocError::InvalidSignature(0xA500));
            assert_eq!(e.message(), "invalid Word binary signature 0xA500; expected 0xA5EC");
        }
        Ok(_) => panic!("accepted a wrong signature"),
    }
}

#[test]
fn old_nfib_is_refused() {
    let mut word = word_header(1, 0x0200, 1100);
    word[2..4].copy_from_slice(&0x0065_u16.to_le_bytes());
    assert_eq!(
        parse_fib(&word),
        Err(DocError::InvalidFibField { field: "nFib", value: 0x65 })
    );
}

#[test]
fn clx_outside_table_is_refused() {
    let (word, table) = utf16_doc("ab\r");
    let mut fib = parse_fib(&word).unwrap();
    fib.fc_clx = 1000;
    match parse_document(&word, &table, &[], fib) {
        Err(e) => assert_eq!(e, DocError::ClxOutOfBounds { table: "1Table" }),
        Ok(_) => panic!("accepted a CLX outside the table stream"),
    }
}

#[test]
fn missing_pcdt_marker_is_malformed() {
    let (word, mut table) = utf16_doc("ab\r");
    table[0] = 0x07;
    let fib = parse_fib(&word).unwrap();
    match parse_document(&word, &table, &[], fib) {
        Err(e) => {
            assert_eq!(e, DocError::MalformedClx("missing Pcdt marker 0x02".to_owned()));
            assert_eq!(e.message(), "CLX is malformed: missing Pcdt marker 0x02");
        }
        Ok(o) => panic!("unexpected piece table of {} pieces", o.piece_count),
    }
}

fn clx_error(word: &[u8], table: &[u8]) -> DocError {
    let fib = parse_fib(word).unwrap();
    match parse_document(word, table, &[], fib) {
        Err(e) => e,
        Ok(o) => panic!("unexpected piece table of {} pieces", o.piece_count),
    }
}

#[test]
fn malformed_clx_messages_name_the_fault() {
    let (word, table) = utf16_doc("ab\r");
    let mut bad_len = table.clone();
    bad_len[1..5].copy_from_slice(&15_u32.to_le_bytes());
    assert_eq!(
        clx_error(&word, &bad_len),
        DocError::MalformedClx("PlcPcd length 15 does not encode whole Pcd records".to_owned())
    );
    let mut negative = table.clone();
    negative[5..9].copy_from_slice(&(-1_i32).to_le_bytes());
    assert_eq!(
        clx_error(&word, &negative),
        DocError::MalformedClx("negative CP at index 0".to_owned())
    );
    let mut flat = table.clone();
    flat[9..13].copy_from_slice(&0_i32.to_le_bytes());
    assert_eq!(
        clx_error(&word, &flat),
        DocError::MalformedClx("CP array is not strictly increasing at index 1".to_owned())
    );
    let mut short_last = table.clone();
    short_last[9..13].copy_from_slice(&2_i32.to_le_bytes());
    assert_eq!(
        clx_error(&word, &short_last),
        DocError::MalformedClx("last CP is 2, expected 3".to_owned())
    );
    let mut big_prc = vec![0x01_u8];
    big_prc.extend_from_slice(&0x3FA3_u16.to_le_bytes());
    big_prc.extend_from_slice(&table);
    assert_eq!(
        clx_error(&word, &big_prc),
        DocError::MalformedClx("Prc.grpprl is too large (16291)".to_owned())
    );
    let mut odd = table.clone();
    odd[15..19].copy_from_slice(&(0x4000_0000_u32 | 2049).to_le_bytes());
    assert_eq!(
        clx_error(&word, &odd),
        DocError::MalformedClx("compressed Pcd 0 has an odd encoded FC".to_owned())
    );
}

#[test]
fn piece_outside_word_document_is_refused() {
    let (word, _) = utf16_doc("ab\r");
    let table = clx_table(3, 5000);
    let fib = parse_fib(&word).unwrap();
    match parse_document(&word, &table, &[], fib) {
        Err(e) => assert_eq!(e, DocError::PieceOutOfBounds { piece: 0 }),
        Ok(_) => panic!("accepted a piece outside the stream"),
    }
}

#[test]
fn lone_surrogate_is_invalid_utf16() {
    let mut word = word_header(1, 0x1000 | 0x0200, 1026);
    word[1024..1026].copy_from_slice(&0xD800_u16.to_le_bytes());
    let table = clx_table(1, 1024);
    let fib = parse_fib(&word).unwrap();
    match parse_document(&word, &table, &[], fib) {
        Err(e) => assert_eq!(e, DocError::InvalidUtf16 { piece: 0 }),
        Ok(_) => panic!("accepted a lone surrogate"),
    }
}

#[test]
fn ansi_bytes_decode_as_windows_1252() {
    assert_eq!(decode_ansi_byte(0x80), '\u{20AC}');
    assert_eq!(decode_ansi_byte(0x93), '\u{201C}');
    assert_eq!(decode_ansi_byte(b'A'), 'A');
    assert_eq!(decode_ansi_byte(0xE9), '\u{00E9}');
}

#[test]
fn text_range_is_clipped_to_pieces() {
    let mut word = vec![0_u8; 8];
    word[0..4].copy_from_slice(b"abcd");
    let pieces = vec![Piece { cp_start: 0, cp_end: 4, raw_fc: 0x4000_0000 }];
    assert_eq!(reconstruct_text_range(&word, &pieces, 1, 3).unwrap(), vec!['b', 'c']);
    assert_eq!(reconstruct_main_text(&word, &pieces, 4).unwrap(), vec!['a', 'b', 'c', 'd']);
    assert_eq!(
        reconstruct_main_text(&word, &pieces, 5),
        Err(DocError::MalformedClx(
            "piece table reconstructed 4 main-story CPs, expected 5".to_owned()
        ))
    );
}

fn textbox_fib(main: u32, textboxes: u32, txbx_len: u32, spa_len: u32) -> Fib {
    Fib {
        n_fib: 0xC1,
        table_stream: "1Table",
        f_complex: false,
        f_has_pic: false,
        cb_mac: 0,
        fc_clx: 0,
        lcb_clx: 0,
        fc_plcf_sed: 0,
        lcb_plcf_sed: 0,
        fc_plcf_bte_chpx: 0,
        lcb_plcf_bte_chpx: 0,
        fc_plcf_bte_papx: 0,
        lcb_plcf_bte_papx: 0,
        fc_plc_spa_mom: txbx_len,
        lcb_plc_spa_mom: spa_len,
        fc_plcf_txbx_txt: 0,
        lcb_plcf_txbx_txt: txbx_len,
        fc_plf_lst: 0,
        lcb_plf_lst: 0,
        fc_plf_lfo: 0,
        lcb_plf_lfo: 0,
        stories: StoryCounts {
            main,
            footnotes: 0,
            headers: 0,
            comments: 0,
            endnotes: 0,
            textboxes,
            header_textboxes: 0,
        },
    }
}

fn textbox_tables(lid_box: u32, lid_anchor: u32) -> Vec<u8> {
    let mut table = Vec::new();
    for cp in [0_u32, 4, 5] {
        table.extend_from_slice(&cp.to_le_bytes());
    }
    let mut record = [0_u8; 22];
    record[14..18].copy_from_slice(&lid_box.to_le_bytes());
    table.extend_from_slice(&record);
    table.extend_from_slice(&[0_u8; 22]);
    for cp in [1_u32, 2] {
        table.extend_from_slice(&cp.to_le_bytes());
    }
    let mut spa = [0_u8; 26];
    spa[0..4].copy_from_slice(&lid_anchor.to_le_bytes());
    table.extend_from_slice(&spa);
    table
}

#[test]
fn textbox_is_placed_at_its_anchor() {
    let mut word = vec![0_u8; 16];
    word[0..7].copy_from_slice(b"a\x08\rbox\r");
    let pieces = vec![Piece { cp_start: 0, cp_end: 8, raw_fc: 0x4000_0000 }];
    let table = textbox_tables(7, 7);
    let fib = textbox_fib(3, 4, 56, 34);
    let placements = parse_textboxes(&word, &table, &fib, &pieces).unwrap();
    assert_eq!(placements.get(1), vec!["box".to_owned()]);
    assert_eq!(placements.get(0), Vec::<String>::new());
    assert_eq!(placements.unplaced(), 0);
}

#[test]
fn unmatched_textbox_falls_back_to_order() {
    let mut word = vec![0_u8; 16];
    word[0..7].copy_from_slice(b"a\x08\rbox\r");
    let pieces = vec![Piece { cp_start: 0, cp_end: 8, raw_fc: 0x4000_0000 }];
    let table = textbox_tables(7, 9);
    let fib = textbox_fib(3, 4, 56, 34);
    let placements = parse_textboxes(&word, &table, &fib, &pieces).unwrap();
    assert_eq!(placements.get(1), vec!["box".to_owned()]);
    assert_eq!(placements.unplaced(), 0);
}

#[test]
fn bad_textbox_table_length_is_reported() {
    let word = vec![0_u8; 16];
    let pieces = vec![Piece { cp_start: 0, cp_end: 8, raw_fc: 0x4000_0000 }];
    let table = vec![0_u8; 60];
    let fib = textbox_fib(3, 4, 31, 0);
    assert_eq!(
        parse_textboxes(&word, &table, &fib, &pieces).err(),
        Some("invalid PlcftxbxTxt length 31".to_owned())
    );
}

#[test]
fn grpprl_truncation_messages_name_the_sprm() {
    assert_eq!(parse_prls(&[0x00]).unwrap_err(), "truncated Sprm");
    assert_eq!(
        parse_prls(&[0x00, 0xC6]).unwrap_err(),
        "variable-length sprm 0xC600 is truncated"
    );
    assert_eq!(parse_prls(&[0x08, 0xD6, 0x01]).unwrap_err(), "truncated TDefTableOperand.cb");
    assert_eq!(
        parse_prls(&[0x00, 0x60, 0x01]).unwrap_err(),
        "operand for sprm 0x6000 is truncated"
    );
    let prls = parse_prls(&[0x3C, 0x08, 0x01, 0x09, 0x6A, 1, 2, 3, 4]).unwrap();
    assert_eq!(prls.len(), 2);
    assert_eq!((prls[0].sprm, prls[0].start, prls[0].end), (0x083C, 2, 3));
    assert_eq!((prls[1].sprm, prls[1].start, prls[1].end), (0x6A09, 5, 9));
}

#[test]
fn unusable_optional_tables_are_reported_with_their_reason() {
    let (word, table) = utf16_doc("ab\r");
    let mut fib = parse_fib(&word).unwrap();
    fib.fc_plcf_bte_chpx = 1000;
    fib.lcb_plcf_bte_chpx = 12;
    fib.fc_plcf_bte_papx = 0;
    fib.lcb_plcf_bte_papx = 13;
    fib.fc_plcf_sed = 0;
    fib.lcb_plcf_sed = 21;
    fib.fc_plf_lst = 0;
    fib.lcb_plf_lst = 1;
    fib.fc_plf_lfo = 0;
    fib.lcb_plf_lfo = 1;
    let parsed = parse_document(&word, &table, &[], fib).unwrap();
    let expected = [
        "hidden character formatting was not recovered: PlcBteChpx is outside its stream",
        "custom symbol formatting was not recovered: PlcBteChpx is outside its stream",
        "paragraph formatting was not recovered: invalid PlcBtePapx length 13",
        "section properties were not recovered: invalid PlcfSed length 21",
        "automatic numbering was not recovered: truncated PlfLst.cLst",
    ];
    for text in expected {
        assert!(
            parsed.warnings.iter().any(|w| w == text),
            "missing warning {text:?} in {:?}",
            parsed.warnings
        );
    }
    for tag in [
        "character-formatting:partial",
        "character-symbols:partial",
        "paragraph-formatting:malformed",
        "page-layout:malformed",
        "automatic-numbering:malformed",
    ] {
        assert!(parsed.unsupported.contains(tag), "missing tag {tag}");
    }
    assert_eq!(parsed.document.paragraphs.len(), 1);
}

#[test]
fn placements_keep_each_anchors_texts_in_order() {
    let mut placements = docxthedocs::textbox::TextboxPlacements::default();
    placements.place(5, "a".to_owned());
    placements.place(3, "b".to_owned());
    placements.place(5, "c".to_owned());
    assert_eq!(placements.get(5), vec!["a".to_owned(), "c".to_owned()]);
    assert_eq!(placements.get(3), vec!["b".to_owned()]);
    assert!(placements.get(4).is_empty());
    assert_eq!(placements.placed_len(), 3);
}
