use docxthedocs::clx::parse_clx;
use docxthedocs::fib::DocError;
use docxthedocs::ir::StoryCounts;

fn counts(main: u32, footnotes: u32) -> StoryCounts {
    StoryCounts {
        main,
        footnotes,
        headers: 0,
        comments: 0,
        endnotes: 0,
        textboxes: 0,
        header_textboxes: 0,
    }
}

fn clx(cps: &[i32], fcs: &[u32]) -> Vec<u8> {
    let lcb = (cps.len() * 4 + fcs.len() * 8) as u32;
    let mut out = vec![0x02];
    out.extend_from_slice(&lcb.to_le_bytes());
    for cp in cps {
        out.extend_from_slice(&cp.to_le_bytes());
    }
    for fc in fcs {
        out.extend_from_slice(&0_u16.to_le_bytes());
        out.extend_from_slice(&fc.to_le_bytes());
        out.extend_from_slice(&0_u16.to_le_bytes());
    }
    out
}

#[test]
fn piece_table_has_one_piece_per_record_and_is_contiguous() {
    let pieces = parse_clx(&clx(&[0, 4, 10], &[1024, 4096]), counts(10, 0)).unwrap();
    assert_eq!(pieces.len(), 2);
    assert_eq!((pieces[0].cp_start, pieces[0].cp_end, pieces[0].raw_fc), (0, 4, 1024));
    assert_eq!((pieces[1].cp_start, pieces[1].cp_end, pieces[1].raw_fc), (4, 10, 4096));
}

#[test]
fn piece_table_ends_one_past_the_total_with_other_stories() {
    let pieces = parse_clx(&clx(&[0, 13], &[1024]), counts(10, 2)).unwrap();
    assert_eq!(pieces[0].cp_end, 13);
    match parse_clx(&clx(&[0, 12], &[1024]), counts(10, 2)) {
        Err(DocError::MalformedClx(message)) => assert_eq!(message, "last CP is 12, expected 13"),
        other => panic!("unexpected {other:?}"),
    }
}

#[test]
fn piece_table_length_must_encode_whole_records() {
    let mut bytes = clx(&[0, 10], &[1024]);
    bytes[1..5].copy_from_slice(&17_u32.to_le_bytes());
    bytes.extend_from_slice(&[0; 8]);
    match parse_clx(&bytes, counts(10, 0)) {
        Err(DocError::MalformedClx(message)) => {
            assert_eq!(message, "PlcPcd length 17 does not encode whole Pcd records")
        }
        other => panic!("unexpected {other:?}"),
    }
}
