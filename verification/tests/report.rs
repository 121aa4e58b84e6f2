use docxthedocs::container::{check_source_size, check_stream, finish_inventory, ContainerError};
use docxthedocs::digest::SourceHasher;
use docxthedocs::fib::DocError;
use docxthedocs::ir::{Status, StreamInfo, StreamKind};
use docxthedocs::numbering::{bullet_text, numbering_format};
use docxthedocs::props::{alignment_from_u8, border_style, shading_pattern};
use docxthedocs::report::{
    add_container_capabilities, check_extensions, conversion_status, empty_report, exit_code,
    failure, failure_from_report, fib_failure, has_data_stream, parse_failure,
    temporary_file_name,
};
use docxthedocs::tags::TagSet;
use docxthedocs::validation::{
    check_entries, check_entry, check_part_count, check_required_parts, validate_xml_part,
    xml_part_roots, ValidationError,
};
use docxthedocs::xml::{render, XmlEvent};

fn stream(path: &str, kind: StreamKind, size: u64) -> StreamInfo {
    StreamInfo { path: path.to_owned(), kind, size }
}

#[test]
fn exit_codes_follow_status() {
    assert_eq!(exit_code(Status::Converted), 0);
    assert_eq!(exit_code(Status::ConvertedWithWarnings), 10);
    assert_eq!(exit_code(Status::UnsupportedSource), 20);
    assert_eq!(exit_code(Status::InvalidSource), 21);
    assert_eq!(exit_code(Status::InternalError), 30);
}

#[test]
fn status_is_converted_only_without_unsupported_tags() {
    let mut unsupported = TagSet::new();
    assert_eq!(conversion_status(&unsupported), Status::Converted);
    unsupported.insert("tables");
    assert_eq!(conversion_status(&unsupported), Status::ConvertedWithWarnings);
}

#[test]
fn container_capabilities_are_tagged() {
    let inventory = vec![
        stream("/ObjectPool/_1", StreamKind::Storage, 0),
        stream("/Macros/VBA", StreamKind::Storage, 0),
        stream("/Data", StreamKind::Stream, 10),
        stream("/WordDocument", StreamKind::Stream, 100),
    ];
    let mut features = TagSet::new();
    let mut unsupported = TagSet::new();
    add_container_capabilities(&inventory, &mut features, &mut unsupported);
    assert!(features.contains("embedded-objects"));
    assert!(features.contains("macros"));
    assert!(features.contains("data-stream"));
    assert!(unsupported.contains("embedded-objects"));
    assert!(unsupported.contains("macros"));
    assert!(!unsupported.contains("data-stream"));
    assert!(has_data_stream(&inventory));
    assert!(!has_data_stream(&inventory[..2]));
}

#[test]
fn empty_data_stream_is_not_a_capability() {
    let mut features = TagSet::new();
    let mut unsupported = TagSet::new();
    add_container_capabilities(&[stream("/data", StreamKind::Stream, 0)], &mut features, &mut unsupported);
    assert!(features.is_empty());
}

#[test]
fn failures_carry_their_message_as_warning() {
    let f = failure(Status::InvalidSource, "abc".to_owned(), "bad".to_owned());
    assert_eq!(f.message, "bad");
    assert_eq!(f.report.status, Status::InvalidSource);
    assert_eq!(f.report.warnings, vec!["bad".to_owned()]);
    assert_eq!(f.report.engine, "DocxTheDocs");
    let report = empty_report(Status::Converted, "x".to_owned());
    let g = failure_from_report(report, "late".to_owned());
    assert_eq!(g.report.status, Status::InternalError);
    assert_eq!(g.report.warnings, vec!["late".to_owned()]);
}

#[test]
fn encrypted_source_is_unsupported() {
    let f = fib_failure(DocError::Encrypted, "h".to_owned(), vec![stream("/WordDocument", StreamKind::Stream, 1)]);
    assert_eq!(f.report.status, Status::UnsupportedSource);
    assert!(f.report.unsupported.contains("encryption"));
    assert_eq!(f.report.stream_inventory.len(), 1);
    assert_eq!(
        f.message,
        "encrypted or obfuscated DOC files are not supported by the native converter"
    );
    let g = fib_failure(DocError::TruncatedFib { field: "csw" }, "h".to_owned(), Vec::new());
    assert_eq!(g.report.status, Status::InvalidSource);
    assert_eq!(g.message, "invalid FIB: WordDocument stream is truncated while reading csw");
    let p = parse_failure(DocError::PieceOutOfBounds { piece: 3 }, "h".to_owned());
    assert_eq!(
        p.message,
        "invalid Word document structures: piece 3 points outside the WordDocument stream"
    );
}

#[test]
fn extensions_are_checked_ignoring_case() {
    assert_eq!(check_extensions(Some("DOC"), Some("Docx"), "a.DOC", "b.Docx"), Ok(()));
    assert_eq!(
        check_extensions(Some("txt"), Some("docx"), "a.txt", "b.docx"),
        Err("source must have a .doc extension: a.txt".to_owned())
    );
    assert_eq!(
        check_extensions(Some("doc"), None, "a.doc", "b"),
        Err("destination must have a .docx extension: b".to_owned())
    );
}

#[test]
fn temporary_name_is_hidden_and_unique() {
    assert_eq!(temporary_file_name(Some("out.docx"), 42, 7), ".out.docx.42.7.tmp");
    assert_eq!(temporary_file_name(None, 1, 0), ".output.docx.1.0.tmp");
}

#[test]
fn sha256_of_abc() {
    let mut h = SourceHasher::new();
    h.update(b"a");
    h.update(b"bc");
    assert_eq!(
        h.finish(),
        "ba7816bf8f01cfea414140de5dae2223b00361a396177a9cb410ff61f20015ad"
    );
}

#[test]
fn container_limits() {
    assert!(check_source_size(536_870_912).is_ok());
    match check_source_size(536_870_913) {
        Err(e) => assert_eq!(
            e.message(),
            "source is too large (536870913 bytes; limit is 536870912 bytes)"
        ),
        Ok(()) => panic!("accepted an oversized source"),
    }
    assert_eq!(check_stream("/x", true, 5).ok(), Some(5));
    match check_stream("/x", false, 5) {
        Err(ContainerError::MissingStream(p)) => assert_eq!(p, "/x"),
        _ => panic!("a storage was read as a stream"),
    }
    assert!(matches!(check_stream("/x", true, 268_435_457), Err(ContainerError::StreamTooLarge { .. })));
}

#[test]
fn inventory_is_sorted_by_path() {
    let sorted = finish_inventory(vec![
        stream("/b", StreamKind::Stream, 1),
        stream("/a", StreamKind::Stream, 2),
        stream("/", StreamKind::Root, 0),
    ]);
    let paths: Vec<&str> = sorted.iter().map(|s| s.path.as_str()).collect();
    assert_eq!(paths, vec!["/", "/a", "/b"]);
}

#[test]
fn inventory_orders_paths_by_utf8_bytes_and_keeps_equal_paths_in_order() {
    let sorted = finish_inventory(vec![
        stream("/\u{05D0}", StreamKind::Stream, 1),
        stream("/Z", StreamKind::Stream, 2),
        stream("/a", StreamKind::Stream, 3),
        stream("/a", StreamKind::Storage, 4),
        stream("/ab", StreamKind::Stream, 5),
        stream("/", StreamKind::Root, 0),
    ]);
    let order: Vec<(&str, u64)> = sorted.iter().map(|s| (s.path.as_str(), s.size)).collect();
    assert_eq!(
        order,
        vec![("/", 0), ("/Z", 2), ("/a", 3), ("/a", 4), ("/ab", 5), ("/\u{05D0}", 1)]
    );
}

#[test]
fn entry_checks_report_each_error() {
    let ok: Vec<(String, u64)> = [
        "[Content_Types].xml",
        "_rels/.rels",
        "word/document.xml",
        "word/styles.xml",
        "word/_rels/document.xml.rels",
    ]
    .iter()
    .map(|n| (n.to_string(), 10))
    .collect();
    assert_eq!(check_entries(&ok), Ok(()));
    let mut missing = ok.clone();
    missing.remove(3);
    assert_eq!(check_entries(&missing), Err(ValidationError::MissingPart("word/styles.xml")));
    let mut climbing = ok.clone();
    climbing.push(("word/../x".to_owned(), 1));
    assert_eq!(check_entries(&climbing), Err(ValidationError::UnsafePartName("word/../x".to_owned())));
    let mut absolute = ok.clone();
    absolute.insert(0, ("/abs".to_owned(), 1));
    assert_eq!(check_entries(&absolute), Err(ValidationError::UnsafePartName("/abs".to_owned())));
    let mut dots = ok.clone();
    dots.push(("a..b".to_owned(), 1));
    assert_eq!(check_entries(&dots), Ok(()));
    let mut huge = ok.clone();
    huge.push(("big".to_owned(), 600_000_000));
    assert_eq!(check_entries(&huge), Err(ValidationError::ExpandedSize(600_000_050)));
    let many: Vec<(String, u64)> = (0..16_385).map(|i| (format!("p{i}"), 0)).collect();
    assert_eq!(
        check_entries(&many),
        Err(ValidationError::TooManyParts { actual: 16_385, limit: 16_384 })
    );
}

#[test]
fn entry_by_entry_checks_keep_a_running_total() {
    assert_eq!(check_part_count(16_384), Ok(()));
    assert_eq!(
        check_part_count(16_385),
        Err(ValidationError::TooManyParts { actual: 16_385, limit: 16_384 })
    );
    assert_eq!(check_entry(10, &"word/document.xml".to_owned(), 5), Ok(15));
    assert_eq!(
        check_entry(0, &"a\\b".to_owned(), 1),
        Err(ValidationError::UnsafePartName("a\\b".to_owned()))
    );
    assert_eq!(
        check_entry(u64::MAX, &"x".to_owned(), 1),
        Err(ValidationError::ExpandedSize(536_870_912))
    );
    assert_eq!(
        check_entry(536_870_000, &"x".to_owned(), 1_000),
        Err(ValidationError::ExpandedSize(536_871_000))
    );
    let only_types = vec![("[Content_Types].xml".to_owned(), 1_u64)];
    assert_eq!(
        check_required_parts(&only_types),
        Err(ValidationError::MissingPart("_rels/.rels"))
    );
    let roots = xml_part_roots();
    assert_eq!(roots.len(), 5);
    assert_eq!(roots[2], ("word/document.xml", "w:document"));
    assert_eq!(roots[4], ("word/_rels/document.xml.rels", "Relationships"));
}

#[test]
fn xml_parts_are_checked_for_their_root() {
    assert_eq!(validate_xml_part(b"<?xml version=\"1.0\"?><Types/>", "t", "Types"), Ok(()));
    assert_eq!(
        validate_xml_part(b"<Other/>", "t", "Types"),
        Err(ValidationError::WrongRoot { part: "t".to_owned(), actual: "Other".to_owned(), expected: "Types" })
    );
    assert_eq!(
        validate_xml_part(b"<!DOCTYPE x><Types/>", "t", "Types"),
        Err(ValidationError::Dtd { part: "t".to_owned() })
    );
    assert!(matches!(
        validate_xml_part(b"<Types><a></b></Types>", "t", "Types"),
        Err(ValidationError::MalformedXml { .. })
    ));
    assert_eq!(
        validate_xml_part(b"", "t", "Types"),
        Err(ValidationError::MalformedXml { part: "t".to_owned(), message: "missing document element".to_owned() })
    );
}

#[test]
fn render_escapes_text_and_attributes() {
    let events = vec![
        XmlEvent::Start("a".to_owned(), vec![("k".to_owned(), "x\"<\t".to_owned())]),
        XmlEvent::Text("1 < 2 & 'q'".to_owned()),
        XmlEvent::End("a".to_owned()),
    ];
    let bytes = render(&events).unwrap();
    assert_eq!(
        String::from_utf8(bytes).unwrap(),
        "<a k=\"x&quot;&lt;&#9;\">1 &lt; 2 &amp; &apos;q&apos;</a>"
    );
}

#[test]
fn format_tables() {
    assert_eq!(numbering_format(0x00), "decimal");
    assert_eq!(numbering_format(0x2D), "hebrew1");
    assert_eq!(numbering_format(0xFF), "none");
    assert_eq!(numbering_format(0x77), "decimal");
    assert_eq!(bullet_text(&[]), "\u{2022}");
    assert_eq!(bullet_text(&[0xF0B7]), "\u{F0B7}");
    assert_eq!(bullet_text(&[0xD800]), "\u{2022}");
    assert_eq!(border_style(0x01), "single");
    assert_eq!(shading_pattern(0), "clear");
    assert!(alignment_from_u8(2).is_some());
}
