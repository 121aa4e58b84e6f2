use docxthedocs::container::{container_stream, open_container, ContainerError};
use docxthedocs::ir::{Document, Status, StreamKind};
use docxthedocs::ooxml::{docx_package, docx_parts};
use docxthedocs::report::{
    accepts, conversion_step, empty_report, ConversionAction, ConversionEvent, ConversionState,
};
use docxthedocs::validation::{validate_package, ValidationError};
use std::io::{Cursor, Write};

fn synthetic_streams(text: &str) -> (Vec<u8>, Vec<u8>) {
    let encoded: Vec<u16> = text.encode_utf16().collect();
    let text_offset = 1024_usize;
    let mut word = vec![0_u8; text_offset + encoded.len() * 2];
    word[0..2].copy_from_slice(&0xA5EC_u16.to_le_bytes());
    word[2..4].copy_from_slice(&0x00C1_u16.to_le_bytes());
    word[10..12].copy_from_slice(&(0x1000_u16 | 0x0200_u16).to_le_bytes());
    word[32..34].copy_from_slice(&0x000E_u16.to_le_bytes());
    word[62..64].copy_from_slice(&0x0016_u16.to_le_bytes());
    let word_len = word.len() as u32;
    word[64..68].copy_from_slice(&word_len.to_le_bytes());
    word[76..80].copy_from_slice(&(encoded.len() as u32).to_le_bytes());
    word[152..154].copy_from_slice(&0x005D_u16.to_le_bytes());
    word[418..422].copy_from_slice(&0_u32.to_le_bytes());
    word[422..426].copy_from_slice(&21_u32.to_le_bytes());
    for (index, unit) in encoded.iter().enumerate() {
        let offset = text_offset + index * 2;
        word[offset..offset + 2].copy_from_slice(&unit.to_le_bytes());
    }
    let mut table = Vec::new();
    table.push(0x02);
    table.extend_from_slice(&16_u32.to_le_bytes());
    table.extend_from_slice(&0_i32.to_le_bytes());
    table.extend_from_slice(&(encoded.len() as i32).to_le_bytes());
    table.extend_from_slice(&0_u16.to_le_bytes());
    table.extend_from_slice(&(text_offset as u32).to_le_bytes());
    table.extend_from_slice(&0_u16.to_le_bytes());
    (word, table)
}

fn compound_file(streams: &[(&str, &[u8])]) -> Vec<u8> {
    let mut compound = cfb::CompoundFile::create(Cursor::new(Vec::new())).unwrap();
    for (path, bytes) in streams {
        let mut stream = compound.create_stream(path).unwrap();
        stream.write_all(bytes).unwrap();
    }
    compound.flush().unwrap();
    compound.into_inner().into_inner()
}

fn synthetic_doc(text: &str) -> Vec<u8> {
    let (word, table) = synthetic_streams(text);
    compound_file(&[("/WordDocument", &word), ("/1Table", &table)])
}

#[test]
fn container_inventory_is_sorted_by_path() {
    let source = compound_file(&[("/b", b"xy"), ("/a", b"12345")]);
    let inventory = open_container(&source).unwrap();
    let listed: Vec<(&str, StreamKind)> =
        inventory.iter().map(|e| (e.path.as_str(), e.kind)).collect();
    assert_eq!(
        listed,
        vec![("/", StreamKind::Root), ("/a", StreamKind::Stream), ("/b", StreamKind::Stream)]
    );
    assert_eq!((inventory[1].size, inventory[2].size), (5, 2));
}

#[test]
fn container_streams_are_read_and_missing_ones_reported() {
    let source = compound_file(&[("/WordDocument", b"abc")]);
    assert_eq!(container_stream(&source, "/WordDocument").unwrap(), b"abc".to_vec());
    match container_stream(&source, "/1Table") {
        Err(ContainerError::MissingStream(path)) => assert_eq!(path, "/1Table"),
        other => panic!("unexpected {other:?}"),
    }
    match container_stream(&source, "/") {
        Err(ContainerError::MissingStream(path)) => assert_eq!(path, "/"),
        other => panic!("unexpected {other:?}"),
    }
}

#[test]
fn bytes_that_are_not_a_compound_file_are_refused() {
    let error = open_container(b"plainly not a compound file").unwrap_err();
    assert!(matches!(error, ContainerError::Io(_)));
    assert!(error.message().starts_with("could not inspect source file: "));
}

#[test]
fn built_package_passes_validation() {
    let package = docx_package(&Document::default()).unwrap();
    assert_eq!(&package[0..2], b"PK");
    assert_eq!(validate_package(&package), Ok(()));
    assert_eq!(docx_package(&Document::default()).unwrap(), package);
}

#[test]
fn package_parts_come_back_from_the_archive() {
    let document = Document::default();
    let parts = docx_parts(&document).unwrap();
    let package = docx_package(&document).unwrap();
    let mut archive = zip::ZipArchive::new(Cursor::new(package)).unwrap();
    assert_eq!(archive.len(), parts.len());
    for (index, (name, bytes)) in parts.iter().enumerate() {
        let mut entry = archive.by_index(index).unwrap();
        assert_eq!(entry.name().unwrap(), name.as_str());
        let mut read = Vec::new();
        std::io::Read::read_to_end(&mut entry, &mut read).unwrap();
        assert_eq!(&read, bytes);
    }
}

#[test]
fn junk_is_not_a_package() {
    assert!(matches!(validate_package(b"junk"), Err(ValidationError::Zip(_))));
}

#[test]
fn refused_paths_fail_as_invalid_source() {
    let event = ConversionEvent::PathsChecked(Err("source must have a .doc extension: a.txt".to_owned()));
    assert!(accepts(&ConversionState::Start, &event));
    let (state, action) = conversion_step(ConversionState::Start, event);
    assert!(matches!(state, ConversionState::Finished));
    match action {
        ConversionAction::Finish(Err(failure)) => {
            assert_eq!(failure.message, "source must have a .doc extension: a.txt");
            assert_eq!(failure.report.status, Status::InvalidSource);
            assert_eq!(failure.report.source_sha256, "");
        }
        _ => panic!("expected a failure"),
    }
}

#[test]
fn unreadable_source_and_bad_container_messages() {
    let (_, action) = conversion_step(
        ConversionState::Hashing,
        ConversionEvent::SourceHashed(Err(("in.doc".to_owned(), "denied".to_owned()))),
    );
    match action {
        ConversionAction::Finish(Err(failure)) => {
            assert_eq!(failure.message, "could not read source DOC in.doc: denied")
        }
        _ => panic!("expected a failure"),
    }
    let (state, action) = conversion_step(
        ConversionState::Loading { source_sha256: "ab".to_owned() },
        ConversionEvent::SourceLoaded(Ok(b"not a compound file".to_vec())),
    );
    assert!(matches!(state, ConversionState::Finished));
    match action {
        ConversionAction::Finish(Err(failure)) => {
            assert!(failure.message.starts_with("invalid CFB/OLE container: could not inspect source file: "));
            assert_eq!(failure.report.status, Status::InvalidSource);
            assert_eq!(failure.report.source_sha256, "ab");
        }
        _ => panic!("expected a failure"),
    }
    let (_, action) = conversion_step(
        ConversionState::Loading { source_sha256: "ab".to_owned() },
        ConversionEvent::SourceLoaded(Ok(compound_file(&[("/Other", b"x")]))),
    );
    match action {
        ConversionAction::Finish(Err(failure)) => {
            assert_eq!(failure.message, "invalid Word binary document: required stream is missing: /WordDocument");
            assert_eq!(failure.report.status, Status::InvalidSource);
        }
        _ => panic!("expected a failure"),
    }
}

#[test]
fn a_conversion_runs_to_publication() {
    let (state, action) = conversion_step(
        ConversionState::Start,
        ConversionEvent::PathsChecked(Ok(())),
    );
    assert!(matches!(action, ConversionAction::HashSource));
    let (state, action) = conversion_step(state, ConversionEvent::SourceHashed(Ok("00ff".to_owned())));
    assert!(matches!(action, ConversionAction::LoadSource));
    let (state, action) = conversion_step(state, ConversionEvent::SourceLoaded(Ok(synthetic_doc("Hello\r"))));
    assert!(matches!(action, ConversionAction::CreateDirectory));
    let (state, action) = conversion_step(state, ConversionEvent::DirectoryReady(Ok(())));
    let package = match action {
        ConversionAction::WritePackage(bytes) => bytes,
        _ => panic!("expected the package"),
    };
    assert_eq!(validate_package(&package), Ok(()));
    let (state, action) = conversion_step(state, ConversionEvent::PackageWritten(Ok(())));
    assert!(matches!(action, ConversionAction::ReadPackage));
    let (state, action) = conversion_step(state, ConversionEvent::PackageReadBack(Ok(package)));
    assert!(matches!(action, ConversionAction::PublishPackage));
    let (state, action) = conversion_step(state, ConversionEvent::Published(Ok(())));
    assert!(matches!(state, ConversionState::Finished));
    match action {
        ConversionAction::Finish(Ok(report)) => {
            assert_eq!(report.source_sha256, "00ff");
            assert_eq!(report.paragraphs, 1);
            assert_eq!(report.status, Status::ConvertedWithWarnings);
            assert_eq!(report.stream_inventory.len(), 3);
        }
        _ => panic!("expected success"),
    }
}

#[test]
fn a_damaged_package_is_not_published() {
    let report = empty_report(Status::Converted, "aa".to_owned());
    let (state, action) = conversion_step(
        ConversionState::Checking { report },
        ConversionEvent::PackageReadBack(Ok(b"truncated".to_vec())),
    );
    assert!(matches!(state, ConversionState::Finished));
    match action {
        ConversionAction::Finish(Err(failure)) => {
            assert!(failure.message.starts_with("generated DOCX failed structural validation: invalid DOCX ZIP: "));
            assert_eq!(failure.report.status, Status::InternalError);
        }
        _ => panic!("expected a failure"),
    }
    let report = empty_report(Status::Converted, "aa".to_owned());
    let (_, action) = conversion_step(
        ConversionState::Writing { report },
        ConversionEvent::PackageWritten(Err("disk full".to_owned())),
    );
    match action {
        ConversionAction::Finish(Err(failure)) => {
            assert_eq!(failure.message, "could not write DOCX: DOCX I/O failed: disk full");
            assert_eq!(failure.report.status, Status::InternalError);
            assert_eq!(failure.report.warnings, vec!["could not write DOCX: DOCX I/O failed: disk full".to_owned()]);
        }
        _ => panic!("expected a failure"),
    }
    let report = empty_report(Status::Converted, "aa".to_owned());
    let (_, action) = conversion_step(
        ConversionState::Publishing { report },
        ConversionEvent::Published(Err(("out.docx".to_owned(), "busy".to_owned()))),
    );
    match action {
        ConversionAction::Finish(Err(failure)) => {
            assert_eq!(failure.message, "could not publish DOCX to out.docx: busy");
            assert_eq!(failure.report.status, Status::InternalError);
        }
        _ => panic!("expected a failure"),
    }
}

fn zip_of(entries: &[(&str, &[u8])]) -> Vec<u8> {
    let mut writer = zip::ZipWriter::new(Cursor::new(Vec::new()));
    for (name, bytes) in entries {
        writer
            .start_file(*name, zip::write::SimpleFileOptions::default())
            .unwrap();
        writer.write_all(bytes).unwrap();
    }
    writer.finish().unwrap().into_inner()
}

#[test]
fn package_checks_report_the_first_fault() {
    let missing = zip_of(&[("[Content_Types].xml", b"<Types/>"), ("_rels/.rels", b"<Relationships/>")]);
    assert_eq!(validate_package(&missing), Err(ValidationError::MissingPart("word/document.xml")));
    let climbing = zip_of(&[("word/../evil.xml", b"x")]);
    assert_eq!(
        validate_package(&climbing),
        Err(ValidationError::UnsafePartName("word/../evil.xml".to_owned()))
    );
    let wrong_root = zip_of(&[
        ("[Content_Types].xml", b"<Other/>"),
        ("_rels/.rels", b"<Relationships/>"),
        ("word/document.xml", b"<w:document/>"),
        ("word/styles.xml", b"<w:styles/>"),
        ("word/_rels/document.xml.rels", b"<Relationships/>"),
    ]);
    let error = validate_package(&wrong_root).unwrap_err();
    assert_eq!(error.message(), "XML part [Content_Types].xml has root Other, expected Types");
    let minimal = zip_of(&[
        ("[Content_Types].xml", b"<Types/>"),
        ("_rels/.rels", b"<Relationships/>"),
        ("word/document.xml", b"<w:document/>"),
        ("word/styles.xml", b"<w:styles/>"),
        ("word/_rels/document.xml.rels", b"<Relationships/>"),
    ]);
    assert_eq!(validate_package(&minimal), Ok(()));
}

#[test]
fn outside_failures_keep_their_text() {
    assert_eq!(ValidationError::Zip("bad".to_owned()).message(), "invalid DOCX ZIP: bad");
    assert_eq!(ValidationError::Io("gone".to_owned()).message(), "DOCX I/O failed: gone");
}

#[test]
fn destination_checks() {
    assert_eq!(
        docxthedocs::report::check_destination(true, true, true, "a.docx"),
        Err("source and destination must be different files".to_owned())
    );
    assert_eq!(
        docxthedocs::report::check_destination(false, true, false, "dir.docx"),
        Err("destination exists and is not a regular file: dir.docx".to_owned())
    );
    assert_eq!(docxthedocs::report::check_destination(false, false, false, "new.docx"), Ok(()));
}
