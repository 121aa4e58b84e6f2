//! The parts of a DOCX package.
use vstd::prelude::*;
use crate::ir::{Document, DocumentModel};
use crate::container::io_error_text;
use crate::strings::owned;
use crate::wordml::{document_events, document_events_of, numbering_events, numbering_events_of};
use crate::xml::{events_text, render, utf8, utf8_char};
use std::io::{Cursor, Write};
use zip::result::ZipError;
use zip::write::SimpleFileOptions;
use zip::{CompressionMethod, DateTime, ZipWriter};

verus! {

/// `[Content_Types].xml` without a numbering part.
pub const CONTENT_TYPES: &'static str = "<?xml version=\"1.0\" encoding=\"UTF-8\" standalone=\"yes\"?>\n<Types xmlns=\"http://schemas.openxmlformats.org/package/2006/content-types\"><Default Extension=\"rels\" ContentType=\"application/vnd.openxmlformats-package.relationships+xml\"/><Default Extension=\"xml\" ContentType=\"application/xml\"/><Override PartName=\"/word/document.xml\" ContentType=\"application/vnd.openxmlformats-officedocument.wordprocessingml.document.main+xml\"/><Override PartName=\"/word/styles.xml\" ContentType=\"application/vnd.openxmlformats-officedocument.wordprocessingml.styles+xml\"/></Types>";

/// `[Content_Types].xml` with a numbering part.
pub const CONTENT_TYPES_NUMBERING: &'static str = "<?xml version=\"1.0\" encoding=\"UTF-8\" standalone=\"yes\"?>\n<Types xmlns=\"http://schemas.openxmlformats.org/package/2006/content-types\"><Default Extension=\"rels\" ContentType=\"application/vnd.openxmlformats-package.relationships+xml\"/><Default Extension=\"xml\" ContentType=\"application/xml\"/><Override PartName=\"/word/document.xml\" ContentType=\"application/vnd.openxmlformats-officedocument.wordprocessingml.document.main+xml\"/><Override PartName=\"/word/styles.xml\" ContentType=\"application/vnd.openxmlformats-officedocument.wordprocessingml.styles+xml\"/><Override PartName=\"/word/numbering.xml\" ContentType=\"application/vnd.openxmlformats-officedocument.wordprocessingml.numbering+xml\"/></Types>";

/// `_rels/.rels`.
pub const ROOT_RELS: &'static str = "<?xml version=\"1.0\" encoding=\"UTF-8\" standalone=\"yes\"?>\n<Relationships xmlns=\"http://schemas.openxmlformats.org/package/2006/relationships\"><Relationship Id=\"rId1\" Type=\"http://schemas.openxmlformats.org/officeDocument/2006/relationships/officeDocument\" Target=\"word/document.xml\"/></Relationships>";

/// `word/_rels/document.xml.rels` without a numbering part.
pub const DOCUMENT_RELS: &'static str = "<?xml version=\"1.0\" encoding=\"UTF-8\" standalone=\"yes\"?>\n<Relationships xmlns=\"http://schemas.openxmlformats.org/package/2006/relationships\"><Relationship Id=\"rId1\" Type=\"http://schemas.openxmlformats.org/officeDocument/2006/relationships/styles\" Target=\"styles.xml\"/></Relationships>";

/// `word/_rels/document.xml.rels` with a numbering part.
pub const DOCUMENT_RELS_NUMBERING: &'static str = "<?xml version=\"1.0\" encoding=\"UTF-8\" standalone=\"yes\"?>\n<Relationships xmlns=\"http://schemas.openxmlformats.org/package/2006/relationships\"><Relationship Id=\"rId1\" Type=\"http://schemas.openxmlformats.org/officeDocument/2006/relationships/styles\" Target=\"styles.xml\"/><Relationship Id=\"rId2\" Type=\"http://schemas.openxmlformats.org/officeDocument/2006/relationships/numbering\" Target=\"numbering.xml\"/></Relationships>";

/// `word/styles.xml`.
pub const STYLES: &'static str = "<?xml version=\"1.0\" encoding=\"UTF-8\" standalone=\"yes\"?>\n<w:styles xmlns:w=\"http://schemas.openxmlformats.org/wordprocessingml/2006/main\"><w:docDefaults><w:rPrDefault><w:rPr/></w:rPrDefault><w:pPrDefault><w:pPr/></w:pPrDefault></w:docDefaults><w:style w:type=\"paragraph\" w:default=\"1\" w:styleId=\"Normal\"><w:name w:val=\"Normal\"/><w:qFormat/></w:style></w:styles>";

/// A `zip` writer over an in-memory cursor. Verus refuses to declare `ZipWriter` itself, whose
/// parameter is bound by `std::io` traits, so the writer is held here, out of Verus's sight.
#[verifier::external_body]
pub struct PackageWriter {
    inner: ZipWriter<Cursor<Vec<u8>>>,
}

/// The declared `zip` error type.
#[verifier::external_type_specification]
#[verifier::external_body]
pub struct ExZipError(ZipError);

/// Writing the package failed: in writing bytes, or in the ZIP layer.
#[derive(Debug)]
pub enum OoxmlError {
    Io(std::io::Error),
    Zip(ZipError),
}

/// `ZipError`'s `Display` text. Nothing is stated of it.
#[verifier::external_body]
fn zip_error_text(e: &ZipError) -> String {
    e.to_string()
}

impl OoxmlError {
    /// The error's message: a fixed prefix for its kind, then the failure's own text.
    pub fn message(&self) -> (r: String)
        ensures
            self is Io ==> "DOCX I/O failed: "@.is_prefix_of(r@),
            self is Zip ==> "DOCX ZIP creation failed: "@.is_prefix_of(r@),
    {
        let mut s = String::new();
        let detail = match self {
            OoxmlError::Io(e) => {
                s.push_str("DOCX I/O failed: ");
                io_error_text(e)
            },
            OoxmlError::Zip(e) => {
                s.push_str("DOCX ZIP creation failed: ");
                zip_error_text(e)
            },
        };
        let ghost before = s@;
        s.push_str(detail.as_str());
        assert(s@.subrange(0, before.len() as int) =~= before);
        s
    }
}

/// Serialises the events of `word/document.xml`.
pub fn document_xml(document: &Document) -> (r: Result<Vec<u8>, OoxmlError>)
    ensures
        r matches Ok(bytes) && bytes@ == utf8(events_text(document_events(document@))),
{
    let events = document_events_of(document);
    match render(&events) {
        Ok(bytes) => Ok(bytes),
        Err(e) => Err(OoxmlError::Io(e)),
    }
}

/// Serialises the events of `word/numbering.xml`.
pub fn numbering_xml(document: &Document) -> (r: Result<Vec<u8>, OoxmlError>)
    ensures
        r matches Ok(bytes) && bytes@ == utf8(events_text(numbering_events(document@.numbering))),
{
    let events = numbering_events_of(document);
    match render(&events) {
        Ok(bytes) => Ok(bytes),
        Err(e) => Err(OoxmlError::Io(e)),
    }
}

fn push_utf8(out: &mut Vec<u8>, c: char)
    ensures
        final(out)@ == old(out)@ + utf8_char(c),
{
    let v = c as u32;
    if v < 0x80 {
        out.push(v as u8);
    } else if v < 0x800 {
        out.push((0xC0 + v / 64) as u8);
        out.push((0x80 + v % 64) as u8);
    } else if v < 0x10000 {
        out.push((0xE0 + v / 4096) as u8);
        out.push((0x80 + (v / 64) % 64) as u8);
        out.push((0x80 + v % 64) as u8);
    } else {
        out.push((0xF0 + v / 262144) as u8);
        out.push((0x80 + (v / 4096) % 64) as u8);
        out.push((0x80 + (v / 64) % 64) as u8);
        out.push((0x80 + v % 64) as u8);
    }
    assert(out@ =~= old(out)@ + utf8_char(c));
}

/// The UTF-8 encoding of `s`.
pub fn utf8_bytes(s: &str) -> (r: Vec<u8>)
    ensures
        r@ == utf8(s@),
{
    let chars = crate::paragraphs::str_chars(s);
    let mut out: Vec<u8> = Vec::new();
    let mut k: usize = 0;
    while k < chars.len()
        invariant
            k <= chars@.len(),
            chars@ == s@,
            out@ == utf8(chars@.take(k as int)),
        decreases chars@.len() - k,
    {
        push_utf8(&mut out, chars[k]);
        assert(chars@.take(k + 1).drop_last() =~= chars@.take(k as int));
        k = k + 1;
    }
    assert(chars@.take(chars@.len() as int) =~= chars@);
    out
}

pub open spec fn parts_view(parts: Seq<(String, Vec<u8>)>) -> Seq<(Seq<char>, Seq<u8>)> {
    parts.map_values(|p: (String, Vec<u8>)| (p.0@, p.1@))
}

/// The parts of the package, by name, in the order they are stored.
pub open spec fn parts_model(d: DocumentModel) -> Seq<(Seq<char>, Seq<u8>)> {
    let has_numbering = d.numbering.len() > 0;
    seq![
        (
            "[Content_Types].xml"@,
            utf8(
                if has_numbering {
                    CONTENT_TYPES_NUMBERING@
                } else {
                    CONTENT_TYPES@
                },
            ),
        ),
        ("_rels/.rels"@, utf8(ROOT_RELS@)),
        ("word/document.xml"@, utf8(events_text(document_events(d)))),
        ("word/styles.xml"@, utf8(STYLES@)),
    ] + (if has_numbering {
        seq![("word/numbering.xml"@, utf8(events_text(numbering_events(d.numbering))))]
    } else {
        Seq::empty()
    }) + seq![
        (
            "word/_rels/document.xml.rels"@,
            utf8(
                if has_numbering {
                    DOCUMENT_RELS_NUMBERING@
                } else {
                    DOCUMENT_RELS@
                },
            ),
        ),
    ]
}

fn push_part(parts: &mut Vec<(String, Vec<u8>)>, name: &str, bytes: Vec<u8>)
    ensures
        parts_view(final(parts)@) == parts_view(old(parts)@).push((name@, bytes@)),
{
    let ghost b = bytes@;
    parts.push((owned(name), bytes));
    assert(parts_view(parts@) =~= parts_view(old(parts)@).push((name@, b)));
}

/// The named parts of the DOCX package for `document`, in the order they are stored.
pub fn docx_parts(document: &Document) -> (r: Result<Vec<(String, Vec<u8>)>, OoxmlError>)
    ensures
        r matches Ok(parts) && parts_view(parts@) == parts_model(document@),
{
    let has_numbering = document.numbering.len() != 0;
    let mut parts: Vec<(String, Vec<u8>)> = Vec::new();
    assert(parts_view(parts@) =~= Seq::empty());
    let content_types = if has_numbering {
        CONTENT_TYPES_NUMBERING
    } else {
        CONTENT_TYPES
    };
    push_part(&mut parts, "[Content_Types].xml", utf8_bytes(content_types));
    push_part(&mut parts, "_rels/.rels", utf8_bytes(ROOT_RELS));
    let body = document_xml(document)?;
    push_part(&mut parts, "word/document.xml", body);
    push_part(&mut parts, "word/styles.xml", utf8_bytes(STYLES));
    let ghost before = parts_view(parts@);
    if has_numbering {
        let numbering = numbering_xml(document)?;
        push_part(&mut parts, "word/numbering.xml", numbering);
    }
    let document_rels = if has_numbering {
        DOCUMENT_RELS_NUMBERING
    } else {
        DOCUMENT_RELS
    };
    push_part(&mut parts, "word/_rels/document.xml.rels", utf8_bytes(document_rels));
    assert(parts_view(parts@) =~= parts_model(document@));
    Ok(parts)
}

/// The (name, bytes) entries that a writer made by `zip_writer` holds, in the order
/// they were added by `zip_add`.
pub uninterp spec fn zip_written(w: PackageWriter) -> Seq<(Seq<char>, Seq<u8>)>;

/// The bytes of the archive that `ZipWriter::finish` produces for a writer that holds
/// `entries`, each added by `zip_add`; `None` when finishing fails. With the fixed timestamp
/// and options of `zip_add`, they are a function of the entries.
pub uninterp spec fn zip_bytes_of(entries: Seq<(Seq<char>, Seq<u8>)>) -> Option<Seq<u8>>;

/// `ZipWriter::new` over an empty in-memory cursor: a writer that holds no entry.
#[verifier::external_body]
fn zip_writer() -> (w: PackageWriter)
    ensures
        zip_written(w) == Seq::<(Seq<char>, Seq<u8>)>::empty(),
{
    PackageWriter { inner: ZipWriter::new(Cursor::new(Vec::new())) }
}

/// `ZipWriter::start_file` for `name`, deflated, dated 1980-01-01 00:00:00
/// (`DateTime::default()`) with permissions 0o644, then `Write::write_all` of `bytes`: on
/// success the writer holds one more entry.
#[verifier::external_body]
fn zip_add(w: &mut PackageWriter, name: &str, bytes: &[u8]) -> (r: Result<(), OoxmlError>)
    ensures
        r is Ok ==> zip_written(*final(w)) == zip_written(*old(w)).push((name@, bytes@)),
{
    let options = SimpleFileOptions::default().compression_method(CompressionMethod::Deflated)
        .last_modified_time(DateTime::default()).unix_permissions(0o644);
    w.inner.start_file(name, options).map_err(OoxmlError::Zip)?;
    w.inner.write_all(bytes).map_err(OoxmlError::Io)
}

/// `ZipWriter::finish`, then the cursor's bytes.
#[verifier::external_body]
fn zip_finish(w: PackageWriter) -> (r: Result<Vec<u8>, OoxmlError>)
    ensures
        r is Ok <==> zip_bytes_of(zip_written(w)) is Some,
        r matches Ok(b) ==> zip_bytes_of(zip_written(w)) == Some(b@),
{
    Ok(w.inner.finish().map_err(OoxmlError::Zip)?.into_inner())
}

/// The DOCX package for `document`: its parts, in order, in a ZIP archive.
pub fn docx_package(document: &Document) -> (r: Result<Vec<u8>, OoxmlError>)
    ensures
        r matches Ok(b) ==> zip_bytes_of(parts_model(document@)) == Some(b@),
{
    let parts = docx_parts(document)?;
    let mut w = zip_writer();
    let mut i: usize = 0;
    assert(parts_view(parts@).take(0) =~= Seq::<(Seq<char>, Seq<u8>)>::empty());
    while i < parts.len()
        invariant
            i <= parts@.len(),
            parts_view(parts@) == parts_model(document@),
            zip_written(w) == parts_view(parts@).take(i as int),
        decreases parts@.len() - i,
    {
        zip_add(&mut w, parts[i].0.as_str(), parts[i].1.as_slice())?;
        assert(parts_view(parts@).take(i + 1) =~= parts_view(parts@).take(i as int).push(
            (parts@[i as int].0@, parts@[i as int].1@),
        ));
        i = i + 1;
    }
    assert(parts_view(parts@).take(i as int) =~= parts_view(parts@));
    zip_finish(w)
}

} // verus!
