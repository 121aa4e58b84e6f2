//! Structural checks of a written DOCX package: its part names and sizes, and the root
//! element of each XML part.
use vstd::prelude::*;
use quick_xml::events::Event;
use quick_xml::Reader;
use std::io::{Cursor, Read};
use zip::ZipArchive;
use crate::strings::{decimal, owned, push_decimal};

verus! {

/// Most parts a package may hold.
pub const MAX_PARTS: usize = 16384;

/// Most bytes the parts of a package may expand to.
pub const MAX_UNCOMPRESSED_BYTES: u64 = 536870912;

/// Why a package was refused.
#[derive(Debug, PartialEq, Eq)]
pub enum ValidationError {
    /// Reading a part failed, with the failure's text.
    Io(String),
    /// The ZIP layer failed, with the failure's text.
    Zip(String),
    TooManyParts { actual: usize, limit: usize },
    ExpandedSize(u64),
    MissingPart(&'static str),
    UnsafePartName(String),
    MalformedXml { part: String, message: String },
    Dtd { part: String },
    WrongRoot { part: String, actual: String, expected: &'static str },
}

pub enum ValidationErrorModel {
    Io(Seq<char>),
    Zip(Seq<char>),
    TooManyParts { actual: usize, limit: usize },
    ExpandedSize(u64),
    MissingPart(Seq<char>),
    UnsafePartName(Seq<char>),
    MalformedXml { part: Seq<char>, message: Seq<char> },
    Dtd { part: Seq<char> },
    WrongRoot { part: Seq<char>, actual: Seq<char>, expected: Seq<char> },
}

impl View for ValidationError {
    type V = ValidationErrorModel;

    open spec fn view(&self) -> ValidationErrorModel {
        match self {
            ValidationError::Io(t) => ValidationErrorModel::Io(t@),
            ValidationError::Zip(t) => ValidationErrorModel::Zip(t@),
            ValidationError::TooManyParts { actual, limit } => ValidationErrorModel::TooManyParts {
                actual: *actual,
                limit: *limit,
            },
            ValidationError::ExpandedSize(n) => ValidationErrorModel::ExpandedSize(*n),
            ValidationError::MissingPart(p) => ValidationErrorModel::MissingPart(p@),
            ValidationError::UnsafePartName(n) => ValidationErrorModel::UnsafePartName(n@),
            ValidationError::MalformedXml { part, message } => ValidationErrorModel::MalformedXml {
                part: part@,
                message: message@,
            },
            ValidationError::Dtd { part } => ValidationErrorModel::Dtd { part: part@ },
            ValidationError::WrongRoot { part, actual, expected } => ValidationErrorModel::WrongRoot {
                part: part@,
                actual: actual@,
                expected: expected@,
            },
        }
    }
}

/// Message text of a validation error.
pub open spec fn validation_error_text(e: ValidationErrorModel) -> Seq<char> {
    match e {
        ValidationErrorModel::Io(t) => "DOCX I/O failed: "@ + t,
        ValidationErrorModel::Zip(t) => "invalid DOCX ZIP: "@ + t,
        ValidationErrorModel::TooManyParts { actual, limit } => "DOCX contains too many parts ("@
            + decimal(actual as nat) + "; limit "@ + decimal(limit as nat) + ")"@,
        ValidationErrorModel::ExpandedSize(n) => "DOCX expands beyond the validation limit of "@
            + decimal(n as nat) + " bytes"@,
        ValidationErrorModel::MissingPart(p) => "DOCX is missing required part "@ + p,
        ValidationErrorModel::UnsafePartName(n) => "unsafe DOCX part name: "@ + n,
        ValidationErrorModel::MalformedXml { part, message } => "XML part "@ + part
            + " is malformed: "@ + message,
        ValidationErrorModel::Dtd { part } => "XML part "@ + part + " contains a forbidden DTD"@,
        ValidationErrorModel::WrongRoot { part, actual, expected } => "XML part "@ + part
            + " has root "@ + actual + ", expected "@ + expected,
    }
}

impl ValidationError {
    /// The error's message text.
    pub fn message(&self) -> (r: String)
        ensures
            r@ == validation_error_text(self@),
    {
        let mut s = String::new();
        match self {
            ValidationError::Io(t) => {
                s.push_str("DOCX I/O failed: ");
                s.push_str(t.as_str());
            },
            ValidationError::Zip(t) => {
                s.push_str("invalid DOCX ZIP: ");
                s.push_str(t.as_str());
            },
            ValidationError::TooManyParts { actual, limit } => {
                s.push_str("DOCX contains too many parts (");
                push_decimal(&mut s, *actual as u64);
                s.push_str("; limit ");
                push_decimal(&mut s, *limit as u64);
                s.push_str(")");
            },
            ValidationError::ExpandedSize(n) => {
                s.push_str("DOCX expands beyond the validation limit of ");
                push_decimal(&mut s, *n);
                s.push_str(" bytes");
            },
            ValidationError::MissingPart(p) => {
                s.push_str("DOCX is missing required part ");
                s.push_str(p);
            },
            ValidationError::UnsafePartName(n) => {
                s.push_str("unsafe DOCX part name: ");
                s.push_str(n.as_str());
            },
            ValidationError::MalformedXml { part, message } => {
                s.push_str("XML part ");
                s.push_str(part.as_str());
                s.push_str(" is malformed: ");
                s.push_str(message.as_str());
            },
            ValidationError::Dtd { part } => {
                s.push_str("XML part ");
                s.push_str(part.as_str());
                s.push_str(" contains a forbidden DTD");
            },
            ValidationError::WrongRoot { part, actual, expected } => {
                s.push_str("XML part ");
                s.push_str(part.as_str());
                s.push_str(" has root ");
                s.push_str(actual.as_str());
                s.push_str(", expected ");
                s.push_str(expected);
            },
        }
        s
    }
}

/// The `/`-separated segment of `n` that starts at `i` is `..`.
pub open spec fn parent_segment_at(n: Seq<char>, i: int) -> bool {
    0 <= i && i + 1 < n.len() && n[i] == '.' && n[i + 1] == '.' && (i == 0 || n[i - 1] == '/') && (
    i + 2 == n.len() || n[i + 2] == '/')
}

/// Some segment of `n` from position `i` on is `..`, or a backslash occurs there.
pub open spec fn unsafe_from(n: Seq<char>, i: int) -> bool
    decreases n.len() - i,
{
    if i < 0 || i >= n.len() {
        false
    } else {
        n[i] == '\\' || parent_segment_at(n, i) || unsafe_from(n, i + 1)
    }
}

/// A part name that is absolute, climbs out with a `..` segment or holds a backslash.
pub open spec fn unsafe_part_name(n: Seq<char>) -> bool {
    (n.len() > 0 && n[0] == '/') || unsafe_from(n, 0)
}

fn is_unsafe_part_name(name: &str) -> (r: bool)
    ensures
        r == unsafe_part_name(name@),
{
    let chars = crate::paragraphs::str_chars(name);
    let n = chars.len();
    if n > 0 && chars[0] == '/' {
        return true;
    }
    let mut i: usize = 0;
    while i < n
        invariant
            i <= n,
            n == chars@.len(),
            chars@ == name@,
            unsafe_from(chars@, 0) == unsafe_from(chars@, i as int),
        decreases n - i,
    {
        if chars[i] == '\\' {
            return true;
        }
        if i + 1 < n && chars[i] == '.' && chars[i + 1] == '.' && (i == 0 || chars[i - 1] == '/')
            && (i + 2 == n || chars[i + 2] == '/') {
            return true;
        }
        i = i + 1;
    }
    false
}

/// The parts every package must hold.
pub open spec fn required_parts() -> Seq<Seq<char>> {
    seq![
        "[Content_Types].xml"@,
        "_rels/.rels"@,
        "word/document.xml"@,
        "word/styles.xml"@,
        "word/_rels/document.xml.rels"@,
    ]
}

/// The outcome of checking one (name, size) entry after entries of `total` bytes: the new
/// running total, or why the entry is refused.
pub open spec fn entry_verdict(total: u64, name: Seq<char>, size: u64) -> Result<u64, ValidationErrorModel> {
    if unsafe_part_name(name) {
        Err(ValidationErrorModel::UnsafePartName(name))
    } else if total + size > u64::MAX {
        Err(ValidationErrorModel::ExpandedSize(MAX_UNCOMPRESSED_BYTES))
    } else if total + size > MAX_UNCOMPRESSED_BYTES {
        Err(ValidationErrorModel::ExpandedSize((total + size) as u64))
    } else {
        Ok((total + size) as u64)
    }
}

/// Checks one (name, uncompressed size) entry after entries of `total` bytes; returns the
/// new running total.
pub fn check_entry(total: u64, name: &String, size: u64) -> (r: Result<u64, ValidationError>)
    ensures
        match r {
            Ok(t) => entry_verdict(total, name@, size) == Ok::<u64, ValidationErrorModel>(t),
            Err(e) => entry_verdict(total, name@, size) == Err::<u64, ValidationErrorModel>(e@),
        },
{
    if is_unsafe_part_name(name.as_str()) {
        return Err(ValidationError::UnsafePartName(name.clone()));
    }
    if total > u64::MAX - size {
        return Err(ValidationError::ExpandedSize(MAX_UNCOMPRESSED_BYTES));
    }
    let t = total + size;
    if t > MAX_UNCOMPRESSED_BYTES {
        return Err(ValidationError::ExpandedSize(t));
    }
    Ok(t)
}

/// The outcome of checking the first `n` (name, size) entries, or the running total.
pub open spec fn entries_scan(entries: Seq<(Seq<char>, u64)>, n: int) -> Result<u64, ValidationErrorModel>
    decreases n,
{
    if n <= 0 {
        Ok(0)
    } else {
        match entries_scan(entries, n - 1) {
            Err(e) => Err(e),
            Ok(total) => entry_verdict(total, entries[n - 1].0, entries[n - 1].1),
        }
    }
}

/// The first required part that no entry is named, if any.
pub open spec fn first_missing(entries: Seq<(Seq<char>, u64)>, k: int) -> Option<Seq<char>>
    decreases 5 - k,
{
    if k < 0 || k >= 5 {
        None
    } else if exists|i: int| 0 <= i < entries.len() && #[trigger] entries[i].0 == required_parts()[k] {
        first_missing(entries, k + 1)
    } else {
        Some(required_parts()[k])
    }
}

/// The verdict on a package's (name, uncompressed size) entries.
pub open spec fn entries_verdict(entries: Seq<(Seq<char>, u64)>) -> Result<(), ValidationErrorModel> {
    if entries.len() > MAX_PARTS {
        Err(ValidationErrorModel::TooManyParts { actual: entries.len() as usize, limit: MAX_PARTS })
    } else {
        match entries_scan(entries, entries.len() as int) {
            Err(e) => Err(e),
            Ok(_) => match first_missing(entries, 0) {
                Some(p) => Err(ValidationErrorModel::MissingPart(p)),
                None => Ok(()),
            },
        }
    }
}

pub open spec fn entries_view(v: Seq<(String, u64)>) -> Seq<(Seq<char>, u64)> {
    v.map_values(|e: (String, u64)| (e.0@, e.1))
}

proof fn lemma_scan_err(entries: Seq<(Seq<char>, u64)>, k: int, n: int)
    requires
        0 <= k <= n,
        entries_scan(entries, k) is Err,
    ensures
        entries_scan(entries, n) == entries_scan(entries, k),
    decreases n - k,
{
    if k < n {
        lemma_scan_err(entries, k, n - 1);
    }
}

fn has_entry(entries: &Vec<(String, u64)>, name: &str) -> (r: bool)
    ensures
        r == exists|i: int| 0 <= i < entries@.len() && #[trigger] entries_view(entries@)[i].0 == name@,
{
    let t = owned(name);
    let ghost ev = entries_view(entries@);
    let mut i: usize = 0;
    while i < entries.len()
        invariant
            i <= entries@.len(),
            ev == entries_view(entries@),
            t@ == name@,
            forall|j: int| 0 <= j < i ==> #[trigger] ev[j].0 != name@,
        decreases entries@.len() - i,
    {
        assert(ev[i as int].0 == entries@[i as int].0@);
        if entries[i].0 == t {
            return true;
        }
        i = i + 1;
    }
    false
}

/// Checks the (name, uncompressed size) entries of a package, in order: the part count,
/// each name's safety and the running size, then the required parts.
pub fn check_entries(entries: &Vec<(String, u64)>) -> (r: Result<(), ValidationError>)
    ensures
        match r {
            Ok(()) => entries_verdict(entries_view(entries@)) is Ok,
            Err(e) => entries_verdict(entries_view(entries@)) == Err::<(), ValidationErrorModel>(e@),
        },
{
    let ghost ev = entries_view(entries@);
    if entries.len() > MAX_PARTS {
        return Err(ValidationError::TooManyParts { actual: entries.len(), limit: MAX_PARTS });
    }
    let mut total: u64 = 0;
    let mut i: usize = 0;
    while i < entries.len()
        invariant
            i <= entries@.len(),
            entries@.len() <= MAX_PARTS,
            ev == entries_view(entries@),
            entries_scan(ev, i as int) == Ok::<u64, ValidationErrorModel>(total),
        decreases entries@.len() - i,
    {
        assert(ev[i as int] == (entries@[i as int].0@, entries@[i as int].1));
        match check_entry(total, &entries[i].0, entries[i].1) {
            Ok(t) => {
                total = t;
            },
            Err(e) => {
                proof {
                    lemma_scan_err(ev, i + 1, ev.len() as int);
                }
                return Err(e);
            },
        }
        i = i + 1;
    }
    check_required_parts(entries)
}

/// Checks that every required part is among the entries, in the order of
/// `required_parts`.
pub fn check_required_parts(entries: &Vec<(String, u64)>) -> (r: Result<(), ValidationError>)
    ensures
        match first_missing(entries_view(entries@), 0) {
            Some(p) => r matches Err(e) && e@ == ValidationErrorModel::MissingPart(p),
            None => r is Ok,
        },
{
    let ghost ev = entries_view(entries@);
    let required: [&'static str; 5] = [
        "[Content_Types].xml",
        "_rels/.rels",
        "word/document.xml",
        "word/styles.xml",
        "word/_rels/document.xml.rels",
    ];
    let mut k: usize = 0;
    while k < 5
        invariant
            k <= 5,
            ev == entries_view(entries@),
            forall|j: int| 0 <= j < 5 ==> #[trigger] required@[j]@ == required_parts()[j],
            first_missing(ev, 0) == first_missing(ev, k as int),
        decreases 5 - k,
    {
        let part = required[k];
        assert(part@ == required_parts()[k as int]);
        if !has_entry(entries, part) {
            assert(!exists|i: int| 0 <= i < ev.len() && #[trigger] ev[i].0 == required_parts()[k as int]);
            assert(first_missing(ev, k as int) == Some(required_parts()[k as int]));
            return Err(ValidationError::MissingPart(part));
        }
        k = k + 1;
    }
    Ok(())
}

/// Refuses a package with more entries than the limit.
pub fn check_part_count(count: usize) -> (r: Result<(), ValidationError>)
    ensures
        r is Ok <==> count <= MAX_PARTS,
        r matches Err(e) ==> e@ == (ValidationErrorModel::TooManyParts {
            actual: count,
            limit: MAX_PARTS,
        }),
{
    if count > MAX_PARTS {
        Err(ValidationError::TooManyParts { actual: count, limit: MAX_PARTS })
    } else {
        Ok(())
    }
}

/// The XML parts whose document element is checked, each with the element it must have,
/// in the order they are checked.
pub open spec fn xml_parts_model() -> Seq<(Seq<char>, Seq<char>)> {
    seq![
        ("[Content_Types].xml"@, "Types"@),
        ("_rels/.rels"@, "Relationships"@),
        ("word/document.xml"@, "w:document"@),
        ("word/styles.xml"@, "w:styles"@),
        ("word/_rels/document.xml.rels"@, "Relationships"@),
    ]
}

/// The XML parts to check and their document elements.
pub fn xml_part_roots() -> (r: Vec<(&'static str, &'static str)>)
    ensures
        r@.len() == xml_parts_model().len(),
        forall|i: int| 0 <= i < r@.len() ==> (#[trigger] r@[i].0@, r@[i].1@) == xml_parts_model()[i],
{
    let mut r: Vec<(&'static str, &'static str)> = Vec::new();
    r.push(("[Content_Types].xml", "Types"));
    r.push(("_rels/.rels", "Relationships"));
    r.push(("word/document.xml", "w:document"));
    r.push(("word/styles.xml", "w:styles"));
    r.push(("word/_rels/document.xml.rels", "Relationships"));
    r
}

/// The declared `quick_xml` reader type.
#[verifier::external_type_specification]
#[verifier::external_body]
#[verifier::reject_recursive_types(R)]
pub struct ExReader<R>(Reader<R>);

/// What the structural check needs to know of one event read from an XML part.
#[derive(Debug, PartialEq, Eq)]
pub enum XmlSignal {
    /// A start or empty-element tag, by its qualified name.
    Element(String),
    /// A document type declaration.
    DocType,
    /// The end of the input.
    End,
    /// Any other event.
    Other,
    /// The reader failed, with its message.
    Failure(String),
}

pub enum SignalModel {
    Element(Seq<char>),
    DocType,
    End,
    Other,
    Failure(Seq<char>),
}

impl View for XmlSignal {
    type V = SignalModel;

    open spec fn view(&self) -> SignalModel {
        match self {
            XmlSignal::Element(n) => SignalModel::Element(n@),
            XmlSignal::DocType => SignalModel::DocType,
            XmlSignal::End => SignalModel::End,
            XmlSignal::Other => SignalModel::Other,
            XmlSignal::Failure(m) => SignalModel::Failure(m@),
        }
    }
}

/// Where the root check stands after one more event: keep reading (and whether the root
/// element was seen), or a verdict.
pub enum RootStep {
    Continue(bool),
    Done(Result<(), ValidationError>),
}

/// The effect of one event on the root check of `part`.
pub open spec fn root_step_model(
    saw_root: bool,
    s: SignalModel,
    part: Seq<char>,
    expected: Seq<char>,
) -> Option<(bool, Result<(), ValidationErrorModel>)> {
    match s {
        SignalModel::Element(n) => if !saw_root {
            if n != expected {
                Some(
                    (
                        false,
                        Err(ValidationErrorModel::WrongRoot { part, actual: n, expected }),
                    ),
                )
            } else {
                None
            }
        } else {
            None
        },
        SignalModel::DocType => Some((false, Err(ValidationErrorModel::Dtd { part }))),
        SignalModel::End => Some(
            (
                false,
                if saw_root {
                    Ok(())
                } else {
                    Err(
                        ValidationErrorModel::MalformedXml {
                            part,
                            message: "missing document element"@,
                        },
                    )
                },
            ),
        ),
        SignalModel::Other => None,
        SignalModel::Failure(m) => Some(
            (false, Err(ValidationErrorModel::MalformedXml { part, message: m })),
        ),
    }
}

/// Whether the root element has been seen once `s` is read.
pub open spec fn saw_root_after(saw_root: bool, s: SignalModel) -> bool {
    saw_root || s is Element
}

/// Judges one event of XML part `part`, whose root element must be `expected`: the first
/// element must be the root, a DTD is refused, a reader failure is malformed XML, and the
/// end of input needs the root to have been seen.
pub fn root_step(saw_root: bool, signal: XmlSignal, part: &str, expected: &'static str) -> (r: RootStep)
    ensures
        match root_step_model(saw_root, signal@, part@, expected@) {
            None => r == RootStep::Continue(saw_root_after(saw_root, signal@)),
            Some((_, verdict)) => r matches RootStep::Done(v) && match v {
                Ok(()) => verdict is Ok,
                Err(e) => verdict == Err::<(), ValidationErrorModel>(e@),
            },
        },
{
    match signal {
        XmlSignal::Element(name) => {
            if !saw_root {
                let e = owned(expected);
                if name != e {
                    return RootStep::Done(
                        Err(ValidationError::WrongRoot { part: owned(part), actual: name, expected }),
                    );
                }
            }
            RootStep::Continue(true)
        },
        XmlSignal::DocType => RootStep::Done(Err(ValidationError::Dtd { part: owned(part) })),
        XmlSignal::End => {
            if saw_root {
                RootStep::Done(Ok(()))
            } else {
                RootStep::Done(
                    Err(
                        ValidationError::MalformedXml {
                            part: owned(part),
                            message: owned("missing document element"),
                        },
                    ),
                )
            }
        },
        XmlSignal::Other => RootStep::Continue(saw_root),
        XmlSignal::Failure(message) => RootStep::Done(
            Err(ValidationError::MalformedXml { part: owned(part), message }),
        ),
    }
}

/// The verdict on a whole sequence of events, or `None` when it reaches no verdict.
pub open spec fn root_verdict(signals: Seq<SignalModel>, part: Seq<char>, expected: Seq<char>, saw_root: bool) -> Option<
    Result<(), ValidationErrorModel>,
>
    decreases signals.len(),
{
    if signals.len() == 0 {
        None
    } else {
        match root_step_model(saw_root, signals[0], part, expected) {
            Some((_, v)) => Some(v),
            None => root_verdict(
                signals.drop_first(),
                part,
                expected,
                saw_root_after(saw_root, signals[0]),
            ),
        }
    }
}

/// The `k`-th event (counting from 0) that a reader made by `xml_reader` over `xml`
/// returns, reduced to what the root check needs. The reader's events depend on its input
/// bytes alone.
pub uninterp spec fn xml_signal_at(xml: Seq<u8>, k: nat) -> SignalModel;

/// The input of a reader made by `xml_reader`, and how many events it has returned so far.
pub uninterp spec fn reader_progress(r: Reader<&[u8]>) -> (Seq<u8>, nat);

/// The first `xml.len() + 1` events a reader over `xml` returns. Every event but the end
/// consumes at least one byte, so the end of input comes among them.
pub open spec fn xml_signals(xml: Seq<u8>) -> Seq<SignalModel> {
    Seq::new(xml.len() + 1, |k: int| xml_signal_at(xml, k as nat))
}

/// `Reader::from_reader` over `bytes`, with end-tag names checked against their start tags:
/// a reader over `bytes` that has returned no event yet.
#[verifier::external_body]
fn xml_reader<'a>(bytes: &'a [u8]) -> (r: Reader<&'a [u8]>)
    ensures
        reader_progress(r) == (bytes@, 0nat),
{
    let mut reader = Reader::from_reader(bytes);
    reader.config_mut().check_end_names = true;
    reader
}

/// `Reader::read_event`, reduced to what the root check needs: the next event of the
/// reader's input, after which one more event has been returned.
#[verifier::external_body]
fn read_signal(reader: &mut Reader<&[u8]>) -> (s: XmlSignal)
    ensures
        s@ == xml_signal_at(reader_progress(*old(reader)).0, reader_progress(*old(reader)).1),
        reader_progress(*final(reader)) == (
            reader_progress(*old(reader)).0,
            reader_progress(*old(reader)).1 + 1,
        ),
{
    match reader.read_event() {
        Ok(Event::Start(start)) => XmlSignal::Element(
            start.name().as_ref().to_owned(),
        ),
        Ok(Event::Empty(start)) => XmlSignal::Element(
            start.name().as_ref().to_owned(),
        ),
        Ok(Event::DocType(_)) => XmlSignal::DocType,
        Ok(Event::Eof) => XmlSignal::End,
        Ok(_) => XmlSignal::Other,
        Err(error) => XmlSignal::Failure(error.to_string()),
    }
}

/// Checks that XML part `part` is well formed as far as the reader sees, holds no DTD, and
/// has the root element `expected`: the verdict of the root check over the reader's events
/// on `xml`. Every event consumes input, so the reader reaches the end within
/// `xml.len() + 1` reads; should it not, the part is reported as malformed.
pub fn validate_xml_part(xml: &[u8], part: &str, expected_root: &'static str) -> (r: Result<
    (),
    ValidationError,
>)
    ensures
        match root_verdict(xml_signals(xml@), part@, expected_root@, false) {
            Some(Ok(())) => r is Ok,
            Some(Err(e)) => r matches Err(x) && x@ == e,
            None => r matches Err(x) && x@ == (ValidationErrorModel::MalformedXml {
                part: part@,
                message: "the reader did not reach the end of the part"@,
            }),
        },
{
    let ghost all = xml_signals(xml@);
    let mut reader = xml_reader(xml);
    let mut saw_root = false;
    let ghost mut seen: Seq<SignalModel> = Seq::empty();
    let limit: u128 = xml.len() as u128 + 1;
    let mut reads: u128 = 0;
    assert(all.take(0) =~= seen);
    while reads < limit
        invariant
            limit == xml@.len() + 1,
            reads <= limit,
            all == xml_signals(xml@),
            seen == all.take(reads as int),
            reader_progress(reader) == (xml@, reads as nat),
            root_verdict(seen, part@, expected_root@, false) is None,
            forall|rest: Seq<SignalModel>| #[trigger] root_verdict(seen + rest, part@, expected_root@, false)
                == root_verdict(rest, part@, expected_root@, saw_root),
        decreases limit - reads,
    {
        let signal = read_signal(&mut reader);
        let ghost sv = signal@;
        assert(sv == all[reads as int]);
        let ghost rest = all.skip(reads + 1);
        proof {
            assert(all =~= seen + (seq![sv] + rest));
            assert(root_verdict(seen + seq![sv], part@, expected_root@, false) == root_verdict(
                seq![sv],
                part@,
                expected_root@,
                saw_root,
            ));
        }
        match root_step(saw_root, signal, part, expected_root) {
            RootStep::Done(verdict) => {
                proof {
                    assert(seq![sv].drop_first() =~= Seq::<SignalModel>::empty());
                    assert(root_verdict(seen + seq![sv], part@, expected_root@, false) is Some);
                    assert((seq![sv] + rest).drop_first() =~= rest);
                    assert(root_verdict(all, part@, expected_root@, false) == root_verdict(
                        seq![sv] + rest,
                        part@,
                        expected_root@,
                        saw_root,
                    ));
                }
                return verdict;
            },
            RootStep::Continue(next) => {
                proof {
                    assert(seq![sv].drop_first() =~= Seq::<SignalModel>::empty());
                    assert forall|rest: Seq<SignalModel>| #[trigger] root_verdict(
                        seen.push(sv) + rest,
                        part@,
                        expected_root@,
                        false,
                    ) == root_verdict(rest, part@, expected_root@, next) by {
                        assert(seen.push(sv) + rest =~= seen + (seq![sv] + rest));
                        assert((seq![sv] + rest).drop_first() =~= rest);
                    }
                    assert(seen.push(sv) =~= seen.push(sv) + Seq::<SignalModel>::empty());
                    assert(all.take(reads + 1) =~= seen.push(sv));
                    seen = seen.push(sv);
                }
                saw_root = next;
            },
        }
        reads = reads + 1;
    }
    assert(all.take(reads as int) =~= all);
    Err(
        ValidationError::MalformedXml {
            part: owned(part),
            message: owned("the reader did not reach the end of the part"),
        },
    )
}

/// The entries of the ZIP archive in `package`, in the archive's order: for each, its name
/// and uncompressed size, or `None` when `zip` cannot read that entry; `None` as a whole when
/// `ZipArchive::new` refuses the bytes.
pub uninterp spec fn zip_entries_of(package: Seq<u8>) -> Option<Seq<Option<(Seq<char>, u64)>>>;

/// The uncompressed bytes of entry `name` of the ZIP archive in `package`; `None` when `zip`
/// cannot find or read it.
pub uninterp spec fn zip_part_of(package: Seq<u8>, name: Seq<char>) -> Option<Seq<u8>>;

/// `ZipArchive::new` over the bytes of `package`, then `ZipArchive::len`; a refusal gives the
/// error's text.
#[verifier::external_body]
fn zip_entry_count(package: &[u8]) -> (r: Result<usize, String>)
    ensures
        r is Ok <==> zip_entries_of(package@) is Some,
        r matches Ok(n) ==> zip_entries_of(package@) matches Some(es) && n == es.len(),
{
    match ZipArchive::new(Cursor::new(package)) {
        Ok(archive) => Ok(archive.len()),
        Err(e) => Err(e.to_string()),
    }
}

/// `ZipArchive::new` over the bytes of `package`, then for each index `ZipArchive::by_index`
/// with the entry's `name` and `size`; each failure gives the error's text.
#[verifier::external_body]
fn zip_entries(package: &[u8]) -> (r: Result<Vec<Result<(String, u64), String>>, String>)
    ensures
        r is Ok <==> zip_entries_of(package@) is Some,
        r matches Ok(v) ==> zip_entries_of(package@) matches Some(es) && v@.len() == es.len() && (
        forall|i: int|
            0 <= i < es.len() ==> match #[trigger] v@[i] {
                Ok(e) => es[i] == Some((e.0@, e.1)),
                Err(_) => es[i] is None,
            }),
{
    let mut archive = ZipArchive::new(Cursor::new(package)).map_err(|e| e.to_string())?;
    let mut entries = Vec::new();
    for i in 0..archive.len() {
        entries.push(match archive.by_index(i) {
            Ok(e) => match e.name() {
                Ok(n) => Ok((n.into_owned(), e.size())),
                Err(x) => Err(x.to_string()),
            },
            Err(e) => Err(e.to_string()),
        });
    }
    Ok(entries)
}

/// `ZipArchive::new` over the bytes of `package`, `ZipArchive::by_name` and
/// `Read::read_to_end`: the part's bytes; a failure of the ZIP layer is a `Zip` error, one of
/// the read an `Io` error, each with the error's text.
#[verifier::external_body]
fn zip_part(package: &[u8], name: &str) -> (r: Result<Vec<u8>, ValidationError>)
    ensures
        r is Ok <==> zip_part_of(package@, name@) is Some,
        r matches Ok(b) ==> zip_part_of(package@, name@) == Some(b@),
        r matches Err(e) ==> e is Zip || e is Io,
{
    let mut archive = ZipArchive::new(Cursor::new(package)).map_err(|e| ValidationError::Zip(e.to_string()))?;
    let mut part = archive.by_name(name).map_err(|e| ValidationError::Zip(e.to_string()))?;
    let mut xml = Vec::new();
    part.read_to_end(&mut xml).map_err(|e| ValidationError::Io(e.to_string()))?;
    Ok(xml)
}

/// The verdict on a package: valid, refused for a reason, or failed in the ZIP layer (while
/// listing the entries, or while reading an XML part).
pub enum PackageVerdict {
    Valid,
    Refused(ValidationErrorModel),
    ZipFailure,
    PartFailure,
}

/// The first `n` listed entries checked in order, from a running size of 0: the running size,
/// or the verdict of the first entry that is unreadable or refused.
pub open spec fn listing_scan(es: Seq<Option<(Seq<char>, u64)>>, n: int) -> Result<u64, PackageVerdict>
    decreases n,
{
    if n <= 0 {
        Ok(0)
    } else {
        match listing_scan(es, n - 1) {
            Err(v) => Err(v),
            Ok(total) => match es[n - 1] {
                None => Err(PackageVerdict::ZipFailure),
                Some(e) => match entry_verdict(total, e.0, e.1) {
                    Ok(t) => Ok(t),
                    Err(x) => Err(PackageVerdict::Refused(x)),
                },
            },
        }
    }
}

/// The (name, size) pairs of entries that were all read.
pub open spec fn listing_names(es: Seq<Option<(Seq<char>, u64)>>) -> Seq<(Seq<char>, u64)> {
    es.map_values(|e: Option<(Seq<char>, u64)>| e->0)
}

/// The verdict on the XML parts from the `k`-th on, in the order of `xml_parts_model`.
pub open spec fn parts_verdict(package: Seq<u8>, k: int) -> PackageVerdict
    decreases 5 - k,
{
    if k < 0 || k >= 5 {
        PackageVerdict::Valid
    } else {
        let part = xml_parts_model()[k];
        match zip_part_of(package, part.0) {
            None => PackageVerdict::PartFailure,
            Some(xml) => match root_verdict(xml_signals(xml), part.0, part.1, false) {
                Some(Ok(())) => parts_verdict(package, k + 1),
                Some(Err(e)) => PackageVerdict::Refused(e),
                None => PackageVerdict::Refused(
                    ValidationErrorModel::MalformedXml {
                        part: part.0,
                        message: "the reader did not reach the end of the part"@,
                    },
                ),
            },
        }
    }
}

/// The verdict on the package in `package`: the part count, then each entry's name and the
/// running size, then the required parts, then the root of each XML part.
pub open spec fn package_verdict(package: Seq<u8>) -> PackageVerdict {
    match zip_entries_of(package) {
        None => PackageVerdict::ZipFailure,
        Some(es) => if es.len() > MAX_PARTS {
            PackageVerdict::Refused(
                ValidationErrorModel::TooManyParts { actual: es.len() as usize, limit: MAX_PARTS },
            )
        } else {
            match listing_scan(es, es.len() as int) {
                Err(v) => v,
                Ok(_) => match first_missing(listing_names(es), 0) {
                    Some(p) => PackageVerdict::Refused(ValidationErrorModel::MissingPart(p)),
                    None => parts_verdict(package, 0),
                },
            }
        },
    }
}

proof fn lemma_listing_err(es: Seq<Option<(Seq<char>, u64)>>, k: int, n: int)
    requires
        0 <= k <= n,
        listing_scan(es, k) is Err,
    ensures
        listing_scan(es, n) == listing_scan(es, k),
    decreases n - k,
{
    if k < n {
        lemma_listing_err(es, k, n - 1);
    }
}

/// Checks the DOCX package in `package`: its entries, its required parts and the root
/// element of each XML part.
pub fn validate_package(package: &[u8]) -> (r: Result<(), ValidationError>)
    ensures
        match package_verdict(package@) {
            PackageVerdict::Valid => r is Ok,
            PackageVerdict::Refused(e) => r matches Err(x) && x@ == e,
            PackageVerdict::ZipFailure => r matches Err(x) && x is Zip,
            PackageVerdict::PartFailure => r matches Err(x) && (x is Zip || x is Io),
        },
{
    let count = match zip_entry_count(package) {
        Ok(n) => n,
        Err(t) => return Err(ValidationError::Zip(t)),
    };
    check_part_count(count)?;
    let listing = match zip_entries(package) {
        Ok(v) => v,
        Err(t) => return Err(ValidationError::Zip(t)),
    };
    let ghost es = zip_entries_of(package@)->0;
    let mut entries: Vec<(String, u64)> = Vec::new();
    let mut total: u64 = 0;
    let mut i: usize = 0;
    assert(entries_view(entries@) =~= listing_names(es.take(0)));
    while i < listing.len()
        invariant
            i <= listing@.len(),
            listing@.len() == es.len(),
            es.len() <= MAX_PARTS,
            zip_entries_of(package@) == Some(es),
            forall|j: int|
                0 <= j < es.len() ==> match #[trigger] listing@[j] {
                    Ok(e) => es[j] == Some((e.0@, e.1)),
                    Err(_) => es[j] is None,
                },
            listing_scan(es, i as int) == Ok::<u64, PackageVerdict>(total),
            entries_view(entries@) == listing_names(es.take(i as int)),
        decreases listing@.len() - i,
    {
        let ghost li = listing@[i as int];
        match &listing[i] {
            Err(t) => {
                proof {
                    lemma_listing_err(es, i + 1, es.len() as int);
                }
                return Err(ValidationError::Zip(t.clone()));
            },
            Ok((name, size)) => {
                match check_entry(total, name, *size) {
                    Ok(t) => {
                        total = t;
                    },
                    Err(e) => {
                        proof {
                            lemma_listing_err(es, i + 1, es.len() as int);
                        }
                        return Err(e);
                    },
                }
                let ghost before = entries@;
                entries.push((owned(name.as_str()), *size));
                assert(es.take(i + 1) =~= es.take(i as int).push(es[i as int]));
                assert(entries_view(entries@) =~= entries_view(before).push((name@, *size)));
                assert(listing_names(es.take(i + 1)) =~= listing_names(es.take(i as int)).push(
                    (name@, *size),
                ));
            },
        }
        i = i + 1;
    }
    assert(es.take(i as int) =~= es);
    check_required_parts(&entries)?;
    let parts = xml_part_roots();
    let mut k: usize = 0;
    while k < parts.len()
        invariant
            k <= parts@.len(),
            parts@.len() == xml_parts_model().len(),
            forall|j: int| 0 <= j < parts@.len() ==> (#[trigger] parts@[j].0@, parts@[j].1@)
                == xml_parts_model()[j],
            package_verdict(package@) == parts_verdict(package@, k as int),
        decreases parts@.len() - k,
    {
        let (part, root) = parts[k];
        assert((part@, root@) == xml_parts_model()[k as int]);
        let xml = zip_part(package, part)?;
        validate_xml_part(&xml, part, root)?;
        k = k + 1;
    }
    Ok(())
}

} // verus!
