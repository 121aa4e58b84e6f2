//! The conversion report and the decisions a conversion makes around the parser.
use vstd::prelude::*;
use crate::document::ParseOutput;
use crate::fib::{doc_error_text, DocError, Fib};
use crate::ir::{no_stories, Document, Status, StoryCounts, StreamInfo, StreamKind};
use crate::paragraphs::{str_chars, strings_view};
use crate::strings::{decimal, owned, push_decimal};
use crate::tags::TagSet;
use crate::container::{
    cfb_entry_of, cfb_stream_of, cfb_walk_of, container_error_text, container_stream,
    open_container, ContainerError, MAX_CONTAINER_BYTES, MAX_STREAMS, MAX_STREAM_BYTES,
};
use crate::bytes::u16_at;
use crate::document::document_model;
use crate::fib::{fib_of, DocErrorModel};
use crate::document::parse_document;
use crate::fib::parse_fib;
use crate::ooxml::{docx_package, parts_model, zip_bytes_of, OoxmlError};
use crate::validation::{package_verdict, validate_package, validation_error_text, PackageVerdict};

verus! {

/// Name of the conversion engine in reports.
pub const ENGINE: &'static str = "DocxTheDocs";

/// Version of the conversion engine in reports.
pub const VERSION: &'static str = "0.1.0";

/// What a conversion found, did and could not do.
#[derive(Debug)]
pub struct CapabilityReport {
    pub engine: String,
    pub version: String,
    pub source_sha256: String,
    pub status: Status,
    pub features_seen: TagSet,
    pub unsupported: TagSet,
    pub warnings: Vec<String>,
    pub stories: StoryCounts,
    pub stream_inventory: Vec<StreamInfo>,
    pub pieces: usize,
    pub paragraphs: usize,
}

/// Options of a conversion (none yet).
#[derive(Debug, Clone, Copy, Default)]
pub struct ConvertOptions;

/// The declared path type that names a published output.
#[verifier::external_type_specification]
#[verifier::external_body]
pub struct ExPathBuf(std::path::PathBuf);

/// A successful conversion.
#[derive(Debug)]
pub struct ConvertResult {
    pub status: Status,
    pub report: CapabilityReport,
    pub output: std::path::PathBuf,
}

/// A failed conversion, with the report as far as it got.
#[derive(Debug)]
pub struct ConversionFailure {
    pub message: String,
    pub report: Box<CapabilityReport>,
}

/// A report of a conversion that recovered nothing.
pub fn empty_report(status: Status, source_sha256: String) -> (r: CapabilityReport)
    ensures
        r.engine@ == ENGINE@,
        r.version@ == VERSION@,
        r.source_sha256@ == source_sha256@,
        r.status == status,
        r.features_seen@ == Set::<Seq<char>>::empty(),
        r.unsupported@ == Set::<Seq<char>>::empty(),
        r.warnings@.len() == 0,
        r.stories == no_stories(),
        r.stream_inventory@.len() == 0,
        r.pieces == 0,
        r.paragraphs == 0,
{
    CapabilityReport {
        engine: owned(ENGINE),
        version: owned(VERSION),
        source_sha256,
        status,
        features_seen: TagSet::new(),
        unsupported: TagSet::new(),
        warnings: Vec::new(),
        stories: StoryCounts::zero(),
        stream_inventory: Vec::new(),
        pieces: 0,
        paragraphs: 0,
    }
}

/// A failure whose report recovered nothing; the message is its only warning.
pub fn failure(status: Status, source_sha256: String, message: String) -> (r: ConversionFailure)
    ensures
        r.message@ == message@,
        r.report.engine@ == ENGINE@,
        r.report.version@ == VERSION@,
        r.report.source_sha256@ == source_sha256@,
        r.report.status == status,
        r.report.features_seen@ == Set::<Seq<char>>::empty(),
        r.report.unsupported@ == Set::<Seq<char>>::empty(),
        strings_view(r.report.warnings@) == seq![message@],
        r.report.stories == no_stories(),
        r.report.stream_inventory@.len() == 0,
        r.report.pieces == 0,
        r.report.paragraphs == 0,
{
    let mut report = empty_report(status, source_sha256);
    report.warnings.push(message.clone());
    assert(strings_view(report.warnings@) =~= seq![message@]);
    ConversionFailure { message, report: Box::new(report) }
}

/// A failure after the report was complete: it becomes an internal error and the message is
/// added to its warnings.
pub fn failure_from_report(report: CapabilityReport, message: String) -> (r: ConversionFailure)
    ensures
        r.message@ == message@,
        r.report.status == Status::InternalError,
        strings_view(r.report.warnings@) == strings_view(report.warnings@).push(message@),
        r.report.engine == report.engine,
        r.report.version == report.version,
        r.report.source_sha256 == report.source_sha256,
        r.report.features_seen@ == report.features_seen@,
        r.report.unsupported@ == report.unsupported@,
        r.report.stories == report.stories,
        r.report.stream_inventory == report.stream_inventory,
        r.report.pieces == report.pieces,
        r.report.paragraphs == report.paragraphs,
{
    let mut report = report;
    let ghost before = report.warnings@;
    report.status = Status::InternalError;
    report.warnings.push(message.clone());
    assert(strings_view(report.warnings@) =~= strings_view(before).push(message@));
    ConversionFailure { message, report: Box::new(report) }
}

/// The status of a finished conversion: converted when nothing unsupported was met.
pub open spec fn status_of(unsupported: Set<Seq<char>>) -> Status {
    if unsupported == Set::<Seq<char>>::empty() {
        Status::Converted
    } else {
        Status::ConvertedWithWarnings
    }
}

/// The status of a finished conversion.
pub fn conversion_status(unsupported: &TagSet) -> (r: Status)
    ensures
        r == status_of(unsupported@),
{
    if unsupported.is_empty() {
        Status::Converted
    } else {
        Status::ConvertedWithWarnings
    }
}

/// The process exit code of a conversion status.
pub open spec fn exit_code_of(status: Status) -> i32 {
    match status {
        Status::Converted => 0,
        Status::ConvertedWithWarnings => 10,
        Status::UnsupportedSource => 20,
        Status::InvalidSource => 21,
        Status::InternalError => 30,
    }
}

/// The process exit code of a conversion status.
pub fn exit_code(status: Status) -> (r: i32)
    ensures
        r == exit_code_of(status),
{
    match status {
        Status::Converted => 0,
        Status::ConvertedWithWarnings => 10,
        Status::UnsupportedSource => 20,
        Status::InvalidSource => 21,
        Status::InternalError => 30,
    }
}

/// ASCII lower case of one character.
pub open spec fn ascii_lower(c: char) -> char {
    if 'A' <= c && c <= 'Z' {
        ((c as u32) + 32) as char
    } else {
        c
    }
}

/// ASCII lower case of a string.
pub open spec fn lower(s: Seq<char>) -> Seq<char> {
    s.map_values(|c: char| ascii_lower(c))
}

/// `p` occurs in `s`.
pub open spec fn occurs_in(p: Seq<char>, s: Seq<char>) -> bool {
    exists|i: int| 0 <= i && i + p.len() <= s.len() && #[trigger] s.subrange(i, i + p.len()) == p
}

fn to_ascii_lower(s: &str) -> (r: Vec<char>)
    ensures
        r@ == lower(s@),
{
    let chars = str_chars(s);
    let mut out: Vec<char> = Vec::new();
    let mut k: usize = 0;
    while k < chars.len()
        invariant
            k <= chars@.len(),
            chars@ == s@,
            out@ == lower(chars@.take(k as int)),
        decreases chars@.len() - k,
    {
        let c = chars[k];
        let l = if 'A' <= c && c <= 'Z' {
            char::from_u32(c as u32 + 32).unwrap_or(c)
        } else {
            c
        };
        assert(l == ascii_lower(c)) by {
            if 'A' <= c && c <= 'Z' {
                assert((c as u32 + 32) <= 0xD7FF);
            }
        }
        out.push(l);
        k = k + 1;
        assert(out@ =~= lower(chars@.take(k as int)));
    }
    assert(chars@.take(chars@.len() as int) =~= chars@);
    out
}

fn has_prefix(s: &Vec<char>, prefix: &str) -> (r: bool)
    ensures
        r == prefix@.is_prefix_of(s@),
{
    let p = str_chars(prefix);
    if p.len() > s.len() {
        return false;
    }
    let mut k: usize = 0;
    while k < p.len()
        invariant
            k <= p@.len() <= s@.len(),
            p@ == prefix@,
            forall|j: int| 0 <= j < k ==> #[trigger] s@[j] == p@[j],
        decreases p@.len() - k,
    {
        if s[k] != p[k] {
            assert(s@.subrange(0, p@.len() as int)[k as int] != p@[k as int]);
            return false;
        }
        k = k + 1;
    }
    assert(s@.subrange(0, p@.len() as int) =~= p@);
    true
}

fn has_infix(s: &Vec<char>, needle: &str) -> (r: bool)
    ensures
        r == occurs_in(needle@, s@),
{
    let p = str_chars(needle);
    if p.len() > s.len() {
        return false;
    }
    let mut i: usize = 0;
    while i <= s.len() - p.len()
        invariant
            p@ == needle@,
            p@.len() <= s@.len(),
            i <= s@.len() - p@.len() + 1,
            forall|j: int| 0 <= j < i ==> #[trigger] s@.subrange(j, j + p@.len()) != p@,
        decreases s@.len() - p@.len() + 1 - i,
    {
        let mut k: usize = 0;
        let mut same = true;
        let sl = s.len();
        while k < p.len()
            invariant
                k <= p@.len(),
                sl == s@.len(),
                i + p@.len() <= s@.len(),
                same == forall|j: int| 0 <= j < k ==> #[trigger] s@[i + j] == p@[j],
            decreases p@.len() - k,
        {
            if s[i + k] != p[k] {
                same = false;
            }
            k = k + 1;
        }
        if same {
            assert forall|j: int| 0 <= j < p@.len() implies #[trigger] s@.subrange(
                i as int,
                i + p@.len(),
            )[j] == p@[j] by {
                assert(s@[i + j] == p@[j]);
            }
            assert(s@.subrange(i as int, i + p@.len()) =~= p@);
            return true;
        }
        proof {
            let w = choose|j: int| 0 <= j < p@.len() && s@[i + j] != p@[j];
            assert(s@.subrange(i as int, i + p@.len())[w] != p@[w]);
        }
        i = i + 1;
    }
    false
}

/// An object pool storage: embedded objects.
pub open spec fn is_object_pool(path: Seq<char>) -> bool {
    "/objectpool"@.is_prefix_of(lower(path))
}

/// A VBA project or macro storage.
pub open spec fn is_macro_storage(path: Seq<char>) -> bool {
    occurs_in("/vba"@, lower(path)) || "/macros"@.is_prefix_of(lower(path))
}

/// A non-empty `Data` stream.
pub open spec fn is_data_stream(e: StreamInfo) -> bool {
    lower(e.path@) == "/data"@ && e.kind == StreamKind::Stream && e.size > 0
}

/// Capability tags that a compound-file inventory shows.
pub open spec fn container_features(inv: Seq<StreamInfo>) -> Set<Seq<char>> {
    Set::new(
        |t: Seq<char>|
            (t == "embedded-objects"@ && exists|i: int|
                0 <= i < inv.len() && is_object_pool(#[trigger] inv[i].path@)) || (t == "macros"@
                && exists|i: int| 0 <= i < inv.len() && is_macro_storage(#[trigger] inv[i].path@))
                || (t == "data-stream"@ && exists|i: int|
                0 <= i < inv.len() && is_data_stream(#[trigger] inv[i])),
    )
}

/// Tags, among those of the inventory, that the converter does not support.
pub open spec fn container_unsupported(inv: Seq<StreamInfo>) -> Set<Seq<char>> {
    Set::new(
        |t: Seq<char>|
            (t == "embedded-objects"@ && exists|i: int|
                0 <= i < inv.len() && is_object_pool(#[trigger] inv[i].path@)) || (t == "macros"@
                && exists|i: int| 0 <= i < inv.len() && is_macro_storage(#[trigger] inv[i].path@)),
    )
}

fn entry_tags(entry: &StreamInfo, features_seen: &mut TagSet, unsupported: &mut TagSet)
    ensures
        final(features_seen)@ == old(features_seen)@.union(container_features(seq![*entry])),
        final(unsupported)@ == old(unsupported)@.union(container_unsupported(seq![*entry])),
{
    let lower_path = to_ascii_lower(entry.path.as_str());
    let pool = has_prefix(&lower_path, "/objectpool");
    if pool {
        features_seen.insert("embedded-objects");
        unsupported.insert("embedded-objects");
    }
    let macros = has_infix(&lower_path, "/vba") || has_prefix(&lower_path, "/macros");
    if macros {
        features_seen.insert("macros");
        unsupported.insert("macros");
    }
    let is_data = lower_path.len() == 5 && has_prefix(&lower_path, "/data");
    proof {
        reveal_strlit("/data");
        if is_data {
            assert(lower_path@ =~= "/data"@);
        }
        if lower_path@ == "/data"@ {
            assert(lower_path@.len() == 5);
        }
    }
    if is_data && entry.kind == StreamKind::Stream && entry.size > 0 {
        features_seen.insert("data-stream");
    }
    let ghost one = seq![*entry];
    assert(one[0] == *entry);
    assert(features_seen@ =~= old(features_seen)@.union(container_features(one)));
    assert(unsupported@ =~= old(unsupported)@.union(container_unsupported(one)));
}

/// Records what the compound-file inventory shows: embedded objects and macros (both also
/// unsupported) and a non-empty data stream.
pub fn add_container_capabilities(
    inventory: &[StreamInfo],
    features_seen: &mut TagSet,
    unsupported: &mut TagSet,
)
    ensures
        final(features_seen)@ == old(features_seen)@.union(container_features(inventory@)),
        final(unsupported)@ == old(unsupported)@.union(container_unsupported(inventory@)),
{
    let mut k: usize = 0;
    assert(old(features_seen)@.union(container_features(inventory@.take(0))) =~= old(features_seen)@);
    assert(old(unsupported)@.union(container_unsupported(inventory@.take(0))) =~= old(unsupported)@);
    while k < inventory.len()
        invariant
            k <= inventory@.len(),
            features_seen@ == old(features_seen)@.union(container_features(inventory@.take(k as int))),
            unsupported@ == old(unsupported)@.union(container_unsupported(inventory@.take(k as int))),
        decreases inventory@.len() - k,
    {
        let ghost f0 = features_seen@;
        let ghost u0 = unsupported@;
        entry_tags(&inventory[k], features_seen, unsupported);
        proof {
            let prev = inventory@.take(k as int);
            let next = inventory@.take(k + 1);
            let one = seq![inventory@[k as int]];
            assert forall|t: Seq<char>| container_features(next).contains(t) == (container_features(
                prev,
            ).contains(t) || container_features(one).contains(t)) by {
                if t == "embedded-objects"@ {
                    if exists|i: int| 0 <= i < next.len() && is_object_pool(#[trigger] next[i].path@) {
                        let i = choose|i: int| 0 <= i < next.len() && is_object_pool(#[trigger] next[i].path@);
                        if i < k {
                            assert(prev[i] == next[i]);
                        } else {
                            assert(one[0] == next[i]);
                        }
                    }
                }
                if t == "macros"@ {
                    if exists|i: int| 0 <= i < next.len() && is_macro_storage(#[trigger] next[i].path@) {
                        let i = choose|i: int| 0 <= i < next.len() && is_macro_storage(#[trigger] next[i].path@);
                        if i < k {
                            assert(prev[i] == next[i]);
                        } else {
                            assert(one[0] == next[i]);
                        }
                    }
                }
                if t == "data-stream"@ {
                    if exists|i: int| 0 <= i < next.len() && is_data_stream(#[trigger] next[i]) {
                        let i = choose|i: int| 0 <= i < next.len() && is_data_stream(#[trigger] next[i]);
                        if i < k {
                            assert(prev[i] == next[i]);
                        } else {
                            assert(one[0] == next[i]);
                        }
                    }
                }
                if container_features(prev).contains(t) {
                    if t == "embedded-objects"@ && exists|i: int| 0 <= i < prev.len() && is_object_pool(#[trigger] prev[i].path@) {
                        let i = choose|i: int| 0 <= i < prev.len() && is_object_pool(#[trigger] prev[i].path@);
                        assert(next[i] == prev[i]);
                    }
                    if t == "macros"@ && exists|i: int| 0 <= i < prev.len() && is_macro_storage(#[trigger] prev[i].path@) {
                        let i = choose|i: int| 0 <= i < prev.len() && is_macro_storage(#[trigger] prev[i].path@);
                        assert(next[i] == prev[i]);
                    }
                    if t == "data-stream"@ && exists|i: int| 0 <= i < prev.len() && is_data_stream(#[trigger] prev[i]) {
                        let i = choose|i: int| 0 <= i < prev.len() && is_data_stream(#[trigger] prev[i]);
                        assert(next[i] == prev[i]);
                    }
                }
                if container_features(one).contains(t) {
                    assert(next[k as int] == one[0]);
                }
            }
            assert forall|t: Seq<char>| container_unsupported(next).contains(t) == (container_unsupported(
                prev,
            ).contains(t) || container_unsupported(one).contains(t)) by {
                if t == "embedded-objects"@ {
                    if exists|i: int| 0 <= i < next.len() && is_object_pool(#[trigger] next[i].path@) {
                        let i = choose|i: int| 0 <= i < next.len() && is_object_pool(#[trigger] next[i].path@);
                        if i < k {
                            assert(prev[i] == next[i]);
                        } else {
                            assert(one[0] == next[i]);
                        }
                    }
                }
                if t == "macros"@ {
                    if exists|i: int| 0 <= i < next.len() && is_macro_storage(#[trigger] next[i].path@) {
                        let i = choose|i: int| 0 <= i < next.len() && is_macro_storage(#[trigger] next[i].path@);
                        if i < k {
                            assert(prev[i] == next[i]);
                        } else {
                            assert(one[0] == next[i]);
                        }
                    }
                }
                if container_unsupported(prev).contains(t) {
                    if t == "embedded-objects"@ && exists|i: int| 0 <= i < prev.len() && is_object_pool(#[trigger] prev[i].path@) {
                        let i = choose|i: int| 0 <= i < prev.len() && is_object_pool(#[trigger] prev[i].path@);
                        assert(next[i] == prev[i]);
                    }
                    if t == "macros"@ && exists|i: int| 0 <= i < prev.len() && is_macro_storage(#[trigger] prev[i].path@) {
                        let i = choose|i: int| 0 <= i < prev.len() && is_macro_storage(#[trigger] prev[i].path@);
                        assert(next[i] == prev[i]);
                    }
                }
                if container_unsupported(one).contains(t) {
                    assert(next[k as int] == one[0]);
                }
            }
            assert(features_seen@ =~= old(features_seen)@.union(container_features(next)));
            assert(unsupported@ =~= old(unsupported)@.union(container_unsupported(next)));
        }
        k = k + 1;
    }
    assert(inventory@.take(inventory@.len() as int) =~= inventory@);
}

/// The report of a document that was parsed: the parser's tags plus those of the
/// inventory, the status they give, the parser's warnings and counts. Also hands back the
/// document for writing.
pub fn finish_report(parsed: ParseOutput, source_sha256: String, inventory: Vec<StreamInfo>) -> (r: (
    CapabilityReport,
    Document,
))
    ensures
        r.0.engine@ == ENGINE@,
        r.0.version@ == VERSION@,
        r.0.source_sha256@ == source_sha256@,
        r.0.features_seen@ == parsed.features_seen@.union(container_features(inventory@)),
        r.0.unsupported@ == parsed.unsupported@.union(container_unsupported(inventory@)),
        r.0.status == status_of(r.0.unsupported@),
        r.0.warnings == parsed.warnings,
        r.0.stories == parsed.fib.stories,
        r.0.stream_inventory == inventory,
        r.0.pieces == parsed.piece_count,
        r.0.paragraphs == parsed.document@.paragraphs.len(),
        r.1 == parsed.document,
{
    let ParseOutput { document, fib, features_seen, unsupported, warnings, piece_count } = parsed;
    let mut features_seen = features_seen;
    let mut unsupported = unsupported;
    add_container_capabilities(inventory.as_slice(), &mut features_seen, &mut unsupported);
    let status = conversion_status(&unsupported);
    let paragraphs = document.paragraphs.len();
    let report = CapabilityReport {
        engine: owned(ENGINE),
        version: owned(VERSION),
        source_sha256,
        status,
        features_seen,
        unsupported,
        warnings,
        stories: fib.stories,
        stream_inventory: inventory,
        pieces: piece_count,
        paragraphs,
    };
    (report, document)
}

/// The failure of a document whose FIB was refused: an encrypted document is an unsupported
/// source (tagged `encryption`, with the inventory); any other error an invalid one.
pub fn fib_failure(error: DocError, source_sha256: String, inventory: Vec<StreamInfo>) -> (r: ConversionFailure)
    ensures
        error is Encrypted ==> {
            &&& r.message@ == "encrypted or obfuscated DOC files are not supported by the native converter"@
            &&& r.report.status == Status::UnsupportedSource
            &&& r.report.features_seen@ == set!["encryption"@]
            &&& r.report.unsupported@ == set!["encryption"@]
            &&& r.report.stream_inventory == inventory
            &&& strings_view(r.report.warnings@) == seq![r.message@]
        },
        !(error is Encrypted) ==> {
            &&& r.message@ == "invalid FIB: "@ + doc_error_text(error)
            &&& r.report.status == Status::InvalidSource
            &&& r.report.features_seen@ == Set::<Seq<char>>::empty()
            &&& r.report.unsupported@ == Set::<Seq<char>>::empty()
            &&& r.report.stream_inventory@.len() == 0
            &&& strings_view(r.report.warnings@) == seq![r.message@]
        },
        r.report.source_sha256@ == source_sha256@,
        r.report.engine@ == ENGINE@,
        r.report.version@ == VERSION@,
        r.report.stories == no_stories(),
        r.report.pieces == 0,
        r.report.paragraphs == 0,
{
    match error {
        DocError::Encrypted => {
            let result = failure(
                Status::UnsupportedSource,
                source_sha256,
                owned("encrypted or obfuscated DOC files are not supported by the native converter"),
            );
            let mut report = *result.report;
            report.features_seen.insert("encryption");
            report.unsupported.insert("encryption");
            report.stream_inventory = inventory;
            assert(report.features_seen@ =~= set!["encryption"@]);
            assert(report.unsupported@ =~= set!["encryption"@]);
            ConversionFailure { message: result.message, report: Box::new(report) }
        },
        _ => {
            let mut message = owned("invalid FIB: ");
            message.push_str(error.message().as_str());
            failure(Status::InvalidSource, source_sha256, message)
        },
    }
}

/// The failure of a document whose structures the parser refused.
pub fn parse_failure(error: DocError, source_sha256: String) -> (r: ConversionFailure)
    ensures
        r.message@ == "invalid Word document structures: "@ + doc_error_text(error),
        r.report.status == Status::InvalidSource,
        r.report.source_sha256@ == source_sha256@,
        strings_view(r.report.warnings@) == seq![r.message@],
        r.report.features_seen@ == Set::<Seq<char>>::empty(),
        r.report.unsupported@ == Set::<Seq<char>>::empty(),
        r.report.engine@ == ENGINE@,
        r.report.version@ == VERSION@,
        r.report.stories == no_stories(),
        r.report.stream_inventory@.len() == 0,
        r.report.pieces == 0,
        r.report.paragraphs == 0,
{
    let mut message = owned("invalid Word document structures: ");
    message.push_str(error.message().as_str());
    failure(Status::InvalidSource, source_sha256, message)
}

/// The extension names `expected`, ignoring ASCII case.
pub open spec fn extension_is(ext: Option<Seq<char>>, expected: Seq<char>) -> bool {
    match ext {
        Some(e) => lower(e) == expected,
        None => false,
    }
}

fn lower_equals(s: &str, expected: &str) -> (r: bool)
    ensures
        r == (lower(s@) == expected@),
{
    let l = to_ascii_lower(s);
    let e = str_chars(expected);
    if l.len() != e.len() {
        return false;
    }
    let mut k: usize = 0;
    while k < l.len()
        invariant
            k <= l@.len(),
            l@.len() == e@.len(),
            l@ == lower(s@),
            e@ == expected@,
            forall|j: int| 0 <= j < k ==> #[trigger] l@[j] == e@[j],
        decreases l@.len() - k,
    {
        if l[k] != e[k] {
            return false;
        }
        k = k + 1;
    }
    assert(l@ =~= e@);
    true
}

/// Checks the extensions of a source and a destination: `.doc` and `.docx`, ignoring ASCII
/// case. The paths are shown in the messages as given.
pub fn check_extensions(
    input_extension: Option<&str>,
    output_extension: Option<&str>,
    input_display: &str,
    output_display: &str,
) -> (r: Result<(), String>)
    ensures
        match r {
            Ok(()) => extension_is(
                match input_extension {
                    Some(e) => Some(e@),
                    None => None,
                },
                "doc"@,
            ) && extension_is(
                match output_extension {
                    Some(e) => Some(e@),
                    None => None,
                },
                "docx"@,
            ),
            Err(m) => if !extension_is(
                match input_extension {
                    Some(e) => Some(e@),
                    None => None,
                },
                "doc"@,
            ) {
                m@ == "source must have a .doc extension: "@ + input_display@
            } else {
                !extension_is(
                    match output_extension {
                        Some(e) => Some(e@),
                        None => None,
                    },
                    "docx"@,
                ) && m@ == "destination must have a .docx extension: "@ + output_display@
            },
        },
{
    let input_ok = match input_extension {
        Some(e) => lower_equals(e, "doc"),
        None => false,
    };
    if !input_ok {
        let mut m = owned("source must have a .doc extension: ");
        m.push_str(input_display);
        return Err(m);
    }
    let output_ok = match output_extension {
        Some(e) => lower_equals(e, "docx"),
        None => false,
    };
    if !output_ok {
        let mut m = owned("destination must have a .docx extension: ");
        m.push_str(output_display);
        return Err(m);
    }
    Ok(())
}

/// The name of the temporary file a destination named `name` is first written to.
pub open spec fn temporary_name(name: Option<Seq<char>>, process: u32, sequence: u64) -> Seq<char> {
    seq!['.'] + match name {
        Some(n) => n,
        None => "output.docx"@,
    } + seq!['.'] + decimal(process as nat) + seq!['.'] + decimal(sequence as nat) + ".tmp"@
}

/// The name of the temporary file a destination named `name` is first written to.
pub fn temporary_file_name(name: Option<&str>, process: u32, sequence: u64) -> (r: String)
    ensures
        r@ == temporary_name(
            match name {
                Some(n) => Some(n@),
                None => None,
            },
            process,
            sequence,
        ),
{
    let mut s = owned(".");
    match name {
        Some(n) => s.push_str(n),
        None => s.push_str("output.docx"),
    }
    s.push_str(".");
    push_decimal(&mut s, process as u64);
    s.push_str(".");
    push_decimal(&mut s, sequence);
    s.push_str(".tmp");
    proof {
        reveal_strlit(".");
        reveal_strlit(".tmp");
    }
    assert(s@ =~= temporary_name(
        match name {
            Some(n) => Some(n@),
            None => None,
        },
        process,
        sequence,
    ));
    s
}

/// The container path of the table stream that the FIB names.
pub fn table_stream_path(fib: &Fib) -> (r: String)
    ensures
        r@ == seq!['/'] + fib.table_stream@,
{
    let mut s = String::new();
    s.push('/');
    s.push_str(fib.table_stream);
    s
}

/// The inventory lists a `/Data` entry.
pub fn has_data_stream(inventory: &[StreamInfo]) -> (r: bool)
    ensures
        r == exists|i: int| 0 <= i < inventory@.len() && #[trigger] inventory@[i].path@ == "/Data"@,
{
    let data = owned("/Data");
    let mut k: usize = 0;
    while k < inventory.len()
        invariant
            k <= inventory@.len(),
            data@ == "/Data"@,
            forall|j: int| 0 <= j < k ==> #[trigger] inventory@[j].path@ != "/Data"@,
        decreases inventory@.len() - k,
    {
        if inventory[k].path == data {
            return true;
        }
        k = k + 1;
    }
    false
}

/// Where a conversion stands between two pieces of outside work.
pub enum ConversionState {
    /// Nothing is done; the paths are to be checked.
    Start,
    /// The paths are accepted; the source is to be hashed.
    Hashing,
    /// The source is hashed; its bytes are to be loaded.
    Loading { source_sha256: String },
    /// The document is converted and its package built; the output directory is to be made.
    Creating { report: CapabilityReport, package: Result<Vec<u8>, OoxmlError> },
    /// The package is to be written to the temporary file.
    Writing { report: CapabilityReport },
    /// The written package is to be read back and checked.
    Checking { report: CapabilityReport },
    /// The checked package is to be published at the destination.
    Publishing { report: CapabilityReport },
    /// The conversion is over.
    Finished,
}

/// The outcome of a piece of outside work. A failure carries the texts its message is
/// made of: a path as shown, and the error's own text.
pub enum ConversionEvent {
    /// The paths were checked: accepted, or refused with a message.
    PathsChecked(Result<(), String>),
    /// The source was hashed (the SHA-256 in hex), or could not be read (path, error).
    SourceHashed(Result<String, (String, String)>),
    /// The source's bytes, or the container error that stopped loading them.
    SourceLoaded(Result<Vec<u8>, ContainerError>),
    /// The output directory exists, or could not be made (path, error).
    DirectoryReady(Result<(), (String, String)>),
    /// The package was written to the temporary file, or the I/O error's text.
    PackageWritten(Result<(), String>),
    /// The bytes read back from the temporary file, or the I/O error's text.
    PackageReadBack(Result<Vec<u8>, String>),
    /// The temporary file was renamed to the destination, or could not be (path, error).
    Published(Result<(), (String, String)>),
}

/// The outside work to do next, or the end of the conversion.
pub enum ConversionAction {
    HashSource,
    LoadSource,
    CreateDirectory,
    WritePackage(Vec<u8>),
    ReadPackage,
    PublishPackage,
    Finish(Result<CapabilityReport, ConversionFailure>),
}

/// The event is the outcome of the work that `state` waits for.
pub open spec fn event_fits(state: ConversionState, event: ConversionEvent) -> bool {
    match state {
        ConversionState::Start => event is PathsChecked,
        ConversionState::Hashing => event is SourceHashed,
        ConversionState::Loading { .. } => event is SourceLoaded,
        ConversionState::Creating { .. } => event is DirectoryReady,
        ConversionState::Writing { .. } => event is PackageWritten,
        ConversionState::Checking { .. } => event is PackageReadBack,
        ConversionState::Publishing { .. } => event is Published,
        ConversionState::Finished => false,
    }
}

/// Whether `event` is the outcome of the work that `state` waits for.
pub fn accepts(state: &ConversionState, event: &ConversionEvent) -> (r: bool)
    ensures
        r == event_fits(*state, *event),
{
    match state {
        ConversionState::Start => matches!(event, ConversionEvent::PathsChecked(_)),
        ConversionState::Hashing => matches!(event, ConversionEvent::SourceHashed(_)),
        ConversionState::Loading { .. } => matches!(event, ConversionEvent::SourceLoaded(_)),
        ConversionState::Creating { .. } => matches!(event, ConversionEvent::DirectoryReady(_)),
        ConversionState::Writing { .. } => matches!(event, ConversionEvent::PackageWritten(_)),
        ConversionState::Checking { .. } => matches!(event, ConversionEvent::PackageReadBack(_)),
        ConversionState::Publishing { .. } => matches!(event, ConversionEvent::Published(_)),
        ConversionState::Finished => false,
    }
}

/// The document was parsed: a failure from here on is an internal error.
pub open spec fn after_parsing(state: ConversionState) -> bool {
    state is Creating || state is Writing || state is Checking || state is Publishing
}

/// Message of the failure of an encrypted source.
pub open spec fn encrypted_text() -> Seq<char> {
    "encrypted or obfuscated DOC files are not supported by the native converter"@
}

fn joined(prefix: &str, rest: &str) -> (r: String)
    ensures
        r@ == prefix@ + rest@,
{
    let mut s = owned(prefix);
    s.push_str(rest);
    s
}

fn finished(f: ConversionFailure) -> (r: (ConversionState, ConversionAction))
    ensures
        r.0 is Finished,
        r.1 == ConversionAction::Finish(Err(f)),
{
    (ConversionState::Finished, ConversionAction::Finish(Err(f)))
}

/// The compound file in `source` opens within the limits on its size and its entries.
pub open spec fn container_opens(source: Seq<u8>) -> bool {
    source.len() <= MAX_CONTAINER_BYTES && (cfb_walk_of(source) matches Some(w) && w.len()
        <= MAX_STREAMS)
}

/// The bytes of stream `path` of the compound file in `source`, when it is a stream within
/// the size limit and can be read.
pub open spec fn stream_read(source: Seq<u8>, path: Seq<char>) -> Option<Seq<u8>> {
    match cfb_entry_of(source, path) {
        Some((is_stream, len)) => if is_stream && len <= MAX_STREAM_BYTES {
            cfb_stream_of(source, path)
        } else {
            None
        },
        None => None,
    }
}

/// The container path of the table stream that the FIB of `w` names.
pub open spec fn table_path(w: Seq<u8>) -> Seq<char> {
    seq!['/'] + if u16_at(w, 10) & 0x0200 != 0 {
        "1Table"@
    } else {
        "0Table"@
    }
}

/// What converting the loaded `source` comes to, stage by stage: the container, the
/// `WordDocument` stream, the FIB, the table stream, then the parse of the document, whose
/// success decides between going on and failing.
pub open spec fn loaded_outcome(source: Seq<u8>, r: (ConversionState, ConversionAction)) -> bool {
    if !container_opens(source) {
        r.1 matches ConversionAction::Finish(Err(x))
            && "invalid CFB/OLE container: "@.is_prefix_of(x.message@)
    } else {
        match stream_read(source, "/WordDocument"@) {
            None => r.1 matches ConversionAction::Finish(Err(x))
                && "invalid Word binary document: "@.is_prefix_of(x.message@),
            Some(w) => match crate::fib::fib_failure(w) {
                Some(e) => r.1 matches ConversionAction::Finish(Err(x)) && (e is Encrypted
                    <==> x.report.status == Status::UnsupportedSource) && (!(e is Encrypted)
                    ==> "invalid FIB: "@.is_prefix_of(x.message@)),
                None => match stream_read(source, table_path(w)) {
                    None => r.1 matches ConversionAction::Finish(Err(x))
                        && "invalid table stream: "@.is_prefix_of(x.message@),
                    Some(t) => {
                        &&& r.0 matches ConversionState::Creating { report, package } ==> exists|
                            f: Fib,
                            d: Seq<u8>,
                        |
                            fib_of(f, w) && (d.len() == 0 || stream_read(source, "/Data"@)
                                == Some(d)) && (#[trigger] document_model(w, t, d, f) matches Ok(m)
                                && report.paragraphs == m.document.paragraphs.len()
                                && report.pieces == m.piece_count && (package matches Ok(b)
                                ==> zip_bytes_of(parts_model(m.document)) == Some(b@)))
                        &&& r.0 is Finished ==> (r.1 matches ConversionAction::Finish(Err(x))
                            && "invalid Word document structures: "@.is_prefix_of(x.message@))
                            && exists|f: Fib, d: Seq<u8>|
                            fib_of(f, w) && (d.len() == 0 || stream_read(source, "/Data"@)
                            == Some(d)) && #[trigger] document_model(w, t, d, f) is Err
                    },
                },
            },
        }
    }
}

fn prefix_kept(prefix: &str, rest: &str) -> (r: String)
    ensures
        r@ == prefix@ + rest@,
        prefix@.is_prefix_of(r@),
{
    let r = joined(prefix, rest);
    assert(r@.subrange(0, prefix@.len() as int) =~= prefix@);
    r
}

/// Converts the loaded source: its container, its streams, the FIB, the document, the
/// report and the package.
fn load_source(source: &[u8], source_sha256: String) -> (r: (ConversionState, ConversionAction))
    ensures
        loaded_outcome(source@, r),
        r.0 is Finished ==> (r.1 matches ConversionAction::Finish(Err(f)) && f.report.source_sha256@
            == source_sha256@ && (f.report.status == Status::InvalidSource || (f.report.status
            == Status::UnsupportedSource && f.message@ == encrypted_text()))),
        r.0 is Finished || r.0 is Creating,
        r.0 matches ConversionState::Creating { report, .. } ==> report.source_sha256@
            == source_sha256@ && r.1 is CreateDirectory,
{
    let inventory = match open_container(source) {
        Ok(inv) => inv,
        Err(e) => {
            let m = prefix_kept("invalid CFB/OLE container: ", e.message().as_str());
            return finished(failure(Status::InvalidSource, source_sha256, m));
        },
    };
    let word_document = match container_stream(source, "/WordDocument") {
        Ok(b) => b,
        Err(e) => {
            let m = prefix_kept("invalid Word binary document: ", e.message().as_str());
            return finished(failure(Status::InvalidSource, source_sha256, m));
        },
    };
    let fib = match parse_fib(&word_document) {
        Ok(f) => f,
        Err(e) => return finished(fib_failure(e, source_sha256, inventory)),
    };
    let table_name = table_stream_path(&fib);
    let table_stream = match container_stream(source, table_name.as_str()) {
        Ok(b) => b,
        Err(e) => {
            let m = prefix_kept("invalid table stream: ", e.message().as_str());
            return finished(failure(Status::InvalidSource, source_sha256, m));
        },
    };
    let data_stream = if has_data_stream(inventory.as_slice()) {
        match container_stream(source, "/Data") {
            Ok(b) => b,
            Err(_) => Vec::new(),
        }
    } else {
        Vec::new()
    };
    assert(table_name@ == table_path(word_document@));
    let ghost d = data_stream@;
    assert(d.len() == 0 || stream_read(source@, "/Data"@) == Some(d));
    let parsed = match parse_document(&word_document, &table_stream, &data_stream, fib) {
        Ok(p) => p,
        Err(e) => {
            let out = parse_failure(e, source_sha256);
            let ghost p = "invalid Word document structures: "@;
            assert(out.message@.subrange(0, p.len() as int) =~= p);
            assert(document_model(word_document@, table_stream@, d, fib) is Err);
            return finished(out);
        },
    };
    assert(document_model(word_document@, table_stream@, d, fib) is Ok);
    let (report, document) = finish_report(parsed, source_sha256, inventory);
    let package = docx_package(&document);
    (ConversionState::Creating { report, package }, ConversionAction::CreateDirectory)
}

/// One decision of a conversion: given where it stands and the outcome of the work it
/// waited for, where it stands next and what to do. The package is published only once it
/// was read back and found valid; a failure ends the conversion, as an invalid (or, when
/// encrypted, unsupported) source before the document is parsed and as an internal error
/// after.
pub fn conversion_step(state: ConversionState, event: ConversionEvent) -> (r: (
    ConversionState,
    ConversionAction,
))
    requires
        event_fits(state, event),
    ensures
        r.1 is Finish <==> r.0 is Finished,
        r.0 is Finished ==> forall|e: ConversionEvent| !event_fits(r.0, e),
        r.1 is PublishPackage <==> (state is Checking && (event matches ConversionEvent::PackageReadBack(
            Ok(b),
        ) && package_verdict(b@) is Valid)),
        r.1 matches ConversionAction::Finish(Err(f)) ==> if after_parsing(state) {
            f.report.status == Status::InternalError
        } else {
            f.report.status == Status::InvalidSource || (f.report.status
                == Status::UnsupportedSource && f.message@ == encrypted_text())
        },
        r.1 matches ConversionAction::Finish(Ok(rep)) ==> (state matches ConversionState::Publishing {
            report,
        } && (event matches ConversionEvent::Published(Ok(_))) && rep == report),
        event matches ConversionEvent::PathsChecked(Ok(_)) ==> r.0 is Hashing && r.1 is HashSource,
        event matches ConversionEvent::PathsChecked(Err(m)) ==> (r.1 matches ConversionAction::Finish(
            Err(f),
        ) && f.message@ == m@ && f.report.source_sha256@ == Seq::<char>::empty()),
        event matches ConversionEvent::SourceHashed(Ok(h)) ==> (r.0 matches ConversionState::Loading {
            source_sha256,
        } && source_sha256@ == h@ && r.1 is LoadSource),
        event matches ConversionEvent::SourceHashed(Err(pe)) ==> (r.1 matches ConversionAction::Finish(
            Err(f),
        ) && f.message@ == "could not read source DOC "@ + pe.0@ + ": "@ + pe.1@
            && f.report.source_sha256@ == Seq::<char>::empty()),
        event matches ConversionEvent::SourceLoaded(Err(e)) ==> (r.1 matches ConversionAction::Finish(
            Err(f),
        ) && ("invalid CFB/OLE container: "@ + container_error_text(e)).is_prefix_of(f.message@)
            && (!(e is Io) ==> f.message@ == "invalid CFB/OLE container: "@ + container_error_text(
            e,
        ))),
        state is Loading ==> match event {
            ConversionEvent::SourceLoaded(Ok(b)) => loaded_outcome(b@, r),
            _ => true,
        },
        state matches ConversionState::Loading { source_sha256 } ==> {
            &&& r.0 is Finished || r.0 is Creating
            &&& r.1 matches ConversionAction::Finish(Err(f)) ==> f.report.source_sha256@
                == source_sha256@
            &&& r.0 matches ConversionState::Creating { report, .. } ==> report.source_sha256@
                == source_sha256@ && r.1 is CreateDirectory
        },
        state matches ConversionState::Creating { report, package } ==> match event {
            ConversionEvent::DirectoryReady(Err(pe)) => r.1 matches ConversionAction::Finish(Err(f))
                && f.message@ == "could not create output directory "@ + pe.0@ + ": "@ + pe.1@,
            _ => match package {
                Ok(b) => r.0 == ConversionState::Writing { report } && (r.1 matches ConversionAction::WritePackage(
                    w,
                ) && w@ == b@),
                Err(_) => r.1 matches ConversionAction::Finish(Err(f))
                    && "could not write DOCX: "@.is_prefix_of(f.message@),
            },
        },
        state matches ConversionState::Writing { report } ==> match event {
            ConversionEvent::PackageWritten(Err(t)) => r.1 matches ConversionAction::Finish(Err(f))
                && f.message@ == "could not write DOCX: DOCX I/O failed: "@ + t@,
            _ => r.0 == ConversionState::Checking { report } && r.1 is ReadPackage,
        },
        state matches ConversionState::Checking { report } ==> match event {
            ConversionEvent::PackageReadBack(Err(t)) => r.1 matches ConversionAction::Finish(Err(f))
                && f.message@ == "generated DOCX failed structural validation: DOCX I/O failed: "@
                + t@,
            ConversionEvent::PackageReadBack(Ok(b)) => match package_verdict(b@) {
                PackageVerdict::Valid => r.0 == ConversionState::Publishing { report },
                PackageVerdict::Refused(e) => r.1 matches ConversionAction::Finish(Err(f))
                    && f.message@ == "generated DOCX failed structural validation: "@
                    + validation_error_text(e),
                _ => r.1 matches ConversionAction::Finish(Err(f))
                    && "generated DOCX failed structural validation: "@.is_prefix_of(f.message@),
            },
            _ => false,
        },
        state is Publishing ==> match event {
            ConversionEvent::Published(Err(pe)) => r.1 matches ConversionAction::Finish(Err(f))
                && f.message@ == "could not publish DOCX to "@ + pe.0@ + ": "@ + pe.1@,
            _ => r.1 is Finish,
        },
{
    match state {
        ConversionState::Start => match event {
            ConversionEvent::PathsChecked(Ok(())) => (ConversionState::Hashing, ConversionAction::HashSource),
            ConversionEvent::PathsChecked(Err(m)) => finished(failure(Status::InvalidSource, String::new(), m)),
            _ => (ConversionState::Finished, ConversionAction::HashSource),
        },
        ConversionState::Hashing => match event {
            ConversionEvent::SourceHashed(Ok(h)) => (
                ConversionState::Loading { source_sha256: h },
                ConversionAction::LoadSource,
            ),
            ConversionEvent::SourceHashed(Err((path, error))) => {
                let mut m = joined("could not read source DOC ", path.as_str());
                m.push_str(": ");
                m.push_str(error.as_str());
                finished(failure(Status::InvalidSource, String::new(), m))
            },
            _ => (ConversionState::Finished, ConversionAction::HashSource),
        },
        ConversionState::Loading { source_sha256 } => match event {
            ConversionEvent::SourceLoaded(Ok(bytes)) => load_source(bytes.as_slice(), source_sha256),
            ConversionEvent::SourceLoaded(Err(e)) => {
                let detail = e.message();
                let m = joined("invalid CFB/OLE container: ", detail.as_str());
                proof {
                    if e is Io {
                        let p = "invalid CFB/OLE container: "@;
                        assert((p + container_error_text(e)) =~= (p + detail@).subrange(
                            0,
                            (p + container_error_text(e)).len() as int,
                        ));
                    }
                }
                finished(failure(Status::InvalidSource, source_sha256, m))
            },
            _ => (ConversionState::Finished, ConversionAction::HashSource),
        },
        ConversionState::Creating { report, package } => match event {
            ConversionEvent::DirectoryReady(Err((path, error))) => {
                let mut m = joined("could not create output directory ", path.as_str());
                m.push_str(": ");
                m.push_str(error.as_str());
                finished(failure_from_report(report, m))
            },
            _ => match package {
                Ok(bytes) => (ConversionState::Writing { report }, ConversionAction::WritePackage(bytes)),
                Err(e) => {
                    let m = joined("could not write DOCX: ", e.message().as_str());
                    let ghost p = "could not write DOCX: "@;
                    assert(m@.subrange(0, p.len() as int) =~= p);
                    finished(failure_from_report(report, m))
                },
            },
        },
        ConversionState::Writing { report } => match event {
            ConversionEvent::PackageWritten(Err(t)) => {
                let m = joined("could not write DOCX: DOCX I/O failed: ", t.as_str());
                finished(failure_from_report(report, m))
            },
            _ => (ConversionState::Checking { report }, ConversionAction::ReadPackage),
        },
        ConversionState::Checking { report } => match event {
            ConversionEvent::PackageReadBack(Ok(bytes)) => match validate_package(bytes.as_slice()) {
                Ok(()) => (ConversionState::Publishing { report }, ConversionAction::PublishPackage),
                Err(e) => {
                    let m = joined("generated DOCX failed structural validation: ", e.message().as_str());
                    let ghost p = "generated DOCX failed structural validation: "@;
                    assert(m@.subrange(0, p.len() as int) =~= p);
                    finished(failure_from_report(report, m))
                },
            },
            ConversionEvent::PackageReadBack(Err(t)) => {
                let m = joined(
                    "generated DOCX failed structural validation: DOCX I/O failed: ",
                    t.as_str(),
                );
                finished(failure_from_report(report, m))
            },
            _ => (ConversionState::Finished, ConversionAction::HashSource),
        },
        ConversionState::Publishing { report } => match event {
            ConversionEvent::Published(Err((path, error))) => {
                let mut m = joined("could not publish DOCX to ", path.as_str());
                m.push_str(": ");
                m.push_str(error.as_str());
                finished(failure_from_report(report, m))
            },
            ConversionEvent::Published(Ok(())) => (
                ConversionState::Finished,
                ConversionAction::Finish(Ok(report)),
            ),
            _ => (ConversionState::Finished, ConversionAction::HashSource),
        },
        ConversionState::Finished => (ConversionState::Finished, ConversionAction::HashSource),
    }
}

/// Checks where a conversion would write: not over its own source, and not over something
/// that exists and is not a regular file.
pub fn check_destination(
    same_file: bool,
    output_exists: bool,
    output_is_file: bool,
    output_display: &str,
) -> (r: Result<(), String>)
    ensures
        same_file ==> (r matches Err(m) && m@ == "source and destination must be different files"@),
        !same_file && output_exists && !output_is_file ==> (r matches Err(m) && m@
            == "destination exists and is not a regular file: "@ + output_display@),
        !same_file && !(output_exists && !output_is_file) ==> r is Ok,
{
    if same_file {
        return Err(owned("source and destination must be different files"));
    }
    if output_exists && !output_is_file {
        return Err(joined("destination exists and is not a regular file: ", output_display));
    }
    Ok(())
}

} // verus!
