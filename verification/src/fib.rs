//! The File Information Block (FIB) at the start of the WordDocument stream,
//! and the errors of the binary parser.
use vstd::prelude::*;
use crate::bytes::{fits, i32_at, le_u16, le_u32, to_i32, u16_at, u32_at};
use crate::ir::{story_sum, story_total, StoryCounts};
use crate::strings::{decimal, hex_fixed, push_decimal, push_hex, push_signed_decimal, signed_decimal};

verus! {

/// Errors of the Word binary parser.
#[derive(Debug, PartialEq, Eq)]
pub enum DocError {
    TruncatedFib { field: &'static str },
    InvalidSignature(u16),
    InvalidFibField { field: &'static str, value: i64 },
    Encrypted,
    ClxOutOfBounds { table: &'static str },
    MalformedClx(String),
    TooManyPieces { actual: usize, limit: usize },
    PieceOutOfBounds { piece: usize },
    InvalidUtf16 { piece: usize },
}

/// What a `DocError` says, each text taken as its characters.
pub enum DocErrorModel {
    TruncatedFib { field: Seq<char> },
    InvalidSignature(u16),
    InvalidFibField { field: Seq<char>, value: i64 },
    Encrypted,
    ClxOutOfBounds { table: Seq<char> },
    MalformedClx(Seq<char>),
    TooManyPieces { actual: usize, limit: usize },
    PieceOutOfBounds { piece: usize },
    InvalidUtf16 { piece: usize },
}

impl View for DocError {
    type V = DocErrorModel;

    open spec fn view(&self) -> DocErrorModel {
        match self {
            DocError::TruncatedFib { field } => DocErrorModel::TruncatedFib { field: field@ },
            DocError::InvalidSignature(v) => DocErrorModel::InvalidSignature(*v),
            DocError::InvalidFibField { field, value } => DocErrorModel::InvalidFibField {
                field: field@,
                value: *value,
            },
            DocError::Encrypted => DocErrorModel::Encrypted,
            DocError::ClxOutOfBounds { table } => DocErrorModel::ClxOutOfBounds { table: table@ },
            DocError::MalformedClx(m) => DocErrorModel::MalformedClx(m@),
            DocError::TooManyPieces { actual, limit } => DocErrorModel::TooManyPieces {
                actual: *actual,
                limit: *limit,
            },
            DocError::PieceOutOfBounds { piece } => DocErrorModel::PieceOutOfBounds {
                piece: *piece,
            },
            DocError::InvalidUtf16 { piece } => DocErrorModel::InvalidUtf16 { piece: *piece },
        }
    }
}

/// Human-readable text of a parser error.
pub open spec fn doc_error_text(e: DocError) -> Seq<char> {
    match e {
        DocError::TruncatedFib { field } => "WordDocument stream is truncated while reading "@
            + field@,
        DocError::InvalidSignature(v) => "invalid Word binary signature 0x"@ + hex_fixed(
            v as nat,
            4,
        ) + "; expected 0xA5EC"@,
        DocError::InvalidFibField { field, value } => "invalid FIB field "@ + field@ + ": "@
            + signed_decimal(value as int),
        DocError::Encrypted => "encrypted or obfuscated Word documents are not supported"@,
        DocError::ClxOutOfBounds { table } => table@ + " stream range for CLX is outside the stream"@,
        DocError::MalformedClx(m) => "CLX is malformed: "@ + m@,
        DocError::TooManyPieces { actual, limit } => "piece table contains too many pieces ("@
            + decimal(actual as nat) + "; limit "@ + decimal(limit as nat) + ")"@,
        DocError::PieceOutOfBounds { piece } => "piece "@ + decimal(piece as nat)
            + " points outside the WordDocument stream"@,
        DocError::InvalidUtf16 { piece } => "piece "@ + decimal(piece as nat)
            + " contains invalid UTF-16"@,
    }
}

impl DocError {
    /// The error's message text.
    pub fn message(&self) -> (r: String)
        ensures
            r@ == doc_error_text(*self),
    {
        let mut s = String::new();
        match self {
            DocError::TruncatedFib { field } => {
                s.push_str("WordDocument stream is truncated while reading ");
                s.push_str(field);
            },
            DocError::InvalidSignature(v) => {
                s.push_str("invalid Word binary signature 0x");
                push_hex(&mut s, *v as u32, 4);
                s.push_str("; expected 0xA5EC");
            },
            DocError::InvalidFibField { field, value } => {
                s.push_str("invalid FIB field ");
                s.push_str(field);
                s.push_str(": ");
                push_signed_decimal(&mut s, *value);
            },
            DocError::Encrypted => {
                s.push_str("encrypted or obfuscated Word documents are not supported");
            },
            DocError::ClxOutOfBounds { table } => {
                s.push_str(table);
                s.push_str(" stream range for CLX is outside the stream");
            },
            DocError::MalformedClx(m) => {
                s.push_str("CLX is malformed: ");
                s.push_str(m.as_str());
            },
            DocError::TooManyPieces { actual, limit } => {
                s.push_str("piece table contains too many pieces (");
                push_decimal(&mut s, *actual as u64);
                s.push_str("; limit ");
                push_decimal(&mut s, *limit as u64);
                s.push_str(")");
            },
            DocError::PieceOutOfBounds { piece } => {
                s.push_str("piece ");
                push_decimal(&mut s, *piece as u64);
                s.push_str(" points outside the WordDocument stream");
            },
            DocError::InvalidUtf16 { piece } => {
                s.push_str("piece ");
                push_decimal(&mut s, *piece as u64);
                s.push_str(" contains invalid UTF-16");
            },
        }
        s
    }
}

/// The FIB fields that the converter uses.
#[derive(Debug, Clone, PartialEq, Eq)]
pub struct Fib {
    pub n_fib: u16,
    pub table_stream: &'static str,
    pub f_complex: bool,
    pub f_has_pic: bool,
    pub cb_mac: u32,
    pub fc_clx: u32,
    pub lcb_clx: u32,
    pub fc_plcf_sed: u32,
    pub lcb_plcf_sed: u32,
    pub fc_plcf_bte_chpx: u32,
    pub lcb_plcf_bte_chpx: u32,
    pub fc_plcf_bte_papx: u32,
    pub lcb_plcf_bte_papx: u32,
    pub fc_plc_spa_mom: u32,
    pub lcb_plc_spa_mom: u32,
    pub fc_plcf_txbx_txt: u32,
    pub lcb_plcf_txbx_txt: u32,
    pub fc_plf_lst: u32,
    pub lcb_plf_lst: u32,
    pub fc_plf_lfo: u32,
    pub lcb_plf_lfo: u32,
    pub stories: StoryCounts,
}

pub const FIB_FC_LCB_OFFSET: usize = 154;

/// Byte offset of the `fc` half of FibRgFcLcb pair `index`.
pub open spec fn pair_offset(index: int) -> int {
    154 + 8 * index
}

/// Failure of a non-negative 32-bit story count read at `off`.
pub open spec fn story_failure(w: Seq<u8>, off: int, name: Seq<char>) -> Option<DocErrorModel> {
    if !fits(w, off, 4) {
        Some(DocErrorModel::TruncatedFib { field: name })
    } else if i32_at(w, off) < 0 {
        Some(DocErrorModel::InvalidFibField { field: name, value: i32_at(w, off) as i64 })
    } else {
        None
    }
}

/// The story counts as stored in FibRgLw97 (valid when they parsed).
pub open spec fn fib_stories(w: Seq<u8>) -> StoryCounts {
    StoryCounts {
        main: u32_at(w, 76),
        footnotes: u32_at(w, 80),
        headers: u32_at(w, 84),
        comments: u32_at(w, 92),
        endnotes: u32_at(w, 96),
        textboxes: u32_at(w, 100),
        header_textboxes: u32_at(w, 104),
    }
}

pub open spec fn first_failure(a: Option<DocErrorModel>, b: Option<DocErrorModel>) -> Option<
    DocErrorModel,
> {
    if a is Some {
        a
    } else {
        b
    }
}

/// The first story count that fails to read, in the order of the FIB.
pub open spec fn stories_failure(w: Seq<u8>) -> Option<DocErrorModel> {
    first_failure(
        story_failure(w, 76, "ccpText"@),
        first_failure(
            story_failure(w, 80, "ccpFtn"@),
            first_failure(
                story_failure(w, 84, "ccpHdd"@),
                first_failure(
                    story_failure(w, 92, "ccpAtn"@),
                    first_failure(
                        story_failure(w, 96, "ccpEdn"@),
                        first_failure(
                            story_failure(w, 100, "ccpTxbx"@),
                            story_failure(w, 104, "ccpHdrTxbx"@),
                        ),
                    ),
                ),
            ),
        ),
    )
}

/// Truncation of a FibRgFcLcb pair.
pub open spec fn pair_failure(w: Seq<u8>, index: int, name: Seq<char>) -> Option<DocErrorModel> {
    if !fits(w, pair_offset(index), 8) {
        Some(DocErrorModel::TruncatedFib { field: name })
    } else {
        None
    }
}

/// The error `parse_fib` reports for `w`, or `None` when the FIB is accepted.
pub open spec fn fib_failure(w: Seq<u8>) -> Option<DocErrorModel> {
    if w.len() < 32 {
        Some(DocErrorModel::TruncatedFib { field: "FibBase"@ })
    } else if u16_at(w, 0) != 0xA5EC {
        Some(DocErrorModel::InvalidSignature(u16_at(w, 0)))
    } else if u16_at(w, 2) < 0x00C1 {
        Some(DocErrorModel::InvalidFibField { field: "nFib"@, value: u16_at(w, 2) as i64 })
    } else if u16_at(w, 10) & 0x0100 != 0 {
        Some(DocErrorModel::Encrypted)
    } else if !fits(w, 32, 2) {
        Some(DocErrorModel::TruncatedFib { field: "csw"@ })
    } else if u16_at(w, 32) != 0x000E {
        Some(DocErrorModel::InvalidFibField { field: "csw"@, value: u16_at(w, 32) as i64 })
    } else if !fits(w, 62, 2) {
        Some(DocErrorModel::TruncatedFib { field: "cslw"@ })
    } else if u16_at(w, 62) != 0x0016 {
        Some(DocErrorModel::InvalidFibField { field: "cslw"@, value: u16_at(w, 62) as i64 })
    } else if !fits(w, 64, 4) {
        Some(DocErrorModel::TruncatedFib { field: "cbMac"@ })
    } else if stories_failure(w) is Some {
        stories_failure(w)
    } else if story_total(fib_stories(w)) is None {
        Some(DocErrorModel::InvalidFibField { field: "story character total"@, value: -1i64 })
    } else if fib_stories(w).main == 0 || story_sum(fib_stories(w)) > 100_000_000 {
        Some(
            DocErrorModel::InvalidFibField {
                field: "story character total"@,
                value: story_sum(fib_stories(w)) as i64,
            },
        )
    } else if !fits(w, 152, 2) {
        Some(DocErrorModel::TruncatedFib { field: "cbRgFcLcb"@ })
    } else if u16_at(w, 152) <= 33 {
        Some(DocErrorModel::InvalidFibField { field: "cbRgFcLcb"@, value: u16_at(w, 152) as i64 })
    } else if !fits(w, pair_offset(33), 8) {
        Some(DocErrorModel::TruncatedFib { field: "fcClx"@ })
    } else if u32_at(w, pair_offset(33) + 4) == 0 {
        Some(DocErrorModel::InvalidFibField { field: "lcbClx"@, value: 0 })
    } else {
        first_failure(
            pair_failure(w, 6, "fcPlcfSed"@),
            first_failure(
                pair_failure(w, 12, "fcPlcfBteChpx"@),
                first_failure(
                    pair_failure(w, 13, "fcPlcfBtePapx"@),
                    first_failure(
                        pair_failure(w, 40, "fcPlcSpaMom"@),
                        first_failure(
                            pair_failure(w, 56, "fcPlcftxbxTxt"@),
                            first_failure(
                                pair_failure(w, 73, "fcPlfLst"@),
                                pair_failure(w, 74, "fcPlfLfo"@),
                            ),
                        ),
                    ),
                ),
            ),
        )
    }
}

/// The `fc` of pair `index`.
pub open spec fn pair_fc(w: Seq<u8>, index: int) -> u32 {
    u32_at(w, pair_offset(index))
}

/// The `lcb` of pair `index`.
pub open spec fn pair_lcb(w: Seq<u8>, index: int) -> u32 {
    u32_at(w, pair_offset(index) + 4)
}

/// `f` holds the FIB fields stored in `w`.
pub open spec fn fib_of(f: Fib, w: Seq<u8>) -> bool {
    let flags = u16_at(w, 10);
    &&& f.n_fib == u16_at(w, 2)
    &&& f.table_stream@ == (if flags & 0x0200 != 0 {
        "1Table"@
    } else {
        "0Table"@
    })
    &&& f.f_complex == (flags & 0x0004 != 0)
    &&& f.f_has_pic == (flags & 0x0008 != 0)
    &&& f.cb_mac == u32_at(w, 64)
    &&& f.fc_clx == pair_fc(w, 33) && f.lcb_clx == pair_lcb(w, 33)
    &&& f.fc_plcf_sed == pair_fc(w, 6) && f.lcb_plcf_sed == pair_lcb(w, 6)
    &&& f.fc_plcf_bte_chpx == pair_fc(w, 12) && f.lcb_plcf_bte_chpx == pair_lcb(w, 12)
    &&& f.fc_plcf_bte_papx == pair_fc(w, 13) && f.lcb_plcf_bte_papx == pair_lcb(w, 13)
    &&& f.fc_plc_spa_mom == pair_fc(w, 40) && f.lcb_plc_spa_mom == pair_lcb(w, 40)
    &&& f.fc_plcf_txbx_txt == pair_fc(w, 56) && f.lcb_plcf_txbx_txt == pair_lcb(w, 56)
    &&& f.fc_plf_lst == pair_fc(w, 73) && f.lcb_plf_lst == pair_lcb(w, 73)
    &&& f.fc_plf_lfo == pair_fc(w, 74) && f.lcb_plf_lfo == pair_lcb(w, 74)
    &&& f.stories == fib_stories(w)
}

/// What every `Fib` returned by `parse_fib` satisfies.
pub open spec fn fib_valid(f: Fib) -> bool {
    &&& f.stories.main > 0
    &&& story_total(f.stories) is Some
    &&& story_sum(f.stories) <= 100_000_000
    &&& f.lcb_clx > 0
    &&& (f.table_stream@ == "1Table"@ || f.table_stream@ == "0Table"@)
}

fn read_u16(data: &[u8], offset: usize, field: &'static str) -> (r: Result<u16, DocError>)
    ensures
        fits(data@, offset as int, 2) ==> r == Ok::<u16, DocError>(u16_at(data@, offset as int)),
        !fits(data@, offset as int, 2) ==> r == Err::<u16, DocError>(
            DocError::TruncatedFib { field },
        ),
{
    match le_u16(data, offset) {
        Some(v) => Ok(v),
        None => Err(DocError::TruncatedFib { field }),
    }
}

fn read_u32(data: &[u8], offset: usize, field: &'static str) -> (r: Result<u32, DocError>)
    ensures
        fits(data@, offset as int, 4) ==> r == Ok::<u32, DocError>(u32_at(data@, offset as int)),
        !fits(data@, offset as int, 4) ==> r == Err::<u32, DocError>(
            DocError::TruncatedFib { field },
        ),
{
    match le_u32(data, offset) {
        Some(v) => Ok(v),
        None => Err(DocError::TruncatedFib { field }),
    }
}

fn read_i32(data: &[u8], offset: usize, field: &'static str) -> (r: Result<i32, DocError>)
    ensures
        fits(data@, offset as int, 4) ==> r == Ok::<i32, DocError>(i32_at(data@, offset as int)),
        !fits(data@, offset as int, 4) ==> r == Err::<i32, DocError>(
            DocError::TruncatedFib { field },
        ),
{
    let v = read_u32(data, offset, field)?;
    Ok(to_i32(v))
}

fn require_len(data: &[u8], length: usize, field: &'static str) -> (r: Result<(), DocError>)
    ensures
        data.len() >= length ==> r is Ok,
        data.len() < length ==> r == Err::<(), DocError>(DocError::TruncatedFib { field }),
{
    if data.len() < length {
        Err(DocError::TruncatedFib { field })
    } else {
        Ok(())
    }
}

fn read_nonnegative_i32(data: &[u8], offset: usize, field: &'static str) -> (r: Result<
    u32,
    DocError,
>)
    ensures
        match r {
            Ok(v) => story_failure(data@, offset as int, field@) is None && v == u32_at(
                data@,
                offset as int,
            ),
            Err(e) => story_failure(data@, offset as int, field@) == Some(e@),
        },
{
    let value = read_i32(data, offset, field)?;
    if value < 0 {
        Err(DocError::InvalidFibField { field, value: value as i64 })
    } else {
        Ok(value as u32)
    }
}

fn read_fc_lcb_pair(data: &[u8], pair_index: usize, field: &'static str) -> (r: Result<
    (u32, u32),
    DocError,
>)
    requires
        pair_index <= 100,
    ensures
        match r {
            Ok(p) => pair_failure(data@, pair_index as int, field@) is None && p.0 == pair_fc(
                data@,
                pair_index as int,
            ) && p.1 == pair_lcb(data@, pair_index as int),
            Err(e) => pair_failure(data@, pair_index as int, field@) == Some(e@),
        },
{
    let offset = FIB_FC_LCB_OFFSET + pair_index * 8;
    let fc = read_u32(data, offset, field)?;
    let lcb = read_u32(data, offset + 4, field)?;
    Ok((fc, lcb))
}

/// Parses and validates the FIB of a WordDocument stream.
pub fn parse_fib(word_document: &[u8]) -> (r: Result<Fib, DocError>)
    ensures
        match r {
            Ok(f) => fib_failure(word_document@) is None && fib_of(f, word_document@)
                && fib_valid(f),
            Err(e) => fib_failure(word_document@) == Some(e@),
        },
{
    let ghost w = word_document@;
    require_len(word_document, 32, "FibBase")?;
    let signature = read_u16(word_document, 0, "wIdent")?;
    if signature != 0xA5EC {
        return Err(DocError::InvalidSignature(signature));
    }
    let n_fib = read_u16(word_document, 2, "nFib")?;
    if n_fib < 0x00C1 {
        return Err(DocError::InvalidFibField { field: "nFib", value: n_fib as i64 });
    }
    let flags = read_u16(word_document, 10, "FibBase flags")?;
    let f_complex = flags & 0x0004 != 0;
    let f_has_pic = flags & 0x0008 != 0;
    let encrypted = flags & 0x0100 != 0;
    let table_stream: &'static str = if flags & 0x0200 != 0 {
        "1Table"
    } else {
        "0Table"
    };
    if encrypted {
        return Err(DocError::Encrypted);
    }
    let csw = read_u16(word_document, 32, "csw")?;
    if csw != 0x000E {
        return Err(DocError::InvalidFibField { field: "csw", value: csw as i64 });
    }
    let cslw = read_u16(word_document, 62, "cslw")?;
    if cslw != 0x0016 {
        return Err(DocError::InvalidFibField { field: "cslw", value: cslw as i64 });
    }
    let cb_mac = read_u32(word_document, 64, "cbMac")?;
    let main = read_nonnegative_i32(word_document, 76, "ccpText")?;
    let footnotes = read_nonnegative_i32(word_document, 80, "ccpFtn")?;
    let headers = read_nonnegative_i32(word_document, 84, "ccpHdd")?;
    let comments = read_nonnegative_i32(word_document, 92, "ccpAtn")?;
    let endnotes = read_nonnegative_i32(word_document, 96, "ccpEdn")?;
    let textboxes = read_nonnegative_i32(word_document, 100, "ccpTxbx")?;
    let header_textboxes = read_nonnegative_i32(word_document, 104, "ccpHdrTxbx")?;
    let stories = StoryCounts {
        main,
        footnotes,
        headers,
        comments,
        endnotes,
        textboxes,
        header_textboxes,
    };
    assert(stories == fib_stories(w));
    let total = match stories.total() {
        Some(t) => t,
        None => {
            return Err(DocError::InvalidFibField { field: "story character total", value: -1 });
        },
    };
    if stories.main == 0 || total > 100_000_000 {
        return Err(
            DocError::InvalidFibField { field: "story character total", value: total as i64 },
        );
    }
    let cb_rg_fc_lcb = read_u16(word_document, 152, "cbRgFcLcb")?;
    if cb_rg_fc_lcb <= 33 {
        return Err(DocError::InvalidFibField { field: "cbRgFcLcb", value: cb_rg_fc_lcb as i64 });
    }
    let (fc_clx, lcb_clx) = read_fc_lcb_pair(word_document, 33, "fcClx")?;
    if lcb_clx == 0 {
        return Err(DocError::InvalidFibField { field: "lcbClx", value: 0 });
    }
    let (fc_plcf_sed, lcb_plcf_sed) = read_fc_lcb_pair(word_document, 6, "fcPlcfSed")?;
    let (fc_plcf_bte_chpx, lcb_plcf_bte_chpx) = read_fc_lcb_pair(
        word_document,
        12,
        "fcPlcfBteChpx",
    )?;
    let (fc_plcf_bte_papx, lcb_plcf_bte_papx) = read_fc_lcb_pair(
        word_document,
        13,
        "fcPlcfBtePapx",
    )?;
    let (fc_plc_spa_mom, lcb_plc_spa_mom) = read_fc_lcb_pair(word_document, 40, "fcPlcSpaMom")?;
    let (fc_plcf_txbx_txt, lcb_plcf_txbx_txt) = read_fc_lcb_pair(
        word_document,
        56,
        "fcPlcftxbxTxt",
    )?;
    let (fc_plf_lst, lcb_plf_lst) = read_fc_lcb_pair(word_document, 73, "fcPlfLst")?;
    let (fc_plf_lfo, lcb_plf_lfo) = read_fc_lcb_pair(word_document, 74, "fcPlfLfo")?;
    Ok(
        Fib {
            n_fib,
            table_stream,
            f_complex,
            f_has_pic,
            cb_mac,
            fc_clx,
            lcb_clx,
            fc_plcf_sed,
            lcb_plcf_sed,
            fc_plcf_bte_chpx,
            lcb_plcf_bte_chpx,
            fc_plcf_bte_papx,
            lcb_plcf_bte_papx,
            fc_plc_spa_mom,
            lcb_plc_spa_mom,
            fc_plcf_txbx_txt,
            lcb_plcf_txbx_txt,
            fc_plf_lst,
            lcb_plf_lst,
            fc_plf_lfo,
            lcb_plf_lfo,
            stories,
        },
    )
}

} // verus!
