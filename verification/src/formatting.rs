//! Direct paragraph and section formatting: PlcBtePapx, PAPX FKPs and the section table.
use vstd::prelude::*;
use crate::bytes::{fits, i32_at, le_u16, le_u32, slice_range, sub_slice, to_i32, u16_at, u32_at};
use crate::clx::{encoded_fc, is_compressed, Piece};
use crate::fib::Fib;
use crate::ir::{paragraphs_view, Document, ParagraphModel, PropertiesModel, SectionProperties, empty_section};
use crate::props::{decode_paragraph_properties, decode_section_properties, papx_model, section_model};
use crate::sprm::{truncated_message, truncated_text};
use crate::strings::{decimal, owned, push_decimal};

verus! {

/// `data[offset..offset + length]` when it lies inside `data`.
pub open spec fn range_model(data: Seq<u8>, offset: u32, length: u32) -> Option<Seq<u8>> {
    if offset + length <= data.len() {
        Some(data.subrange(offset as int, offset + length))
    } else {
        None
    }
}

/// The message when a FIB (offset, length) pair does not fit its stream.
pub open spec fn outside_text(field: Seq<char>) -> Seq<char> {
    field + " is outside its stream"@
}

/// The sub-slice a FIB (offset, length) pair designates.
pub fn checked_range<'a>(data: &'a [u8], offset: u32, length: u32, field: &str) -> (r: Result<
    &'a [u8],
    String,
>)
    ensures
        match r {
            Ok(s) => range_model(data@, offset, length) == Some(s@),
            Err(m) => range_model(data@, offset, length) is None && m@ == outside_text(field@),
        },
{
    match sub_slice(data, offset as usize, length as usize) {
        Some(s) => Ok(s),
        None => {
            let mut m = owned(field);
            m.push_str(" is outside its stream");
            Err(m)
        },
    }
}

pub fn read_u16_at(data: &[u8], offset: usize, field: &str) -> (r: Result<u16, String>)
    ensures
        match r {
            Ok(v) => fits(data@, offset as int, 2) && v == u16_at(data@, offset as int),
            Err(m) => !fits(data@, offset as int, 2) && m@ == truncated_text(field@),
        },
{
    match le_u16(data, offset) {
        Some(v) => Ok(v),
        None => Err(truncated_message(field)),
    }
}

pub fn read_u32_at(data: &[u8], offset: usize, field: &str) -> (r: Result<u32, String>)
    ensures
        match r {
            Ok(v) => fits(data@, offset as int, 4) && v == u32_at(data@, offset as int),
            Err(m) => !fits(data@, offset as int, 4) && m@ == truncated_text(field@),
        },
{
    match le_u32(data, offset) {
        Some(v) => Ok(v),
        None => Err(truncated_message(field)),
    }
}

pub fn read_i32_at(data: &[u8], offset: usize, field: &str) -> (r: Result<i32, String>)
    ensures
        match r {
            Ok(v) => fits(data@, offset as int, 4) && v == i32_at(data@, offset as int),
            Err(m) => !fits(data@, offset as int, 4) && m@ == truncated_text(field@),
        },
{
    let v = read_u32_at(data, offset, field)?;
    Ok(to_i32(v))
}

/// Entry `i` of a u32 array at `offset`.
pub open spec fn entry(data: Seq<u8>, offset: int, i: int) -> u32 {
    u32_at(data, offset + 4 * i)
}

/// The first fault among the `count` boundaries at `offset`, scanning upwards from `i`: a
/// boundary past the end of `data`, or one that does not exceed its predecessor.
pub open spec fn entries_fault(data: Seq<u8>, offset: int, count: int, field: Seq<char>, i: int) -> Option<
    Seq<char>,
>
    decreases count - i,
{
    if i < 0 || i >= count {
        None
    } else if !fits(data, offset + 4 * i, 4) {
        Some(truncated_text(field))
    } else if i > 0 && entry(data, offset, i) <= entry(data, offset, i - 1) {
        Some(field + " is not strictly increasing"@)
    } else {
        entries_fault(data, offset, count, field, i + 1)
    }
}

/// The last index below `n` whose entry is at most `value`.
pub open spec fn last_at_most(data: Seq<u8>, offset: int, n: int, value: u32) -> Option<usize>
    decreases n,
{
    if n <= 0 {
        None
    } else if entry(data, offset, n - 1) <= value {
        Some((n - 1) as usize)
    } else {
        last_at_most(data, offset, n - 1, value)
    }
}

/// Finds the interval of a strictly increasing array of `count` u32 boundaries that holds
/// `value`: the last index whose boundary is at most `value`.
pub fn find_interval_u32(data: &[u8], offset: usize, count: usize, value: u32, field: &str) -> (r: Result<
    Option<usize>,
    String,
>)
    requires
        offset + 4 * count <= usize::MAX,
    ensures
        match r {
            Ok(v) => entries_fault(data@, offset as int, count as int, field@, 0) is None && v
                == last_at_most(data@, offset as int, count as int, value),
            Err(m) => entries_fault(data@, offset as int, count as int, field@, 0) == Some(m@),
        },
{
    let ghost d = data@;
    let mut prior: u32 = 0;
    let mut result: Option<usize> = None;
    let mut index: usize = 0;
    while index < count
        invariant
            index <= count,
            offset + 4 * count <= usize::MAX,
            d == data@,
            entries_fault(d, offset as int, count as int, field@, 0) == entries_fault(
                d,
                offset as int,
                count as int,
                field@,
                index as int,
            ),
            index > 0 ==> prior == entry(d, offset as int, index - 1),
            result == last_at_most(d, offset as int, index as int, value),
        decreases count - index,
    {
        let current = match le_u32(data, offset + index * 4) {
            Some(v) => v,
            None => {
                return Err(truncated_message(field));
            },
        };
        assert(current == entry(d, offset as int, index as int));
        if index > 0 && current <= prior {
            let mut m = owned(field);
            m.push_str(" is not strictly increasing");
            return Err(m);
        }
        if current <= value {
            result = Some(index);
        }
        prior = current;
        index = index + 1;
    }
    Ok(result)
}

/// Index of the first piece whose CP interval holds `cp`, searching from `from`.
pub open spec fn first_piece(pieces: Seq<Piece>, cp: u32, from: int) -> Option<int>
    decreases pieces.len() - from,
{
    if from < 0 || from >= pieces.len() {
        None
    } else if pieces[from].cp_start <= cp && cp < pieces[from].cp_end {
        Some(from)
    } else {
        first_piece(pieces, cp, from + 1)
    }
}

/// File position of the character at `cp`; `None` outside the pieces or on overflow.
pub open spec fn cp_fc(pieces: Seq<Piece>, cp: u32) -> Option<u32> {
    match first_piece(pieces, cp, 0) {
        None => None,
        Some(i) => {
            let p = pieces[i];
            let delta = cp - p.cp_start;
            if is_compressed(p.raw_fc) {
                if encoded_fc(p.raw_fc) / 2 + delta > u32::MAX {
                    None
                } else {
                    Some((encoded_fc(p.raw_fc) / 2 + delta) as u32)
                }
            } else if 2 * delta > u32::MAX || encoded_fc(p.raw_fc) + 2 * delta > u32::MAX {
                None
            } else {
                Some((encoded_fc(p.raw_fc) + 2 * delta) as u32)
            }
        },
    }
}

/// Maps a CP to the file position of its character.
pub fn cp_to_fc(pieces: &[Piece], cp: u32) -> (r: Option<u32>)
    ensures
        r == cp_fc(pieces@, cp),
{
    let mut i: usize = 0;
    while i < pieces.len()
        invariant
            i <= pieces@.len(),
            first_piece(pieces@, cp, 0) == first_piece(pieces@, cp, i as int),
        decreases pieces@.len() - i,
    {
        let piece = pieces[i];
        if cp >= piece.cp_start && cp < piece.cp_end {
            let delta = cp - piece.cp_start;
            let fc = piece.raw_fc & 0x3FFF_FFFF;
            if piece.raw_fc & 0x4000_0000 != 0 {
                return (fc / 2).checked_add(delta);
            } else {
                return match delta.checked_mul(2) {
                    Some(d2) => fc.checked_add(d2),
                    None => None,
                };
            }
        }
        i = i + 1;
    }
    None
}

/// The grpprl of the PapxInFkp at `offset` of an FKP page (after its istd), or why the
/// PapxInFkp does not fit the page.
pub open spec fn papx_grpprl_model(page: Seq<u8>, offset: int) -> Result<Seq<u8>, Seq<char>> {
    if offset < 0 || offset >= page.len() {
        Err("PapxInFkp.cb is outside page"@)
    } else {
        let cb = page[offset] as int;
        if cb == 0 && offset + 1 >= page.len() {
            Err("PapxInFkp extended cb is missing"@)
        } else {
            let start = if cb == 0 {
                offset + 2
            } else {
                offset + 1
            };
            let length = if cb == 0 {
                2 * page[offset + 1]
            } else {
                2 * cb - 1
            };
            if start + length > page.len() {
                Err("PapxInFkp extends outside page"@)
            } else if length < 2 {
                Err("GrpprlAndIstd is missing istd"@)
            } else {
                Ok(page.subrange(start + 2, start + length))
            }
        }
    }
}

fn papx_grpprl(page: &[u8], offset: usize) -> (r: Result<&[u8], String>)
    ensures
        match r {
            Ok(g) => papx_grpprl_model(page@, offset as int) == Ok::<Seq<u8>, Seq<char>>(g@),
            Err(m) => papx_grpprl_model(page@, offset as int) == Err::<Seq<u8>, Seq<char>>(m@),
        },
{
    if offset >= page.len() {
        return Err(owned("PapxInFkp.cb is outside page"));
    }
    let cb = page[offset] as usize;
    let (start, length) = if cb == 0 {
        if offset + 1 >= page.len() {
            return Err(owned("PapxInFkp extended cb is missing"));
        }
        (offset + 2, page[offset + 1] as usize * 2)
    } else {
        (offset + 1, cb * 2 - 1)
    };
    if start > page.len() || page.len() - start < length {
        return Err(owned("PapxInFkp extends outside page"));
    }
    if length < 2 {
        return Err(owned("GrpprlAndIstd is missing istd"));
    }
    Ok(slice_range(page, start + 2, start + length))
}

/// What the PAPX lookup yields for one paragraph.
pub enum PapxOutcome {
    /// The paragraph is not covered; it keeps its properties and is not counted.
    Skip,
    /// The paragraph has no direct properties; it is counted.
    Plain,
    /// The paragraph gets these properties.
    Props(PropertiesModel),
    /// A formatting structure is malformed, for this reason; formatting stops here.
    Fail(Seq<char>),
}

/// The message when an FKP page lies past the end of the WordDocument stream.
pub open spec fn fkp_outside_text(kind: Seq<char>, page_offset: int) -> Seq<char> {
    kind + " at "@ + decimal(page_offset as nat) + " is outside WordDocument"@
}

/// The FKP page starting at `page_offset` of the WordDocument stream.
pub open spec fn fkp_page(word: Seq<u8>, page_offset: int) -> Option<Seq<u8>> {
    if page_offset + 512 <= word.len() {
        Some(word.subrange(page_offset, page_offset + 512))
    } else {
        None
    }
}

/// Page number of a PnFkp entry, as a byte offset.
pub open spec fn pn_offset(pn_raw: u32) -> int {
    (pn_raw & 0x003F_FFFF) as int * 512
}

/// Direct properties of the paragraph whose mark is at `cp`, looked up in PlcBtePapx `plc`.
#[verifier::opaque]
pub open spec fn papx_outcome(
    word: Seq<u8>,
    plc: Seq<u8>,
    data: Seq<u8>,
    pieces: Seq<Piece>,
    text: Seq<char>,
    cp: u32,
) -> PapxOutcome {
    let page_count = (plc.len() - 4) / 8;
    let fc_count = page_count + 1;
    match cp_fc(pieces, cp) {
        None => PapxOutcome::Skip,
        Some(fc) => if let Some(m) = entries_fault(plc, 0, fc_count, "PlcBtePapx.aFC"@, 0) {
            PapxOutcome::Fail(m)
        } else {
            match last_at_most(plc, 0, fc_count, fc) {
                None => PapxOutcome::Skip,
                Some(bte) => if bte >= page_count {
                    PapxOutcome::Skip
                } else {
                    let pn_raw = u32_at(plc, fc_count * 4 + bte * 4);
                    match fkp_page(word, pn_offset(pn_raw)) {
                        None => PapxOutcome::Fail(
                            fkp_outside_text("PapxFkp"@, pn_offset(pn_raw)),
                        ),
                        Some(page) => {
                            let cpara = page[511] as int;
                            if cpara < 1 || cpara > 0x1D {
                                PapxOutcome::Fail(
                                    "PapxFkp has invalid cpara "@ + decimal(cpara as nat),
                                )
                            } else if let Some(m) = entries_fault(
                                page,
                                0,
                                cpara + 1,
                                "PapxFkp.rgfc"@,
                                0,
                            ) {
                                PapxOutcome::Fail(m)
                            } else {
                                match last_at_most(page, 0, cpara + 1, fc) {
                                    None => PapxOutcome::Skip,
                                    Some(run) => if run >= cpara {
                                        PapxOutcome::Skip
                                    } else {
                                        let b = page[(cpara + 1) * 4 + run * 13] as int;
                                        if b == 0 {
                                            PapxOutcome::Plain
                                        } else {
                                            match papx_grpprl_model(page, b * 2) {
                                                Err(m) => PapxOutcome::Fail(m),
                                                Ok(g) => match papx_model(g, data, 0) {
                                                    Err(m) => PapxOutcome::Fail(m),
                                                    Ok(p) => PapxOutcome::Props(
                                                        PropertiesModel {
                                                            table: crate::ir::TableParagraphProperties {
                                                                cell_end: 0 <= cp < text.len()
                                                                    && text[cp as int] == '\u{0007}',
                                                                ..p.table
                                                            },
                                                            ..p
                                                        },
                                                    ),
                                                },
                                            }
                                        }
                                    },
                                }
                            }
                        },
                    }
                },
            }
        },
    }
}

/// Paragraphs and count after formatting the first `n` paragraphs; `failure` holds the
/// reason once a structure was malformed (later paragraphs are then left alone).
pub struct FormatRun {
    pub paragraphs: Seq<ParagraphModel>,
    pub formatted: nat,
    pub failure: Option<Seq<char>>,
}

pub open spec fn format_fold(
    word: Seq<u8>,
    plc: Seq<u8>,
    data: Seq<u8>,
    pieces: Seq<Piece>,
    text: Seq<char>,
    cps: Seq<u32>,
    paragraphs: Seq<ParagraphModel>,
    n: int,
) -> FormatRun
    decreases n,
{
    if n <= 0 {
        FormatRun { paragraphs, formatted: 0, failure: None }
    } else {
        let s = format_fold(word, plc, data, pieces, text, cps, paragraphs, n - 1);
        if s.failure is Some {
            s
        } else {
            match papx_outcome(word, plc, data, pieces, text, cps[n - 1]) {
                PapxOutcome::Skip => s,
                PapxOutcome::Plain => FormatRun { formatted: s.formatted + 1, ..s },
                PapxOutcome::Props(p) => FormatRun {
                    paragraphs: s.paragraphs.update(
                        n - 1,
                        ParagraphModel { properties: p, ..s.paragraphs[n - 1] },
                    ),
                    formatted: s.formatted + 1,
                    ..s
                },
                PapxOutcome::Fail(m) => FormatRun { failure: Some(m), ..s },
            }
        }
    }
}

/// The PlcBtePapx is well formed: at least one page and whole entries.
pub open spec fn bte_plc_ok(plc: Seq<u8>) -> bool {
    plc.len() >= 12 && (plc.len() - 4) % 8 == 0
}

/// Outcome of applying direct paragraph formatting: why the PlcBtePapx itself is unusable
/// (the document is then left alone), else the run over the paragraphs.
#[verifier::opaque]
pub open spec fn formatting_model(
    word: Seq<u8>,
    table: Seq<u8>,
    data: Seq<u8>,
    fc: u32,
    lcb: u32,
    pieces: Seq<Piece>,
    text: Seq<char>,
    cps: Seq<u32>,
    paragraphs: Seq<ParagraphModel>,
) -> Result<FormatRun, Seq<char>> {
    match range_model(table, fc, lcb) {
        None => Err(outside_text("PlcBtePapx"@)),
        Some(plc) => if !bte_plc_ok(plc) {
            Err("invalid PlcBtePapx length "@ + decimal(plc.len()))
        } else {
            Ok(
                format_fold(
                    word,
                    plc,
                    data,
                    pieces,
                    text,
                    cps,
                    paragraphs,
                    if cps.len() < paragraphs.len() {
                        cps.len() as int
                    } else {
                        paragraphs.len() as int
                    },
                ),
            )
        },
    }
}

/// Inputs shared by the formatting passes.
pub struct FormattingContext<'a> {
    pub word_document: &'a [u8],
    pub table_stream: &'a [u8],
    pub data_stream: &'a [u8],
    pub fib: &'a Fib,
    pub pieces: &'a [Piece],
    pub text: &'a [char],
}

proof fn lemma_format_failed(
    word: Seq<u8>,
    plc: Seq<u8>,
    data: Seq<u8>,
    pieces: Seq<Piece>,
    text: Seq<char>,
    cps: Seq<u32>,
    paragraphs: Seq<ParagraphModel>,
    k: int,
    n: int,
)
    requires
        0 <= k <= n,
        format_fold(word, plc, data, pieces, text, cps, paragraphs, k).failure is Some,
    ensures
        format_fold(word, plc, data, pieces, text, cps, paragraphs, n) == format_fold(
            word,
            plc,
            data,
            pieces,
            text,
            cps,
            paragraphs,
            k,
        ),
    decreases n - k,
{
    if k < n {
        lemma_format_failed(word, plc, data, pieces, text, cps, paragraphs, k, n - 1);
    }
}

/// The message when an FKP page lies past the end of the WordDocument stream.
pub(crate) fn fkp_outside_message(kind: &str, page_offset: usize) -> (r: String)
    ensures
        r@ == fkp_outside_text(kind@, page_offset as int),
{
    let mut m = owned(kind);
    m.push_str(" at ");
    push_decimal(&mut m, page_offset as u64);
    m.push_str(" is outside WordDocument");
    m
}

/// Looks up the direct properties of one paragraph.
fn lookup_papx(context: &FormattingContext, plc: &[u8], cp: u32) -> (r: Result<
    Option<Option<crate::ir::ParagraphProperties>>,
    String,
>)
    requires
        bte_plc_ok(plc@),
        plc@.len() <= u32::MAX,
    ensures
        match r {
            Err(m) => papx_outcome(
                context.word_document@,
                plc@,
                context.data_stream@,
                context.pieces@,
                context.text@,
                cp,
            ) == PapxOutcome::Fail(m@),
            Ok(None) => papx_outcome(
                context.word_document@,
                plc@,
                context.data_stream@,
                context.pieces@,
                context.text@,
                cp,
            ) is Skip,
            Ok(Some(None)) => papx_outcome(
                context.word_document@,
                plc@,
                context.data_stream@,
                context.pieces@,
                context.text@,
                cp,
            ) is Plain,
            Ok(Some(Some(p))) => papx_outcome(
                context.word_document@,
                plc@,
                context.data_stream@,
                context.pieces@,
                context.text@,
                cp,
            ) == PapxOutcome::Props(p@),
        },
{
    reveal(papx_outcome);
    let page_count = (plc.len() - 4) / 8;
    let fc_count = page_count + 1;
    let page_numbers_offset = fc_count * 4;
    let fc = match cp_to_fc(context.pieces, cp) {
        Some(fc) => fc,
        None => {
            return Ok(None);
        },
    };
    let bte_index = match find_interval_u32(plc, 0, fc_count, fc, "PlcBtePapx.aFC")? {
        Some(i) => i,
        None => {
            return Ok(None);
        },
    };
    if bte_index >= page_count {
        return Ok(None);
    }
    let pn_raw = read_u32_at(plc, page_numbers_offset + bte_index * 4, "PnFkpPapx")?;
    let pn = pn_raw & 0x003F_FFFF;
    assert(pn_raw & 0x003F_FFFF <= 0x003F_FFFF) by (bit_vector);
    let page_offset = pn as usize * 512;
    let page = match sub_slice(context.word_document, page_offset, 512) {
        Some(p) => p,
        None => {
            return Err(fkp_outside_message("PapxFkp", page_offset));
        },
    };
    let cpara = page[511] as usize;
    if cpara < 1 || cpara > 0x1D {
        let mut m = owned("PapxFkp has invalid cpara ");
        push_decimal(&mut m, cpara as u64);
        return Err(m);
    }
    let run_index = match find_interval_u32(page, 0, cpara + 1, fc, "PapxFkp.rgfc")? {
        Some(i) => i,
        None => {
            return Ok(None);
        },
    };
    if run_index >= cpara {
        return Ok(None);
    }
    let bx_offset = (cpara + 1) * 4 + run_index * 13;
    let b_offset = page[bx_offset] as usize;
    if b_offset == 0 {
        return Ok(Some(None));
    }
    let grpprl = papx_grpprl(page, b_offset * 2)?;
    let mut properties = decode_paragraph_properties(grpprl, context.data_stream)?;
    let cp_index = cp as usize;
    properties.table.cell_end = cp_index < context.text.len() && context.text[cp_index] == '\u{0007}';
    Ok(Some(Some(properties)))
}

/// Applies the direct paragraph properties recorded in the PAPX FKPs to the paragraphs whose
/// marks are at `paragraph_cps`; returns how many paragraphs were covered.
pub fn apply_paragraph_formatting(
    context: FormattingContext,
    paragraph_cps: &[u32],
    document: &mut Document,
) -> (r: Result<usize, String>)
    ensures
        match formatting_model(
            context.word_document@,
            context.table_stream@,
            context.data_stream@,
            context.fib.fc_plcf_bte_papx,
            context.fib.lcb_plcf_bte_papx,
            context.pieces@,
            context.text@,
            paragraph_cps@,
            old(document)@.paragraphs,
        ) {
            Err(m) => (r matches Err(e) && e@ == m) && final(document)@ == old(document)@,
            Ok(run) => {
                &&& final(document)@.paragraphs == run.paragraphs
                &&& final(document)@.section == old(document)@.section
                &&& final(document)@.numbering == old(document)@.numbering
                &&& (r matches Ok(n) ==> run.failure is None && n == run.formatted)
                &&& (r matches Err(e) ==> run.failure == Some(e@))
            },
        },
{
    reveal(formatting_model);
    let plc = checked_range(
        context.table_stream,
        context.fib.fc_plcf_bte_papx,
        context.fib.lcb_plcf_bte_papx,
        "PlcBtePapx",
    )?;
    if plc.len() < 12 || (plc.len() - 4) % 8 != 0 {
        let mut m = owned("invalid PlcBtePapx length ");
        push_decimal(&mut m, plc.len() as u64);
        return Err(m);
    }
    let ghost word = context.word_document@;
    let ghost data = context.data_stream@;
    let ghost pieces = context.pieces@;
    let ghost text = context.text@;
    let ghost cps = paragraph_cps@;
    let ghost start = document@.paragraphs;
    let n = if paragraph_cps.len() < document.paragraphs.len() {
        paragraph_cps.len()
    } else {
        document.paragraphs.len()
    };
    let mut formatted: usize = 0;
    let mut i: usize = 0;
    assert(start == old(document)@.paragraphs);
    assert(formatting_model(word, context.table_stream@, data, context.fib.fc_plcf_bte_papx, context.fib.lcb_plcf_bte_papx, pieces, text, cps, start)
        == Ok::<FormatRun, Seq<char>>(format_fold(word, plc@, data, pieces, text, cps, start, n as int)));
    while i < n
        invariant
            i <= n,
            n <= paragraph_cps@.len(),
            n <= document@.paragraphs.len(),
            bte_plc_ok(plc@),
            plc@.len() <= u32::MAX,
            document@.paragraphs.len() == start.len(),
            document@.section == old(document)@.section,
            document@.numbering == old(document)@.numbering,
            word == context.word_document@,
            data == context.data_stream@,
            pieces == context.pieces@,
            text == context.text@,
            cps == paragraph_cps@,
            ({
                let s = format_fold(word, plc@, data, pieces, text, cps, start, i as int);
                &&& s.failure is None
                &&& s.paragraphs == document@.paragraphs
                &&& s.formatted == formatted
            }),
            formatted <= i,
            start == old(document)@.paragraphs,
            formatting_model(word, context.table_stream@, data, context.fib.fc_plcf_bte_papx, context.fib.lcb_plcf_bte_papx, pieces, text, cps, start)
                == Ok::<FormatRun, Seq<char>>(format_fold(word, plc@, data, pieces, text, cps, start, n as int)),
        decreases n - i,
    {
        let cp = paragraph_cps[i];
        match lookup_papx(&context, plc, cp) {
            Err(e) => {
                proof {
                    let s0 = format_fold(word, plc@, data, pieces, text, cps, start, i as int);
                    assert(papx_outcome(word, plc@, data, pieces, text, cps[i as int]) == PapxOutcome::Fail(e@));
                    assert(format_fold(word, plc@, data, pieces, text, cps, start, i + 1) == FormatRun { failure: Some(e@), ..s0 });
                    lemma_format_failed(word, plc@, data, pieces, text, cps, start, i + 1, n as int);
                }
                return Err(e);
            },
            Ok(None) => {},
            Ok(Some(None)) => {
                formatted = formatted + 1;
            },
            Ok(Some(Some(properties))) => {
                let ghost before = document.paragraphs@;
                set_properties(&mut document.paragraphs, i, properties);
                assert(document@.paragraphs =~= paragraphs_view(before).update(
                    i as int,
                    ParagraphModel { properties: properties@, ..paragraphs_view(before)[i as int] },
                ));
                formatted = formatted + 1;
            },
        }
        i = i + 1;
    }
    Ok(formatted)
}

fn set_properties(ps: &mut Vec<crate::ir::Paragraph>, i: usize, p: crate::ir::ParagraphProperties)
    requires
        i < old(ps)@.len(),
    ensures
        final(ps)@.len() == old(ps)@.len(),
        forall|k: int| 0 <= k < old(ps)@.len() && k != i ==> #[trigger] final(ps)@[k] == old(ps)@[k],
        final(ps)@[i as int].properties == p,
        final(ps)@[i as int].children == old(ps)@[i as int].children,
{
    ps[i].properties = p;
}

/// The section layout and section count recorded in PlcfSed: the properties of the last
/// section's Sepx, or why a structure is malformed.
pub open spec fn section_table_model(word: Seq<u8>, table: Seq<u8>, fc: u32, lcb: u32) -> Result<
    (SectionProperties, usize),
    Seq<char>,
> {
    match range_model(table, fc, lcb) {
        None => Err(outside_text("PlcfSed"@)),
        Some(plc) => if plc.len() < 20 || (plc.len() - 4) % 16 != 0 {
            Err("invalid PlcfSed length "@ + decimal(plc.len()))
        } else {
            let count = (plc.len() - 4) / 16;
            let fc_sepx = i32_at(plc, (count + 1) * 4 + (count - 1) * 12 + 2);
            if fc_sepx < 0 {
                Ok((empty_section(), count as usize))
            } else if !fits(word, fc_sepx as int, 2) {
                Err(truncated_text("Sepx.cb"@))
            } else {
                let cb = u16_at(word, fc_sepx as int) as int;
                if fc_sepx + 2 + cb > word.len() {
                    Err("Sepx.grpprl is outside WordDocument"@)
                } else {
                    match section_model(word.subrange(fc_sepx + 2, fc_sepx + 2 + cb)) {
                        Err(m) => Err(m),
                        Ok(p) => Ok((p, count as usize)),
                    }
                }
            }
        },
    }
}

/// Reads the page layout of the final section.
pub fn parse_section_properties(word_document: &[u8], table_stream: &[u8], fib: &Fib) -> (r: Result<
    (SectionProperties, usize),
    String,
>)
    ensures
        match r {
            Ok(v) => section_table_model(word_document@, table_stream@, fib.fc_plcf_sed, fib.lcb_plcf_sed)
                == Ok::<(SectionProperties, usize), Seq<char>>(v),
            Err(m) => section_table_model(word_document@, table_stream@, fib.fc_plcf_sed, fib.lcb_plcf_sed)
                == Err::<(SectionProperties, usize), Seq<char>>(m@),
        },
{
    let plc = checked_range(table_stream, fib.fc_plcf_sed, fib.lcb_plcf_sed, "PlcfSed")?;
    if plc.len() < 20 || (plc.len() - 4) % 16 != 0 {
        let mut m = owned("invalid PlcfSed length ");
        push_decimal(&mut m, plc.len() as u64);
        return Err(m);
    }
    let section_count = (plc.len() - 4) / 16;
    let cp_bytes = (section_count + 1) * 4;
    let sed_offset = cp_bytes + (section_count - 1) * 12;
    let fc_sepx = read_i32_at(plc, sed_offset + 2, "Sed.fcSepx")?;
    if fc_sepx < 0 {
        return Ok((SectionProperties::default(), section_count));
    }
    let sepx_offset = fc_sepx as usize;
    let cb = read_u16_at(word_document, sepx_offset, "Sepx.cb")? as usize;
    let start = sepx_offset + 2;
    let grpprl = match sub_slice(word_document, start, cb) {
        Some(g) => g,
        None => {
            return Err(owned("Sepx.grpprl is outside WordDocument"));
        },
    };
    let properties = decode_section_properties(grpprl)?;
    Ok((properties, section_count))
}

} // verus!
