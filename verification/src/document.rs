//! Parsing a whole document: the main story, its formatting and the report of what was
//! recovered.
use vstd::prelude::*;
use crate::chpx::{
    apply_hidden_character_formatting, chpx_runs_model, collect_symbol_character_formatting,
    marked_by, replaced_count, suppressed, symbol_by,
};
use crate::bytes::slice_range;
use crate::clx::{clx_pieces, parse_clx, Piece};
use crate::fib::{DocError, DocErrorModel, Fib};
use crate::formatting::{
    apply_paragraph_formatting, formatting_model, parse_section_properties, section_table_model,
    FormattingContext,
};
use crate::ir::{
    empty_section, paragraphs_view, DefinitionModel, Document, DocumentModel, Paragraph,
    ParagraphModel, SectionProperties, StoryCounts,
};
use crate::numbering::{numbering_model, parse_numbering};
use crate::paragraphs::{
    infer_rtl_paragraphs, inferred_count, ir_initial, ir_result, lemma_result_frame, strings_view,
    text_to_ir, with_inferred_direction,
};
use crate::story::{main_text, reconstruct_main_text};
use crate::strings::{decimal, owned, push_decimal};
use crate::tags::TagSet;
use crate::textbox::{parse_textboxes, textboxes_model, TextboxPlacements};

verus! {

/// Capability tags seen, tags not supported, and the warnings so far.
pub struct Diag {
    pub features: Set<Seq<char>>,
    pub unsupported: Set<Seq<char>>,
    pub warnings: Seq<Seq<char>>,
}

/// Stories other than the main one that the document has, by tag.
pub open spec fn story_tags(s: StoryCounts) -> Set<Seq<char>> {
    Set::new(
        |t: Seq<char>|
            (t == "footnotes"@ && s.footnotes != 0) || (t == "headers"@ && s.headers != 0) || (t
                == "comments"@ && s.comments != 0) || (t == "endnotes"@ && s.endnotes != 0) || (t
                == "textboxes"@ && s.textboxes != 0) || (t == "header-textboxes"@
                && s.header_textboxes != 0),
    )
}

/// The report before any optional structure is read.
pub open spec fn initial_diag(fib: Fib) -> Diag {
    let f0 = set!["main-text"@];
    let f1 = if fib.f_complex {
        f0.insert("fast-saved"@)
    } else {
        f0
    };
    let f2 = if fib.f_has_pic {
        f1.insert("pictures"@)
    } else {
        f1
    };
    let u0 = set!["styles:not-resolved"@];
    let u1 = if fib.f_has_pic {
        u0.insert("pictures"@)
    } else {
        u0
    };
    Diag {
        features: f2.union(story_tags(fib.stories)),
        unsupported: u1.union(story_tags(fib.stories)),
        warnings: seq![
            "style-inherited formatting is not resolved; direct paragraph and section properties are preserved"@,
        ],
    }
}

pub open spec fn add_feature(d: Diag, t: Seq<char>) -> Diag {
    Diag { features: d.features.insert(t), ..d }
}

pub open spec fn add_unsupported(d: Diag, t: Seq<char>) -> Diag {
    Diag { unsupported: d.unsupported.insert(t), ..d }
}

pub open spec fn add_warning(d: Diag, w: Seq<char>) -> Diag {
    Diag { warnings: d.warnings.push(w), ..d }
}

/// Main-story text with hidden and deleted characters suppressed.
pub open spec fn hidden_stage(
    w: Seq<u8>,
    t: Seq<u8>,
    fib: Fib,
    pieces: Seq<Piece>,
    text: Seq<char>,
    d: Diag,
) -> (Seq<char>, Diag) {
    if fib.lcb_plcf_bte_chpx == 0 {
        (text, d)
    } else {
        match chpx_runs_model(w, t, fib.fc_plcf_bte_chpx, fib.lcb_plcf_bte_chpx) {
            Err(m) => (
                text,
                add_warning(
                    add_unsupported(d, "character-formatting:partial"@),
                    "hidden character formatting was not recovered: "@ + m,
                ),
            ),
            Ok(runs) => {
                let out = Seq::new(
                    text.len(),
                    |i: int|
                        suppressed(
                            text[i],
                            marked_by(runs, pieces, i, runs.len() as int, true),
                            marked_by(runs, pieces, i, runs.len() as int, false),
                        ),
                );
                let h = replaced_count(text, runs, pieces, text.len() as int, true);
                let x = replaced_count(text, runs, pieces, text.len() as int, false);
                let d1 = if h != 0 {
                    add_warning(
                        add_feature(d, "hidden-text"@),
                        "suppressed "@ + decimal(h) + " characters formatted as hidden"@,
                    )
                } else {
                    d
                };
                let d2 = if x != 0 {
                    add_warning(
                        add_feature(d1, "revision-deletions"@),
                        "suppressed "@ + decimal(x) + " characters marked as deleted revisions"@,
                    )
                } else {
                    d1
                };
                (out, d2)
            },
        }
    }
}

/// Number of entries that hold a glyph.
pub open spec fn glyph_count(s: Seq<Option<u16>>) -> nat
    decreases s.len(),
{
    if s.len() == 0 {
        0
    } else {
        glyph_count(s.drop_last()) + if s.last() is Some {
            1nat
        } else {
            0nat
        }
    }
}

/// The custom symbol glyph of each of the `n` main-story CPs.
pub open spec fn symbols_stage(
    w: Seq<u8>,
    t: Seq<u8>,
    fib: Fib,
    pieces: Seq<Piece>,
    n: nat,
    d: Diag,
) -> (Seq<Option<u16>>, Diag) {
    let none = Seq::new(n, |i: int| None::<u16>);
    if fib.lcb_plcf_bte_chpx == 0 {
        (none, d)
    } else {
        match chpx_runs_model(w, t, fib.fc_plcf_bte_chpx, fib.lcb_plcf_bte_chpx) {
            Err(m) => (
                none,
                add_warning(
                    add_unsupported(d, "character-symbols:partial"@),
                    "custom symbol formatting was not recovered: "@ + m,
                ),
            ),
            Ok(runs) => {
                let syms = Seq::new(n, |cp: int| symbol_by(runs, pieces, cp, runs.len() as int));
                let c = glyph_count(syms);
                if c != 0 {
                    (
                        syms,
                        add_warning(
                            add_feature(d, "symbol-glyphs"@),
                            "preserved "@ + decimal(c) + " custom symbol glyphs"@,
                        ),
                    )
                } else {
                    (syms, d)
                }
            },
        }
    }
}

/// The textbox placements, or none with a warning.
pub open spec fn textbox_stage(
    w: Seq<u8>,
    t: Seq<u8>,
    fib: Fib,
    pieces: Seq<Piece>,
    d: Diag,
) -> (Seq<(u32, Seq<char>)>, Diag) {
    match textboxes_model(w, t, fib, pieces) {
        Err(m) => (Seq::empty(), add_warning(d, "textbox text was not recovered: "@ + m)),
        Ok((pairs, unplaced)) => if unplaced != 0 {
            (
                pairs,
                add_warning(
                    d,
                        decimal(unplaced as nat)
                            + " textbox stories belong to grouped OfficeArt shapes and were not placed"@,
                ),
            )
        } else {
            (pairs, d)
        },
    }
}

/// Some paragraph carries shading or a border.
pub open spec fn has_graphics(ps: Seq<ParagraphModel>) -> bool {
    exists|i: int|
        0 <= i < ps.len() && {
            let p = #[trigger] ps[i].properties;
            p.shading is Some || p.borders.top is Some || p.borders.start is Some
                || p.borders.bottom is Some || p.borders.end is Some || p.borders.between is Some
        }
}

/// The report after direct paragraph formatting failed for the reason `m`.
pub open spec fn formatting_failure(d: Diag, m: Seq<char>) -> Diag {
    add_warning(
        add_unsupported(d, "paragraph-formatting:malformed"@),
        "paragraph formatting was not recovered: "@ + m,
    )
}

/// Paragraphs after direct paragraph formatting.
pub open spec fn formatting_stage(
    w: Seq<u8>,
    t: Seq<u8>,
    data: Seq<u8>,
    fib: Fib,
    pieces: Seq<Piece>,
    text: Seq<char>,
    cps: Seq<u32>,
    ps: Seq<ParagraphModel>,
    d: Diag,
) -> (Seq<ParagraphModel>, Diag) {
    if fib.lcb_plcf_bte_papx == 0 {
        (ps, d)
    } else {
        match formatting_model(
            w,
            t,
            data,
            fib.fc_plcf_bte_papx,
            fib.lcb_plcf_bte_papx,
            pieces,
            text,
            cps,
            ps,
        ) {
            Err(m) => (ps, formatting_failure(d, m)),
            Ok(run) => if let Some(m) = run.failure {
                (run.paragraphs, formatting_failure(d, m))
            } else {
                let d1 = add_feature(d, "paragraph-formatting"@);
                let d2 = if has_graphics(run.paragraphs) {
                    add_feature(d1, "simple-graphics"@)
                } else {
                    d1
                };
                let d3 = if run.formatted != run.paragraphs.len() {
                    add_warning(
                        add_unsupported(d2, "paragraph-formatting:partial"@),
                            "direct paragraph properties were recovered for "@ + decimal(
                                run.formatted,
                            ) + " of "@ + decimal(run.paragraphs.len()) + " paragraphs"@,
                    )
                } else {
                    d2
                };
                (run.paragraphs, d3)
            },
        }
    }
}

/// Paragraphs after inferring right-to-left direction from their text.
pub open spec fn rtl_stage(ps: Seq<ParagraphModel>, d: Diag) -> (Seq<ParagraphModel>, Diag) {
    let out = Seq::new(ps.len(), |i: int| with_inferred_direction(ps[i]));
    let n = inferred_count(ps, ps.len() as int);
    if n != 0 {
        (
            out,
            add_warning(
                add_feature(d, "rtl-inferred-from-text"@),
                    "inferred RTL direction for "@ + decimal(n)
                        + " Hebrew/Arabic paragraphs without a direct bidi property"@,
            ),
        )
    } else {
        (out, d)
    }
}

/// The page layout of the final section.
pub open spec fn section_stage(w: Seq<u8>, t: Seq<u8>, fib: Fib, d: Diag) -> (SectionProperties, Diag) {
    if fib.lcb_plcf_sed == 0 {
        (empty_section(), d)
    } else {
        match section_table_model(w, t, fib.fc_plcf_sed, fib.lcb_plcf_sed) {
            Ok((section, count)) => {
                let d1 = add_feature(d, "page-layout"@);
                if count > 1 {
                    (
                        section,
                        add_warning(
                            add_unsupported(d1, "sections:multiple"@),
                                "document has "@ + decimal(count as nat)
                                    + " sections; the final section layout is currently applied to the DOCX body"@,
                        ),
                    )
                } else {
                    (section, d1)
                }
            },
            Err(m) => (
                empty_section(),
                add_warning(
                    add_unsupported(d, "page-layout:malformed"@),
                    "section properties were not recovered: "@ + m,
                ),
            ),
        }
    }
}

/// The numbering instances.
pub open spec fn numbering_stage(t: Seq<u8>, fib: Fib, d: Diag) -> (Seq<DefinitionModel>, Diag) {
    if fib.lcb_plf_lst == 0 && fib.lcb_plf_lfo == 0 {
        (Seq::empty(), d)
    } else {
        let d1 = add_feature(d, "automatic-numbering"@);
        match numbering_model(t, fib) {
            Ok(ds) => if ds.len() == 0 {
                (ds, add_unsupported(d1, "automatic-numbering:empty"@))
            } else {
                (ds, d1)
            },
            Err(m) => (
                Seq::empty(),
                add_warning(
                    add_unsupported(d1, "automatic-numbering:malformed"@),
                    "automatic numbering was not recovered: "@ + m,
                ),
            ),
        }
    }
}

/// What parsing yields once the piece table and the main-story text were read.
pub struct ParseModel {
    pub document: DocumentModel,
    pub diag: Diag,
    pub piece_count: nat,
}

/// The document and report read from the main-story text `text0`.
pub open spec fn content_model(
    w: Seq<u8>,
    t: Seq<u8>,
    data: Seq<u8>,
    fib: Fib,
    pieces: Seq<Piece>,
    text0: Seq<char>,
) -> ParseModel {
    let (text, d1) = hidden_stage(w, t, fib, pieces, text0, initial_diag(fib));
    let (syms, d2) = symbols_stage(w, t, fib, pieces, text.len(), d1);
    let (pairs, d3) = textbox_stage(w, t, fib, pieces, d2);
    let res = ir_result(text, syms, pairs, ir_initial(Set::empty(), Set::empty(), Seq::empty()));
    let d4 = Diag {
        features: d3.features.union(res.features),
        unsupported: d3.unsupported.union(res.unsupported),
        warnings: d3.warnings + res.warnings,
    };
    let (ps1, d5) = formatting_stage(
        w,
        t,
        data,
        fib,
        pieces,
        text,
        res.build.cps,
        res.build.paragraphs,
        d4,
    );
    let (ps2, d6) = rtl_stage(ps1, d5);
    let (section, d7) = section_stage(w, t, fib, d6);
    let (numbering, d8) = numbering_stage(t, fib, d7);
    ParseModel {
        document: DocumentModel { paragraphs: ps2, section, numbering },
        diag: d8,
        piece_count: pieces.len(),
    }
}

/// What parsing a document yields, or the error that stops it.
pub open spec fn document_model(w: Seq<u8>, t: Seq<u8>, data: Seq<u8>, fib: Fib) -> Result<
    ParseModel,
    DocErrorModel,
> {
    if fib.fc_clx + fib.lcb_clx > t.len() {
        Err(DocErrorModel::ClxOutOfBounds { table: fib.table_stream@ })
    } else {
        match clx_pieces(t.subrange(fib.fc_clx as int, fib.fc_clx + fib.lcb_clx), fib.stories) {
            Err(e) => Err(e),
            Ok(pieces) => match main_text(w, pieces, fib.stories.main) {
                Err(e) => Err(e),
                Ok(text) => Ok(content_model(w, t, data, fib, pieces, text)),
            },
        }
    }
}

fn push_exact(warnings: &mut Vec<String>, w: String, Ghost(ws): Ghost<Seq<Seq<char>>>)
    requires
        strings_view(old(warnings)@) == ws,
    ensures
        strings_view(final(warnings)@) == ws.push(w@),
{
    let ghost wv = w@;
    warnings.push(w);
    assert(strings_view(warnings@) =~= strings_view(old(warnings)@).push(wv));
}

fn push_joined(warnings: &mut Vec<String>, prefix: &str, detail: &str, Ghost(ws): Ghost<Seq<Seq<char>>>)
    requires
        strings_view(old(warnings)@) == ws,
    ensures
        strings_view(final(warnings)@) == ws.push(prefix@ + detail@),
{
    let mut m = owned(prefix);
    m.push_str(detail);
    push_exact(warnings, m, Ghost(ws));
}

fn add_story_tag(
    name: &str,
    count: u32,
    features_seen: &mut TagSet,
    unsupported: &mut TagSet,
)
    ensures
        final(features_seen)@ == if count != 0 {
            old(features_seen)@.insert(name@)
        } else {
            old(features_seen)@
        },
        final(unsupported)@ == if count != 0 {
            old(unsupported)@.insert(name@)
        } else {
            old(unsupported)@
        },
{
    if count != 0 {
        features_seen.insert(name);
        unsupported.insert(name);
    }
}

/// Records, in both sets, each story other than the main one that the document has.
pub fn add_story_capabilities(
    stories: &StoryCounts,
    features_seen: &mut TagSet,
    unsupported: &mut TagSet,
)
    ensures
        final(features_seen)@ == old(features_seen)@.union(story_tags(*stories)),
        final(unsupported)@ == old(unsupported)@.union(story_tags(*stories)),
{
    add_story_tag("footnotes", stories.footnotes, features_seen, unsupported);
    add_story_tag("headers", stories.headers, features_seen, unsupported);
    add_story_tag("comments", stories.comments, features_seen, unsupported);
    add_story_tag("endnotes", stories.endnotes, features_seen, unsupported);
    add_story_tag("textboxes", stories.textboxes, features_seen, unsupported);
    add_story_tag("header-textboxes", stories.header_textboxes, features_seen, unsupported);
    assert(features_seen@ =~= old(features_seen)@.union(story_tags(*stories)));
    assert(unsupported@ =~= old(unsupported)@.union(story_tags(*stories)));
}

/// Both report sets and the warnings agree with `d`.
pub open spec fn diag_holds(f: Set<Seq<char>>, u: Set<Seq<char>>, ws: Seq<Seq<char>>, d: Diag) -> bool {
    &&& f == d.features
    &&& u == d.unsupported
    &&& ws == d.warnings
}

fn hidden_step(
    word_document: &[u8],
    table_stream: &[u8],
    fib: &Fib,
    pieces: &[Piece],
    text: &mut Vec<char>,
    features_seen: &mut TagSet,
    unsupported: &mut TagSet,
    warnings: &mut Vec<String>,
    Ghost(d): Ghost<Diag>,
)
    requires
        diag_holds(old(features_seen)@, old(unsupported)@, strings_view(old(warnings)@), d),
    ensures
        ({
            let (t2, d2) = hidden_stage(word_document@, table_stream@, *fib, pieces@, old(text)@, d);
            final(text)@ == t2 && diag_holds(
                final(features_seen)@,
                final(unsupported)@,
                strings_view(final(warnings)@),
                d2,
            )
        }),
{
    if fib.lcb_plcf_bte_chpx == 0 {
        return ;
    }
    let ghost initial = text@;
    match apply_hidden_character_formatting(word_document, table_stream, fib, pieces, text) {
        Ok((hidden_count, deleted_count)) => {
            proof {
                let runs = chpx_runs_model(
                    word_document@,
                    table_stream@,
                    fib.fc_plcf_bte_chpx,
                    fib.lcb_plcf_bte_chpx,
                )->Ok_0;
                assert(text@ =~= hidden_stage(word_document@, table_stream@, *fib, pieces@, initial, d).0);
            }
            let ghost d1 = if hidden_count != 0 {
                add_warning(
                    add_feature(d, "hidden-text"@),
                    "suppressed "@ + decimal(hidden_count as nat) + " characters formatted as hidden"@,
                )
            } else {
                d
            };
            if hidden_count != 0 {
                features_seen.insert("hidden-text");
                let mut m = owned("suppressed ");
                push_decimal(&mut m, hidden_count as u64);
                m.push_str(" characters formatted as hidden");
                push_exact(warnings, m, Ghost(d.warnings));
            }
            if deleted_count != 0 {
                features_seen.insert("revision-deletions");
                let mut m = owned("suppressed ");
                push_decimal(&mut m, deleted_count as u64);
                m.push_str(" characters marked as deleted revisions");
                push_exact(warnings, m, Ghost(d1.warnings));
            }
        },
        Err(error) => {
            unsupported.insert("character-formatting:partial");
            push_joined(warnings, "hidden character formatting was not recovered: ", error.as_str(), Ghost(d.warnings));
        },
    }
}

fn symbols_step(
    word_document: &[u8],
    table_stream: &[u8],
    fib: &Fib,
    pieces: &[Piece],
    text_len: usize,
    features_seen: &mut TagSet,
    unsupported: &mut TagSet,
    warnings: &mut Vec<String>,
    Ghost(d): Ghost<Diag>,
) -> (r: Vec<Option<u16>>)
    requires
        diag_holds(old(features_seen)@, old(unsupported)@, strings_view(old(warnings)@), d),
    ensures
        ({
            let (s2, d2) = symbols_stage(word_document@, table_stream@, *fib, pieces@, text_len as nat, d);
            r@ == s2 && diag_holds(
                final(features_seen)@,
                final(unsupported)@,
                strings_view(final(warnings)@),
                d2,
            )
        }),
{
    if fib.lcb_plcf_bte_chpx == 0 {
        let none = no_symbols(text_len);
        return none;
    }
    match collect_symbol_character_formatting(word_document, table_stream, fib, pieces, text_len) {
        Ok(symbols) => {
            let count = count_glyphs(&symbols);
            proof {
                let runs = chpx_runs_model(
                    word_document@,
                    table_stream@,
                    fib.fc_plcf_bte_chpx,
                    fib.lcb_plcf_bte_chpx,
                )->Ok_0;
                assert(symbols@ =~= Seq::new(
                    text_len as nat,
                    |cp: int| symbol_by(runs, pieces@, cp, runs.len() as int),
                ));
            }
            if count != 0 {
                features_seen.insert("symbol-glyphs");
                let mut m = owned("preserved ");
                push_decimal(&mut m, count as u64);
                m.push_str(" custom symbol glyphs");
                push_exact(warnings, m, Ghost(d.warnings));
            }
            symbols
        },
        Err(error) => {
            unsupported.insert("character-symbols:partial");
            push_joined(warnings, "custom symbol formatting was not recovered: ", error.as_str(), Ghost(d.warnings));
            no_symbols(text_len)
        },
    }
}

fn no_symbols(n: usize) -> (r: Vec<Option<u16>>)
    ensures
        r@ == Seq::new(n as nat, |i: int| None::<u16>),
{
    let mut v: Vec<Option<u16>> = Vec::new();
    let mut k: usize = 0;
    while k < n
        invariant
            k <= n,
            v@ == Seq::new(k as nat, |i: int| None::<u16>),
        decreases n - k,
    {
        v.push(None);
        k = k + 1;
        assert(v@ =~= Seq::new(k as nat, |i: int| None::<u16>));
    }
    v
}

fn count_glyphs(symbols: &Vec<Option<u16>>) -> (r: usize)
    ensures
        r == glyph_count(symbols@),
{
    let mut c: usize = 0;
    let mut k: usize = 0;
    while k < symbols.len()
        invariant
            k <= symbols@.len(),
            c == glyph_count(symbols@.take(k as int)),
            c <= k,
        decreases symbols@.len() - k,
    {
        assert(symbols@.take(k + 1).drop_last() =~= symbols@.take(k as int));
        if symbols[k].is_some() {
            c = c + 1;
        }
        k = k + 1;
    }
    assert(symbols@.take(symbols@.len() as int) =~= symbols@);
    c
}

fn textbox_step(
    word_document: &[u8],
    table_stream: &[u8],
    fib: &Fib,
    pieces: &[Piece],
    warnings: &mut Vec<String>,
    Ghost(d): Ghost<Diag>,
) -> (r: TextboxPlacements)
    requires
        strings_view(old(warnings)@) == d.warnings,
    ensures
        ({
            let (pairs, d2) = textbox_stage(word_document@, table_stream@, *fib, pieces@, d);
            &&& r.wf()
            &&& r.pairs() == pairs
            &&& d2.features == d.features
            &&& d2.unsupported == d.unsupported
            &&& strings_view(final(warnings)@) == d2.warnings
        }),
{
    match parse_textboxes(word_document, table_stream, fib, pieces) {
        Ok(placements) => {
            let unplaced = placements.unplaced();
            if unplaced != 0 {
                let mut m = String::new();
                push_decimal(&mut m, unplaced as u64);
                m.push_str(" textbox stories belong to grouped OfficeArt shapes and were not placed");
                push_exact(warnings, m, Ghost(d.warnings));
            }
            placements
        },
        Err(error) => {
            let mut m = owned("textbox text was not recovered: ");
            m.push_str(error.as_str());
            push_exact(warnings, m, Ghost(d.warnings));
            TextboxPlacements::empty()
        },
    }
}

fn any_graphics(ps: &Vec<Paragraph>) -> (r: bool)
    ensures
        r == has_graphics(paragraphs_view(ps@)),
{
    let ghost pv = paragraphs_view(ps@);
    let mut k: usize = 0;
    while k < ps.len()
        invariant
            k <= ps@.len(),
            pv == paragraphs_view(ps@),
            forall|i: int| 0 <= i < k ==> {
                let p = #[trigger] pv[i].properties;
                !(p.shading is Some || p.borders.top is Some || p.borders.start is Some
                    || p.borders.bottom is Some || p.borders.end is Some || p.borders.between is Some)
            },
        decreases ps@.len() - k,
    {
        let p = &ps[k].properties;
        assert(pv[k as int].properties == p@);
        if p.shading.is_some() || p.borders.top.is_some() || p.borders.start.is_some()
            || p.borders.bottom.is_some() || p.borders.end.is_some() || p.borders.between.is_some() {
            assert(pv[k as int].properties.shading is Some || pv[k as int].properties.borders.top is Some
                || pv[k as int].properties.borders.start is Some || pv[k as int].properties.borders.bottom is Some
                || pv[k as int].properties.borders.end is Some || pv[k as int].properties.borders.between is Some);
            return true;
        }
        k = k + 1;
    }
    false
}

fn formatting_step(
    context: FormattingContext,
    paragraph_cps: &[u32],
    document: &mut Document,
    features_seen: &mut TagSet,
    unsupported: &mut TagSet,
    warnings: &mut Vec<String>,
    Ghost(d): Ghost<Diag>,
)
    requires
        diag_holds(old(features_seen)@, old(unsupported)@, strings_view(old(warnings)@), d),
    ensures
        ({
            let (ps, d2) = formatting_stage(
                context.word_document@,
                context.table_stream@,
                context.data_stream@,
                *context.fib,
                context.pieces@,
                context.text@,
                paragraph_cps@,
                old(document)@.paragraphs,
                d,
            );
            &&& final(document)@.paragraphs == ps
            &&& final(document)@.section == old(document)@.section
            &&& final(document)@.numbering == old(document)@.numbering
            &&& diag_holds(
                final(features_seen)@,
                final(unsupported)@,
                strings_view(final(warnings)@),
                d2,
            )
        }),
{
    if context.fib.lcb_plcf_bte_papx == 0 {
        return ;
    }
    match apply_paragraph_formatting(context, paragraph_cps, document) {
        Ok(count) => {
            features_seen.insert("paragraph-formatting");
            if any_graphics(&document.paragraphs) {
                features_seen.insert("simple-graphics");
            }
            let total = document.paragraphs.len();
            if count != total {
                unsupported.insert("paragraph-formatting:partial");
                let mut m = owned("direct paragraph properties were recovered for ");
                push_decimal(&mut m, count as u64);
                m.push_str(" of ");
                push_decimal(&mut m, total as u64);
                m.push_str(" paragraphs");
                push_exact(warnings, m, Ghost(d.warnings));
            }
        },
        Err(error) => {
            unsupported.insert("paragraph-formatting:malformed");
            push_joined(warnings, "paragraph formatting was not recovered: ", error.as_str(), Ghost(d.warnings));
        },
    }
}

fn rtl_step(
    document: &mut Document,
    features_seen: &mut TagSet,
    warnings: &mut Vec<String>,
    Ghost(d): Ghost<Diag>,
)
    requires
        old(features_seen)@ == d.features,
        strings_view(old(warnings)@) == d.warnings,
    ensures
        ({
            let (ps, d2) = rtl_stage(old(document)@.paragraphs, d);
            &&& final(document)@.paragraphs == ps
            &&& final(document)@.section == old(document)@.section
            &&& final(document)@.numbering == old(document)@.numbering
            &&& final(features_seen)@ == d2.features
            &&& d2.unsupported == d.unsupported
            &&& strings_view(final(warnings)@) == d2.warnings
        }),
{
    let inferred = infer_rtl_paragraphs(document);
    assert(document@.paragraphs =~= rtl_stage(old(document)@.paragraphs, d).0);
    if inferred != 0 {
        features_seen.insert("rtl-inferred-from-text");
        let mut m = owned("inferred RTL direction for ");
        push_decimal(&mut m, inferred as u64);
        m.push_str(" Hebrew/Arabic paragraphs without a direct bidi property");
        push_exact(warnings, m, Ghost(d.warnings));
    }
}

fn section_step(
    word_document: &[u8],
    table_stream: &[u8],
    fib: &Fib,
    document: &mut Document,
    features_seen: &mut TagSet,
    unsupported: &mut TagSet,
    warnings: &mut Vec<String>,
    Ghost(d): Ghost<Diag>,
)
    requires
        old(document)@.section == empty_section(),
        diag_holds(old(features_seen)@, old(unsupported)@, strings_view(old(warnings)@), d),
    ensures
        ({
            let (section, d2) = section_stage(word_document@, table_stream@, *fib, d);
            &&& final(document)@.paragraphs == old(document)@.paragraphs
            &&& final(document)@.section == section
            &&& final(document)@.numbering == old(document)@.numbering
            &&& diag_holds(
                final(features_seen)@,
                final(unsupported)@,
                strings_view(final(warnings)@),
                d2,
            )
        }),
{
    if fib.lcb_plcf_sed == 0 {
        return ;
    }
    match parse_section_properties(word_document, table_stream, fib) {
        Ok((section, section_count)) => {
            document.section = section;
            features_seen.insert("page-layout");
            if section_count > 1 {
                unsupported.insert("sections:multiple");
                let mut m = owned("document has ");
                push_decimal(&mut m, section_count as u64);
                m.push_str(" sections; the final section layout is currently applied to the DOCX body");
                push_exact(warnings, m, Ghost(add_feature(d, "page-layout"@).warnings));
            }
        },
        Err(error) => {
            unsupported.insert("page-layout:malformed");
            push_joined(warnings, "section properties were not recovered: ", error.as_str(), Ghost(d.warnings));
        },
    }
}

fn numbering_step(
    table_stream: &[u8],
    fib: &Fib,
    document: &mut Document,
    features_seen: &mut TagSet,
    unsupported: &mut TagSet,
    warnings: &mut Vec<String>,
    Ghost(d): Ghost<Diag>,
)
    requires
        old(document)@.numbering.len() == 0,
        diag_holds(old(features_seen)@, old(unsupported)@, strings_view(old(warnings)@), d),
    ensures
        ({
            let (numbering, d2) = numbering_stage(table_stream@, *fib, d);
            &&& final(document)@.paragraphs == old(document)@.paragraphs
            &&& final(document)@.section == old(document)@.section
            &&& final(document)@.numbering == numbering
            &&& diag_holds(
                final(features_seen)@,
                final(unsupported)@,
                strings_view(final(warnings)@),
                d2,
            )
        }),
{
    if fib.lcb_plf_lst == 0 && fib.lcb_plf_lfo == 0 {
        assert(document@.numbering =~= Seq::<DefinitionModel>::empty());
        return ;
    }
    features_seen.insert("automatic-numbering");
    match parse_numbering(table_stream, fib) {
        Ok(definitions) => {
            let empty = definitions.len() == 0;
            document.numbering = definitions;
            if empty {
                unsupported.insert("automatic-numbering:empty");
            }
        },
        Err(error) => {
            unsupported.insert("automatic-numbering:malformed");
            push_joined(warnings, "automatic numbering was not recovered: ", error.as_str(), Ghost(d.warnings));
            assert(document@.numbering =~= Seq::<DefinitionModel>::empty());
        },
    }
}

/// A parsed document with the report of what was recovered.
#[derive(Debug)]
pub struct ParseOutput {
    pub document: Document,
    pub fib: Fib,
    pub features_seen: TagSet,
    pub unsupported: TagSet,
    pub warnings: Vec<String>,
    pub piece_count: usize,
}

fn initial_report(fib: &Fib) -> (r: (TagSet, TagSet, Vec<String>))
    ensures
        diag_holds(r.0@, r.1@, strings_view(r.2@), initial_diag(*fib)),
{
    let mut features_seen = TagSet::new();
    let mut unsupported = TagSet::new();
    unsupported.insert("styles:not-resolved");
    let mut warnings: Vec<String> = Vec::new();
    warnings.push(
        owned(
            "style-inherited formatting is not resolved; direct paragraph and section properties are preserved",
        ),
    );
    features_seen.insert("main-text");
    if fib.f_complex {
        features_seen.insert("fast-saved");
    }
    if fib.f_has_pic {
        features_seen.insert("pictures");
        unsupported.insert("pictures");
    }
    add_story_capabilities(&fib.stories, &mut features_seen, &mut unsupported);
    let ghost d = initial_diag(*fib);
    assert(features_seen@ =~= d.features);
    assert(unsupported@ =~= d.unsupported);
    assert(strings_view(warnings@) =~= seq![
        "style-inherited formatting is not resolved; direct paragraph and section properties are preserved"@,
    ]);
    (features_seen, unsupported, warnings)
}

/// Reads the main story of a document and what can be recovered of its formatting,
/// textboxes, page layout and numbering, with a report of what was seen and what is not
/// supported.
pub fn parse_document(
    word_document: &[u8],
    table_stream: &[u8],
    data_stream: &[u8],
    fib: Fib,
) -> (r: Result<ParseOutput, DocError>)
    ensures
        match r {
            Err(e) => document_model(word_document@, table_stream@, data_stream@, fib) == Err::<
                ParseModel,
                DocErrorModel,
            >(e@),
            Ok(out) => document_model(word_document@, table_stream@, data_stream@, fib) matches Ok(m)
                && out.document@ == m.document && diag_holds(
                out.features_seen@,
                out.unsupported@,
                strings_view(out.warnings@),
                m.diag,
            ) && out.fib == fib && out.piece_count == m.piece_count,
        },
{
    let clx_start = fib.fc_clx as usize;
    let clx_len = fib.lcb_clx as usize;
    if clx_start > table_stream.len() || table_stream.len() - clx_start < clx_len {
        return Err(DocError::ClxOutOfBounds { table: fib.table_stream });
    }
    let clx = slice_range(table_stream, clx_start, clx_start + clx_len);
    let pieces = parse_clx(clx, fib.stories)?;
    let text = reconstruct_main_text(word_document, pieces.as_slice(), fib.stories.main)?;
    let out = parse_content(word_document, table_stream, data_stream, fib, pieces, text);
    Ok(out)
}

fn parse_content(
    word_document: &[u8],
    table_stream: &[u8],
    data_stream: &[u8],
    fib: Fib,
    pieces: Vec<Piece>,
    text: Vec<char>,
) -> (out: ParseOutput)
    ensures
        ({
            let m = content_model(word_document@, table_stream@, data_stream@, fib, pieces@, text@);
            &&& out.document@ == m.document
            &&& diag_holds(out.features_seen@, out.unsupported@, strings_view(out.warnings@), m.diag)
            &&& out.fib == fib
            &&& out.piece_count == m.piece_count
        }),
{
    let ghost w = word_document@;
    let ghost t = table_stream@;
    let ghost data = data_stream@;
    let ghost ps = pieces@;
    let mut text = text;
    let (mut features_seen, mut unsupported, mut warnings) = initial_report(&fib);
    let ghost d0 = initial_diag(fib);
    let ghost (t1, d1) = hidden_stage(w, t, fib, ps, text@, d0);
    hidden_step(
        word_document,
        table_stream,
        &fib,
        pieces.as_slice(),
        &mut text,
        &mut features_seen,
        &mut unsupported,
        &mut warnings,
        Ghost(d0),
    );
    let ghost (syms, d2) = symbols_stage(w, t, fib, ps, text@.len(), d1);
    let symbols = symbols_step(
        word_document,
        table_stream,
        &fib,
        pieces.as_slice(),
        text.len(),
        &mut features_seen,
        &mut unsupported,
        &mut warnings,
        Ghost(d1),
    );
    let ghost (pairs, d3) = textbox_stage(w, t, fib, ps, d2);
    let textboxes = textbox_step(
        word_document,
        table_stream,
        &fib,
        pieces.as_slice(),
        &mut warnings,
        Ghost(d2),
    );
    let ghost fb = features_seen@;
    let ghost ub = unsupported@;
    let ghost wb = strings_view(warnings@);
    let (mut document, paragraph_cps) = text_to_ir(
        text.as_slice(),
        symbols.as_slice(),
        &textboxes,
        &mut features_seen,
        &mut unsupported,
        &mut warnings,
    );
    let ghost res = ir_result(text@, symbols@, pairs, ir_initial(Set::empty(), Set::empty(), Seq::empty()));
    proof {
        lemma_result_frame(text@, symbols@, pairs, fb, ub, wb);
    }
    let ghost d4 = Diag {
        features: d3.features.union(res.features),
        unsupported: d3.unsupported.union(res.unsupported),
        warnings: d3.warnings + res.warnings,
    };
    let ghost (ps1, d5) = formatting_stage(
        w,
        t,
        data,
        fib,
        ps,
        text@,
        res.build.cps,
        res.build.paragraphs,
        d4,
    );
    let context = FormattingContext {
        word_document,
        table_stream,
        data_stream,
        fib: &fib,
        pieces: pieces.as_slice(),
        text: text.as_slice(),
    };
    formatting_step(
        context,
        paragraph_cps.as_slice(),
        &mut document,
        &mut features_seen,
        &mut unsupported,
        &mut warnings,
        Ghost(d4),
    );
    let ghost (ps2, d6) = rtl_stage(ps1, d5);
    rtl_step(&mut document, &mut features_seen, &mut warnings, Ghost(d5));
    let ghost (section, d7) = section_stage(w, t, fib, d6);
    section_step(
        word_document,
        table_stream,
        &fib,
        &mut document,
        &mut features_seen,
        &mut unsupported,
        &mut warnings,
        Ghost(d6),
    );
    numbering_step(
        table_stream,
        &fib,
        &mut document,
        &mut features_seen,
        &mut unsupported,
        &mut warnings,
        Ghost(d7),
    );
    let piece_count = pieces.len();
    ParseOutput { document, fib, features_seen, unsupported, warnings, piece_count }
}

} // verus!
