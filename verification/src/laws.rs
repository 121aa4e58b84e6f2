//! Properties of the conversion as a whole.
use vstd::prelude::*;
use crate::clx::Piece;
use crate::document::{
    content_model, formatting_stage,
    hidden_stage, initial_diag, numbering_stage, rtl_stage, section_stage, story_tags,
    symbols_stage, textbox_stage, Diag,
};
use crate::fib::Fib;
use crate::ir::{plain_properties, DocumentModel, InlineModel, ParagraphModel};
use crate::ooxml::parts_model;
use crate::textbox::{lid_texts, place_by_lid, placement};
use crate::validation::{
    entries_scan, entries_verdict, first_missing, required_parts, unsafe_from, unsafe_part_name,
    ValidationErrorModel, MAX_UNCOMPRESSED_BYTES,
};
use crate::paragraphs::{
    inferred_count, infers_rtl, inline_text, ir_fold, ir_initial, ir_result, rtl_count, symbol_at,
    with_inferred_direction,
};
use crate::wordml::{
    any_rtl, bare_tag, paragraph_events, ppr_bidi, ppr_element, ppr_events, table_events,
    table_rows,
};
use crate::xml::{escaped, EventModel};

verus! {

/// Direction inference keeps an explicit direction, changes nothing in a paragraph without
/// right-to-left letters, and otherwise at most marks the paragraph right-to-left: its text
/// and its other properties stay as they are.
pub proof fn law_direction_resolution(p: ParagraphModel)
    ensures
        p.properties.bidi is Some ==> with_inferred_direction(p) == p,
        rtl_count(inline_text(p.children)) == 0 ==> with_inferred_direction(p) == p,
        with_inferred_direction(p).children == p.children,
        with_inferred_direction(p) == p || (with_inferred_direction(p).properties == (
        crate::ir::PropertiesModel { bidi: Some(true), ..p.properties })),
{
}

/// Indents are logical: an explicit logical start or end is kept; otherwise the start is
/// taken from the right indent of a right-to-left paragraph and from the left indent of any
/// other, and the end from the opposite side.
pub proof fn law_indents_are_logical(s: crate::props::PapState)
    requires
        s.nest == 0,
    ensures
        crate::props::pap_finish(s).indent_start == if s.logical_start is Some {
            s.logical_start
        } else if s.props.bidi == Some(true) {
            s.physical_right
        } else {
            s.physical_left
        },
        crate::props::pap_finish(s).indent_end == if s.logical_end is Some {
            s.logical_end
        } else if s.props.bidi == Some(true) {
            s.physical_left
        } else {
            s.physical_right
        },
{
}

/// Number of paragraphs among the first `n` that direction inference changes.
pub open spec fn changed_count(ps: Seq<ParagraphModel>, n: int) -> nat
    decreases n,
{
    if n <= 0 {
        0
    } else {
        changed_count(ps, n - 1) + if with_inferred_direction(ps[n - 1]) != ps[n - 1] {
            1nat
        } else {
            0nat
        }
    }
}

/// The paragraphs after direction inference.
pub open spec fn inferred_paragraphs(ps: Seq<ParagraphModel>) -> Seq<ParagraphModel> {
    Seq::new(ps.len(), |i: int| with_inferred_direction(ps[i]))
}

/// Direction inference counts exactly the paragraphs it changes, and it is idempotent: run
/// again on its own output it changes nothing and counts none.
pub proof fn law_inference_counts_changes_and_is_idempotent(ps: Seq<ParagraphModel>, n: int)
    requires
        0 <= n <= ps.len(),
    ensures
        inferred_count(ps, n) == changed_count(ps, n),
        inferred_paragraphs(inferred_paragraphs(ps)) == inferred_paragraphs(ps),
        inferred_count(inferred_paragraphs(ps), n) == 0,
    decreases n,
{
    let qs = inferred_paragraphs(ps);
    assert forall|i: int| 0 <= i < ps.len() implies (infers_rtl(#[trigger] ps[i])
        <==> with_inferred_direction(ps[i]) != ps[i]) && !infers_rtl(qs[i])
        && with_inferred_direction(qs[i]) == qs[i] by {
        if infers_rtl(ps[i]) {
            assert(with_inferred_direction(ps[i]).properties.bidi == Some(true));
        }
    }
    assert(inferred_paragraphs(qs) =~= qs);
    if n > 0 {
        law_inference_counts_changes_and_is_idempotent(ps, n - 1);
        assert(infers_rtl(ps[n - 1]) <==> with_inferred_direction(ps[n - 1]) != ps[n - 1]);
        assert(!infers_rtl(qs[n - 1]));
    }
}

/// What every state of paragraph-property decoding at indirection depth `depth` keeps: no
/// cell end, reversed cells only in a right-to-left table row of a direct grpprl, no
/// numbering set directly, and a list instance in `1..=32768`.
pub open spec fn pap_state_ok(s: crate::props::PapState, depth: int) -> bool {
    &&& !s.props.table.cell_end
    &&& s.props.table.reverse_cells ==> s.props.table.rtl && depth == 0
    &&& s.props.numbering is None
    &&& (s.list_instance matches Some(i) ==> 1 <= i <= 32768)
}

proof fn lemma_pap_fold_ok(g: Seq<u8>, ps: Seq<crate::sprm::Prl>, depth: int, n: int)
    ensures
        pap_state_ok(crate::props::pap_fold(g, ps, depth, n), depth),
    decreases n,
{
    if n > 0 {
        lemma_pap_fold_ok(g, ps, depth, n - 1);
        let s = crate::props::pap_fold(g, ps, depth, n - 1);
        let op = crate::sprm::operand(g, ps[n - 1]);
        if ps[n - 1].sprm == 0x460B && op.len() >= 2 {
            let v = crate::bytes::i16_at(op, 0);
            assert(-32768 <= v <= 32767);
        }
    }
}

/// Decoded paragraph properties are consistent: a paragraph in a table has a table depth of
/// at least one, cells are reversed only in a right-to-left row of a grpprl read directly
/// (not through the Data stream), the cell-end flag is left for the caller, and a list
/// reference has a level of at most 8 and an instance in `1..=32768`.
pub proof fn law_decoded_properties_consistent(
    g: Seq<u8>,
    data: Seq<u8>,
    depth: int,
    p: crate::ir::PropertiesModel,
)
    requires
        0 <= depth,
        crate::props::papx_model(g, data, depth) == Ok::<crate::ir::PropertiesModel, Seq<char>>(p),
    ensures
        p.table.in_table ==> p.table.depth >= 1,
        p.table.reverse_cells ==> p.table.rtl && depth == 0,
        !p.table.cell_end,
        p.numbering matches Some(r) ==> r.level <= 8 && 1 <= r.instance <= 32768,
    decreases 9 - depth,
{
    if depth <= 8 {
        let ps = crate::sprm::prls(g)->Ok_0;
        match crate::props::indirect_fold(g, ps, ps.len() as int) {
            Some(off) => {
                let cb = crate::bytes::u16_at(data, off as int);
                law_decoded_properties_consistent(
                    data.subrange(off + 2, off + 2 + cb),
                    data,
                    depth + 1,
                    p,
                );
            },
            None => {
                lemma_pap_fold_ok(g, ps, depth, ps.len() as int);
            },
        }
    }
}

/// Text runs that are neither empty nor next to another text run.
pub open spec fn runs_ok(cs: Seq<InlineModel>) -> bool {
    &&& forall|i: int| 0 <= i < cs.len() ==> (#[trigger] cs[i] matches InlineModel::Text(t) ==> t.len() > 0)
    &&& forall|i: int| 0 < i < cs.len() ==> !(#[trigger] cs[i] is Text && cs[i - 1] is Text)
}

/// The paragraph builder keeps plain paragraphs with good runs, and its open paragraph does
/// not end in a text run (pending text is held apart until it is flushed).
pub open spec fn build_ok(b: crate::paragraphs::Build) -> bool {
    &&& runs_ok(b.children)
    &&& (b.children.len() > 0 ==> !(b.children.last() is Text))
    &&& forall|i: int| 0 <= i < b.paragraphs.len() ==> (#[trigger] b.paragraphs[i]).properties
        == plain_properties() && runs_ok(b.paragraphs[i].children)
}

proof fn lemma_flush_runs(b: crate::paragraphs::Build)
    requires
        build_ok(b),
    ensures
        runs_ok(crate::paragraphs::st_flush(b).children),
        crate::paragraphs::st_flush(b).paragraphs == b.paragraphs,
        crate::paragraphs::st_flush(b).cps == b.cps,
        crate::paragraphs::st_flush(b).pending == b.pending,
        crate::paragraphs::st_flush(b).ended == b.ended,
{
    let f = crate::paragraphs::st_flush(b);
    if b.text.len() > 0 {
        assert forall|i: int| 0 < i < f.children.len() implies !(#[trigger] f.children[i] is Text
            && f.children[i - 1] is Text) by {
            if i == f.children.len() - 1 {
                assert(f.children[i - 1] == b.children.last());
            } else {
                assert(f.children[i] == b.children[i] && f.children[i - 1] == b.children[i - 1]);
            }
        }
        assert forall|i: int| 0 <= i < f.children.len() implies (#[trigger] f.children[i] matches InlineModel::Text(t)
            ==> t.len() > 0) by {
            if i < b.children.len() {
                assert(f.children[i] == b.children[i]);
            }
        }
    }
}

proof fn lemma_push_inline_ok(b: crate::paragraphs::Build, x: InlineModel)
    requires
        build_ok(b),
        !(x is Text),
    ensures
        build_ok(crate::paragraphs::st_push_inline(b, x)),
        crate::paragraphs::st_push_inline(b, x).paragraphs == b.paragraphs,
        crate::paragraphs::st_push_inline(b, x).cps == b.cps,
        crate::paragraphs::st_push_inline(b, x).pending == b.pending,
{
    lemma_flush_runs(b);
    let f = crate::paragraphs::st_flush(b);
    let c = f.children.push(x);
    assert forall|i: int| 0 < i < c.len() implies !(#[trigger] c[i] is Text && c[i - 1] is Text) by {
        if i < c.len() - 1 {
            assert(c[i] == f.children[i] && c[i - 1] == f.children[i - 1]);
        }
    }
    assert forall|i: int| 0 <= i < c.len() implies (#[trigger] c[i] matches InlineModel::Text(t) ==> t.len()
        > 0) by {
        if i < c.len() - 1 {
            assert(c[i] == f.children[i]);
        }
    }
}

proof fn lemma_textbox_text_ok(b: crate::paragraphs::Build, t: Seq<char>)
    requires
        build_ok(b),
    ensures
        build_ok(crate::paragraphs::st_textbox_text(b, t)),
        crate::paragraphs::st_textbox_text(b, t).paragraphs == b.paragraphs,
        crate::paragraphs::st_textbox_text(b, t).cps == b.cps,
        crate::paragraphs::st_textbox_text(b, t).pending == b.pending,
    decreases t.len(),
{
    if t.len() > 0 {
        lemma_textbox_text_ok(b, t.drop_last());
        let s = crate::paragraphs::st_textbox_text(b, t.drop_last());
        let c = t.last();
        if c == '\t' {
            lemma_push_inline_ok(s, InlineModel::Tab);
        } else if c == '\n' || c == '\u{000B}' {
            lemma_push_inline_ok(s, InlineModel::Break(crate::ir::BreakKind::Line));
        }
    }
}

proof fn lemma_textboxes_ok(b: crate::paragraphs::Build, ts: Seq<Seq<char>>)
    requires
        build_ok(b),
    ensures
        build_ok(crate::paragraphs::st_textboxes(b, ts)),
        crate::paragraphs::st_textboxes(b, ts).paragraphs == b.paragraphs,
        crate::paragraphs::st_textboxes(b, ts).cps == b.cps,
        crate::paragraphs::st_textboxes(b, ts).pending == b.pending,
    decreases ts.len(),
{
    if ts.len() > 0 {
        lemma_textboxes_ok(b, ts.drop_last());
        lemma_textbox_text_ok(crate::paragraphs::st_textboxes(b, ts.drop_last()), ts.last());
    }
}

proof fn lemma_push_pending_ok(b: crate::paragraphs::Build)
    requires
        build_ok(b),
    ensures
        build_ok(crate::paragraphs::st_push_pending(b)),
        crate::paragraphs::st_push_pending(b).paragraphs == b.paragraphs,
        crate::paragraphs::st_push_pending(b).cps == b.cps,
        crate::paragraphs::st_push_pending(b).pending.len() == 0,
        b.pending.len() == 0 ==> crate::paragraphs::st_push_pending(b) == b,
{
    if b.pending.len() > 0 {
        let a = crate::paragraphs::st_push_char(b, ' ');
        lemma_textboxes_ok(a, b.pending);
    }
}

/// A paragraph mark: the end of a paragraph or of a table cell or row.
pub open spec fn is_mark(c: char) -> bool {
    c == '\r' || c == '\u{0007}'
}

/// The paragraph ends recorded so far: one per paragraph, strictly increasing, each at a mark
/// before `n`; when the open paragraph is not just closed, every end lies before `n - 1`,
/// and no textbox text waits after a paragraph was just closed.
pub open spec fn ends_ok(b: crate::paragraphs::Build, chars: Seq<char>, n: int) -> bool {
    &&& b.paragraphs.len() == b.cps.len()
    &&& forall|i: int, j: int| 0 <= i < j < b.cps.len() ==> #[trigger] b.cps[i] < #[trigger] b.cps[j]
    &&& forall|i: int| 0 <= i < b.cps.len() ==> #[trigger] b.cps[i] < n && is_mark(chars[b.cps[i] as int])
    &&& (!b.ended && b.cps.len() > 0 ==> b.cps.last() < n - 1)
    &&& (b.ended ==> b.pending.len() == 0)
}

proof fn lemma_fold_ok(
    chars: Seq<char>,
    symbols: Seq<Option<u16>>,
    tb: Seq<(u32, Seq<char>)>,
    init: crate::paragraphs::IrState,
    n: int,
)
    requires
        init.build == crate::paragraphs::empty_build(),
        0 <= n <= chars.len(),
        chars.len() <= u32::MAX,
    ensures
        build_ok(ir_fold(chars, symbols, tb, init, n).build),
        ends_ok(ir_fold(chars, symbols, tb, init, n).build, chars, n),
    decreases n,
{
    if n > 0 {
        lemma_fold_ok(chars, symbols, tb, init, n - 1);
        let s = ir_fold(chars, symbols, tb, init, n - 1);
        let b = s.build;
        let ch = chars[n - 1];
        let sym = symbol_at(symbols, n - 1);
        let b2 = ir_fold(chars, symbols, tb, init, n).build;
        if sym is Some {
            lemma_push_inline_ok(
                b,
                InlineModel::Symbol { font: "Symbol"@, character: sym.unwrap() },
            );
        } else if ch == '\u{0013}' || (ch == '\u{0014}' && b.fields.len() > 0) || (ch == '\u{0015}'
            && b.fields.len() > 0) || crate::paragraphs::has_instruction(b.fields) {
        } else if ch == '\r' || ch == '\u{0007}' {
            lemma_push_pending_ok(b);
            let p = crate::paragraphs::st_push_pending(b);
            lemma_flush_runs(p);
            let f = crate::paragraphs::st_flush(p);
            assert(b2 == crate::paragraphs::st_end_paragraph(p, (n - 1) as u32));
            assert(b2.cps == f.cps.push((n - 1) as u32));
            assert forall|i: int| 0 <= i < b2.paragraphs.len() implies (#[trigger] b2.paragraphs[i]).properties
                == plain_properties() && runs_ok(b2.paragraphs[i].children) by {
                if i < b.paragraphs.len() {
                    assert(b2.paragraphs[i] == b.paragraphs[i]);
                }
            }
            assert forall|i: int| 0 <= i < b2.cps.len() implies #[trigger] b2.cps[i] < n && is_mark(
                chars[b2.cps[i] as int],
            ) by {
                if i < b.cps.len() {
                    assert(b2.cps[i] == b.cps[i]);
                }
            }
            assert forall|i: int, j: int| 0 <= i < j < b2.cps.len() implies #[trigger] b2.cps[i]
                < #[trigger] b2.cps[j] by {
                assert(b2.cps[i] == b.cps[i]);
                if j < b.cps.len() {
                    assert(b2.cps[j] == b.cps[j]);
                }
            }
        } else if ch == '\t' {
            lemma_push_inline_ok(b, InlineModel::Tab);
        } else if ch == '\n' || ch == '\u{000B}' {
            lemma_push_inline_ok(b, InlineModel::Break(crate::ir::BreakKind::Line));
        } else if ch == '\u{000C}' {
            lemma_push_inline_ok(b, InlineModel::Break(crate::ir::BreakKind::Page));
        } else if ch == '\u{000E}' {
            lemma_push_inline_ok(b, InlineModel::Break(crate::ir::BreakKind::Column));
        }
    }
}

/// Text becomes at least one plain paragraph. Each paragraph has an end position; the ends
/// strictly increase, every end but the last is at a paragraph mark, and the last lies
/// within the text (at 0 for empty text). No paragraph has an empty text run or two text
/// runs next to each other.
pub proof fn law_paragraph_structure(
    chars: Seq<char>,
    symbols: Seq<Option<u16>>,
    tb: Seq<(u32, Seq<char>)>,
    f: Set<Seq<char>>,
    u: Set<Seq<char>>,
    w: Seq<Seq<char>>,
)
    requires
        chars.len() <= u32::MAX,
    ensures
        ({
            let b = ir_result(chars, symbols, tb, ir_initial(f, u, w)).build;
            &&& b.paragraphs.len() == b.cps.len()
            &&& b.cps.len() >= 1
            &&& forall|i: int, j: int| 0 <= i < j < b.cps.len() ==> #[trigger] b.cps[i] < #[trigger] b.cps[j]
            &&& forall|i: int| 0 <= i < b.cps.len() - 1 ==> is_mark(chars[#[trigger] b.cps[i] as int])
            &&& b.cps.last() < (if chars.len() > 0 { chars.len() as int } else { 1 })
            &&& forall|i: int| 0 <= i < b.paragraphs.len() ==> (#[trigger] b.paragraphs[i]).properties
                == plain_properties() && runs_ok(b.paragraphs[i].children)
        }),
{
    let init = ir_initial(f, u, w);
    let n = chars.len() as int;
    lemma_fold_ok(chars, symbols, tb, init, n);
    let s = ir_fold(chars, symbols, tb, init, n);
    let b = s.build;
    lemma_push_pending_ok(b);
    let p = crate::paragraphs::st_push_pending(b);
    lemma_flush_runs(p);
    let fl = crate::paragraphs::st_flush(p);
    let b2 = ir_result(chars, symbols, tb, init).build;
    assert(b2 == crate::paragraphs::st_finish(p, chars.len() as u32));
    if !fl.ended || fl.paragraphs.len() == 0 {
        assert(b2.cps == fl.cps.push(if n > 0 { (n - 1) as u32 } else { 0u32 }));
        assert(fl.cps == b.cps);
        assert forall|i: int| 0 <= i < b2.paragraphs.len() implies (#[trigger] b2.paragraphs[i]).properties
            == plain_properties() && runs_ok(b2.paragraphs[i].children) by {
            if i < b.paragraphs.len() {
                assert(b2.paragraphs[i] == b.paragraphs[i]);
            }
        }
        assert forall|i: int, j: int| 0 <= i < j < b2.cps.len() implies #[trigger] b2.cps[i]
            < #[trigger] b2.cps[j] by {
            assert(b2.cps[i] == b.cps[i]);
            if j < b.cps.len() {
                assert(b2.cps[j] == b.cps[j]);
            } else if !b.ended || b.pending.len() > 0 {
                assert(b.cps.last() < n - 1);
                assert(b.cps[i] <= b.cps.last());
            }
        }
        assert forall|i: int| 0 <= i < b2.cps.len() - 1 implies is_mark(chars[#[trigger] b2.cps[i] as int]) by {
            assert(b2.cps[i] == b.cps[i]);
        }
    } else {
        assert(b2 == fl);
        assert(b.ended);
        assert(b.cps.len() > 0);
    }
}

/// A right-to-left paragraph is written with `w:bidi` inside its `w:pPr`.
pub proof fn law_rtl_paragraph_has_bidi(p: ParagraphModel)
    requires
        p.properties.bidi == Some(true),
    ensures
        paragraph_events(p)[2] == bare_tag("w:bidi"@),
        paragraph_events(p)[1] == crate::wordml::open_tag("w:pPr"@),
{
    reveal(ppr_bidi);
    assert(ppr_events(p.properties) == ppr_element(p.properties));
    let tail = crate::wordml::ppr_jc(p.properties) + crate::wordml::ppr_ind(p.properties)
        + crate::wordml::ppr_spacing(p.properties) + crate::wordml::ppr_borders(p.properties)
        + crate::wordml::ppr_shading(p.properties) + crate::wordml::ppr_numbering(p.properties)
        + seq![EventModel::End("w:pPr"@)];
    assert(ppr_element(p.properties) =~= seq![crate::wordml::open_tag("w:pPr"@), bare_tag("w:bidi"@)]
        + tail);
}

/// A paragraph that belongs to a list is written with a `w:numPr` naming the same list
/// instance and level, as the last property inside its `w:pPr`.
pub proof fn law_numbered_paragraph_keeps_its_list(p: ParagraphModel, r: crate::ir::NumberingRef)
    requires
        p.properties.numbering == Some(r),
    ensures
        ({
            let n = ppr_element(p.properties).len() as int;
            &&& paragraph_events(p).subrange(n - 4, n + 1) == seq![
                crate::wordml::open_tag("w:numPr"@),
                crate::wordml::value_tag("w:ilvl"@, crate::strings::decimal(r.level as nat)),
                crate::wordml::value_tag("w:numId"@, crate::strings::decimal(r.instance as nat)),
                EventModel::End("w:numPr"@),
                EventModel::End("w:pPr"@),
            ]
        }),
{
    reveal(crate::wordml::ppr_numbering);
    let e = ppr_element(p.properties);
    assert(ppr_events(p.properties) == e);
    let n = e.len() as int;
    let head = seq![crate::wordml::open_tag("w:pPr"@)] + crate::wordml::ppr_bidi(p.properties)
        + crate::wordml::ppr_jc(p.properties) + crate::wordml::ppr_ind(p.properties)
        + crate::wordml::ppr_spacing(p.properties) + crate::wordml::ppr_borders(p.properties)
        + crate::wordml::ppr_shading(p.properties);
    let tail = crate::wordml::ppr_numbering(p.properties) + seq![EventModel::End("w:pPr"@)];
    assert(e =~= head + tail);
    assert(tail.len() == 5);
    let pe = paragraph_events(p);
    assert(pe =~= seq![crate::wordml::open_tag("w:p"@)] + e + crate::wordml::inlines_events(p.children) + seq![
        EventModel::End("w:p"@),
    ]);
    assert(pe.subrange(n - 4, n + 1) =~= tail);
}

/// A run of table paragraphs in which some row is right-to-left is written as a table whose
/// properties ask for right-to-left visual order.
pub proof fn law_rtl_table_visual_order(ps: Seq<ParagraphModel>)
    requires
        any_rtl(table_rows(ps)),
    ensures
        table_events(ps) matches Some(t) && t[2] == bare_tag("w:bidiVisual"@),
{
}

/// The package holds `word/numbering.xml` exactly when the document has numbering
/// instances, and then it stands just before the document relationships.
pub proof fn law_numbering_part(d: DocumentModel)
    ensures
        d.numbering.len() > 0 ==> parts_model(d).len() == 6 && parts_model(d)[4].0
            == "word/numbering.xml"@,
        d.numbering.len() == 0 ==> parts_model(d).len() == 5 && forall|i: int|
            0 <= i < 5 ==> #[trigger] parts_model(d)[i].0 != "word/numbering.xml"@,
{
    reveal_strlit("word/numbering.xml");
    reveal_strlit("[Content_Types].xml");
    reveal_strlit("_rels/.rels");
    reveal_strlit("word/document.xml");
    reveal_strlit("word/styles.xml");
    reveal_strlit("word/_rels/document.xml.rels");
    assert("word/numbering.xml"@[0] != "[Content_Types].xml"@[0]);
    assert("word/numbering.xml"@[0] != "_rels/.rels"@[0]);
    assert("word/numbering.xml"@[5] != "word/document.xml"@[5]);
    assert("word/numbering.xml"@[5] != "word/styles.xml"@[5]);
    assert("word/numbering.xml"@[5] != "word/_rels/document.xml.rels"@[5]);
}

/// Text without `<`, `>`, `&`, quotes or carriage returns is written as it is.
pub proof fn law_plain_text_written_verbatim(t: Seq<char>)
    requires
        forall|i: int| 0 <= i < t.len() ==> #[trigger] t[i] != '<' && t[i] != '>' && t[i] != '&'
            && t[i] != '\'' && t[i] != '"' && t[i] != '\r',
    ensures
        escaped(t, false) == t,
    decreases t.len(),
{
    if t.len() > 0 {
        law_plain_text_written_verbatim(t.drop_last());
        assert(t.drop_last().push(t.last()) =~= t);
    }
}

/// Converting the same document gives the same package, part for part, and the same
/// archive, byte for byte: every entry has the same fixed timestamp and options.
pub proof fn law_deterministic_package(d1: DocumentModel, d2: DocumentModel)
    requires
        d1 == d2,
    ensures
        parts_model(d1) == parts_model(d2),
        crate::ooxml::zip_bytes_of(parts_model(d1)) == crate::ooxml::zip_bytes_of(parts_model(d2)),
{
}

/// Suppressing hidden and deleted text keeps one character per CP, so paragraph and
/// formatting positions still line up.
pub proof fn law_suppression_keeps_positions(
    w: Seq<u8>,
    t: Seq<u8>,
    fib: Fib,
    pieces: Seq<Piece>,
    text: Seq<char>,
    d: Diag,
)
    ensures
        hidden_stage(w, t, fib, pieces, text, d).0.len() == text.len(),
{
}

/// Sum of part sizes.
pub open spec fn size_total(sizes: Seq<u64>) -> int
    decreases sizes.len(),
{
    if sizes.len() == 0 {
        0
    } else {
        size_total(sizes.drop_last()) + sizes.last()
    }
}

/// The (name, size) entries of the written package, given the sizes its parts expand to.
pub open spec fn package_entries(d: DocumentModel, sizes: Seq<u64>) -> Seq<(Seq<char>, u64)> {
    Seq::new(parts_model(d).len(), |i: int| (parts_model(d)[i].0, sizes[i]))
}

proof fn lemma_safe_names()
    ensures
        !unsafe_part_name("[Content_Types].xml"@),
        !unsafe_part_name("_rels/.rels"@),
        !unsafe_part_name("word/document.xml"@),
        !unsafe_part_name("word/styles.xml"@),
        !unsafe_part_name("word/numbering.xml"@),
        !unsafe_part_name("word/_rels/document.xml.rels"@),
{
    reveal_strlit("[Content_Types].xml");
    reveal_strlit("_rels/.rels");
    reveal_strlit("word/document.xml");
    reveal_strlit("word/styles.xml");
    reveal_strlit("word/numbering.xml");
    reveal_strlit("word/_rels/document.xml.rels");
    reveal_with_fuel(unsafe_from, 30);
}

proof fn lemma_total_prefix(sizes: Seq<u64>, k: int)
    requires
        0 <= k <= sizes.len(),
    ensures
        size_total(sizes.take(k)) <= size_total(sizes),
        size_total(sizes.take(k)) >= 0,
    decreases sizes.len() - k,
{
    if k < sizes.len() {
        lemma_total_prefix(sizes, k + 1);
        assert(sizes.take(k + 1).drop_last() =~= sizes.take(k));
    } else {
        assert(sizes.take(k) =~= sizes);
    }
    lemma_total_nonneg(sizes.take(k));
}

proof fn lemma_total_nonneg(sizes: Seq<u64>)
    ensures
        size_total(sizes) >= 0,
    decreases sizes.len(),
{
    if sizes.len() > 0 {
        lemma_total_nonneg(sizes.drop_last());
    }
}

proof fn lemma_package_scan(d: DocumentModel, sizes: Seq<u64>, k: int)
    requires
        sizes.len() == parts_model(d).len(),
        size_total(sizes) <= MAX_UNCOMPRESSED_BYTES,
        0 <= k <= sizes.len(),
        forall|i: int| 0 <= i < parts_model(d).len() ==> !unsafe_part_name(#[trigger] parts_model(d)[i].0),
    ensures
        entries_scan(package_entries(d, sizes), k) == Ok::<u64, ValidationErrorModel>(
            size_total(sizes.take(k)) as u64,
        ),
    decreases k,
{
    lemma_total_prefix(sizes, k);
    if k > 0 {
        lemma_package_scan(d, sizes, k - 1);
        lemma_total_prefix(sizes, k - 1);
        assert(sizes.take(k).drop_last() =~= sizes.take(k - 1));
        assert(package_entries(d, sizes)[k - 1] == (parts_model(d)[k - 1].0, sizes[k - 1]));
    } else {
        assert(sizes.take(0) =~= Seq::<u64>::empty());
    }
}

/// The package the writer produces holds every required part under safe names; so long as
/// its parts expand to no more than the limit, it passes the structural entry checks.
pub proof fn law_package_passes_entry_checks(d: DocumentModel, sizes: Seq<u64>)
    requires
        sizes.len() == parts_model(d).len(),
        size_total(sizes) <= MAX_UNCOMPRESSED_BYTES,
    ensures
        entries_verdict(package_entries(d, sizes)) is Ok,
{
    lemma_safe_names();
    let p = parts_model(d);
    let e = package_entries(d, sizes);
    assert forall|i: int| 0 <= i < p.len() implies !unsafe_part_name(#[trigger] p[i].0) by {
        if d.numbering.len() > 0 && i == 4 {
        } else {
        }
    }
    lemma_package_scan(d, sizes, sizes.len() as int);
    reveal_with_fuel(first_missing, 6);
    assert(e[0].0 == required_parts()[0]);
    assert(e[1].0 == required_parts()[1]);
    assert(e[2].0 == required_parts()[2]);
    assert(e[3].0 == required_parts()[3]);
    assert(e[e.len() - 1].0 == required_parts()[4]);
}

/// Number of textboxes whose shape id is among `used`.
pub open spec fn used_count(tbs: Seq<(u32, Seq<char>)>, used: Seq<u32>) -> nat
    decreases tbs.len(),
{
    if tbs.len() == 0 {
        0
    } else {
        used_count(tbs.drop_last(), used) + if used.contains(tbs.last().0) {
            1nat
        } else {
            0nat
        }
    }
}

proof fn lemma_used_count_push(tbs: Seq<(u32, Seq<char>)>, used: Seq<u32>, l: u32)
    requires
        !used.contains(l),
    ensures
        used_count(tbs, used.push(l)) == used_count(tbs, used) + lid_texts(tbs, l).len(),
    decreases tbs.len(),
{
    if tbs.len() > 0 {
        lemma_used_count_push(tbs.drop_last(), used, l);
        let x = tbs.last().0;
        assert(used.push(l).contains(x) == (used.contains(x) || x == l)) by {
            if used.push(l).contains(x) {
                let k = choose|k: int| 0 <= k < used.push(l).len() && used.push(l)[k] == x;
                if k < used.len() {
                    assert(used[k] == x);
                }
            }
            if used.contains(x) {
                let k = choose|k: int| 0 <= k < used.len() && used[k] == x;
                assert(used.push(l)[k] == x);
            }
            if x == l {
                assert(used.push(l)[used.len() as int] == x);
            }
        }
    }
}

proof fn lemma_used_count_bound(tbs: Seq<(u32, Seq<char>)>, used: Seq<u32>)
    ensures
        used_count(tbs, used) <= tbs.len(),
    decreases tbs.len(),
{
    if tbs.len() > 0 {
        lemma_used_count_bound(tbs.drop_last(), used);
    }
}

proof fn lemma_placed_count(tbs: Seq<(u32, Seq<char>)>, anchors: Seq<(u32, u32)>, n: int)
    requires
        0 <= n <= anchors.len(),
    ensures
        place_by_lid(tbs, anchors, n).0.len() == used_count(tbs, place_by_lid(tbs, anchors, n).1),
    decreases n,
{
    if n > 0 {
        lemma_placed_count(tbs, anchors, n - 1);
        let prev = place_by_lid(tbs, anchors, n - 1);
        let a = anchors[n - 1];
        if !prev.1.contains(a.1) {
            lemma_used_count_push(tbs, prev.1, a.1);
        }
    } else {
        assert(used_count(tbs, Seq::<u32>::empty()) == 0) by {
            lemma_used_empty(tbs);
        }
    }
}

proof fn lemma_used_empty(tbs: Seq<(u32, Seq<char>)>)
    ensures
        used_count(tbs, Seq::<u32>::empty()) == 0,
    decreases tbs.len(),
{
    if tbs.len() > 0 {
        lemma_used_empty(tbs.drop_last());
    }
}

/// Every textbox that was read is either placed at an anchor or counted as unplaced, and no
/// textbox is placed twice.
pub proof fn law_textboxes_accounted(tbs: Seq<(u32, Seq<char>)>, anchors: Seq<(u32, u32)>)
    ensures
        placement(tbs, anchors).0.len() + placement(tbs, anchors).1 == tbs.len(),
        placement(tbs, anchors).1 >= 0,
{
    lemma_placed_count(tbs, anchors, anchors.len() as int);
    lemma_used_count_bound(tbs, place_by_lid(tbs, anchors, anchors.len() as int).1);
}

/// The report `b` keeps everything `a` says and may add to it.
pub open spec fn grows(a: Diag, b: Diag) -> bool {
    &&& a.features.subset_of(b.features)
    &&& a.unsupported.subset_of(b.unsupported)
    &&& a.warnings.len() <= b.warnings.len()
    &&& forall|i: int| 0 <= i < a.warnings.len() ==> #[trigger] b.warnings[i] == a.warnings[i]
}

proof fn lemma_grows_trans(a: Diag, b: Diag, c: Diag)
    requires
        grows(a, b),
        grows(b, c),
    ensures
        grows(a, c),
{
}

proof fn lemma_stages_grow(
    w: Seq<u8>,
    t: Seq<u8>,
    data: Seq<u8>,
    fib: Fib,
    pieces: Seq<Piece>,
    text: Seq<char>,
    n: nat,
    cps: Seq<u32>,
    ps: Seq<ParagraphModel>,
    d: Diag,
)
    ensures
        grows(d, hidden_stage(w, t, fib, pieces, text, d).1),
        grows(d, symbols_stage(w, t, fib, pieces, n, d).1),
        grows(d, textbox_stage(w, t, fib, pieces, d).1),
        grows(d, formatting_stage(w, t, data, fib, pieces, text, cps, ps, d).1),
        grows(d, rtl_stage(ps, d).1),
        grows(d, section_stage(w, t, fib, d).1),
        grows(d, numbering_stage(t, fib, d).1),
{
}

/// Whatever the document holds, the report keeps what it states before any optional
/// structure is read: style inheritance, pictures and every story other than the main one
/// are reported as not supported, and the first warning is the one about styles.
pub proof fn law_limitations_reported(
    w: Seq<u8>,
    t: Seq<u8>,
    data: Seq<u8>,
    fib: Fib,
    pieces: Seq<Piece>,
    text0: Seq<char>,
)
    ensures
        grows(initial_diag(fib), content_model(w, t, data, fib, pieces, text0).diag),
        content_model(w, t, data, fib, pieces, text0).diag.unsupported.contains(
            "styles:not-resolved"@,
        ),
        story_tags(fib.stories).subset_of(
            content_model(w, t, data, fib, pieces, text0).diag.unsupported,
        ),
        fib.f_has_pic ==> content_model(w, t, data, fib, pieces, text0).diag.unsupported.contains(
            "pictures"@,
        ),
{
    let d0 = initial_diag(fib);
    let (text, d1) = hidden_stage(w, t, fib, pieces, text0, d0);
    let (syms, d2) = symbols_stage(w, t, fib, pieces, text.len(), d1);
    let (pairs, d3) = textbox_stage(w, t, fib, pieces, d2);
    let res = ir_result(text, syms, pairs, ir_initial(Set::empty(), Set::empty(), Seq::empty()));
    let d4 = Diag {
        features: d3.features.union(res.features),
        unsupported: d3.unsupported.union(res.unsupported),
        warnings: d3.warnings + res.warnings,
    };
    let (ps1, d5) = formatting_stage(
        w,
        t,
        data,
        fib,
        pieces,
        text,
        res.build.cps,
        res.build.paragraphs,
        d4,
    );
    let (ps2, d6) = rtl_stage(ps1, d5);
    let (section, d7) = section_stage(w, t, fib, d6);
    let (numbering, d8) = numbering_stage(t, fib, d7);
    lemma_stages_grow(w, t, data, fib, pieces, text0, 0, res.build.cps, res.build.paragraphs, d0);
    lemma_stages_grow(w, t, data, fib, pieces, text, text.len(), res.build.cps, res.build.paragraphs, d1);
    lemma_stages_grow(w, t, data, fib, pieces, text, 0, res.build.cps, res.build.paragraphs, d2);
    assert(grows(d3, d4));
    lemma_stages_grow(w, t, data, fib, pieces, text, 0, res.build.cps, res.build.paragraphs, d4);
    lemma_stages_grow(w, t, data, fib, pieces, text, 0, res.build.cps, ps1, d5);
    lemma_stages_grow(w, t, data, fib, pieces, text, 0, res.build.cps, ps2, d6);
    lemma_stages_grow(w, t, data, fib, pieces, text, 0, res.build.cps, ps2, d7);
    lemma_grows_trans(d0, d1, d2);
    lemma_grows_trans(d0, d2, d3);
    lemma_grows_trans(d0, d3, d4);
    lemma_grows_trans(d0, d4, d5);
    lemma_grows_trans(d0, d5, d6);
    lemma_grows_trans(d0, d6, d7);
    lemma_grows_trans(d0, d7, d8);
    assert(content_model(w, t, data, fib, pieces, text0).diag == d8);
    assert(d0.unsupported.contains("styles:not-resolved"@));
}

/// The paragraphs of text whose only control character is the paragraph mark: the
/// finished paragraphs and the text after the last mark.
pub open spec fn mark_split(chars: Seq<char>) -> (Seq<Seq<char>>, Seq<char>)
    decreases chars.len(),
{
    if chars.len() == 0 {
        (Seq::empty(), Seq::empty())
    } else {
        let (done, cur) = mark_split(chars.drop_last());
        if chars.last() == '\r' {
            (done.push(cur), Seq::empty())
        } else {
            (done, cur.push(chars.last()))
        }
    }
}

/// A paragraph without direct properties holding `t` as one run (none when `t` is empty).
pub open spec fn text_paragraph(t: Seq<char>) -> ParagraphModel {
    ParagraphModel {
        properties: plain_properties(),
        children: if t.len() > 0 {
            seq![InlineModel::Text(t)]
        } else {
            Seq::empty()
        },
    }
}

/// The paragraphs that text made of visible characters and paragraph marks becomes.
pub open spec fn marked_paragraphs(chars: Seq<char>) -> Seq<ParagraphModel> {
    let (done, cur) = mark_split(chars);
    let finished = done.map_values(|t: Seq<char>| text_paragraph(t));
    if chars.len() > 0 && chars.last() == '\r' {
        finished
    } else {
        finished.push(text_paragraph(cur))
    }
}

/// Every character is visible or a paragraph mark, and no position carries a glyph.
pub open spec fn marked_text(chars: Seq<char>, symbols: Seq<Option<u16>>) -> bool {
    forall|i: int|
        0 <= i < chars.len() ==> (#[trigger] chars[i] > '\u{1F}' || chars[i] == '\r') && symbol_at(
            symbols,
            i,
        ) is None
}

proof fn lemma_marked_fold(
    chars: Seq<char>,
    symbols: Seq<Option<u16>>,
    tb: Seq<(u32, Seq<char>)>,
    f: Set<Seq<char>>,
    u: Set<Seq<char>>,
    w: Seq<Seq<char>>,
    n: int,
)
    requires
        0 <= n <= chars.len(),
        marked_text(chars, symbols),
    ensures
        ({
            let s = ir_fold(chars, symbols, tb, ir_initial(f, u, w), n);
            let (done, cur) = mark_split(chars.take(n));
            &&& s.features == f
            &&& s.unsupported == u
            &&& s.warnings == w
            &&& s.build.paragraphs == done.map_values(|t: Seq<char>| text_paragraph(t))
            &&& s.build.children.len() == 0
            &&& s.build.text == cur
            &&& s.build.ended == (n > 0 && chars[n - 1] == '\r')
            &&& s.build.fields.len() == 0
            &&& s.build.pending.len() == 0
        }),
    decreases n,
{
    if n > 0 {
        lemma_marked_fold(chars, symbols, tb, f, u, w, n - 1);
        assert(chars.take(n).drop_last() =~= chars.take(n - 1));
        let prev = ir_fold(chars, symbols, tb, ir_initial(f, u, w), n - 1);
        assert(!crate::paragraphs::has_instruction(prev.build.fields));
        let (done, cur) = mark_split(chars.take(n - 1));
        let c = chars[n - 1];
        assert(chars.take(n).last() == c);
        assert(mark_split(chars.take(n)) == if c == '\r' {
            (done.push(cur), Seq::<char>::empty())
        } else {
            (done, cur.push(c))
        });
        let s = ir_fold(chars, symbols, tb, ir_initial(f, u, w), n);
        if c == '\r' {
            assert(done.push(cur).map_values(|t: Seq<char>| text_paragraph(t)) =~= done.map_values(
                |t: Seq<char>| text_paragraph(t),
            ).push(text_paragraph(cur)));
            assert(crate::paragraphs::st_flush(prev.build).children =~= text_paragraph(cur).children);
            assert(s.build.paragraphs =~= done.push(cur).map_values(|t: Seq<char>| text_paragraph(t)));
        } else {
            assert(c > '\u{1F}');
            assert(s.build.text == cur.push(c));
        }
    } else {
        assert(chars.take(0) =~= Seq::<char>::empty());
        assert(Seq::<Seq<char>>::empty().map_values(|t: Seq<char>| text_paragraph(t)) =~= Seq::<
            ParagraphModel,
        >::empty());
    }
}

/// Text made of visible characters and paragraph marks becomes one paragraph per mark (and
/// one for text after the last mark), each holding its characters unchanged and in logical
/// order as one run; the report sets and warnings are left alone.
pub proof fn law_text_preserved_by_paragraph(
    chars: Seq<char>,
    symbols: Seq<Option<u16>>,
    tb: Seq<(u32, Seq<char>)>,
    f: Set<Seq<char>>,
    u: Set<Seq<char>>,
    w: Seq<Seq<char>>,
)
    requires
        marked_text(chars, symbols),
    ensures
        ir_result(chars, symbols, tb, ir_initial(f, u, w)).build.paragraphs == marked_paragraphs(
            chars,
        ),
        ir_result(chars, symbols, tb, ir_initial(f, u, w)).features == f,
        ir_result(chars, symbols, tb, ir_initial(f, u, w)).unsupported == u,
        ir_result(chars, symbols, tb, ir_initial(f, u, w)).warnings == w,
{
    lemma_marked_fold(chars, symbols, tb, f, u, w, chars.len() as int);
    assert(chars.take(chars.len() as int) =~= chars);
    let (done, cur) = mark_split(chars);
    let s = ir_fold(chars, symbols, tb, ir_initial(f, u, w), chars.len() as int);
    let fl = crate::paragraphs::st_flush(s.build);
    assert(fl.children =~= text_paragraph(cur).children);
    if chars.len() > 0 && chars.last() == '\r' {
        lemma_split_after_mark(chars);
        assert(s.build.paragraphs.len() > 0);
    } else {
        assert(!s.build.ended);
    }
}

proof fn lemma_split_after_mark(chars: Seq<char>)
    requires
        chars.len() > 0,
        chars.last() == '\r',
    ensures
        mark_split(chars).1.len() == 0,
        mark_split(chars).0.len() > 0,
{
}


proof fn lemma_no_cp_error(plc: Seq<u8>, n: int, i: int)
    requires
        0 <= i,
        crate::clx::cps_error_from(plc, n, i) is None,
    ensures
        forall|j: int| i <= j <= n ==> #[trigger] crate::clx::plc_cp(plc, j) >= 0,
        forall|j: int| i <= j <= n && j > 0 ==> #[trigger] crate::clx::plc_cp(plc, j)
            > crate::clx::plc_cp(plc, j - 1),
    decreases n + 1 - i,
{
    if i <= n {
        lemma_no_cp_error(plc, n, i + 1);
    }
}

/// A piece table that parses has `(lcb - 4) / 12` pieces, `lcb` being the PlcPcd length
/// that follows the `0x02` marker, and between one and a million of them. Its pieces are
/// non-empty and contiguous, no CP exceeds `i32::MAX`, and the last piece ends at the CP
/// that the story counts call for: the main story's length, or the total of all stories
/// plus one when there are other stories.
pub proof fn law_piece_table(
    clx: Seq<u8>,
    stories: crate::ir::StoryCounts,
    ps: Seq<Piece>,
)
    requires
        crate::clx::clx_pieces(clx, stories) == Ok::<Seq<Piece>, crate::fib::DocErrorModel>(ps),
    ensures
        crate::clx::prc_end(clx, 0) matches Ok(c) && clx[c] == 2 && ps.len() == (
        crate::bytes::u32_at(clx, c + 1) - 4) / 12,
        1 <= ps.len() <= 1_000_000,
        crate::clx::pieces_wf(ps),
        crate::clx::expected_last_cp(stories) matches Ok(last) && ps.last().cp_end == last,
        forall|i: int| 0 <= i < ps.len() ==> #[trigger] ps[i].cp_end <= i32::MAX,
{
    let c = crate::clx::prc_end(clx, 0)->Ok_0;
    let lcb = crate::bytes::u32_at(clx, c + 1) as int;
    let n = (lcb - 4) / 12;
    let plc = clx.subrange(c + 5, c + 5 + lcb);
    lemma_no_cp_error(plc, n, 0);
    assert(ps == Seq::new(n as nat, |i: int| crate::clx::plc_piece(plc, n, i)));
    assert forall|i: int| 0 <= i < ps.len() implies #[trigger] ps[i].cp_start < ps[i].cp_end
        && ps[i].cp_end <= i32::MAX by {
        assert(crate::clx::plc_cp(plc, i) >= 0);
        assert(crate::clx::plc_cp(plc, i + 1) > crate::clx::plc_cp(plc, i));
    }
    assert forall|i: int| 0 < i < ps.len() implies #[trigger] ps[i].cp_start == ps[i - 1].cp_end by {
        assert(crate::clx::plc_cp(plc, i) >= 0);
    }
    assert(crate::clx::plc_cp(plc, n) >= 0);
}


/// A byte of a compressed piece reads as its Windows-1252 character: the bytes `0x80..=0x9F`
/// that the code page assigns read as its punctuation and letters (curly quotes, dashes, the
/// euro sign, ...), and every other byte as the code point of the same number. No two bytes
/// read as the same character.
pub proof fn law_windows_1252(b: u8, b2: u8)
    ensures
        b == 0x80 ==> crate::story::ansi_char(b) == '\u{20AC}',
        b == 0x82 ==> crate::story::ansi_char(b) == '\u{201A}',
        b == 0x83 ==> crate::story::ansi_char(b) == '\u{0192}',
        b == 0x84 ==> crate::story::ansi_char(b) == '\u{201E}',
        b == 0x85 ==> crate::story::ansi_char(b) == '\u{2026}',
        b == 0x86 ==> crate::story::ansi_char(b) == '\u{2020}',
        b == 0x87 ==> crate::story::ansi_char(b) == '\u{2021}',
        b == 0x88 ==> crate::story::ansi_char(b) == '\u{02C6}',
        b == 0x89 ==> crate::story::ansi_char(b) == '\u{2030}',
        b == 0x8A ==> crate::story::ansi_char(b) == '\u{0160}',
        b == 0x8B ==> crate::story::ansi_char(b) == '\u{2039}',
        b == 0x8C ==> crate::story::ansi_char(b) == '\u{0152}',
        b == 0x8E ==> crate::story::ansi_char(b) == '\u{017D}',
        b == 0x91 ==> crate::story::ansi_char(b) == '\u{2018}',
        b == 0x92 ==> crate::story::ansi_char(b) == '\u{2019}',
        b == 0x93 ==> crate::story::ansi_char(b) == '\u{201C}',
        b == 0x94 ==> crate::story::ansi_char(b) == '\u{201D}',
        b == 0x95 ==> crate::story::ansi_char(b) == '\u{2022}',
        b == 0x96 ==> crate::story::ansi_char(b) == '\u{2013}',
        b == 0x97 ==> crate::story::ansi_char(b) == '\u{2014}',
        b == 0x98 ==> crate::story::ansi_char(b) == '\u{02DC}',
        b == 0x99 ==> crate::story::ansi_char(b) == '\u{2122}',
        b == 0x9A ==> crate::story::ansi_char(b) == '\u{0161}',
        b == 0x9B ==> crate::story::ansi_char(b) == '\u{203A}',
        b == 0x9C ==> crate::story::ansi_char(b) == '\u{0153}',
        b == 0x9E ==> crate::story::ansi_char(b) == '\u{017E}',
        b == 0x9F ==> crate::story::ansi_char(b) == '\u{0178}',
        (b < 0x80 || b > 0x9F || b == 0x81 || b == 0x8D || b == 0x8F || b == 0x90 || b == 0x9D)
            ==> crate::story::ansi_char(b) as u32 == b as u32,
        b != b2 ==> crate::story::ansi_char(b) != crate::story::ansi_char(b2),
{
}

/// Of the page margins of a section, sprmSDxaLeft (0xB021) sets the left one and
/// sprmSDxaRight (0xB022) the right one, each to the little-endian 16-bit value of its
/// operand, and each leaves the other margin as it was.
pub proof fn law_section_margins(g: Seq<u8>, ps: Seq<crate::sprm::Prl>, n: int)
    requires
        1 <= n <= ps.len(),
        crate::sprm::operand(g, ps[n - 1]).len() >= 2,
    ensures
        ({
            let op = crate::sprm::operand(g, ps[n - 1]);
            let value = op[0] as int + 256 * (op[1] as int);
            let before = crate::props::section_fold(g, ps, n - 1);
            let after = crate::props::section_fold(g, ps, n);
            &&& ps[n - 1].sprm == 0xB021 ==> after.margin_left == Some(value as u16)
                && after.margin_right == before.margin_right
            &&& ps[n - 1].sprm == 0xB022 ==> after.margin_right == Some(value as u16)
                && after.margin_left == before.margin_left
        }),
{
}

/// The number format of a list level is the one that its nfc code names in the MS-DOC
/// table: 0 decimal, 1 upper-case Roman, 2 lower-case Roman, 3 upper-case letters, 4
/// lower-case letters, 0x17 a bullet, 0x2D and 0x2F the Hebrew formats, 0x2E and 0x30 the
/// Arabic ones, 0xFF none. Upper- and lower-case variants are told apart.
pub proof fn law_number_formats()
    ensures
        crate::numbering::format_name(0x00) == "decimal"@,
        crate::numbering::format_name(0x01) == "upperRoman"@,
        crate::numbering::format_name(0x02) == "lowerRoman"@,
        crate::numbering::format_name(0x03) == "upperLetter"@,
        crate::numbering::format_name(0x04) == "lowerLetter"@,
        crate::numbering::format_name(0x05) == "ordinal"@,
        crate::numbering::format_name(0x06) == "cardinalText"@,
        crate::numbering::format_name(0x07) == "ordinalText"@,
        crate::numbering::format_name(0x08) == "hex"@,
        crate::numbering::format_name(0x09) == "chicago"@,
        crate::numbering::format_name(0x16) == "decimalZero"@,
        crate::numbering::format_name(0x17) == "bullet"@,
        crate::numbering::format_name(0x28) == "decimal"@,
        crate::numbering::format_name(0x2D) == "hebrew1"@,
        crate::numbering::format_name(0x2E) == "arabicAlpha"@,
        crate::numbering::format_name(0x2F) == "hebrew2"@,
        crate::numbering::format_name(0x30) == "arabicAbjad"@,
        crate::numbering::format_name(0x3A) == "russianLower"@,
        crate::numbering::format_name(0x3B) == "russianUpper"@,
        crate::numbering::format_name(0xFF) == "none"@,
        crate::numbering::format_name(0x01) != crate::numbering::format_name(0x02),
        crate::numbering::format_name(0x03) != crate::numbering::format_name(0x04),
        crate::numbering::format_name(0x2D) != crate::numbering::format_name(0x2F),
        crate::numbering::format_name(0x00) != crate::numbering::format_name(0x17),
{
    reveal_strlit("upperRoman");
    reveal_strlit("lowerRoman");
    reveal_strlit("upperLetter");
    reveal_strlit("lowerLetter");
    reveal_strlit("hebrew1");
    reveal_strlit("hebrew2");
    reveal_strlit("decimal");
    reveal_strlit("bullet");
    assert("upperRoman"@[0] != "lowerRoman"@[0]);
    assert("upperLetter"@[0] != "lowerLetter"@[0]);
    assert("hebrew1"@[6] != "hebrew2"@[6]);
    assert("decimal"@[0] != "bullet"@[0]);
}

/// Latin letters as direction inference counts them: A-Z, a-z and U+00C0..U+02AF.
pub open spec fn latin_letters(cs: Seq<char>) -> nat
    decreases cs.len(),
{
    if cs.len() == 0 {
        0
    } else {
        latin_letters(cs.drop_last()) + if ('A' <= cs.last() && cs.last() <= 'Z') || ('a'
            <= cs.last() && cs.last() <= 'z') || ('\u{00C0}' <= cs.last() && cs.last()
            <= '\u{02AF}') {
            1nat
        } else {
            0nat
        }
    }
}

/// Hebrew and Arabic letters as direction inference counts them: U+0590..U+08FF.
pub open spec fn hebrew_arabic_letters(cs: Seq<char>) -> nat
    decreases cs.len(),
{
    if cs.len() == 0 {
        0
    } else {
        hebrew_arabic_letters(cs.drop_last()) + if '\u{0590}' <= cs.last() && cs.last()
            <= '\u{08FF}' {
            1nat
        } else {
            0nat
        }
    }
}

proof fn lemma_letter_counts(cs: Seq<char>)
    ensures
        latin_letters(cs) == crate::paragraphs::ltr_count(cs),
        hebrew_arabic_letters(cs) == crate::paragraphs::rtl_count(cs),
    decreases cs.len(),
{
    if cs.len() > 0 {
        lemma_letter_counts(cs.drop_last());
    }
}

/// A paragraph is marked right-to-left by inference only when it has no direct direction and
/// its Hebrew/Arabic letters outnumber its Latin letters (every A-Z, a-z and U+00C0..U+02AF
/// counting as Latin): a paragraph with at least as many Latin letters is never changed, and
/// one without a direction whose Hebrew/Arabic letters outnumber its Latin ones is marked.
pub proof fn law_direction_majority(p: ParagraphModel)
    ensures
        ({
            let t = crate::paragraphs::inline_text(p.children);
            &&& latin_letters(t) >= hebrew_arabic_letters(t) ==> with_inferred_direction(p) == p
            &&& p.properties.bidi is Some ==> with_inferred_direction(p) == p
            &&& p.properties.bidi is None && latin_letters(t) < hebrew_arabic_letters(t)
                && hebrew_arabic_letters(t) < u64::MAX ==> with_inferred_direction(p).properties.bidi
                == Some(true)
        }),
{
    lemma_letter_counts(crate::paragraphs::inline_text(p.children));
}

/// Each alignment is written as its own `w:jc` value: left, center, right, both, distribute,
/// mediumKashida, highKashida, lowKashida, thaiDistribute; distinct alignments are written
/// with distinct values.
pub proof fn law_alignment_names(a: crate::ir::Alignment, b: crate::ir::Alignment)
    ensures
        a == crate::ir::Alignment::Left ==> crate::wordml::alignment_name(a) == "left"@,
        a == crate::ir::Alignment::Center ==> crate::wordml::alignment_name(a) == "center"@,
        a == crate::ir::Alignment::Right ==> crate::wordml::alignment_name(a) == "right"@,
        a == crate::ir::Alignment::Both ==> crate::wordml::alignment_name(a) == "both"@,
        a == crate::ir::Alignment::Distribute ==> crate::wordml::alignment_name(a) == "distribute"@,
        a == crate::ir::Alignment::MediumKashida ==> crate::wordml::alignment_name(a)
            == "mediumKashida"@,
        a == crate::ir::Alignment::HighKashida ==> crate::wordml::alignment_name(a)
            == "highKashida"@,
        a == crate::ir::Alignment::LowKashida ==> crate::wordml::alignment_name(a)
            == "lowKashida"@,
        a == crate::ir::Alignment::ThaiDistribute ==> crate::wordml::alignment_name(a)
            == "thaiDistribute"@,
        a != b ==> crate::wordml::alignment_name(a) != crate::wordml::alignment_name(b),
{
    reveal_strlit("left");
    reveal_strlit("center");
    reveal_strlit("right");
    reveal_strlit("both");
    reveal_strlit("distribute");
    reveal_strlit("mediumKashida");
    reveal_strlit("highKashida");
    reveal_strlit("lowKashida");
    reveal_strlit("thaiDistribute");
    assert("left"@[0] == 'l' && "left"@.len() == 4);
    assert("center"@[0] == 'c');
    assert("right"@[0] == 'r');
    assert("both"@[0] == 'b');
    assert("distribute"@[0] == 'd' && "distribute"@.len() == 10);
    assert("mediumKashida"@[0] == 'm');
    assert("highKashida"@[0] == 'h');
    assert("lowKashida"@[0] == 'l' && "lowKashida"@.len() == 10);
    assert("thaiDistribute"@[0] == 't');
}

} // verus!
