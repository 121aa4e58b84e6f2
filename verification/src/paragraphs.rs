//! Turning main-story characters into paragraphs of inline content.
use vstd::prelude::*;
use crate::ir::{
    empty_section, inlines_view, paragraphs_view, plain_properties, BreakKind, Document, Inline,
    InlineModel, Paragraph, ParagraphModel, ParagraphProperties, SectionProperties,
};
use crate::strings::{hex_fixed, owned, push_hex};
use crate::tags::TagSet;
use crate::textbox::{texts_at, TextboxPlacements};
use vstd::std_specs::iter::IteratorSpec;

verus! {

/// The state of the paragraph builder while it walks the main story.
pub struct Build {
    pub paragraphs: Seq<ParagraphModel>,
    pub children: Seq<InlineModel>,
    pub text: Seq<char>,
    pub ended: bool,
    pub cps: Seq<u32>,
    pub notes: u32,
    pub fields: Seq<bool>,
    pub pending: Seq<Seq<char>>,
}

/// The builder state together with the report sets it adds to.
pub struct IrState {
    pub build: Build,
    pub features: Set<Seq<char>>,
    pub unsupported: Set<Seq<char>>,
    pub warnings: Seq<Seq<char>>,
}

pub open spec fn strings_view(v: Seq<String>) -> Seq<Seq<char>> {
    v.map_values(|s: String| s@)
}

/// Moves pending text into an inline.
pub open spec fn st_flush(s: Build) -> Build {
    if s.text.len() > 0 {
        Build { children: s.children.push(InlineModel::Text(s.text)), text: Seq::empty(), ..s }
    } else {
        s
    }
}

pub open spec fn st_push_char(s: Build, c: char) -> Build {
    Build { text: s.text.push(c), ended: false, ..s }
}

pub open spec fn st_push_note(s: Build) -> Build {
    Build {
        notes: if s.notes < u32::MAX {
            (s.notes + 1) as u32
        } else {
            s.notes
        },
        text: s.text.push('\u{FFFC}'),
        ended: false,
        ..s
    }
}

pub open spec fn st_push_inline(s: Build, i: InlineModel) -> Build {
    let f = st_flush(s);
    Build { children: f.children.push(i), ended: false, ..f }
}

pub open spec fn st_end_paragraph(s: Build, cp: u32) -> Build {
    let f = st_flush(s);
    Build {
        paragraphs: f.paragraphs.push(
            ParagraphModel { properties: plain_properties(), children: f.children },
        ),
        children: Seq::empty(),
        cps: f.cps.push(cp),
        ended: true,
        ..f
    }
}

/// One character of textbox text.
pub open spec fn st_textbox_char(s: Build, c: char) -> Build {
    if c == '\t' {
        st_push_inline(s, InlineModel::Tab)
    } else if c == '\n' || c == '\u{000B}' {
        st_push_inline(s, InlineModel::Break(BreakKind::Line))
    } else if c <= '\u{001F}' {
        st_push_char(s, '\u{FFFC}')
    } else {
        st_push_char(s, c)
    }
}

pub open spec fn st_textbox_text(s: Build, t: Seq<char>) -> Build
    decreases t.len(),
{
    if t.len() == 0 {
        s
    } else {
        st_textbox_char(st_textbox_text(s, t.drop_last()), t.last())
    }
}

pub open spec fn st_textboxes(s: Build, ts: Seq<Seq<char>>) -> Build
    decreases ts.len(),
{
    if ts.len() == 0 {
        s
    } else {
        st_textbox_text(st_textboxes(s, ts.drop_last()), ts.last())
    }
}

proof fn lemma_textbox_text_pending(s: Build, t: Seq<char>, p: Seq<Seq<char>>)
    ensures
        st_textbox_text(Build { pending: p, ..s }, t) == (Build {
            pending: p,
            ..st_textbox_text(s, t)
        }),
    decreases t.len(),
{
    if t.len() > 0 {
        lemma_textbox_text_pending(s, t.drop_last(), p);
    }
}

proof fn lemma_textboxes_pending(s: Build, ts: Seq<Seq<char>>, p: Seq<Seq<char>>)
    ensures
        st_textboxes(Build { pending: p, ..s }, ts) == (Build { pending: p, ..st_textboxes(s, ts) }),
    decreases ts.len(),
{
    if ts.len() > 0 {
        lemma_textboxes_pending(s, ts.drop_last(), p);
        lemma_textbox_text_pending(st_textboxes(s, ts.drop_last()), ts.last(), p);
    }
}

/// Emits the textbox texts waiting for the end of the paragraph, framed by spaces.
pub open spec fn st_push_pending(s: Build) -> Build {
    if s.pending.len() == 0 {
        s
    } else {
        let a = st_push_char(s, ' ');
        let b = st_textboxes(a, s.pending);
        let c = st_push_char(b, ' ');
        Build { pending: Seq::empty(), ..c }
    }
}

pub open spec fn st_feature(s: IrState, name: Seq<char>) -> IrState {
    IrState { features: s.features.insert(name), ..s }
}

pub open spec fn st_unsupported(s: IrState, name: Seq<char>) -> IrState {
    IrState {
        features: s.features.insert(name),
        unsupported: s.unsupported.insert(name),
        ..s
    }
}

/// Some open field is still in its instruction part.
pub open spec fn has_instruction(fields: Seq<bool>) -> bool {
    exists|k: int| 0 <= k < fields.len() && !#[trigger] fields[k]
}

/// The tag of an unsupported control character.
pub open spec fn control_tag(c: char) -> Seq<char> {
    "control:0x"@ + hex_fixed(c as nat, 2)
}

/// The symbol glyph recorded for `cp`, if any.
pub open spec fn symbol_at(symbols: Seq<Option<u16>>, cp: int) -> Option<u16> {
    if 0 <= cp < symbols.len() {
        symbols[cp]
    } else {
        None
    }
}

pub open spec fn with_build(s: IrState, b: Build) -> IrState {
    IrState { build: b, ..s }
}

/// Effect of main-story character `ch` at `cp`.
pub open spec fn ir_step(
    s: IrState,
    cp: int,
    ch: char,
    sym: Option<u16>,
    tb: Seq<(u32, Seq<char>)>,
) -> IrState {
    let b = s.build;
    if sym is Some {
        with_build(
            s,
            st_push_inline(b, InlineModel::Symbol { font: "Symbol"@, character: sym.unwrap() }),
        )
    } else if ch == '\u{0013}' {
        with_build(st_unsupported(s, "fields"@), Build { fields: b.fields.push(false), ..b })
    } else if ch == '\u{0014}' && b.fields.len() > 0 {
        with_build(s, Build { fields: b.fields.update(b.fields.len() - 1, true), ..b })
    } else if ch == '\u{0015}' && b.fields.len() > 0 {
        with_build(s, Build { fields: b.fields.drop_last(), ..b })
    } else if has_instruction(b.fields) {
        s
    } else if ch == '\r' {
        with_build(s, st_end_paragraph(st_push_pending(b), cp as u32))
    } else if ch == '\t' {
        with_build(st_feature(s, "tabs"@), st_push_inline(b, InlineModel::Tab))
    } else if ch == '\n' || ch == '\u{000B}' {
        with_build(s, st_push_inline(b, InlineModel::Break(BreakKind::Line)))
    } else if ch == '\u{000C}' {
        with_build(
            st_feature(s, "page-breaks"@),
            st_push_inline(b, InlineModel::Break(BreakKind::Page)),
        )
    } else if ch == '\u{000E}' {
        with_build(
            st_feature(s, "column-breaks"@),
            st_push_inline(b, InlineModel::Break(BreakKind::Column)),
        )
    } else if ch == '\u{0007}' {
        with_build(st_unsupported(s, "tables"@), st_end_paragraph(st_push_pending(b), cp as u32))
    } else if ch == '\u{0001}' {
        with_build(st_unsupported(s, "inline-objects"@), st_push_char(b, '\u{FFFC}'))
    } else if ch == '\u{0008}' {
        with_build(
            st_unsupported(s, "inline-objects"@),
            st_push_char(Build { pending: b.pending + texts_at(tb, cp as u32), ..b }, '\u{FFFC}'),
        )
    } else if ch == '\u{0002}' {
        with_build(st_unsupported(s, "note-references"@), st_push_note(b))
    } else if ch == '\u{001E}' {
        with_build(s, st_push_char(b, '\u{2011}'))
    } else if ch == '\u{001F}' {
        with_build(s, st_push_char(b, '\u{00AD}'))
    } else if ch <= '\u{001F}' {
        IrState {
            build: st_push_char(b, '\u{FFFC}'),
            unsupported: s.unsupported.insert(control_tag(ch)),
            warnings: s.warnings.push("preserved unsupported "@ + control_tag(ch) + " as U+FFFC"@),
            ..s
        }
    } else {
        with_build(s, st_push_char(b, ch))
    }
}

pub open spec fn empty_build() -> Build {
    Build {
        paragraphs: Seq::empty(),
        children: Seq::empty(),
        text: Seq::empty(),
        ended: false,
        cps: Seq::empty(),
        notes: 0,
        fields: Seq::empty(),
        pending: Seq::empty(),
    }
}

/// Builder state before any character.
pub open spec fn ir_initial(
    features: Set<Seq<char>>,
    unsupported: Set<Seq<char>>,
    warnings: Seq<Seq<char>>,
) -> IrState {
    IrState { build: empty_build(), features, unsupported, warnings }
}

/// Builder state after the first `n` characters.
pub open spec fn ir_fold(
    chars: Seq<char>,
    symbols: Seq<Option<u16>>,
    tb: Seq<(u32, Seq<char>)>,
    init: IrState,
    n: int,
) -> IrState
    decreases n,
{
    if n <= 0 {
        init
    } else {
        ir_step(
            ir_fold(chars, symbols, tb, init, n - 1),
            n - 1,
            chars[n - 1],
            symbol_at(symbols, n - 1),
            tb,
        )
    }
}

/// Closes the last paragraph unless it was just closed (and at least one exists).
pub open spec fn st_finish(s: Build, cp_lim: u32) -> Build {
    let f = st_flush(s);
    if !f.ended || f.paragraphs.len() == 0 {
        Build {
            paragraphs: f.paragraphs.push(
                ParagraphModel { properties: plain_properties(), children: f.children },
            ),
            cps: f.cps.push(
                if cp_lim > 0 {
                    (cp_lim - 1) as u32
                } else {
                    0
                },
            ),
            children: Seq::empty(),
            ..f
        }
    } else {
        f
    }
}

/// The state once all characters were consumed and the builder was finished.
pub open spec fn ir_result(
    chars: Seq<char>,
    symbols: Seq<Option<u16>>,
    tb: Seq<(u32, Seq<char>)>,
    init: IrState,
) -> IrState {
    let s = ir_fold(chars, symbols, tb, init, chars.len() as int);
    let s2 = if s.build.fields.len() > 0 {
        IrState {
            unsupported: s.unsupported.insert("fields:unbalanced"@),
            warnings: s.warnings.push("field delimiters are unbalanced"@),
            ..s
        }
    } else {
        s
    };
    with_build(s2, st_finish(st_push_pending(s2.build), chars.len() as u32))
}

/// `s` with `f`, `u` and `w` in front of its sets and warnings.
pub open spec fn framed(
    s: IrState,
    f: Set<Seq<char>>,
    u: Set<Seq<char>>,
    w: Seq<Seq<char>>,
) -> IrState {
    IrState {
        build: s.build,
        features: f.union(s.features),
        unsupported: u.union(s.unsupported),
        warnings: w + s.warnings,
    }
}

proof fn lemma_step_frame(
    s: IrState,
    cp: int,
    ch: char,
    sym: Option<u16>,
    tb: Seq<(u32, Seq<char>)>,
    f: Set<Seq<char>>,
    u: Set<Seq<char>>,
    w: Seq<Seq<char>>,
)
    ensures
        ir_step(framed(s, f, u, w), cp, ch, sym, tb) == framed(ir_step(s, cp, ch, sym, tb), f, u, w),
{
    let r1 = ir_step(framed(s, f, u, w), cp, ch, sym, tb);
    let r2 = framed(ir_step(s, cp, ch, sym, tb), f, u, w);
    assert(r1.features =~= r2.features);
    assert(r1.unsupported =~= r2.unsupported);
    assert(r1.warnings =~= r2.warnings);
}

proof fn lemma_fold_frame(
    chars: Seq<char>,
    symbols: Seq<Option<u16>>,
    tb: Seq<(u32, Seq<char>)>,
    f: Set<Seq<char>>,
    u: Set<Seq<char>>,
    w: Seq<Seq<char>>,
    n: int,
)
    ensures
        ir_fold(chars, symbols, tb, ir_initial(f, u, w), n) == framed(
            ir_fold(chars, symbols, tb, ir_initial(Set::empty(), Set::empty(), Seq::empty()), n),
            f,
            u,
            w,
        ),
    decreases n,
{
    let z = ir_initial(Set::empty(), Set::empty(), Seq::empty());
    if n <= 0 {
        let a = ir_initial(f, u, w);
        let b = framed(z, f, u, w);
        assert(a.features =~= b.features);
        assert(a.unsupported =~= b.unsupported);
        assert(a.warnings =~= b.warnings);
    } else {
        lemma_fold_frame(chars, symbols, tb, f, u, w, n - 1);
        lemma_step_frame(
            ir_fold(chars, symbols, tb, z, n - 1),
            n - 1,
            chars[n - 1],
            symbol_at(symbols, n - 1),
            tb,
            f,
            u,
            w,
        );
    }
}

/// Converting text adds to the sets and warnings it is handed, whatever they hold.
pub proof fn lemma_result_frame(
    chars: Seq<char>,
    symbols: Seq<Option<u16>>,
    tb: Seq<(u32, Seq<char>)>,
    f: Set<Seq<char>>,
    u: Set<Seq<char>>,
    w: Seq<Seq<char>>,
)
    ensures
        ir_result(chars, symbols, tb, ir_initial(f, u, w)) == framed(
            ir_result(chars, symbols, tb, ir_initial(Set::empty(), Set::empty(), Seq::empty())),
            f,
            u,
            w,
        ),
{
    lemma_fold_frame(chars, symbols, tb, f, u, w, chars.len() as int);
    let r1 = ir_result(chars, symbols, tb, ir_initial(f, u, w));
    let r2 = framed(
        ir_result(chars, symbols, tb, ir_initial(Set::empty(), Set::empty(), Seq::empty())),
        f,
        u,
        w,
    );
    assert(r1.features =~= r2.features);
    assert(r1.unsupported =~= r2.unsupported);
    assert(r1.warnings =~= r2.warnings);
}

/// Incremental builder of the paragraph list.
pub struct IrBuilder {
    paragraphs: Vec<Paragraph>,
    current: Vec<Inline>,
    text: String,
    ended_paragraph: bool,
    paragraph_cps: Vec<u32>,
    note_reference: u32,
}

/// The builder, the open fields and the textbox texts waiting for the paragraph end.
pub struct IrRun<'a> {
    builder: IrBuilder,
    fields: Vec<bool>,
    pending: Vec<&'a str>,
}

impl<'a> IrRun<'a> {
    pub closed spec fn state(&self) -> Build {
        Build {
            paragraphs: paragraphs_view(self.builder.paragraphs@),
            children: inlines_view(self.builder.current@),
            text: self.builder.text@,
            ended: self.builder.ended_paragraph,
            cps: self.builder.paragraph_cps@,
            notes: self.builder.note_reference,
            fields: self.fields@,
            pending: self.pending@.map_values(|s: &str| s@),
        }
    }

    fn new() -> (r: IrRun<'a>)
        ensures
            r.state() == empty_build(),
    {
        let r = IrRun {
            builder: IrBuilder {
                paragraphs: Vec::new(),
                current: Vec::new(),
                text: String::new(),
                ended_paragraph: false,
                paragraph_cps: Vec::new(),
                note_reference: 0,
            },
            fields: Vec::new(),
            pending: Vec::new(),
        };
        assert(paragraphs_view(r.builder.paragraphs@) =~= Seq::empty());
        assert(inlines_view(r.builder.current@) =~= Seq::empty());
        assert(r.pending@.map_values(|s: &str| s@) =~= Seq::empty());
        r
    }

    fn push_char(&mut self, ch: char)
        ensures
            final(self).state() == st_push_char(old(self).state(), ch),
    {
        self.builder.text.push(ch);
        self.builder.ended_paragraph = false;
    }

    fn push_note_reference(&mut self)
        ensures
            final(self).state() == st_push_note(old(self).state()),
    {
        self.builder.note_reference = if self.builder.note_reference < u32::MAX {
            self.builder.note_reference + 1
        } else {
            self.builder.note_reference
        };
        self.builder.text.push('\u{FFFC}');
        self.builder.ended_paragraph = false;
    }

    fn flush_text(&mut self)
        ensures
            final(self).state() == st_flush(old(self).state()),
    {
        if !self.builder.text.as_str().is_empty() {
            let mut t = String::new();
            std::mem::swap(&mut t, &mut self.builder.text);
            self.builder.current.push(Inline::Text(t));
            assert(inlines_view(self.builder.current@) =~= inlines_view(
                old(self).builder.current@,
            ).push(InlineModel::Text(old(self).builder.text@)));
        }
    }

    fn push_inline(&mut self, inline: Inline)
        ensures
            final(self).state() == st_push_inline(old(self).state(), inline@),
    {
        self.flush_text();
        let ghost mid = self.builder.current@;
        self.builder.current.push(inline);
        assert(inlines_view(self.builder.current@) =~= inlines_view(mid).push(inline@));
        self.builder.ended_paragraph = false;
    }

    fn end_paragraph(&mut self, cp: u32)
        ensures
            final(self).state() == st_end_paragraph(old(self).state(), cp),
    {
        self.flush_text();
        let mut children: Vec<Inline> = Vec::new();
        std::mem::swap(&mut children, &mut self.builder.current);
        let ghost before = self.builder.paragraphs@;
        let p = Paragraph { properties: ParagraphProperties::default(), children };
        self.builder.paragraphs.push(p);
        self.builder.paragraph_cps.push(cp);
        self.builder.ended_paragraph = true;
        assert(paragraphs_view(self.builder.paragraphs@) =~= paragraphs_view(before).push(p@));
        assert(inlines_view(self.builder.current@) =~= Seq::empty());
    }

    /// Emits one textbox text.
    fn push_textbox_text(&mut self, textbox: &str)
        ensures
            final(self).state() == st_textbox_text(old(self).state(), textbox@),
    {
        let chars = str_chars(textbox);
        let mut k: usize = 0;
        while k < chars.len()
            invariant
                k <= chars@.len(),
                chars@ == textbox@,
                self.state() == st_textbox_text(old(self).state(), textbox@.take(k as int)),
            decreases chars@.len() - k,
        {
            let c = chars[k];
            if c == '\t' {
                self.push_inline(Inline::Tab);
            } else if c == '\n' || c == '\u{000B}' {
                self.push_inline(Inline::Break(BreakKind::Line));
            } else if c <= '\u{001F}' {
                self.push_char('\u{FFFC}');
            } else {
                self.push_char(c);
            }
            assert(textbox@.take(k + 1).drop_last() =~= textbox@.take(k as int));
            k = k + 1;
        }
        assert(textbox@.take(chars@.len() as int) =~= textbox@);
    }

    /// Emits the pending textbox texts, framed by spaces.
    fn push_pending_textboxes(&mut self)
        ensures
            final(self).state() == st_push_pending(old(self).state()),
    {
        if self.pending.len() == 0 {
            return ;
        }
        self.push_char(' ');
        let mut pending: Vec<&'a str> = Vec::new();
        std::mem::swap(&mut pending, &mut self.pending);
        let ghost pv = pending@.map_values(|s: &str| s@);
        let mut k: usize = 0;
        assert(self.pending@.map_values(|s: &str| s@) =~= Seq::empty());
        assert(pv.take(0) =~= Seq::empty());
        while k < pending.len()
            invariant
                k <= pending@.len(),
                pv == pending@.map_values(|s: &str| s@),
                self.state() == (Build {
                    pending: Seq::empty(),
                    ..st_textboxes(st_push_char(old(self).state(), ' '), pv.take(k as int))
                }),
            decreases pending@.len() - k,
        {
            proof {
                lemma_textboxes_pending(
                    st_push_char(old(self).state(), ' '),
                    pv.take(k as int),
                    Seq::empty(),
                );
                lemma_textbox_text_pending(
                    st_textboxes(st_push_char(old(self).state(), ' '), pv.take(k as int)),
                    pv[k as int],
                    Seq::empty(),
                );
            }
            self.push_textbox_text(pending[k]);
            assert(pv.take(k + 1).drop_last() =~= pv.take(k as int));
            k = k + 1;
        }
        assert(pv.take(pending@.len() as int) =~= pv);
        self.push_char(' ');
    }

    /// Closes the run and yields the document and the CP of each paragraph mark.
    fn finish(self, cp_lim: u32) -> (r: (Document, Vec<u32>))
        ensures
            r.0@.paragraphs == st_finish(self.state(), cp_lim).paragraphs,
            r.1@ == st_finish(self.state(), cp_lim).cps,
            r.0@.section == empty_section(),
            r.0@.numbering.len() == 0,
    {
        let mut run = self;
        run.flush_text();
        let mut builder = run.builder;
        if !builder.ended_paragraph || builder.paragraphs.len() == 0 {
            let mut children: Vec<Inline> = Vec::new();
            std::mem::swap(&mut children, &mut builder.current);
            let ghost before = builder.paragraphs@;
            let p = Paragraph { properties: ParagraphProperties::default(), children };
            builder.paragraphs.push(p);
            builder.paragraph_cps.push(
                if cp_lim > 0 {
                    cp_lim - 1
                } else {
                    0
                },
            );
            assert(paragraphs_view(builder.paragraphs@) =~= paragraphs_view(before).push(p@));
        }
        let document = Document {
            paragraphs: builder.paragraphs,
            section: SectionProperties::default(),
            numbering: Vec::new(),
        };
        assert(document@.numbering =~= Seq::empty());
        (document, builder.paragraph_cps)
    }
}

/// The builder state together with the report sets.
pub open spec fn ir_state_of(b: Build, f: TagSet, u: TagSet, w: Seq<String>) -> IrState {
    IrState { build: b, features: f@, unsupported: u@, warnings: strings_view(w) }
}

fn any_instruction(fields: &Vec<bool>) -> (r: bool)
    ensures
        r == has_instruction(fields@),
{
    let mut k: usize = 0;
    while k < fields.len()
        invariant
            k <= fields@.len(),
            forall|j: int| 0 <= j < k ==> #[trigger] fields@[j],
        decreases fields@.len() - k,
    {
        if !fields[k] {
            return true;
        }
        k = k + 1;
    }
    false
}

fn push_string(warnings: &mut Vec<String>, w: String)
    ensures
        strings_view(final(warnings)@) == strings_view(old(warnings)@).push(w@),
{
    warnings.push(w);
    assert(strings_view(warnings@) =~= strings_view(old(warnings)@).push(w@));
}

impl<'a> IrRun<'a> {
    fn queue_anchored(&mut self, tb: &'a TextboxPlacements, cp: u32)
        requires
            tb.wf(),
        ensures
            final(self).state() == (Build {
                pending: old(self).state().pending + tb.anchored(cp),
                ..old(self).state()
            }),
    {
        if let Some(texts) = tb.anchored_at(cp) {
            let mut k: usize = 0;
            let n = texts.len();
            while k < n
                invariant
                    k <= n,
                    n == texts@.len(),
                    self.state() == (Build {
                        pending: old(self).state().pending + crate::textbox::texts_view(texts@).take(
                            k as int,
                        ),
                        ..old(self).state()
                    }),
                decreases n - k,
            {
                let text: &'a str = texts[k].as_str();
                let ghost before = self.pending@;
                self.pending.push(text);
                assert(self.pending@.map_values(|s: &str| s@) =~= before.map_values(
                    |s: &str| s@,
                ).push(text@));
                assert(old(self).state().pending + crate::textbox::texts_view(texts@).take(k + 1)
                    =~= (old(self).state().pending + crate::textbox::texts_view(texts@).take(
                    k as int,
                )).push(text@));
                k = k + 1;
            }
            assert(crate::textbox::texts_view(texts@).take(n as int) =~= crate::textbox::texts_view(
                texts@,
            ));
        } else {
            assert(old(self).state().pending + tb.anchored(cp) =~= old(self).state().pending);
        }
    }

    /// Consumes main-story character `ch` at `cp`.
    #[verifier::rlimit(40)]
    fn step(
        &mut self,
        features: &mut TagSet,
        unsupported: &mut TagSet,
        warnings: &mut Vec<String>,
        cp: usize,
        ch: char,
        sym: Option<u16>,
        tb: &'a TextboxPlacements,
    )
        requires
            tb.wf(),
        ensures
            ir_state_of(final(self).state(), *final(features), *final(unsupported), final(warnings)@)
                == ir_step(
                ir_state_of(old(self).state(), *old(features), *old(unsupported), old(warnings)@),
                cp as int,
                ch,
                sym,
                tb.pairs(),
            ),
    {
        if let Some(character) = sym {
            self.push_inline(Inline::Symbol { font: owned("Symbol"), character });
            return ;
        }
        let nf = self.fields.len();
        if ch == '\u{0013}' {
            features.insert("fields");
            unsupported.insert("fields");
            self.fields.push(false);
        } else if ch == '\u{0014}' && nf > 0 {
            self.fields.set(nf - 1, true);
        } else if ch == '\u{0015}' && nf > 0 {
            self.fields.pop();
        } else if any_instruction(&self.fields) {
        } else if ch == '\r' {
            self.push_pending_textboxes();
            self.end_paragraph(cp as u32);
        } else if ch == '\t' {
            features.insert("tabs");
            self.push_inline(Inline::Tab);
        } else if ch == '\n' || ch == '\u{000B}' {
            self.push_inline(Inline::Break(BreakKind::Line));
        } else if ch == '\u{000C}' {
            features.insert("page-breaks");
            self.push_inline(Inline::Break(BreakKind::Page));
        } else if ch == '\u{000E}' {
            features.insert("column-breaks");
            self.push_inline(Inline::Break(BreakKind::Column));
        } else if ch == '\u{0007}' {
            features.insert("tables");
            unsupported.insert("tables");
            self.push_pending_textboxes();
            self.end_paragraph(cp as u32);
        } else if ch == '\u{0001}' {
            features.insert("inline-objects");
            unsupported.insert("inline-objects");
            self.push_char('\u{FFFC}');
        } else if ch == '\u{0008}' {
            features.insert("inline-objects");
            unsupported.insert("inline-objects");
            self.queue_anchored(tb, cp as u32);
            self.push_char('\u{FFFC}');
        } else if ch == '\u{0002}' {
            features.insert("note-references");
            unsupported.insert("note-references");
            self.push_note_reference();
        } else if ch == '\u{001E}' {
            self.push_char('\u{2011}');
        } else if ch == '\u{001F}' {
            self.push_char('\u{00AD}');
        } else if ch <= '\u{001F}' {
            let mut code = owned("control:0x");
            push_hex(&mut code, ch as u32, 2);
            let mut message = owned("preserved unsupported ");
            message.push_str(code.as_str());
            message.push_str(" as U+FFFC");
            unsupported.insert_string(code);
            push_string(warnings, message);
            self.push_char('\u{FFFC}');
        } else {
            self.push_char(ch);
        }
    }
}

/// Turns main-story characters into paragraphs of inline content. Field instructions are
/// dropped and field results kept; table cell and paragraph marks end paragraphs; textbox
/// texts anchored in a paragraph are appended at its end. Also returns the CP of each
/// paragraph's closing mark.
pub fn text_to_ir(
    chars: &[char],
    symbols: &[Option<u16>],
    textboxes: &TextboxPlacements,
    features_seen: &mut TagSet,
    unsupported: &mut TagSet,
    warnings: &mut Vec<String>,
) -> (r: (Document, Vec<u32>))
    requires
        textboxes.wf(),
    ensures
        ({
            let res = ir_result(
                chars@,
                symbols@,
                textboxes.pairs(),
                ir_initial(old(features_seen)@, old(unsupported)@, strings_view(old(warnings)@)),
            );
            &&& r.0@.paragraphs == res.build.paragraphs
            &&& r.1@ == res.build.cps
            &&& final(features_seen)@ == res.features
            &&& final(unsupported)@ == res.unsupported
            &&& strings_view(final(warnings)@) == res.warnings
        }),
        r.0@.section == crate::ir::empty_section(),
        r.0@.numbering.len() == 0,
{
    let ghost init = ir_initial(old(features_seen)@, old(unsupported)@, strings_view(old(warnings)@));
    let mut run = IrRun::new();
    let mut cp: usize = 0;
    while cp < chars.len()
        invariant
            cp <= chars@.len(),
            textboxes.wf(),
            ir_state_of(run.state(), *features_seen, *unsupported, warnings@) == ir_fold(
                chars@,
                symbols@,
                textboxes.pairs(),
                init,
                cp as int,
            ),
        decreases chars@.len() - cp,
    {
        let sym = if cp < symbols.len() {
            symbols[cp]
        } else {
            None
        };
        run.step(features_seen, unsupported, warnings, cp, chars[cp], sym, textboxes);
        cp = cp + 1;
    }
    if run.fields.len() > 0 {
        unsupported.insert("fields:unbalanced");
        push_string(warnings, owned("field delimiters are unbalanced"));
    }
    run.push_pending_textboxes();
    run.finish(chars.len() as u32)
}

/// The characters of a string slice.
pub fn str_chars(s: &str) -> (r: Vec<char>)
    ensures
        r@ == s@,
{
    broadcast use {vstd::string::axiom_spec_iter, vstd::string::next_postcondition};

    let mut out: Vec<char> = Vec::new();
    let mut it = s.chars();
    loop
        invariant
            out@ + it.remaining() == s@,
            it.obeys_prophetic_iter_laws(),
            it.decrease() is Some,
        ensures
            out@ == s@,
        decreases it.decrease()->0,
    {
        match it.next() {
            Some(c) => {
                out.push(c);
            },
            None => {
                assert(out@ + Seq::<char>::empty() =~= out@);
                break ;
            },
        }
    }
    out
}

} // verus!

verus! {

/// A strong right-to-left character (Hebrew, Arabic and neighbouring blocks).
pub open spec fn is_rtl_char(c: char) -> bool {
    '\u{0590}' <= c && c <= '\u{08FF}'
}

/// A strong left-to-right Latin letter.
pub open spec fn is_ltr_char(c: char) -> bool {
    ('A' <= c && c <= 'Z') || ('a' <= c && c <= 'z') || ('\u{00C0}' <= c && c <= '\u{02AF}')
}

/// Number of characters of `cs` satisfying `f`.
pub open spec fn count_where(cs: Seq<char>, f: spec_fn(char) -> bool) -> nat
    decreases cs.len(),
{
    if cs.len() == 0 {
        0
    } else {
        count_where(cs.drop_last(), f) + if f(cs.last()) {
            1nat
        } else {
            0nat
        }
    }
}

/// Number of strong right-to-left characters.
pub open spec fn rtl_count(cs: Seq<char>) -> nat {
    count_where(cs, |c: char| is_rtl_char(c))
}

/// Number of strong left-to-right characters.
pub open spec fn ltr_count(cs: Seq<char>) -> nat {
    count_where(cs, |c: char| is_ltr_char(c))
}

/// The characters of the text inlines, in order.
pub open spec fn inline_text(children: Seq<InlineModel>) -> Seq<char>
    decreases children.len(),
{
    if children.len() == 0 {
        Seq::empty()
    } else {
        inline_text(children.drop_last()) + match children.last() {
            InlineModel::Text(t) => t,
            _ => Seq::empty(),
        }
    }
}

/// A count, capped at `u64::MAX`.
pub open spec fn capped(n: nat) -> u64 {
    if n < u64::MAX {
        n as u64
    } else {
        u64::MAX
    }
}

/// A paragraph without a direct direction whose text holds more strong right-to-left than
/// left-to-right characters (counts capped at `u64::MAX`).
pub open spec fn infers_rtl(p: ParagraphModel) -> bool {
    let t = inline_text(p.children);
    &&& p.properties.bidi is None
    &&& capped(rtl_count(t)) > capped(ltr_count(t))
}

/// The paragraph after direction inference.
pub open spec fn with_inferred_direction(p: ParagraphModel) -> ParagraphModel {
    if infers_rtl(p) {
        ParagraphModel {
            properties: crate::ir::PropertiesModel { bidi: Some(true), ..p.properties },
            ..p
        }
    } else {
        p
    }
}

/// Number of paragraphs among the first `n` whose direction is inferred.
pub open spec fn inferred_count(ps: Seq<ParagraphModel>, n: int) -> nat
    decreases n,
{
    if n <= 0 {
        0
    } else {
        inferred_count(ps, n - 1) + if infers_rtl(ps[n - 1]) {
            1nat
        } else {
            0nat
        }
    }
}

proof fn lemma_inferred_count_le(ps: Seq<ParagraphModel>, n: int)
    requires
        0 <= n,
    ensures
        inferred_count(ps, n) <= n,
    decreases n,
{
    if n > 0 {
        lemma_inferred_count_le(ps, n - 1);
    }
}

/// Counts strong RTL and LTR characters of the text inlines.
fn count_directions(children: &Vec<Inline>) -> (r: (u64, u64))
    ensures
        r.0 == capped(rtl_count(inline_text(inlines_view(children@)))),
        r.1 == capped(ltr_count(inline_text(inlines_view(children@)))),
{
    let mut rtl: u64 = 0;
    let mut ltr: u64 = 0;
    let ghost mut seen: Seq<char> = Seq::empty();
    let mut k: usize = 0;
    while k < children.len()
        invariant
            k <= children@.len(),
            seen == inline_text(inlines_view(children@).take(k as int)),
            rtl == capped(rtl_count(seen)),
            ltr == capped(ltr_count(seen)),
        decreases children@.len() - k,
    {
        assert(inlines_view(children@).take(k + 1).drop_last() =~= inlines_view(children@).take(k as int));
        match &children[k] {
            Inline::Text(text) => {
                let cs = str_chars(text.as_str());
                let mut j: usize = 0;
                let ghost base = seen;
                while j < cs.len()
                    invariant
                        j <= cs@.len(),
                        seen == base + cs@.take(j as int),
                        rtl == capped(rtl_count(seen)),
                        ltr == capped(ltr_count(seen)),
                    decreases cs@.len() - j,
                {
                    let c = cs[j];
                    proof {
                        assert((seen.push(c)).drop_last() =~= seen);
                        assert(base + cs@.take(j + 1) =~= seen.push(c));
                        assert(rtl_count(seen.push(c)) == rtl_count(seen) + if is_rtl_char(c) {
                            1nat
                        } else {
                            0nat
                        });
                        assert(ltr_count(seen.push(c)) == ltr_count(seen) + if is_ltr_char(c) {
                            1nat
                        } else {
                            0nat
                        });
                        seen = seen.push(c);
                    }
                    if c >= '\u{0590}' && c <= '\u{08FF}' {
                        if rtl < u64::MAX {
                            rtl = rtl + 1;
                        }
                    } else if (c >= 'A' && c <= 'Z') || (c >= 'a' && c <= 'z') || (c >= '\u{00C0}' && c <= '\u{02AF}') {
                        if ltr < u64::MAX {
                            ltr = ltr + 1;
                        }
                    }
                    j = j + 1;
                }
                assert(cs@.take(cs@.len() as int) =~= cs@);
            },
            _ => {
                assert(seen + Seq::<char>::empty() =~= seen);
            },
        }
        k = k + 1;
    }
    assert(inlines_view(children@).take(children@.len() as int) =~= inlines_view(children@));
    (rtl, ltr)
}

fn mark_rtl(ps: &mut Vec<Paragraph>, i: usize)
    requires
        i < old(ps)@.len(),
    ensures
        final(ps)@.len() == old(ps)@.len(),
        forall|k: int| 0 <= k < old(ps)@.len() && k != i ==> #[trigger] final(ps)@[k] == old(ps)@[k],
        final(ps)@[i as int].properties == (ParagraphProperties { bidi: Some(true), ..old(ps)@[i as int].properties }),
        final(ps)@[i as int].children == old(ps)@[i as int].children,
{
    ps[i].properties.bidi = Some(true);
}

/// Marks paragraphs without an explicit direction as right-to-left when their text holds
/// more strong Hebrew/Arabic characters than Latin ones; returns how many were marked.
pub fn infer_rtl_paragraphs(document: &mut Document) -> (r: usize)
    ensures
        final(document)@.paragraphs.len() == old(document)@.paragraphs.len(),
        forall|i: int| 0 <= i < old(document)@.paragraphs.len() ==> #[trigger] final(document)@.paragraphs[i]
            == with_inferred_direction(old(document)@.paragraphs[i]),
        final(document)@.section == old(document)@.section,
        final(document)@.numbering == old(document)@.numbering,
        r == inferred_count(old(document)@.paragraphs, old(document)@.paragraphs.len() as int),
{
    let ghost before = document@.paragraphs;
    let mut inferred: usize = 0;
    let mut i: usize = 0;
    while i < document.paragraphs.len()
        invariant
            i <= document@.paragraphs.len(),
            document@.paragraphs.len() == before.len(),
            forall|k: int| 0 <= k < i ==> #[trigger] document@.paragraphs[k] == with_inferred_direction(before[k]),
            forall|k: int| i <= k < before.len() ==> #[trigger] document@.paragraphs[k] == before[k],
            document@.section == old(document)@.section,
            document@.numbering == old(document)@.numbering,
            inferred == inferred_count(before, i as int),
            inferred <= i,
        decreases before.len() - i,
    {
        let ghost cur = document.paragraphs@;
        assert(document@.paragraphs[i as int] == cur[i as int]@);
        assert(cur[i as int]@ == before[i as int]);
        if document.paragraphs[i].properties.bidi.is_none() {
            let (rtl, ltr) = count_directions(&document.paragraphs[i].children);
            if rtl > ltr && rtl != 0 {
                mark_rtl(&mut document.paragraphs, i);
                inferred = inferred + 1;
            }
        }
        assert(document.paragraphs@[i as int]@ =~= with_inferred_direction(before[i as int]));
        assert forall|k: int| 0 <= k < before.len() && k != i implies #[trigger] document@.paragraphs[k] == paragraphs_view(cur)[k] by {
            assert(document.paragraphs@[k] == cur[k]);
        }
        i = i + 1;
    }
    inferred
}

} // verus!
