//! The neutral document model that sits between the Word binary parser and
//! the WordprocessingML writer, together with the conversion report types.
use vstd::prelude::*;

verus! {

/// Outcome class of a conversion.
#[derive(Debug, Clone, Copy, PartialEq, Eq, Structural)]
pub enum Status {
    Converted,
    ConvertedWithWarnings,
    UnsupportedSource,
    InvalidSource,
    InternalError,
}

/// Character counts of the stories recorded in the FIB.
#[derive(Debug, Clone, Copy, PartialEq, Eq, Structural)]
pub struct StoryCounts {
    pub main: u32,
    pub footnotes: u32,
    pub headers: u32,
    pub comments: u32,
    pub endnotes: u32,
    pub textboxes: u32,
    pub header_textboxes: u32,
}

/// Sum of all story lengths as a mathematical integer.
pub open spec fn story_sum(s: StoryCounts) -> int {
    s.main + s.footnotes + s.headers + s.comments + s.endnotes + s.textboxes + s.header_textboxes
}

/// The checked total of all stories: `None` exactly when the sum leaves `u32`.
pub open spec fn story_total(s: StoryCounts) -> Option<u32> {
    if story_sum(s) <= u32::MAX {
        Some(story_sum(s) as u32)
    } else {
        None
    }
}

proof fn lemma_fold_prefix_le(s: Seq<u32>, n: int)
    requires
        0 <= n <= s.len(),
    ensures
        s.take(n).fold_left(0int, |a: int, x: u32| a + x) <= s.fold_left(
            0int,
            |a: int, x: u32| a + x,
        ),
    decreases s.len() - n,
{
    if n < s.len() {
        lemma_fold_prefix_le(s, n + 1);
        assert(s.take(n + 1).drop_last() =~= s.take(n));
    } else {
        assert(s.take(n) =~= s);
    }
}

/// All story counts zero.
pub open spec fn no_stories() -> StoryCounts {
    StoryCounts {
        main: 0,
        footnotes: 0,
        headers: 0,
        comments: 0,
        endnotes: 0,
        textboxes: 0,
        header_textboxes: 0,
    }
}

impl StoryCounts {
    /// All counts zero.
    pub fn zero() -> (r: StoryCounts)
        ensures
            r == no_stories(),
            story_sum(r) == 0,
            r.main == 0 && r.footnotes == 0 && r.headers == 0 && r.comments == 0,
            r.endnotes == 0 && r.textboxes == 0 && r.header_textboxes == 0,
    {
        StoryCounts {
            main: 0,
            footnotes: 0,
            headers: 0,
            comments: 0,
            endnotes: 0,
            textboxes: 0,
            header_textboxes: 0,
        }
    }

    /// Adds up all story lengths, failing with `None` on `u32` overflow.
    pub fn total(&self) -> (r: Option<u32>)
        ensures
            r == story_total(*self),
    {
        let mut sum: u32 = self.main;
        let rest: [u32; 6] = [
            self.footnotes,
            self.headers,
            self.comments,
            self.endnotes,
            self.textboxes,
            self.header_textboxes,
        ];
        let mut i: usize = 0;
        while i < 6
            invariant
                i <= 6,
                rest@ == seq![
                    self.footnotes,
                    self.headers,
                    self.comments,
                    self.endnotes,
                    self.textboxes,
                    self.header_textboxes,
                ],
                sum == self.main + rest@.take(i as int).fold_left(0int, |a: int, x: u32| a + x),
            decreases 6 - i,
        {
            let part = rest[i];
            assert(rest@.take(i + 1).drop_last() =~= rest@.take(i as int));
            match sum.checked_add(part) {
                Some(next) => {
                    sum = next;
                },
                None => {
                    proof {
                        let full = rest@.fold_left(0int, |a: int, x: u32| a + x);
                        assert(rest@.take(6) =~= rest@);
                        assert(full == story_sum(*self) - self.main) by {
                            reveal_with_fuel(Seq::fold_left, 7);
                        }
                        lemma_fold_prefix_le(rest@, i as int + 1);
                    }
                    return None;
                },
            }
            i = i + 1;
        }
        proof {
            assert(rest@.take(6) =~= rest@);
            assert(rest@.fold_left(0int, |a: int, x: u32| a + x) == story_sum(*self) - self.main)
                by {
                reveal_with_fuel(Seq::fold_left, 7);
            }
        }
        Some(sum)
    }
}

/// Kind of an entry of the compound-file directory.
#[derive(Debug, Clone, Copy, PartialEq, Eq, Structural)]
pub enum StreamKind {
    Root,
    Storage,
    Stream,
}

/// One entry of the compound-file inventory.
#[derive(Debug, Clone, PartialEq, Eq)]
pub struct StreamInfo {
    pub path: String,
    pub kind: StreamKind,
    pub size: u64,
}

/// Paragraph alignment.
#[derive(Debug, Clone, Copy, PartialEq, Eq, Structural)]
pub enum Alignment {
    Left,
    Center,
    Right,
    Both,
    Distribute,
    MediumKashida,
    HighKashida,
    LowKashida,
    ThaiDistribute,
}

/// Reference from a paragraph to a numbering instance and level.
#[derive(Debug, Clone, Copy, PartialEq, Eq, Structural)]
pub struct NumberingRef {
    pub instance: u32,
    pub level: u8,
}

/// Suffix that follows a list label.
#[derive(Debug, Clone, Copy, PartialEq, Eq, Structural)]
pub enum NumberingSuffix {
    Tab,
    Space,
    Nothing,
}

/// Kind of an explicit break.
#[derive(Debug, Clone, Copy, PartialEq, Eq, Structural)]
pub enum BreakKind {
    Line,
    Page,
    Column,
}

/// Table membership of a paragraph.
#[derive(Debug, Clone, Copy, PartialEq, Eq, Structural)]
pub struct TableParagraphProperties {
    pub in_table: bool,
    pub depth: u8,
    pub cell_end: bool,
    pub row_end: bool,
    pub rtl: bool,
    pub reverse_cells: bool,
}

pub open spec fn no_table() -> TableParagraphProperties {
    TableParagraphProperties {
        in_table: false,
        depth: 0,
        cell_end: false,
        row_end: false,
        rtl: false,
        reverse_cells: false,
    }
}

impl Default for TableParagraphProperties {
    fn default() -> (r: Self)
        ensures
            r == no_table(),
    {
        TableParagraphProperties {
            in_table: false,
            depth: 0,
            cell_end: false,
            row_end: false,
            rtl: false,
            reverse_cells: false,
        }
    }
}

/// Page layout of the (final) section.
#[derive(Debug, Clone, Copy, PartialEq, Eq, Structural)]
pub struct SectionProperties {
    pub page_width: Option<u16>,
    pub page_height: Option<u16>,
    pub margin_top: Option<i16>,
    pub margin_bottom: Option<i16>,
    pub margin_left: Option<u16>,
    pub margin_right: Option<u16>,
    pub landscape: Option<bool>,
    pub bidi: Option<bool>,
    pub rtl_gutter: Option<bool>,
}

pub open spec fn empty_section() -> SectionProperties {
    SectionProperties {
        page_width: None,
        page_height: None,
        margin_top: None,
        margin_bottom: None,
        margin_left: None,
        margin_right: None,
        landscape: None,
        bidi: None,
        rtl_gutter: None,
    }
}

impl Default for SectionProperties {
    fn default() -> (r: Self)
        ensures
            r == empty_section(),
    {
        SectionProperties {
            page_width: None,
            page_height: None,
            margin_top: None,
            margin_bottom: None,
            margin_left: None,
            margin_right: None,
            landscape: None,
            bidi: None,
            rtl_gutter: None,
        }
    }
}

/// One paragraph border.
#[derive(Debug, Clone, PartialEq, Eq)]
pub struct Border {
    pub style: String,
    pub size: u8,
    pub space: u8,
    pub color: Option<String>,
    pub shadow: bool,
    pub frame: bool,
}

pub struct BorderModel {
    pub style: Seq<char>,
    pub size: u8,
    pub space: u8,
    pub color: Option<Seq<char>>,
    pub shadow: bool,
    pub frame: bool,
}

pub open spec fn opt_string_view(s: Option<String>) -> Option<Seq<char>> {
    match s {
        Some(t) => Some(t@),
        None => None,
    }
}

impl View for Border {
    type V = BorderModel;

    open spec fn view(&self) -> BorderModel {
        BorderModel {
            style: self.style@,
            size: self.size,
            space: self.space,
            color: opt_string_view(self.color),
            shadow: self.shadow,
            frame: self.frame,
        }
    }
}

pub open spec fn opt_border_view(b: Option<Border>) -> Option<BorderModel> {
    match b {
        Some(x) => Some(x@),
        None => None,
    }
}

/// Paragraph shading.
#[derive(Debug, Clone, PartialEq, Eq)]
pub struct Shading {
    pub pattern: String,
    pub foreground: Option<String>,
    pub background: Option<String>,
}

pub struct ShadingModel {
    pub pattern: Seq<char>,
    pub foreground: Option<Seq<char>>,
    pub background: Option<Seq<char>>,
}

impl View for Shading {
    type V = ShadingModel;

    open spec fn view(&self) -> ShadingModel {
        ShadingModel {
            pattern: self.pattern@,
            foreground: opt_string_view(self.foreground),
            background: opt_string_view(self.background),
        }
    }
}

pub open spec fn opt_shading_view(s: Option<Shading>) -> Option<ShadingModel> {
    match s {
        Some(x) => Some(x@),
        None => None,
    }
}

/// The five paragraph borders.
#[derive(Debug, Clone, PartialEq, Eq)]
pub struct ParagraphBorders {
    pub top: Option<Border>,
    pub start: Option<Border>,
    pub bottom: Option<Border>,
    pub end: Option<Border>,
    pub between: Option<Border>,
}

pub struct BordersModel {
    pub top: Option<BorderModel>,
    pub start: Option<BorderModel>,
    pub bottom: Option<BorderModel>,
    pub end: Option<BorderModel>,
    pub between: Option<BorderModel>,
}

impl View for ParagraphBorders {
    type V = BordersModel;

    open spec fn view(&self) -> BordersModel {
        BordersModel {
            top: opt_border_view(self.top),
            start: opt_border_view(self.start),
            bottom: opt_border_view(self.bottom),
            end: opt_border_view(self.end),
            between: opt_border_view(self.between),
        }
    }
}

pub open spec fn no_borders() -> BordersModel {
    BordersModel { top: None, start: None, bottom: None, end: None, between: None }
}

impl Default for ParagraphBorders {
    fn default() -> (r: Self)
        ensures
            r@ == no_borders(),
    {
        ParagraphBorders { top: None, start: None, bottom: None, end: None, between: None }
    }
}

/// Direct paragraph formatting.
#[derive(Debug, Clone, PartialEq, Eq)]
pub struct ParagraphProperties {
    pub bidi: Option<bool>,
    pub alignment: Option<Alignment>,
    pub indent_start: Option<i16>,
    pub indent_end: Option<i16>,
    pub indent_first_line: Option<i16>,
    pub space_before: Option<u16>,
    pub space_after: Option<u16>,
    pub numbering: Option<NumberingRef>,
    pub borders: ParagraphBorders,
    pub shading: Option<Shading>,
    pub table: TableParagraphProperties,
}

pub struct PropertiesModel {
    pub bidi: Option<bool>,
    pub alignment: Option<Alignment>,
    pub indent_start: Option<i16>,
    pub indent_end: Option<i16>,
    pub indent_first_line: Option<i16>,
    pub space_before: Option<u16>,
    pub space_after: Option<u16>,
    pub numbering: Option<NumberingRef>,
    pub borders: BordersModel,
    pub shading: Option<ShadingModel>,
    pub table: TableParagraphProperties,
}

impl View for ParagraphProperties {
    type V = PropertiesModel;

    open spec fn view(&self) -> PropertiesModel {
        PropertiesModel {
            bidi: self.bidi,
            alignment: self.alignment,
            indent_start: self.indent_start,
            indent_end: self.indent_end,
            indent_first_line: self.indent_first_line,
            space_before: self.space_before,
            space_after: self.space_after,
            numbering: self.numbering,
            borders: self.borders@,
            shading: opt_shading_view(self.shading),
            table: self.table,
        }
    }
}

/// Properties of a paragraph that carries no direct formatting.
pub open spec fn plain_properties() -> PropertiesModel {
    PropertiesModel {
        bidi: None,
        alignment: None,
        indent_start: None,
        indent_end: None,
        indent_first_line: None,
        space_before: None,
        space_after: None,
        numbering: None,
        borders: no_borders(),
        shading: None,
        table: no_table(),
    }
}

impl Default for ParagraphProperties {
    fn default() -> (r: Self)
        ensures
            r@ == plain_properties(),
    {
        ParagraphProperties {
            bidi: None,
            alignment: None,
            indent_start: None,
            indent_end: None,
            indent_first_line: None,
            space_before: None,
            space_after: None,
            numbering: None,
            borders: ParagraphBorders::default(),
            shading: None,
            table: TableParagraphProperties::default(),
        }
    }
}

/// Inline content of a paragraph.
#[derive(Debug, Clone, PartialEq, Eq)]
pub enum Inline {
    Text(String),
    Symbol { font: String, character: u16 },
    Tab,
    Break(BreakKind),
}

pub enum InlineModel {
    Text(Seq<char>),
    Symbol { font: Seq<char>, character: u16 },
    Tab,
    Break(BreakKind),
}

impl View for Inline {
    type V = InlineModel;

    open spec fn view(&self) -> InlineModel {
        match self {
            Inline::Text(t) => InlineModel::Text(t@),
            Inline::Symbol { font, character } => InlineModel::Symbol {
                font: font@,
                character: *character,
            },
            Inline::Tab => InlineModel::Tab,
            Inline::Break(k) => InlineModel::Break(*k),
        }
    }
}

pub open spec fn inlines_view(s: Seq<Inline>) -> Seq<InlineModel> {
    s.map_values(|i: Inline| i@)
}

/// A paragraph: properties and inline children.
#[derive(Debug, Clone, PartialEq, Eq)]
pub struct Paragraph {
    pub properties: ParagraphProperties,
    pub children: Vec<Inline>,
}

pub struct ParagraphModel {
    pub properties: PropertiesModel,
    pub children: Seq<InlineModel>,
}

impl View for Paragraph {
    type V = ParagraphModel;

    open spec fn view(&self) -> ParagraphModel {
        ParagraphModel { properties: self.properties@, children: inlines_view(self.children@) }
    }
}

pub open spec fn paragraphs_view(s: Seq<Paragraph>) -> Seq<ParagraphModel> {
    s.map_values(|p: Paragraph| p@)
}

impl Default for Paragraph {
    fn default() -> (r: Self)
        ensures
            r@ == (ParagraphModel { properties: plain_properties(), children: Seq::empty() }),
    {
        let r = Paragraph { properties: ParagraphProperties::default(), children: Vec::new() };
        assert(inlines_view(r.children@) =~= Seq::empty());
        r
    }
}

/// One level of a list template.
#[derive(Debug, Clone, PartialEq, Eq)]
pub struct NumberingLevel {
    pub level: u8,
    pub start: u32,
    pub format: String,
    pub text: String,
    pub alignment: Alignment,
    pub suffix: NumberingSuffix,
    pub paragraph: ParagraphProperties,
}

pub struct LevelModel {
    pub level: u8,
    pub start: u32,
    pub format: Seq<char>,
    pub text: Seq<char>,
    pub alignment: Alignment,
    pub suffix: NumberingSuffix,
    pub paragraph: PropertiesModel,
}

impl View for NumberingLevel {
    type V = LevelModel;

    open spec fn view(&self) -> LevelModel {
        LevelModel {
            level: self.level,
            start: self.start,
            format: self.format@,
            text: self.text@,
            alignment: self.alignment,
            suffix: self.suffix,
            paragraph: self.paragraph@,
        }
    }
}

pub open spec fn levels_view(s: Seq<NumberingLevel>) -> Seq<LevelModel> {
    s.map_values(|l: NumberingLevel| l@)
}

/// A per-instance override of one list level.
#[derive(Debug, Clone, PartialEq, Eq)]
pub struct NumberingOverride {
    pub level: u8,
    pub start: Option<u32>,
    pub formatting: Option<NumberingLevel>,
}

pub struct OverrideModel {
    pub level: u8,
    pub start: Option<u32>,
    pub formatting: Option<LevelModel>,
}

impl View for NumberingOverride {
    type V = OverrideModel;

    open spec fn view(&self) -> OverrideModel {
        OverrideModel {
            level: self.level,
            start: self.start,
            formatting: match self.formatting {
                Some(l) => Some(l@),
                None => None,
            },
        }
    }
}

pub open spec fn overrides_view(s: Seq<NumberingOverride>) -> Seq<OverrideModel> {
    s.map_values(|o: NumberingOverride| o@)
}

/// A numbering instance: a list template's levels plus its overrides.
#[derive(Debug, Clone, PartialEq, Eq)]
pub struct NumberingDefinition {
    pub instance: u32,
    pub levels: Vec<NumberingLevel>,
    pub overrides: Vec<NumberingOverride>,
}

pub struct DefinitionModel {
    pub instance: u32,
    pub levels: Seq<LevelModel>,
    pub overrides: Seq<OverrideModel>,
}

impl View for NumberingDefinition {
    type V = DefinitionModel;

    open spec fn view(&self) -> DefinitionModel {
        DefinitionModel {
            instance: self.instance,
            levels: levels_view(self.levels@),
            overrides: overrides_view(self.overrides@),
        }
    }
}

pub open spec fn definitions_view(s: Seq<NumberingDefinition>) -> Seq<DefinitionModel> {
    s.map_values(|d: NumberingDefinition| d@)
}

/// The whole converted document.
#[derive(Debug, Clone, PartialEq, Eq)]
pub struct Document {
    pub paragraphs: Vec<Paragraph>,
    pub section: SectionProperties,
    pub numbering: Vec<NumberingDefinition>,
}

pub struct DocumentModel {
    pub paragraphs: Seq<ParagraphModel>,
    pub section: SectionProperties,
    pub numbering: Seq<DefinitionModel>,
}

impl View for Document {
    type V = DocumentModel;

    open spec fn view(&self) -> DocumentModel {
        DocumentModel {
            paragraphs: paragraphs_view(self.paragraphs@),
            section: self.section,
            numbering: definitions_view(self.numbering@),
        }
    }
}

impl Default for Document {
    fn default() -> (r: Self)
        ensures
            r@.paragraphs.len() == 0,
            r@.section == empty_section(),
            r@.numbering.len() == 0,
    {
        Document {
            paragraphs: Vec::new(),
            section: SectionProperties::default(),
            numbering: Vec::new(),
        }
    }
}

/// A copy of an optional string.
pub fn copy_opt_string(s: &Option<String>) -> (r: Option<String>)
    ensures
        opt_string_view(r) == opt_string_view(*s),
{
    match s {
        Some(t) => Some(t.clone()),
        None => None,
    }
}

impl Border {
    /// A copy with the same view.
    pub fn duplicate(&self) -> (r: Border)
        ensures
            r@ == self@,
    {
        Border {
            style: self.style.clone(),
            size: self.size,
            space: self.space,
            color: copy_opt_string(&self.color),
            shadow: self.shadow,
            frame: self.frame,
        }
    }
}

/// A copy of an optional border.
pub fn copy_opt_border(b: &Option<Border>) -> (r: Option<Border>)
    ensures
        opt_border_view(r) == opt_border_view(*b),
{
    match b {
        Some(x) => Some(x.duplicate()),
        None => None,
    }
}

impl Shading {
    /// A copy with the same view.
    pub fn duplicate(&self) -> (r: Shading)
        ensures
            r@ == self@,
    {
        Shading {
            pattern: self.pattern.clone(),
            foreground: copy_opt_string(&self.foreground),
            background: copy_opt_string(&self.background),
        }
    }
}

impl ParagraphBorders {
    /// A copy with the same view.
    pub fn duplicate(&self) -> (r: ParagraphBorders)
        ensures
            r@ == self@,
    {
        ParagraphBorders {
            top: copy_opt_border(&self.top),
            start: copy_opt_border(&self.start),
            bottom: copy_opt_border(&self.bottom),
            end: copy_opt_border(&self.end),
            between: copy_opt_border(&self.between),
        }
    }
}

impl ParagraphProperties {
    /// A copy with the same view.
    pub fn duplicate(&self) -> (r: ParagraphProperties)
        ensures
            r@ == self@,
    {
        ParagraphProperties {
            bidi: self.bidi,
            alignment: self.alignment,
            indent_start: self.indent_start,
            indent_end: self.indent_end,
            indent_first_line: self.indent_first_line,
            space_before: self.space_before,
            space_after: self.space_after,
            numbering: self.numbering,
            borders: self.borders.duplicate(),
            shading: match &self.shading {
                Some(x) => Some(x.duplicate()),
                None => None,
            },
            table: self.table,
        }
    }
}

impl NumberingLevel {
    /// A copy with the same view.
    pub fn duplicate(&self) -> (r: NumberingLevel)
        ensures
            r@ == self@,
    {
        NumberingLevel {
            level: self.level,
            start: self.start,
            format: self.format.clone(),
            text: self.text.clone(),
            alignment: self.alignment,
            suffix: self.suffix,
            paragraph: self.paragraph.duplicate(),
        }
    }
}

/// A copy of a list of levels.
pub fn copy_levels(levels: &Vec<NumberingLevel>) -> (r: Vec<NumberingLevel>)
    ensures
        levels_view(r@) == levels_view(levels@),
{
    let mut out: Vec<NumberingLevel> = Vec::new();
    let mut k: usize = 0;
    while k < levels.len()
        invariant
            k <= levels@.len(),
            levels_view(out@) == levels_view(levels@).take(k as int),
        decreases levels@.len() - k,
    {
        let l = levels[k].duplicate();
        let ghost before = out@;
        let ghost lv = l@;
        out.push(l);
        assert(levels_view(out@) =~= levels_view(before).push(lv));
        assert(levels_view(levels@).take(k + 1) =~= levels_view(levels@).take(k as int).push(lv));
        k = k + 1;
    }
    assert(levels_view(levels@).take(levels@.len() as int) =~= levels_view(levels@));
    out
}

} // verus!
