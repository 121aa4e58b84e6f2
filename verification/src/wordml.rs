//! WordprocessingML parts of the converted document, as XML events.
use vstd::prelude::*;
use crate::ir::{
    definitions_view, inlines_view, levels_view, overrides_view, paragraphs_view, Alignment,
    Border, BorderModel, BreakKind, DefinitionModel, Inline, InlineModel, LevelModel,
    NumberingDefinition, NumberingLevel, NumberingOverride, NumberingSuffix, OverrideModel,
    Paragraph, ParagraphModel, ParagraphProperties, PropertiesModel, SectionProperties,
    ShadingModel,
};
use crate::strings::{
    decimal, hex_fixed, owned, push_decimal, push_hex, push_signed_decimal, signed_decimal,
};
use crate::textbox::{is_white, is_whitespace_char};
use crate::xml::{attrs_view, events_view, EventModel, XmlEvent};

verus! {

/// A start tag without attributes.
pub open spec fn open_tag(n: Seq<char>) -> EventModel {
    EventModel::Start(n, Seq::empty())
}

/// An empty-element tag without attributes.
pub open spec fn bare_tag(n: Seq<char>) -> EventModel {
    EventModel::Empty(n, Seq::empty())
}

/// An empty-element tag with a single `w:val` attribute.
pub open spec fn value_tag(n: Seq<char>, v: Seq<char>) -> EventModel {
    EventModel::Empty(n, seq![("w:val"@, v)])
}

fn push_event(events: &mut Vec<XmlEvent>, e: XmlEvent)
    ensures
        events_view(final(events)@) == events_view(old(events)@).push(e@),
{
    let ghost ev = e@;
    events.push(e);
    assert(events_view(events@) =~= events_view(old(events)@).push(ev));
}

fn push_open(events: &mut Vec<XmlEvent>, name: &str)
    ensures
        events_view(final(events)@) == events_view(old(events)@).push(open_tag(name@)),
{
    let e = XmlEvent::Start(owned(name), Vec::new());
    assert(attrs_view(Seq::<(String, String)>::empty()) =~= Seq::empty());
    push_event(events, e);
}

fn push_bare(events: &mut Vec<XmlEvent>, name: &str)
    ensures
        events_view(final(events)@) == events_view(old(events)@).push(bare_tag(name@)),
{
    let e = XmlEvent::Empty(owned(name), Vec::new());
    assert(attrs_view(Seq::<(String, String)>::empty()) =~= Seq::empty());
    push_event(events, e);
}

fn push_close(events: &mut Vec<XmlEvent>, name: &str)
    ensures
        events_view(final(events)@) == events_view(old(events)@).push(EventModel::End(name@)),
{
    push_event(events, XmlEvent::End(owned(name)));
}

fn push_value(events: &mut Vec<XmlEvent>, name: &str, value: String)
    ensures
        events_view(final(events)@) == events_view(old(events)@).push(value_tag(name@, value@)),
{
    let ghost v = value@;
    let mut attrs: Vec<(String, String)> = Vec::new();
    attrs.push((owned("w:val"), value));
    assert(attrs_view(attrs@) =~= seq![("w:val"@, v)]);
    push_event(events, XmlEvent::Empty(owned(name), attrs));
}

fn push_attr(attrs: &mut Vec<(String, String)>, key: &str, value: String)
    ensures
        attrs_view(final(attrs)@) == attrs_view(old(attrs)@).push((key@, value@)),
{
    let ghost v = value@;
    attrs.push((owned(key), value));
    assert(attrs_view(attrs@) =~= attrs_view(old(attrs)@).push((key@, v)));
}

fn decimal_string(n: u64) -> (r: String)
    ensures
        r@ == decimal(n as nat),
{
    let mut s = String::new();
    push_decimal(&mut s, n);
    s
}

fn signed_string(n: i64) -> (r: String)
    ensures
        r@ == signed_decimal(n as int),
{
    let mut s = String::new();
    push_signed_decimal(&mut s, n);
    s
}

/// WordprocessingML name of an alignment.
pub open spec fn alignment_name(a: Alignment) -> Seq<char> {
    match a {
        Alignment::Left => "left"@,
        Alignment::Center => "center"@,
        Alignment::Right => "right"@,
        Alignment::Both => "both"@,
        Alignment::Distribute => "distribute"@,
        Alignment::MediumKashida => "mediumKashida"@,
        Alignment::HighKashida => "highKashida"@,
        Alignment::LowKashida => "lowKashida"@,
        Alignment::ThaiDistribute => "thaiDistribute"@,
    }
}

/// WordprocessingML name of an alignment.
pub fn alignment_value(alignment: Alignment) -> (r: &'static str)
    ensures
        r@ == alignment_name(alignment),
{
    match alignment {
        Alignment::Left => "left",
        Alignment::Center => "center",
        Alignment::Right => "right",
        Alignment::Both => "both",
        Alignment::Distribute => "distribute",
        Alignment::MediumKashida => "mediumKashida",
        Alignment::HighKashida => "highKashida",
        Alignment::LowKashida => "lowKashida",
        Alignment::ThaiDistribute => "thaiDistribute",
    }
}

pub open spec fn has_indents(p: PropertiesModel) -> bool {
    p.indent_start is Some || p.indent_end is Some || p.indent_first_line is Some
}

pub open spec fn has_spacing(p: PropertiesModel) -> bool {
    p.space_before is Some || p.space_after is Some
}

pub open spec fn has_borders(p: PropertiesModel) -> bool {
    p.borders.top is Some || p.borders.start is Some || p.borders.bottom is Some
        || p.borders.end is Some || p.borders.between is Some
}

/// Attributes of `w:ind`.
pub open spec fn ind_attrs(p: PropertiesModel) -> Seq<(Seq<char>, Seq<char>)> {
    (match p.indent_start {
        Some(v) => seq![("w:start"@, signed_decimal(v as int))],
        None => Seq::empty(),
    }) + (match p.indent_end {
        Some(v) => seq![("w:end"@, signed_decimal(v as int))],
        None => Seq::empty(),
    }) + (match p.indent_first_line {
        Some(v) => if v < 0 {
            seq![("w:hanging"@, decimal((-v) as nat))]
        } else {
            seq![("w:firstLine"@, decimal(v as nat))]
        },
        None => Seq::empty(),
    })
}

/// Attributes of `w:spacing`.
pub open spec fn spacing_attrs(p: PropertiesModel) -> Seq<(Seq<char>, Seq<char>)> {
    (match p.space_before {
        Some(v) => seq![("w:before"@, decimal(v as nat))],
        None => Seq::empty(),
    }) + (match p.space_after {
        Some(v) => seq![("w:after"@, decimal(v as nat))],
        None => Seq::empty(),
    })
}

/// Attributes of one paragraph border.
pub open spec fn border_attrs(b: BorderModel) -> Seq<(Seq<char>, Seq<char>)> {
    seq![
        ("w:val"@, b.style),
        ("w:sz"@, decimal(b.size as nat)),
        ("w:space"@, decimal(b.space as nat)),
    ] + (match b.color {
        Some(c) => seq![("w:color"@, c)],
        None => Seq::empty(),
    }) + (if b.shadow {
        seq![("w:shadow"@, "1"@)]
    } else {
        Seq::empty()
    }) + (if b.frame {
        seq![("w:frame"@, "1"@)]
    } else {
        Seq::empty()
    })
}

/// The border element `name`, when the border is present.
#[verifier::opaque]
pub open spec fn border_events(name: Seq<char>, b: Option<BorderModel>) -> Seq<EventModel> {
    match b {
        Some(x) => seq![EventModel::Empty(name, border_attrs(x))],
        None => Seq::empty(),
    }
}

/// Attributes of `w:shd`.
pub open spec fn shading_attrs(s: ShadingModel) -> Seq<(Seq<char>, Seq<char>)> {
    seq![("w:val"@, s.pattern)] + (match s.foreground {
        Some(c) => seq![("w:color"@, c)],
        None => Seq::empty(),
    }) + (match s.background {
        Some(c) => seq![("w:fill"@, c)],
        None => Seq::empty(),
    })
}

/// The `w:pBdr` content.
pub open spec fn borders_events(p: PropertiesModel) -> Seq<EventModel> {
    border_events("w:top"@, p.borders.top) + border_events("w:start"@, p.borders.start)
        + border_events("w:bottom"@, p.borders.bottom) + border_events("w:end"@, p.borders.end)
        + border_events("w:between"@, p.borders.between)
}

/// The properties are all absent.
pub open spec fn no_direct_properties(p: PropertiesModel) -> bool {
    p.bidi is None && p.alignment is None && !has_indents(p) && !has_spacing(p) && !has_borders(p)
        && p.shading is None && p.numbering is None
}

/// `w:bidi` when the paragraph is right-to-left.
#[verifier::opaque]
pub open spec fn ppr_bidi(p: PropertiesModel) -> Seq<EventModel> {
    if p.bidi == Some(true) {
        seq![bare_tag("w:bidi"@)]
    } else {
        Seq::empty()
    }
}

/// `w:jc` when the alignment is set.
#[verifier::opaque]
pub open spec fn ppr_jc(p: PropertiesModel) -> Seq<EventModel> {
    match p.alignment {
        Some(a) => seq![value_tag("w:jc"@, alignment_name(a))],
        None => Seq::empty(),
    }
}

/// `w:ind` when an indent is set.
#[verifier::opaque]
pub open spec fn ppr_ind(p: PropertiesModel) -> Seq<EventModel> {
    if has_indents(p) {
        seq![EventModel::Empty("w:ind"@, ind_attrs(p))]
    } else {
        Seq::empty()
    }
}

/// `w:spacing` when spacing is set.
#[verifier::opaque]
pub open spec fn ppr_spacing(p: PropertiesModel) -> Seq<EventModel> {
    if has_spacing(p) {
        seq![EventModel::Empty("w:spacing"@, spacing_attrs(p))]
    } else {
        Seq::empty()
    }
}

/// `w:pBdr` when a border is set.
#[verifier::opaque]
pub open spec fn ppr_borders(p: PropertiesModel) -> Seq<EventModel> {
    if has_borders(p) {
        seq![open_tag("w:pBdr"@)] + borders_events(p) + seq![EventModel::End("w:pBdr"@)]
    } else {
        Seq::empty()
    }
}

/// `w:shd` when shading is set.
#[verifier::opaque]
pub open spec fn ppr_shading(p: PropertiesModel) -> Seq<EventModel> {
    match p.shading {
        Some(s) => seq![EventModel::Empty("w:shd"@, shading_attrs(s))],
        None => Seq::empty(),
    }
}

/// `w:numPr` when the paragraph is numbered.
#[verifier::opaque]
pub open spec fn ppr_numbering(p: PropertiesModel) -> Seq<EventModel> {
    match p.numbering {
        Some(n) => seq![
            open_tag("w:numPr"@),
            value_tag("w:ilvl"@, decimal(n.level as nat)),
            value_tag("w:numId"@, decimal(n.instance as nat)),
            EventModel::End("w:numPr"@),
        ],
        None => Seq::empty(),
    }
}

/// The `w:pPr` element of a paragraph (or list level); nothing when no property is set.
pub open spec fn ppr_events(p: PropertiesModel) -> Seq<EventModel> {
    if no_direct_properties(p) {
        Seq::empty()
    } else {
        ppr_element(p)
    }
}

/// The `w:pPr` element with its children.
pub open spec fn ppr_element(p: PropertiesModel) -> Seq<EventModel> {
    seq![open_tag("w:pPr"@)] + ppr_bidi(p) + ppr_jc(p) + ppr_ind(p) + ppr_spacing(p)
        + ppr_borders(p) + ppr_shading(p) + ppr_numbering(p) + seq![EventModel::End("w:pPr"@)]
}

fn has_direct_properties(properties: &ParagraphProperties) -> (r: bool)
    ensures
        r == !no_direct_properties(properties@),
{
    !(properties.bidi.is_none() && properties.alignment.is_none()
        && properties.indent_start.is_none() && properties.indent_end.is_none()
        && properties.indent_first_line.is_none() && properties.space_before.is_none()
        && properties.space_after.is_none() && properties.borders.top.is_none()
        && properties.borders.start.is_none() && properties.borders.bottom.is_none()
        && properties.borders.end.is_none() && properties.borders.between.is_none()
        && properties.shading.is_none() && properties.numbering.is_none())
}

fn write_border(events: &mut Vec<XmlEvent>, name: &str, border: &Option<Border>)
    ensures
        events_view(final(events)@) == events_view(old(events)@) + border_events(
            name@,
            crate::ir::opt_border_view(*border),
        ),
{
    reveal(border_events);
    match border {
        Some(b) => {
            let mut attrs: Vec<(String, String)> = Vec::new();
            push_attr(&mut attrs, "w:val", b.style.clone());
            push_attr(&mut attrs, "w:sz", decimal_string(b.size as u64));
            push_attr(&mut attrs, "w:space", decimal_string(b.space as u64));
            match &b.color {
                Some(c) => push_attr(&mut attrs, "w:color", c.clone()),
                None => {},
            }
            if b.shadow {
                push_attr(&mut attrs, "w:shadow", owned("1"));
            }
            if b.frame {
                push_attr(&mut attrs, "w:frame", owned("1"));
            }
            assert(attrs_view(attrs@) =~= border_attrs(b@));
            push_event(events, XmlEvent::Empty(owned(name), attrs));
            assert(events_view(events@) =~= events_view(old(events)@) + border_events(
                name@,
                crate::ir::opt_border_view(*border),
            ));
        },
        None => {
            assert(events_view(events@) =~= events_view(old(events)@) + Seq::<EventModel>::empty());
        },
    }
}

fn write_indents(events: &mut Vec<XmlEvent>, properties: &ParagraphProperties)
    ensures
        events_view(final(events)@) == events_view(old(events)@).push(
            EventModel::Empty("w:ind"@, ind_attrs(properties@)),
        ),
{
    let mut attrs: Vec<(String, String)> = Vec::new();
    if let Some(value) = properties.indent_start {
        push_attr(&mut attrs, "w:start", signed_string(value as i64));
    }
    if let Some(value) = properties.indent_end {
        push_attr(&mut attrs, "w:end", signed_string(value as i64));
    }
    if let Some(value) = properties.indent_first_line {
        if value < 0 {
            let magnitude: i32 = -(value as i32);
            push_attr(&mut attrs, "w:hanging", decimal_string(magnitude as u64));
        } else {
            push_attr(&mut attrs, "w:firstLine", decimal_string(value as u64));
        }
    }
    assert(attrs_view(attrs@) =~= ind_attrs(properties@));
    push_event(events, XmlEvent::Empty(owned("w:ind"), attrs));
}

fn write_spacing(events: &mut Vec<XmlEvent>, properties: &ParagraphProperties)
    ensures
        events_view(final(events)@) == events_view(old(events)@).push(
            EventModel::Empty("w:spacing"@, spacing_attrs(properties@)),
        ),
{
    let mut attrs: Vec<(String, String)> = Vec::new();
    if let Some(value) = properties.space_before {
        push_attr(&mut attrs, "w:before", decimal_string(value as u64));
    }
    if let Some(value) = properties.space_after {
        push_attr(&mut attrs, "w:after", decimal_string(value as u64));
    }
    assert(attrs_view(attrs@) =~= spacing_attrs(properties@));
    push_event(events, XmlEvent::Empty(owned("w:spacing"), attrs));
}

fn write_borders(events: &mut Vec<XmlEvent>, properties: &ParagraphProperties)
    ensures
        events_view(final(events)@) == events_view(old(events)@) + ppr_borders(properties@),
{
    reveal(ppr_borders);
    if !(properties.borders.top.is_some() || properties.borders.start.is_some()
        || properties.borders.bottom.is_some() || properties.borders.end.is_some()
        || properties.borders.between.is_some()) {
        assert(events_view(events@) =~= events_view(old(events)@) + ppr_borders(properties@));
        return ;
    }
    let ghost e0 = events_view(old(events)@);
    let ghost p = properties@;
    push_open(events, "w:pBdr");
    let ghost e1 = events_view(events@);
    write_border(events, "w:top", &properties.borders.top);
    let ghost e2 = events_view(events@);
    write_border(events, "w:start", &properties.borders.start);
    let ghost e3 = events_view(events@);
    write_border(events, "w:bottom", &properties.borders.bottom);
    let ghost e4 = events_view(events@);
    write_border(events, "w:end", &properties.borders.end);
    let ghost e5 = events_view(events@);
    write_border(events, "w:between", &properties.borders.between);
    let ghost e6 = events_view(events@);
    push_close(events, "w:pBdr");
    assert(e6 =~= e1 + borders_events(p));
    assert(events_view(events@) =~= e0 + ppr_borders(p));
}

fn write_first_properties(events: &mut Vec<XmlEvent>, properties: &ParagraphProperties)
    ensures
        events_view(final(events)@) == events_view(old(events)@) + ppr_bidi(properties@) + ppr_jc(
            properties@,
        ) + ppr_ind(properties@) + ppr_spacing(properties@),
{
    reveal(ppr_bidi);
    reveal(ppr_jc);
    reveal(ppr_ind);
    reveal(ppr_spacing);
    let ghost p = properties@;
    let ghost e0 = events_view(old(events)@);
    if properties.bidi == Some(true) {
        push_bare(events, "w:bidi");
    }
    assert(events_view(events@) =~= e0 + ppr_bidi(p));
    let ghost e1 = events_view(events@);
    if let Some(alignment) = properties.alignment {
        push_value(events, "w:jc", owned(alignment_value(alignment)));
    }
    assert(events_view(events@) =~= e1 + ppr_jc(p));
    let ghost e2 = events_view(events@);
    if properties.indent_start.is_some() || properties.indent_end.is_some()
        || properties.indent_first_line.is_some() {
        write_indents(events, properties);
    }
    assert(events_view(events@) =~= e2 + ppr_ind(p));
    let ghost e3 = events_view(events@);
    if properties.space_before.is_some() || properties.space_after.is_some() {
        write_spacing(events, properties);
    }
    assert(events_view(events@) =~= e3 + ppr_spacing(p));
    assert(events_view(events@) =~= e0 + ppr_bidi(p) + ppr_jc(p) + ppr_ind(p) + ppr_spacing(p));
}

fn write_last_properties(events: &mut Vec<XmlEvent>, properties: &ParagraphProperties)
    ensures
        events_view(final(events)@) == events_view(old(events)@) + ppr_shading(properties@)
            + ppr_numbering(properties@),
{
    reveal(ppr_shading);
    reveal(ppr_numbering);
    let ghost p = properties@;
    let ghost e0 = events_view(old(events)@);
    if let Some(shading) = &properties.shading {
        let mut attrs: Vec<(String, String)> = Vec::new();
        push_attr(&mut attrs, "w:val", shading.pattern.clone());
        if let Some(color) = &shading.foreground {
            push_attr(&mut attrs, "w:color", color.clone());
        }
        if let Some(fill) = &shading.background {
            push_attr(&mut attrs, "w:fill", fill.clone());
        }
        assert(attrs_view(attrs@) =~= shading_attrs(shading@));
        push_event(events, XmlEvent::Empty(owned("w:shd"), attrs));
    }
    assert(events_view(events@) =~= e0 + ppr_shading(p));
    let ghost e1 = events_view(events@);
    if let Some(numbering) = properties.numbering {
        push_open(events, "w:numPr");
        push_value(events, "w:ilvl", decimal_string(numbering.level as u64));
        push_value(events, "w:numId", decimal_string(numbering.instance as u64));
        push_close(events, "w:numPr");
    }
    assert(events_view(events@) =~= e1 + ppr_numbering(p));
    assert(events_view(events@) =~= e0 + ppr_shading(p) + ppr_numbering(p));
}

/// Appends the `w:pPr` element of `properties`.
fn write_paragraph_properties(events: &mut Vec<XmlEvent>, properties: &ParagraphProperties)
    ensures
        events_view(final(events)@) == events_view(old(events)@) + ppr_events(properties@),
{
    let ghost p = properties@;
    if !has_direct_properties(properties) {
        assert(events_view(events@) =~= events_view(old(events)@) + Seq::<EventModel>::empty());
        return ;
    }
    write_properties_element(events, properties);
}

fn write_properties_element(events: &mut Vec<XmlEvent>, properties: &ParagraphProperties)
    ensures
        events_view(final(events)@) == events_view(old(events)@) + ppr_element(properties@),
{
    let ghost p = properties@;
    let ghost e0 = events_view(old(events)@);
    push_open(events, "w:pPr");
    let ghost e1 = events_view(events@);
    write_first_properties(events, properties);
    let ghost e2 = events_view(events@);
    write_borders(events, properties);
    let ghost e3 = events_view(events@);
    write_last_properties(events, properties);
    let ghost e4 = events_view(events@);
    push_close(events, "w:pPr");
    proof {
        let x = ppr_bidi(p) + ppr_jc(p) + ppr_ind(p) + ppr_spacing(p);
        let z = ppr_shading(p) + ppr_numbering(p);
        assert(e2 == e1 + x);
        assert(e4 == e3 + z);
        assert(ppr_element(p) =~= seq![open_tag("w:pPr"@)] + x + ppr_borders(p) + z + seq![
            EventModel::End("w:pPr"@),
        ]);
        assert(events_view(events@) =~= e0 + ppr_element(p));
    }
}

/// Text whose leading, trailing or doubled spaces must be marked as preserved.
pub open spec fn needs_preserve(t: Seq<char>) -> bool {
    (t.len() > 0 && is_white(t[0])) || (t.len() > 0 && is_white(t.last())) || exists|i: int|
        0 <= i && i + 1 < t.len() && #[trigger] t[i] == ' ' && t[i + 1] == ' '
}

/// A run holding text.
pub open spec fn text_run_events(t: Seq<char>) -> Seq<EventModel> {
    seq![
        open_tag("w:r"@),
        EventModel::Start(
            "w:t"@,
            if needs_preserve(t) {
                seq![("xml:space"@, "preserve"@)]
            } else {
                Seq::empty()
            },
        ),
        EventModel::Text(t),
        EventModel::End("w:t"@),
        EventModel::End("w:r"@),
    ]
}

/// A run holding one empty element, with an optional `w:type`.
pub open spec fn element_run_events(name: Seq<char>, kind: Option<Seq<char>>) -> Seq<EventModel> {
    seq![
        open_tag("w:r"@),
        EventModel::Empty(
            name,
            match kind {
                Some(v) => seq![("w:type"@, v)],
                None => Seq::empty(),
            },
        ),
        EventModel::End("w:r"@),
    ]
}

/// The events of one inline.
pub open spec fn inline_events(i: InlineModel) -> Seq<EventModel> {
    match i {
        InlineModel::Text(t) => text_run_events(t),
        InlineModel::Symbol { font, character } => seq![
            open_tag("w:r"@),
            EventModel::Empty(
                "w:sym"@,
                seq![("w:font"@, font), ("w:char"@, hex_fixed(character as nat, 4))],
            ),
            EventModel::End("w:r"@),
        ],
        InlineModel::Tab => element_run_events("w:tab"@, None),
        InlineModel::Break(k) => element_run_events(
            "w:br"@,
            match k {
                BreakKind::Line => None,
                BreakKind::Page => Some("page"@),
                BreakKind::Column => Some("column"@),
            },
        ),
    }
}

/// The events of a sequence of inlines.
pub open spec fn inlines_events(s: Seq<InlineModel>) -> Seq<EventModel>
    decreases s.len(),
{
    if s.len() == 0 {
        Seq::empty()
    } else {
        inlines_events(s.drop_last()) + inline_events(s.last())
    }
}

/// A `w:p` element.
pub open spec fn paragraph_events(p: ParagraphModel) -> Seq<EventModel> {
    seq![open_tag("w:p"@)] + ppr_events(p.properties) + inlines_events(p.children) + seq![
        EventModel::End("w:p"@),
    ]
}

fn preserve_needed(text: &str) -> (r: bool)
    ensures
        r == needs_preserve(text@),
{
    let chars = crate::paragraphs::str_chars(text);
    let n = chars.len();
    if n == 0 {
        return false;
    }
    if is_whitespace_char(chars[0]) || is_whitespace_char(chars[n - 1]) {
        return true;
    }
    let mut i: usize = 0;
    while i < n - 1
        invariant
            n == chars@.len(),
            n >= 1,
            chars@ == text@,
            i <= n - 1,
            forall|j: int| 0 <= j < i && j + 1 < n ==> !(#[trigger] chars@[j] == ' ' && chars@[j + 1] == ' '),
        decreases n - i,
    {
        if chars[i] == ' ' && chars[i + 1] == ' ' {
            return true;
        }
        i = i + 1;
    }
    false
}

fn write_text_run(events: &mut Vec<XmlEvent>, text: &String)
    ensures
        events_view(final(events)@) == events_view(old(events)@) + text_run_events(text@),
{
    let ghost e0 = events_view(old(events)@);
    push_open(events, "w:r");
    let mut attrs: Vec<(String, String)> = Vec::new();
    if preserve_needed(text.as_str()) {
        push_attr(&mut attrs, "xml:space", owned("preserve"));
    }
    assert(attrs_view(attrs@) =~= (if needs_preserve(text@) {
        seq![("xml:space"@, "preserve"@)]
    } else {
        Seq::<(Seq<char>, Seq<char>)>::empty()
    }));
    push_event(events, XmlEvent::Start(owned("w:t"), attrs));
    push_event(events, XmlEvent::Text(text.clone()));
    push_close(events, "w:t");
    push_close(events, "w:r");
    assert(events_view(events@) =~= e0 + text_run_events(text@));
}

fn write_empty_run_element(events: &mut Vec<XmlEvent>, name: &str, break_type: Option<&str>)
    ensures
        events_view(final(events)@) == events_view(old(events)@) + element_run_events(
            name@,
            match break_type {
                Some(v) => Some(v@),
                None => None,
            },
        ),
{
    let ghost e0 = events_view(old(events)@);
    push_open(events, "w:r");
    let mut attrs: Vec<(String, String)> = Vec::new();
    if let Some(value) = break_type {
        push_attr(&mut attrs, "w:type", owned(value));
    }
    assert(attrs_view(attrs@) =~= match break_type {
        Some(v) => seq![("w:type"@, v@)],
        None => Seq::<(Seq<char>, Seq<char>)>::empty(),
    });
    push_event(events, XmlEvent::Empty(owned(name), attrs));
    push_close(events, "w:r");
    assert(events_view(events@) =~= e0 + element_run_events(
        name@,
        match break_type {
            Some(v) => Some(v@),
            None => None,
        },
    ));
}

fn write_symbol_run(events: &mut Vec<XmlEvent>, font: &String, character: u16)
    ensures
        events_view(final(events)@) == events_view(old(events)@) + inline_events(
            InlineModel::Symbol { font: font@, character },
        ),
{
    let ghost e0 = events_view(old(events)@);
    push_open(events, "w:r");
    let mut attrs: Vec<(String, String)> = Vec::new();
    push_attr(&mut attrs, "w:font", font.clone());
    let mut code = String::new();
    push_hex(&mut code, character as u32, 4);
    push_attr(&mut attrs, "w:char", code);
    assert(attrs_view(attrs@) =~= seq![
        ("w:font"@, font@),
        ("w:char"@, hex_fixed(character as nat, 4)),
    ]);
    push_event(events, XmlEvent::Empty(owned("w:sym"), attrs));
    push_close(events, "w:r");
    assert(events_view(events@) =~= e0 + inline_events(
        InlineModel::Symbol { font: font@, character },
    ));
}

fn write_inline(events: &mut Vec<XmlEvent>, inline: &Inline)
    ensures
        events_view(final(events)@) == events_view(old(events)@) + inline_events(inline@),
{
    match inline {
        Inline::Text(text) => write_text_run(events, text),
        Inline::Symbol { font, character } => write_symbol_run(events, font, *character),
        Inline::Tab => write_empty_run_element(events, "w:tab", None),
        Inline::Break(kind) => {
            let break_type: Option<&str> = match kind {
                BreakKind::Line => None,
                BreakKind::Page => Some("page"),
                BreakKind::Column => Some("column"),
            };
            write_empty_run_element(events, "w:br", break_type);
        },
    }
}

/// Appends a `w:p` element.
fn write_paragraph(events: &mut Vec<XmlEvent>, paragraph: &Paragraph)
    ensures
        events_view(final(events)@) == events_view(old(events)@) + paragraph_events(paragraph@),
{
    let ghost e0 = events_view(old(events)@);
    push_open(events, "w:p");
    write_paragraph_properties(events, &paragraph.properties);
    let ghost e1 = events_view(events@);
    let ghost iv = inlines_view(paragraph.children@);
    let mut k: usize = 0;
    while k < paragraph.children.len()
        invariant
            k <= paragraph.children@.len(),
            iv == inlines_view(paragraph.children@),
            events_view(events@) == e1 + inlines_events(iv.take(k as int)),
        decreases paragraph.children@.len() - k,
    {
        let ghost before = events_view(events@);
        write_inline(events, &paragraph.children[k]);
        assert(iv.take(k + 1).drop_last() =~= iv.take(k as int));
        assert(events_view(events@) =~= e1 + inlines_events(iv.take(k + 1)));
        k = k + 1;
    }
    assert(iv.take(iv.len() as int) =~= iv);
    push_close(events, "w:p");
    assert(events_view(events@) =~= e0 + paragraph_events(paragraph@));
}

pub open spec fn has_page_size(s: SectionProperties) -> bool {
    s.page_width is Some || s.page_height is Some || s.landscape is Some
}

pub open spec fn has_margins(s: SectionProperties) -> bool {
    s.margin_top is Some || s.margin_bottom is Some || s.margin_left is Some || s.margin_right is Some
}

/// Attributes of `w:pgSz`.
pub open spec fn page_size_attrs(s: SectionProperties) -> Seq<(Seq<char>, Seq<char>)> {
    (match s.page_width {
        Some(v) => seq![("w:w"@, decimal(v as nat))],
        None => Seq::empty(),
    }) + (match s.page_height {
        Some(v) => seq![("w:h"@, decimal(v as nat))],
        None => Seq::empty(),
    }) + (if s.landscape == Some(true) {
        seq![("w:orient"@, "landscape"@)]
    } else {
        Seq::empty()
    })
}

/// Attributes of `w:pgMar`.
pub open spec fn margin_attrs(s: SectionProperties) -> Seq<(Seq<char>, Seq<char>)> {
    (match s.margin_top {
        Some(v) => seq![("w:top"@, signed_decimal(v as int))],
        None => Seq::empty(),
    }) + (match s.margin_bottom {
        Some(v) => seq![("w:bottom"@, signed_decimal(v as int))],
        None => Seq::empty(),
    }) + (match s.margin_left {
        Some(v) => seq![("w:left"@, decimal(v as nat))],
        None => Seq::empty(),
    }) + (match s.margin_right {
        Some(v) => seq![("w:right"@, decimal(v as nat))],
        None => Seq::empty(),
    })
}

/// `w:pgSz` when a page size or orientation is set.
#[verifier::opaque]
pub open spec fn sect_size(s: SectionProperties) -> Seq<EventModel> {
    if has_page_size(s) {
        seq![EventModel::Empty("w:pgSz"@, page_size_attrs(s))]
    } else {
        Seq::empty()
    }
}

/// `w:pgMar` when a margin is set.
#[verifier::opaque]
pub open spec fn sect_margins(s: SectionProperties) -> Seq<EventModel> {
    if has_margins(s) {
        seq![EventModel::Empty("w:pgMar"@, margin_attrs(s))]
    } else {
        Seq::empty()
    }
}

/// `w:bidi` and `w:rtlGutter` when set.
#[verifier::opaque]
pub open spec fn sect_direction(s: SectionProperties) -> Seq<EventModel> {
    (if s.bidi == Some(true) {
        seq![bare_tag("w:bidi"@)]
    } else {
        Seq::empty()
    }) + (if s.rtl_gutter == Some(true) {
        seq![bare_tag("w:rtlGutter"@)]
    } else {
        Seq::empty()
    })
}

/// The `w:sectPr` element; nothing when no layout property is set.
pub open spec fn section_events(s: SectionProperties) -> Seq<EventModel> {
    if !has_page_size(s) && !has_margins(s) && s.bidi is None && s.rtl_gutter is None {
        Seq::empty()
    } else {
        seq![open_tag("w:sectPr"@)] + sect_size(s) + sect_margins(s) + sect_direction(s) + seq![
            EventModel::End("w:sectPr"@),
        ]
    }
}

fn write_page_size(events: &mut Vec<XmlEvent>, properties: &SectionProperties)
    ensures
        events_view(final(events)@) == events_view(old(events)@).push(
            EventModel::Empty("w:pgSz"@, page_size_attrs(*properties)),
        ),
{
    let mut attrs: Vec<(String, String)> = Vec::new();
    if let Some(value) = properties.page_width {
        push_attr(&mut attrs, "w:w", decimal_string(value as u64));
    }
    if let Some(value) = properties.page_height {
        push_attr(&mut attrs, "w:h", decimal_string(value as u64));
    }
    if properties.landscape == Some(true) {
        push_attr(&mut attrs, "w:orient", owned("landscape"));
    }
    assert(attrs_view(attrs@) =~= page_size_attrs(*properties));
    push_event(events, XmlEvent::Empty(owned("w:pgSz"), attrs));
}

fn write_margins(events: &mut Vec<XmlEvent>, properties: &SectionProperties)
    ensures
        events_view(final(events)@) == events_view(old(events)@).push(
            EventModel::Empty("w:pgMar"@, margin_attrs(*properties)),
        ),
{
    let mut attrs: Vec<(String, String)> = Vec::new();
    if let Some(value) = properties.margin_top {
        push_attr(&mut attrs, "w:top", signed_string(value as i64));
    }
    if let Some(value) = properties.margin_bottom {
        push_attr(&mut attrs, "w:bottom", signed_string(value as i64));
    }
    if let Some(value) = properties.margin_left {
        push_attr(&mut attrs, "w:left", decimal_string(value as u64));
    }
    if let Some(value) = properties.margin_right {
        push_attr(&mut attrs, "w:right", decimal_string(value as u64));
    }
    assert(attrs_view(attrs@) =~= margin_attrs(*properties));
    push_event(events, XmlEvent::Empty(owned("w:pgMar"), attrs));
}

fn write_layout(events: &mut Vec<XmlEvent>, s: SectionProperties)
    ensures
        events_view(final(events)@) == events_view(old(events)@) + sect_size(s) + sect_margins(s),
{
    reveal(sect_size);
    reveal(sect_margins);
    let ghost e0 = events_view(old(events)@);
    if s.page_width.is_some() || s.page_height.is_some() || s.landscape.is_some() {
        write_page_size(events, &s);
    }
    assert(events_view(events@) =~= e0 + sect_size(s));
    let ghost e1 = events_view(events@);
    if s.margin_top.is_some() || s.margin_bottom.is_some() || s.margin_left.is_some()
        || s.margin_right.is_some() {
        write_margins(events, &s);
    }
    assert(events_view(events@) =~= e1 + sect_margins(s));
}

fn write_direction(events: &mut Vec<XmlEvent>, s: SectionProperties)
    ensures
        events_view(final(events)@) == events_view(old(events)@) + sect_direction(s),
{
    reveal(sect_direction);
    let ghost e0 = events_view(old(events)@);
    if s.bidi == Some(true) {
        push_bare(events, "w:bidi");
    }
    let ghost e1 = events_view(events@);
    if s.rtl_gutter == Some(true) {
        push_bare(events, "w:rtlGutter");
    }
    assert(events_view(events@) =~= e0 + sect_direction(s));
}

/// Appends the `w:sectPr` element of `properties`.
fn write_section_properties(events: &mut Vec<XmlEvent>, properties: &SectionProperties)
    ensures
        events_view(final(events)@) == events_view(old(events)@) + section_events(*properties),
{
    let s = *properties;
    let ghost e0 = events_view(old(events)@);
    if s.page_width.is_none() && s.page_height.is_none() && s.landscape.is_none()
        && s.margin_top.is_none() && s.margin_bottom.is_none() && s.margin_left.is_none()
        && s.margin_right.is_none() && s.bidi.is_none() && s.rtl_gutter.is_none() {
        assert(events_view(events@) =~= e0 + section_events(s));
        return ;
    }
    push_open(events, "w:sectPr");
    let ghost e1 = events_view(events@);
    write_layout(events, s);
    let ghost e2 = events_view(events@);
    write_direction(events, s);
    let ghost e3 = events_view(events@);
    push_close(events, "w:sectPr");
    assert(events_view(events@) =~= e0 + section_events(s));
}

/// Rows, cells and the open cell while grouping table paragraphs (by index).
pub struct TableScan {
    pub rows: Seq<(bool, bool, Seq<Seq<usize>>)>,
    pub cells: Seq<Seq<usize>>,
    pub cell: Seq<usize>,
}

/// Groups paragraph `i` into the table being scanned: a row-end mark closes its cell and
/// the row, a cell-end mark closes its cell.
pub open spec fn scan_step(st: TableScan, i: usize, p: ParagraphModel) -> TableScan {
    let t = p.properties.table;
    if t.row_end {
        TableScan {
            rows: st.rows.push((t.rtl, t.reverse_cells, st.cells.push(st.cell.push(i)))),
            cells: Seq::empty(),
            cell: Seq::empty(),
        }
    } else if t.cell_end {
        TableScan { cells: st.cells.push(st.cell.push(i)), cell: Seq::empty(), ..st }
    } else {
        TableScan { cell: st.cell.push(i), ..st }
    }
}

/// The scan over the first `n` paragraphs.
pub open spec fn table_scan(ps: Seq<ParagraphModel>, n: int) -> TableScan
    decreases n,
{
    if n <= 0 {
        TableScan { rows: Seq::empty(), cells: Seq::empty(), cell: Seq::empty() }
    } else {
        scan_step(table_scan(ps, n - 1), (n - 1) as usize, ps[n - 1])
    }
}

/// The rows of a table: each with its right-to-left and reversed-cells flags and its cells;
/// paragraphs after the last row end form a final row.
pub open spec fn table_rows(ps: Seq<ParagraphModel>) -> Seq<(bool, bool, Seq<Seq<usize>>)> {
    let st = table_scan(ps, ps.len() as int);
    let cells = if st.cell.len() > 0 {
        st.cells.push(st.cell)
    } else {
        st.cells
    };
    if cells.len() > 0 {
        st.rows.push((false, false, cells))
    } else {
        st.rows
    }
}

/// The paragraphs at indices `c`, in order.
pub open spec fn paragraphs_at(ps: Seq<ParagraphModel>, c: Seq<usize>) -> Seq<EventModel>
    decreases c.len(),
{
    if c.len() == 0 {
        Seq::empty()
    } else {
        paragraphs_at(ps, c.drop_last()) + paragraph_events(ps[c.last() as int])
    }
}

/// A `w:tc` element.
pub open spec fn cell_events(ps: Seq<ParagraphModel>, c: Seq<usize>) -> Seq<EventModel> {
    seq![open_tag("w:tc"@), bare_tag("w:tcPr"@)] + (if c.len() == 0 {
        seq![bare_tag("w:p"@)]
    } else {
        paragraphs_at(ps, c)
    }) + seq![EventModel::End("w:tc"@)]
}

pub open spec fn cells_events(ps: Seq<ParagraphModel>, cells: Seq<Seq<usize>>) -> Seq<EventModel>
    decreases cells.len(),
{
    if cells.len() == 0 {
        Seq::empty()
    } else {
        cells_events(ps, cells.drop_last()) + cell_events(ps, cells.last())
    }
}

/// A `w:tr` element; its cells reversed when the row says so.
pub open spec fn row_events(ps: Seq<ParagraphModel>, r: (bool, bool, Seq<Seq<usize>>)) -> Seq<
    EventModel,
> {
    seq![open_tag("w:tr"@)] + cells_events(
        ps,
        if r.1 {
            r.2.reverse()
        } else {
            r.2
        },
    ) + seq![EventModel::End("w:tr"@)]
}

pub open spec fn rows_events(ps: Seq<ParagraphModel>, rows: Seq<(bool, bool, Seq<Seq<usize>>)>) -> Seq<
    EventModel,
>
    decreases rows.len(),
{
    if rows.len() == 0 {
        Seq::empty()
    } else {
        rows_events(ps, rows.drop_last()) + row_events(ps, rows.last())
    }
}

/// Some row is right-to-left.
pub open spec fn any_rtl(rows: Seq<(bool, bool, Seq<Seq<usize>>)>) -> bool {
    exists|i: int| 0 <= i < rows.len() && #[trigger] rows[i].0
}

/// The `w:tbl` element of a run of table paragraphs; `None` when it has no rows.
pub open spec fn table_events(ps: Seq<ParagraphModel>) -> Option<Seq<EventModel>> {
    let rows = table_rows(ps);
    if rows.len() == 0 {
        None
    } else {
        Some(
            seq![open_tag("w:tbl"@), open_tag("w:tblPr"@)] + (if any_rtl(rows) {
                seq![bare_tag("w:bidiVisual"@)]
            } else {
                Seq::empty()
            }) + seq![EventModel::End("w:tblPr"@), bare_tag("w:tblGrid"@)] + rows_events(ps, rows)
                + seq![EventModel::End("w:tbl"@)],
        )
    }
}

pub open spec fn cells_view(c: Seq<Vec<usize>>) -> Seq<Seq<usize>> {
    c.map_values(|x: Vec<usize>| x@)
}

pub open spec fn rows_view(r: Seq<(bool, bool, Vec<Vec<usize>>)>) -> Seq<(bool, bool, Seq<Seq<usize>>)> {
    r.map_values(|x: (bool, bool, Vec<Vec<usize>>)| (x.0, x.1, cells_view(x.2@)))
}

fn take_vec<T>(v: &mut Vec<T>) -> (r: Vec<T>)
    ensures
        r@ == old(v)@,
        final(v)@ == Seq::<T>::empty(),
{
    let mut taken: Vec<T> = Vec::new();
    std::mem::swap(&mut taken, v);
    taken
}

/// Groups a run of table paragraphs into rows and cells (by index).
fn table_rows_of(paragraphs: &[Paragraph]) -> (r: Vec<(bool, bool, Vec<Vec<usize>>)>)
    ensures
        rows_view(r@) == table_rows(paragraphs_view(paragraphs@)),
{
    let ghost pv = paragraphs_view(paragraphs@);
    let mut rows: Vec<(bool, bool, Vec<Vec<usize>>)> = Vec::new();
    let mut cells: Vec<Vec<usize>> = Vec::new();
    let mut cell: Vec<usize> = Vec::new();
    let mut i: usize = 0;
    assert(rows_view(rows@) =~= Seq::empty());
    assert(cells_view(cells@) =~= Seq::empty());
    while i < paragraphs.len()
        invariant
            i <= paragraphs@.len(),
            pv == paragraphs_view(paragraphs@),
            rows_view(rows@) == table_scan(pv, i as int).rows,
            cells_view(cells@) == table_scan(pv, i as int).cells,
            cell@ == table_scan(pv, i as int).cell,
        decreases paragraphs@.len() - i,
    {
        let table = paragraphs[i].properties.table;
        assert(pv[i as int].properties.table == table);
        let ghost st = table_scan(pv, i as int);
        if table.row_end {
            cell.push(i);
            let c = take_vec(&mut cell);
            let ghost cv = c@;
            cells.push(c);
            let cs = take_vec(&mut cells);
            let ghost csv = cells_view(cs@);
            assert(csv =~= st.cells.push(cv));
            rows.push((table.rtl, table.reverse_cells, cs));
            assert(rows_view(rows@) =~= st.rows.push((table.rtl, table.reverse_cells, csv)));
            assert(cells_view(cells@) =~= Seq::empty());
        } else if table.cell_end {
            cell.push(i);
            let c = take_vec(&mut cell);
            let ghost cv = c@;
            cells.push(c);
            assert(cells_view(cells@) =~= st.cells.push(cv));
        } else {
            cell.push(i);
        }
        i = i + 1;
    }
    let ghost st = table_scan(pv, pv.len() as int);
    if cell.len() > 0 {
        let c = take_vec(&mut cell);
        let ghost cv = c@;
        cells.push(c);
        assert(cells_view(cells@) =~= st.cells.push(cv));
    }
    if cells.len() > 0 {
        let ghost csv = cells_view(cells@);
        rows.push((false, false, cells));
        assert(rows_view(rows@) =~= st.rows.push((false, false, csv)));
    }
    rows
}

fn write_cell(events: &mut Vec<XmlEvent>, paragraphs: &[Paragraph], cell: &Vec<usize>)
    requires
        forall|k: int| 0 <= k < cell@.len() ==> #[trigger] cell@[k] < paragraphs@.len(),
    ensures
        events_view(final(events)@) == events_view(old(events)@) + cell_events(
            paragraphs_view(paragraphs@),
            cell@,
        ),
{
    let ghost pv = paragraphs_view(paragraphs@);
    let ghost e0 = events_view(old(events)@);
    push_open(events, "w:tc");
    push_bare(events, "w:tcPr");
    let ghost e1 = events_view(events@);
    if cell.len() == 0 {
        push_bare(events, "w:p");
    } else {
        let mut k: usize = 0;
        while k < cell.len()
            invariant
                k <= cell@.len(),
                pv == paragraphs_view(paragraphs@),
                forall|j: int| 0 <= j < cell@.len() ==> #[trigger] cell@[j] < paragraphs@.len(),
                events_view(events@) == e1 + paragraphs_at(pv, cell@.take(k as int)),
            decreases cell@.len() - k,
        {
            let index = cell[k];
            write_paragraph(events, &paragraphs[index]);
            assert(cell@.take(k + 1).drop_last() =~= cell@.take(k as int));
            assert(events_view(events@) =~= e1 + paragraphs_at(pv, cell@.take(k + 1)));
            k = k + 1;
        }
        assert(cell@.take(cell@.len() as int) =~= cell@);
    }
    push_close(events, "w:tc");
    assert(events_view(events@) =~= e0 + cell_events(pv, cell@));
}

pub open spec fn indices_below(c: Seq<Seq<usize>>, n: int) -> bool {
    forall|a: int, b: int| 0 <= a < c.len() && 0 <= b < c[a].len() ==> #[trigger] c[a][b] < n
}

fn write_row(
    events: &mut Vec<XmlEvent>,
    paragraphs: &[Paragraph],
    reverse: bool,
    cells: &Vec<Vec<usize>>,
)
    requires
        indices_below(cells_view(cells@), paragraphs@.len() as int),
    ensures
        events_view(final(events)@) == events_view(old(events)@) + seq![open_tag("w:tr"@)]
            + cells_events(
            paragraphs_view(paragraphs@),
            if reverse {
                cells_view(cells@).reverse()
            } else {
                cells_view(cells@)
            },
        ) + seq![EventModel::End("w:tr"@)],
{
    let ghost pv = paragraphs_view(paragraphs@);
    let ghost cv = cells_view(cells@);
    let ghost order = if reverse {
        cv.reverse()
    } else {
        cv
    };
    let ghost e0 = events_view(old(events)@);
    push_open(events, "w:tr");
    let ghost e1 = events_view(events@);
    let n = cells.len();
    let mut k: usize = 0;
    while k < n
        invariant
            k <= n,
            n == cells@.len(),
            pv == paragraphs_view(paragraphs@),
            cv == cells_view(cells@),
            order.len() == n,
            forall|j: int| 0 <= j < n ==> #[trigger] order[j] == if reverse {
                cv[n - 1 - j]
            } else {
                cv[j]
            },
            indices_below(cv, paragraphs@.len() as int),
            events_view(events@) == e1 + cells_events(pv, order.take(k as int)),
        decreases n - k,
    {
        let index = if reverse {
            n - 1 - k
        } else {
            k
        };
        let cell = &cells[index];
        assert(cell@ == cv[index as int]);
        assert(cell@ == order[k as int]);
        assert forall|j: int| 0 <= j < cell@.len() implies #[trigger] cell@[j] < paragraphs@.len() by {
            assert(cv[index as int][j] < paragraphs@.len());
        }
        write_cell(events, paragraphs, cell);
        assert(order.take(k + 1).drop_last() =~= order.take(k as int));
        assert(events_view(events@) =~= e1 + cells_events(pv, order.take(k + 1)));
        k = k + 1;
    }
    assert(order.take(n as int) =~= order);
    push_close(events, "w:tr");
    assert(events_view(events@) =~= e0 + seq![open_tag("w:tr"@)] + cells_events(pv, order) + seq![
        EventModel::End("w:tr"@),
    ]);
}

proof fn lemma_scan_indices(ps: Seq<ParagraphModel>, n: int)
    requires
        0 <= n <= ps.len(),
    ensures
        forall|r: int| 0 <= r < table_scan(ps, n).rows.len() ==> indices_below(
            #[trigger] table_scan(ps, n).rows[r].2,
            n,
        ),
        indices_below(table_scan(ps, n).cells, n),
        forall|b: int| 0 <= b < table_scan(ps, n).cell.len() ==> #[trigger] table_scan(ps, n).cell[b]
            < n,
    decreases n,
{
    if n > 0 {
        lemma_scan_indices(ps, n - 1);
        let st = table_scan(ps, n - 1);
        let t = table_scan(ps, n);
        assert forall|r: int| 0 <= r < t.rows.len() implies indices_below(#[trigger] t.rows[r].2, n) by {
            if r < st.rows.len() {
                assert(indices_below(st.rows[r].2, n - 1));
            }
        }
    }
}

proof fn lemma_rows_indices(ps: Seq<ParagraphModel>)
    ensures
        forall|r: int| 0 <= r < table_rows(ps).len() ==> indices_below(
            #[trigger] table_rows(ps)[r].2,
            ps.len() as int,
        ),
{
    lemma_scan_indices(ps, ps.len() as int);
}

/// Appends the `w:tbl` element of a run of table paragraphs; `false` (and nothing appended)
/// when it has no rows.
fn write_table(events: &mut Vec<XmlEvent>, paragraphs: &[Paragraph]) -> (r: bool)
    ensures
        match table_events(paragraphs_view(paragraphs@)) {
            None => !r && final(events)@ == old(events)@,
            Some(t) => r && events_view(final(events)@) == events_view(old(events)@) + t,
        },
{
    let ghost pv = paragraphs_view(paragraphs@);
    let rows = table_rows_of(paragraphs);
    let ghost rv = rows_view(rows@);
    if rows.len() == 0 {
        return false;
    }
    proof {
        lemma_rows_indices(pv);
    }
    let ghost e0 = events_view(old(events)@);
    push_open(events, "w:tbl");
    push_open(events, "w:tblPr");
    let mut rtl = false;
    let mut k: usize = 0;
    while k < rows.len()
        invariant
            k <= rows@.len(),
            rv == rows_view(rows@),
            rtl == exists|j: int| 0 <= j < k && #[trigger] rv[j].0,
        decreases rows@.len() - k,
    {
        assert(rv[k as int].0 == rows[k as int].0);
        if rows[k].0 {
            rtl = true;
        }
        k = k + 1;
    }
    assert(rtl == any_rtl(rv));
    let ghost e1 = events_view(events@);
    if rtl {
        push_bare(events, "w:bidiVisual");
    }
    push_close(events, "w:tblPr");
    push_bare(events, "w:tblGrid");
    let ghost e2 = events_view(events@);
    let mut k: usize = 0;
    while k < rows.len()
        invariant
            k <= rows@.len(),
            rv == rows_view(rows@),
            pv == paragraphs_view(paragraphs@),
            rv == table_rows(pv),
            pv.len() == paragraphs@.len(),
            forall|r: int| 0 <= r < rv.len() ==> indices_below(#[trigger] rv[r].2, pv.len() as int),
            events_view(events@) == e2 + rows_events(pv, rv.take(k as int)),
        decreases rows@.len() - k,
    {
        let row = &rows[k];
        assert(rv[k as int] == (row.0, row.1, cells_view(row.2@)));
        assert(indices_below(rv[k as int].2, pv.len() as int));
        assert(indices_below(cells_view(row.2@), pv.len() as int));
        write_row(events, paragraphs, row.1, &row.2);
        assert(rv.take(k + 1).drop_last() =~= rv.take(k as int));
        assert(events_view(events@) =~= e2 + rows_events(pv, rv.take(k + 1)));
        k = k + 1;
    }
    assert(rv.take(rv.len() as int) =~= rv);
    push_close(events, "w:tbl");
    assert(events_view(events@) =~= e0 + table_events(pv).unwrap());
    true
}

/// The paragraph belongs to a top-level table.
pub open spec fn in_table_run(p: ParagraphModel) -> bool {
    p.properties.table.in_table && p.properties.table.depth == 1
}

/// The end of the run of top-level table paragraphs that starts at `i`.
pub open spec fn run_end(ps: Seq<ParagraphModel>, i: int) -> int
    decreases ps.len() - i,
{
    if 0 <= i < ps.len() && in_table_run(ps[i]) {
        run_end(ps, i + 1)
    } else {
        i
    }
}

/// A run of table paragraphs ends after its start and within the paragraphs.
pub proof fn lemma_run_end(ps: Seq<ParagraphModel>, i: int)
    requires
        0 <= i <= ps.len(),
    ensures
        i <= run_end(ps, i) <= ps.len(),
        i < ps.len() && in_table_run(ps[i]) ==> run_end(ps, i) > i,
    decreases ps.len() - i,
{
    if 0 <= i < ps.len() && in_table_run(ps[i]) {
        lemma_run_end(ps, i + 1);
    }
}

/// The paragraphs `i..j`, each as a `w:p` element.
pub open spec fn paragraphs_range(ps: Seq<ParagraphModel>, i: int, j: int) -> Seq<EventModel>
    decreases j - i,
{
    if i >= j {
        Seq::empty()
    } else {
        paragraphs_range(ps, i, j - 1) + paragraph_events(ps[j - 1])
    }
}

/// The body from paragraph `i` on: runs of top-level table paragraphs become tables (or
/// plain paragraphs when no table can be formed), other paragraphs `w:p` elements.
pub open spec fn body_events(ps: Seq<ParagraphModel>, i: int) -> Seq<EventModel>
    decreases ps.len() - i,
{
    if i < 0 || i >= ps.len() {
        Seq::empty()
    } else if in_table_run(ps[i]) {
        let j = run_end(ps, i);
        proof {
            lemma_run_end(ps, i);
        }
        (match table_events(ps.subrange(i, j)) {
            Some(t) => t,
            None => paragraphs_range(ps, i, j),
        }) + body_events(ps, j)
    } else {
        paragraph_events(ps[i]) + body_events(ps, i + 1)
    }
}

/// The WordprocessingML namespace.
pub open spec fn wordml_namespace() -> Seq<char> {
    "http://schemas.openxmlformats.org/wordprocessingml/2006/main"@
}

/// The events of `word/document.xml`.
pub open spec fn document_events(d: crate::ir::DocumentModel) -> Seq<EventModel> {
    seq![
        EventModel::Decl,
        EventModel::Start("w:document"@, seq![("xmlns:w"@, wordml_namespace())]),
        open_tag("w:body"@),
    ] + body_events(d.paragraphs, 0) + section_events(d.section) + seq![
        EventModel::End("w:body"@),
        EventModel::End("w:document"@),
    ]
}

fn write_run(events: &mut Vec<XmlEvent>, paragraphs: &Vec<Paragraph>, start: usize, end: usize)
    requires
        start < end <= paragraphs@.len(),
    ensures
        events_view(final(events)@) == events_view(old(events)@) + match table_events(
            paragraphs_view(paragraphs@).subrange(start as int, end as int),
        ) {
            Some(t) => t,
            None => paragraphs_range(paragraphs_view(paragraphs@), start as int, end as int),
        },
{
    let ghost pv = paragraphs_view(paragraphs@);
    let run = vstd::slice::slice_subrange(paragraphs.as_slice(), start, end);
    assert(paragraphs_view(run@) =~= pv.subrange(start as int, end as int));
    if !write_table(events, run) {
        let ghost e0 = events_view(events@);
        let mut k: usize = start;
        while k < end
            invariant
                start <= k <= end <= paragraphs@.len(),
                pv == paragraphs_view(paragraphs@),
                events_view(events@) == e0 + paragraphs_range(pv, start as int, k as int),
            decreases end - k,
        {
            write_paragraph(events, &paragraphs[k]);
            assert(events_view(events@) =~= e0 + paragraphs_range(pv, start as int, k + 1));
            k = k + 1;
        }
    }
}

/// Appends the body content: paragraphs and tables.
fn write_body(events: &mut Vec<XmlEvent>, paragraphs: &Vec<Paragraph>)
    ensures
        events_view(final(events)@) == events_view(old(events)@) + body_events(
            paragraphs_view(paragraphs@),
            0,
        ),
{
    let ghost pv = paragraphs_view(paragraphs@);
    let ghost e0 = events_view(old(events)@);
    let n = paragraphs.len();
    let mut index: usize = 0;
    assert(e0 =~= e0 + Seq::<EventModel>::empty());
    while index < n
        invariant
            index <= n,
            n == paragraphs@.len(),
            pv == paragraphs_view(paragraphs@),
            events_view(events@) + body_events(pv, index as int) == e0 + body_events(pv, 0),
        decreases n - index,
    {
        let table = paragraphs[index].properties.table;
        assert(pv[index as int].properties.table == table);
        if table.in_table && table.depth == 1 {
            let start = index;
            proof {
                lemma_run_end(pv, start as int);
            }
            while index < n && paragraphs[index].properties.table.in_table
                && paragraphs[index].properties.table.depth == 1
                invariant
                    start <= index <= n,
                    n == paragraphs@.len(),
                    pv == paragraphs_view(paragraphs@),
                    run_end(pv, start as int) == run_end(pv, index as int),
                decreases n - index,
            {
                assert(pv[index as int].properties.table == paragraphs@[index as int].properties.table);
                index = index + 1;
            }
            proof {
                if index < n {
                    assert(pv[index as int].properties.table == paragraphs@[index as int].properties.table);
                }
            }
            let ghost before = events_view(events@);
            write_run(events, paragraphs, start, index);
            proof {
                let piece = match table_events(pv.subrange(start as int, index as int)) {
                    Some(t) => t,
                    None => paragraphs_range(pv, start as int, index as int),
                };
                assert(body_events(pv, start as int) == piece + body_events(pv, index as int));
                assert(events_view(events@) + body_events(pv, index as int) =~= before + body_events(
                    pv,
                    start as int,
                ));
            }
        } else {
            let ghost before = events_view(events@);
            write_paragraph(events, &paragraphs[index]);
            proof {
                assert(body_events(pv, index as int) == paragraph_events(pv[index as int]) + body_events(
                    pv,
                    index + 1,
                ));
                assert(events_view(events@) + body_events(pv, index + 1) =~= before + body_events(
                    pv,
                    index as int,
                ));
            }
            index = index + 1;
        }
    }
    assert(events_view(events@) =~= e0 + body_events(pv, 0));
}

/// The events of `word/document.xml` for `document`.
pub fn document_events_of(document: &crate::ir::Document) -> (r: Vec<XmlEvent>)
    ensures
        events_view(r@) == document_events(document@),
{
    let mut events: Vec<XmlEvent> = Vec::new();
    assert(events_view(events@) =~= Seq::empty());
    push_event(&mut events, XmlEvent::Decl);
    let mut attrs: Vec<(String, String)> = Vec::new();
    push_attr(&mut attrs, "xmlns:w", owned("http://schemas.openxmlformats.org/wordprocessingml/2006/main"));
    assert(attrs_view(attrs@) =~= seq![("xmlns:w"@, wordml_namespace())]);
    push_event(&mut events, XmlEvent::Start(owned("w:document"), attrs));
    push_open(&mut events, "w:body");
    let ghost e0 = events_view(events@);
    assert(e0 =~= seq![
        EventModel::Decl,
        EventModel::Start("w:document"@, seq![("xmlns:w"@, wordml_namespace())]),
        open_tag("w:body"@),
    ]);
    write_body(&mut events, &document.paragraphs);
    write_section_properties(&mut events, &document.section);
    push_close(&mut events, "w:body");
    push_close(&mut events, "w:document");
    assert(events_view(events@) =~= document_events(document@));
    events
}

/// WordprocessingML name of a label suffix.
pub open spec fn suffix_name(s: NumberingSuffix) -> Seq<char> {
    match s {
        NumberingSuffix::Tab => "tab"@,
        NumberingSuffix::Space => "space"@,
        NumberingSuffix::Nothing => "nothing"@,
    }
}

/// A `w:lvl` element.
pub open spec fn level_events(l: LevelModel) -> Seq<EventModel> {
    seq![
        EventModel::Start("w:lvl"@, seq![("w:ilvl"@, decimal(l.level as nat))]),
        value_tag("w:start"@, decimal(l.start as nat)),
        value_tag("w:numFmt"@, l.format),
        value_tag("w:lvlText"@, l.text),
        value_tag("w:lvlJc"@, alignment_name(l.alignment)),
        value_tag("w:suff"@, suffix_name(l.suffix)),
    ] + ppr_events(l.paragraph) + seq![EventModel::End("w:lvl"@)]
}

pub open spec fn levels_events(ls: Seq<LevelModel>) -> Seq<EventModel>
    decreases ls.len(),
{
    if ls.len() == 0 {
        Seq::empty()
    } else {
        levels_events(ls.drop_last()) + level_events(ls.last())
    }
}

/// A `w:lvlOverride` element.
pub open spec fn override_events(o: OverrideModel) -> Seq<EventModel> {
    seq![EventModel::Start("w:lvlOverride"@, seq![("w:ilvl"@, decimal(o.level as nat))])]
        + (match o.start {
        Some(v) => seq![value_tag("w:startOverride"@, decimal(v as nat))],
        None => Seq::empty(),
    }) + (match o.formatting {
        Some(l) => level_events(l),
        None => Seq::empty(),
    }) + seq![EventModel::End("w:lvlOverride"@)]
}

pub open spec fn overrides_events(os: Seq<OverrideModel>) -> Seq<EventModel>
    decreases os.len(),
{
    if os.len() == 0 {
        Seq::empty()
    } else {
        overrides_events(os.drop_last()) + override_events(os.last())
    }
}

/// A `w:abstractNum` element for one numbering instance.
pub open spec fn abstract_events(d: DefinitionModel) -> Seq<EventModel> {
    seq![
        EventModel::Start("w:abstractNum"@, seq![("w:abstractNumId"@, decimal(d.instance as nat))]),
        value_tag("w:multiLevelType"@, "hybridMultilevel"@),
    ] + levels_events(d.levels) + seq![EventModel::End("w:abstractNum"@)]
}

/// A `w:num` element for one numbering instance.
pub open spec fn num_events(d: DefinitionModel) -> Seq<EventModel> {
    seq![
        EventModel::Start("w:num"@, seq![("w:numId"@, decimal(d.instance as nat))]),
        value_tag("w:abstractNumId"@, decimal(d.instance as nat)),
    ] + overrides_events(d.overrides) + seq![EventModel::End("w:num"@)]
}

pub open spec fn all_abstract_events(ds: Seq<DefinitionModel>) -> Seq<EventModel>
    decreases ds.len(),
{
    if ds.len() == 0 {
        Seq::empty()
    } else {
        all_abstract_events(ds.drop_last()) + abstract_events(ds.last())
    }
}

pub open spec fn all_num_events(ds: Seq<DefinitionModel>) -> Seq<EventModel>
    decreases ds.len(),
{
    if ds.len() == 0 {
        Seq::empty()
    } else {
        all_num_events(ds.drop_last()) + num_events(ds.last())
    }
}

/// The events of `word/numbering.xml`.
pub open spec fn numbering_events(ds: Seq<DefinitionModel>) -> Seq<EventModel> {
    seq![
        EventModel::Decl,
        EventModel::Start("w:numbering"@, seq![("xmlns:w"@, wordml_namespace())]),
    ] + all_abstract_events(ds) + all_num_events(ds) + seq![EventModel::End("w:numbering"@)]
}

fn write_attr_open(events: &mut Vec<XmlEvent>, name: &str, key: &str, value: String)
    ensures
        events_view(final(events)@) == events_view(old(events)@).push(
            EventModel::Start(name@, seq![(key@, value@)]),
        ),
{
    let ghost v = value@;
    let mut attrs: Vec<(String, String)> = Vec::new();
    push_attr(&mut attrs, key, value);
    assert(attrs_view(attrs@) =~= seq![(key@, v)]);
    push_event(events, XmlEvent::Start(owned(name), attrs));
}

/// Appends a `w:lvl` element.
fn write_numbering_level(events: &mut Vec<XmlEvent>, level: &NumberingLevel)
    ensures
        events_view(final(events)@) == events_view(old(events)@) + level_events(level@),
{
    let ghost e0 = events_view(old(events)@);
    write_attr_open(events, "w:lvl", "w:ilvl", decimal_string(level.level as u64));
    push_value(events, "w:start", decimal_string(level.start as u64));
    push_value(events, "w:numFmt", level.format.clone());
    push_value(events, "w:lvlText", level.text.clone());
    push_value(events, "w:lvlJc", owned(alignment_value(level.alignment)));
    let suffix = match level.suffix {
        NumberingSuffix::Tab => "tab",
        NumberingSuffix::Space => "space",
        NumberingSuffix::Nothing => "nothing",
    };
    push_value(events, "w:suff", owned(suffix));
    let ghost e1 = events_view(events@);
    write_paragraph_properties(events, &level.paragraph);
    push_close(events, "w:lvl");
    assert(events_view(events@) =~= e0 + level_events(level@));
}

fn write_override(events: &mut Vec<XmlEvent>, o: &NumberingOverride)
    ensures
        events_view(final(events)@) == events_view(old(events)@) + override_events(o@),
{
    let ghost e0 = events_view(old(events)@);
    write_attr_open(events, "w:lvlOverride", "w:ilvl", decimal_string(o.level as u64));
    let ghost e1 = events_view(events@);
    if let Some(start) = o.start {
        push_value(events, "w:startOverride", decimal_string(start as u64));
    }
    let ghost e2 = events_view(events@);
    if let Some(formatting) = &o.formatting {
        write_numbering_level(events, formatting);
    }
    let ghost e3 = events_view(events@);
    push_close(events, "w:lvlOverride");
    proof {
        let a = match o@.start {
            Some(v) => seq![value_tag("w:startOverride"@, decimal(v as nat))],
            None => Seq::<EventModel>::empty(),
        };
        let b = match o@.formatting {
            Some(l) => level_events(l),
            None => Seq::<EventModel>::empty(),
        };
        assert(e2 =~= e1 + a);
        assert(e3 =~= e2 + b);
        assert(events_view(events@) =~= e0 + override_events(o@));
    }
}

fn write_abstract(events: &mut Vec<XmlEvent>, d: &NumberingDefinition)
    ensures
        events_view(final(events)@) == events_view(old(events)@) + abstract_events(d@),
{
    let ghost e0 = events_view(old(events)@);
    write_attr_open(events, "w:abstractNum", "w:abstractNumId", decimal_string(d.instance as u64));
    push_value(events, "w:multiLevelType", owned("hybridMultilevel"));
    let ghost e1 = events_view(events@);
    let ghost lv = levels_view(d.levels@);
    let mut k: usize = 0;
    while k < d.levels.len()
        invariant
            k <= d.levels@.len(),
            lv == levels_view(d.levels@),
            events_view(events@) == e1 + levels_events(lv.take(k as int)),
        decreases d.levels@.len() - k,
    {
        write_numbering_level(events, &d.levels[k]);
        assert(lv.take(k + 1).drop_last() =~= lv.take(k as int));
        assert(events_view(events@) =~= e1 + levels_events(lv.take(k + 1)));
        k = k + 1;
    }
    assert(lv.take(lv.len() as int) =~= lv);
    push_close(events, "w:abstractNum");
    assert(events_view(events@) =~= e0 + abstract_events(d@));
}

fn write_num(events: &mut Vec<XmlEvent>, d: &NumberingDefinition)
    ensures
        events_view(final(events)@) == events_view(old(events)@) + num_events(d@),
{
    let ghost e0 = events_view(old(events)@);
    write_attr_open(events, "w:num", "w:numId", decimal_string(d.instance as u64));
    push_value(events, "w:abstractNumId", decimal_string(d.instance as u64));
    let ghost e1 = events_view(events@);
    let ghost ov = overrides_view(d.overrides@);
    let mut k: usize = 0;
    while k < d.overrides.len()
        invariant
            k <= d.overrides@.len(),
            ov == overrides_view(d.overrides@),
            events_view(events@) == e1 + overrides_events(ov.take(k as int)),
        decreases d.overrides@.len() - k,
    {
        write_override(events, &d.overrides[k]);
        assert(ov.take(k + 1).drop_last() =~= ov.take(k as int));
        assert(events_view(events@) =~= e1 + overrides_events(ov.take(k + 1)));
        k = k + 1;
    }
    assert(ov.take(ov.len() as int) =~= ov);
    push_close(events, "w:num");
    assert(events_view(events@) =~= e0 + num_events(d@));
}

/// The events of `word/numbering.xml` for `document`.
pub fn numbering_events_of(document: &crate::ir::Document) -> (r: Vec<XmlEvent>)
    ensures
        events_view(r@) == numbering_events(document@.numbering),
{
    let ghost dv = definitions_view(document.numbering@);
    let mut events: Vec<XmlEvent> = Vec::new();
    assert(events_view(events@) =~= Seq::empty());
    push_event(&mut events, XmlEvent::Decl);
    let mut attrs: Vec<(String, String)> = Vec::new();
    push_attr(&mut attrs, "xmlns:w", owned("http://schemas.openxmlformats.org/wordprocessingml/2006/main"));
    assert(attrs_view(attrs@) =~= seq![("xmlns:w"@, wordml_namespace())]);
    push_event(&mut events, XmlEvent::Start(owned("w:numbering"), attrs));
    let ghost e0 = events_view(events@);
    let mut k: usize = 0;
    while k < document.numbering.len()
        invariant
            k <= document.numbering@.len(),
            dv == definitions_view(document.numbering@),
            events_view(events@) == e0 + all_abstract_events(dv.take(k as int)),
        decreases document.numbering@.len() - k,
    {
        write_abstract(&mut events, &document.numbering[k]);
        assert(dv.take(k + 1).drop_last() =~= dv.take(k as int));
        assert(events_view(events@) =~= e0 + all_abstract_events(dv.take(k + 1)));
        k = k + 1;
    }
    assert(dv.take(dv.len() as int) =~= dv);
    let ghost e1 = events_view(events@);
    let mut k: usize = 0;
    while k < document.numbering.len()
        invariant
            k <= document.numbering@.len(),
            dv == definitions_view(document.numbering@),
            events_view(events@) == e1 + all_num_events(dv.take(k as int)),
        decreases document.numbering@.len() - k,
    {
        write_num(&mut events, &document.numbering[k]);
        assert(dv.take(k + 1).drop_last() =~= dv.take(k as int));
        assert(events_view(events@) =~= e1 + all_num_events(dv.take(k + 1)));
        k = k + 1;
    }
    push_close(&mut events, "w:numbering");
    assert(events_view(events@) =~= numbering_events(document@.numbering));
    events
}

} // verus!
