//! Automatic numbering: list templates (PlfLst) and their instances (PlfLfo).
use vstd::prelude::*;
use crate::bytes::{fits, i32_at, le_u16, le_u32, to_i32, u16_at, u32_at};
use crate::fib::Fib;
use crate::formatting::{checked_range, outside_text, range_model};
use crate::ir::{
    copy_levels, levels_view, overrides_view, Alignment, DefinitionModel, LevelModel, NumberingDefinition,
    NumberingLevel, NumberingOverride, NumberingSuffix, OverrideModel, PropertiesModel,
};
use crate::props::{decode_paragraph_properties, papx_model};
use crate::sprm::{truncated_message, truncated_text};
use crate::story::{is_plain_unit, le_units};
use crate::strings::{decimal, owned, push_decimal};

verus! {

/// WordprocessingML name of a number format code (nfc).
pub open spec fn format_name(nfc: u8) -> Seq<char> {
    match nfc {
        0x00u8 | 0x28u8 => "decimal"@,
        0x01u8 => "upperRoman"@,
        0x02u8 => "lowerRoman"@,
        0x03u8 => "upperLetter"@,
        0x04u8 => "lowerLetter"@,
        0x05u8 => "ordinal"@,
        0x06u8 => "cardinalText"@,
        0x07u8 => "ordinalText"@,
        0x08u8 => "hex"@,
        0x09u8 => "chicago"@,
        0x0Au8 => "ideographDigital"@,
        0x0Bu8 => "japaneseCounting"@,
        0x0Cu8 => "Aiueo"@,
        0x0Du8 => "Iroha"@,
        0x0Eu8 => "decimalFullWidth"@,
        0x0Fu8 => "decimalHalfWidth"@,
        0x10u8 => "japaneseLegal"@,
        0x11u8 => "japaneseDigitalTenThousand"@,
        0x12u8 => "decimalEnclosedCircle"@,
        0x13u8 => "decimalFullWidth2"@,
        0x14u8 => "aiueoFullWidth"@,
        0x15u8 => "irohaFullWidth"@,
        0x16u8 => "decimalZero"@,
        0x17u8 => "bullet"@,
        0x18u8 => "ganada"@,
        0x19u8 => "chosung"@,
        0x1Au8 => "decimalEnclosedFullstop"@,
        0x1Bu8 => "decimalEnclosedParen"@,
        0x1Cu8 => "decimalEnclosedCircleChinese"@,
        0x1Du8 => "ideographEnclosedCircle"@,
        0x1Eu8 => "ideographTraditional"@,
        0x1Fu8 => "ideographZodiac"@,
        0x20u8 => "ideographZodiacTraditional"@,
        0x21u8 => "taiwaneseCounting"@,
        0x22u8 => "ideographLegalTraditional"@,
        0x23u8 => "taiwaneseCountingThousand"@,
        0x24u8 => "taiwaneseDigital"@,
        0x25u8 => "chineseCounting"@,
        0x26u8 => "chineseLegalSimplified"@,
        0x27u8 => "chineseCountingThousand"@,
        0x29u8 => "koreanDigital"@,
        0x2Au8 => "koreanCounting"@,
        0x2Bu8 => "koreanLegal"@,
        0x2Cu8 => "koreanDigital2"@,
        0x2Du8 => "hebrew1"@,
        0x2Eu8 => "arabicAlpha"@,
        0x2Fu8 => "hebrew2"@,
        0x30u8 => "arabicAbjad"@,
        0x31u8 => "hindiVowels"@,
        0x32u8 => "hindiConsonants"@,
        0x33u8 => "hindiNumbers"@,
        0x34u8 => "hindiCounting"@,
        0x35u8 => "thaiLetters"@,
        0x36u8 => "thaiNumbers"@,
        0x37u8 => "thaiCounting"@,
        0x38u8 => "vietnameseCounting"@,
        0x39u8 => "numberInDash"@,
        0x3Au8 => "russianLower"@,
        0x3Bu8 => "russianUpper"@,
        0xFFu8 => "none"@,
        _ => "decimal"@,
    }
}

/// WordprocessingML name of a number format code (nfc).
pub fn numbering_format(nfc: u8) -> (r: &'static str)
    ensures
        r@ == format_name(nfc),
{
    match nfc {
        0x00u8 | 0x28u8 => "decimal",
        0x01u8 => "upperRoman",
        0x02u8 => "lowerRoman",
        0x03u8 => "upperLetter",
        0x04u8 => "lowerLetter",
        0x05u8 => "ordinal",
        0x06u8 => "cardinalText",
        0x07u8 => "ordinalText",
        0x08u8 => "hex",
        0x09u8 => "chicago",
        0x0Au8 => "ideographDigital",
        0x0Bu8 => "japaneseCounting",
        0x0Cu8 => "Aiueo",
        0x0Du8 => "Iroha",
        0x0Eu8 => "decimalFullWidth",
        0x0Fu8 => "decimalHalfWidth",
        0x10u8 => "japaneseLegal",
        0x11u8 => "japaneseDigitalTenThousand",
        0x12u8 => "decimalEnclosedCircle",
        0x13u8 => "decimalFullWidth2",
        0x14u8 => "aiueoFullWidth",
        0x15u8 => "irohaFullWidth",
        0x16u8 => "decimalZero",
        0x17u8 => "bullet",
        0x18u8 => "ganada",
        0x19u8 => "chosung",
        0x1Au8 => "decimalEnclosedFullstop",
        0x1Bu8 => "decimalEnclosedParen",
        0x1Cu8 => "decimalEnclosedCircleChinese",
        0x1Du8 => "ideographEnclosedCircle",
        0x1Eu8 => "ideographTraditional",
        0x1Fu8 => "ideographZodiac",
        0x20u8 => "ideographZodiacTraditional",
        0x21u8 => "taiwaneseCounting",
        0x22u8 => "ideographLegalTraditional",
        0x23u8 => "taiwaneseCountingThousand",
        0x24u8 => "taiwaneseDigital",
        0x25u8 => "chineseCounting",
        0x26u8 => "chineseLegalSimplified",
        0x27u8 => "chineseCountingThousand",
        0x29u8 => "koreanDigital",
        0x2Au8 => "koreanCounting",
        0x2Bu8 => "koreanLegal",
        0x2Cu8 => "koreanDigital2",
        0x2Du8 => "hebrew1",
        0x2Eu8 => "arabicAlpha",
        0x2Fu8 => "hebrew2",
        0x30u8 => "arabicAbjad",
        0x31u8 => "hindiVowels",
        0x32u8 => "hindiConsonants",
        0x33u8 => "hindiNumbers",
        0x34u8 => "hindiCounting",
        0x35u8 => "thaiLetters",
        0x36u8 => "thaiNumbers",
        0x37u8 => "thaiCounting",
        0x38u8 => "vietnameseCounting",
        0x39u8 => "numberInDash",
        0x3Au8 => "russianLower",
        0x3Bu8 => "russianUpper",
        0xFFu8 => "none",
        _ => "decimal",
    }
}

/// One code unit decoded on its own: a surrogate becomes `replacement`.
pub open spec fn unit_char(u: u16, replacement: char) -> char {
    if is_plain_unit(u) {
        u as char
    } else {
        replacement
    }
}

fn decode_unit(u: u16, replacement: char) -> (r: char)
    ensures
        r == unit_char(u, replacement),
{
    if u < 0xD800 || u > 0xDFFF {
        match char::from_u32(u as u32) {
            Some(c) => c,
            None => replacement,
        }
    } else {
        replacement
    }
}

/// The label of a bullet level: its first code unit, or a bullet when there is none.
pub open spec fn bullet_model(units: Seq<u16>) -> Seq<char> {
    if units.len() == 0 {
        seq!['\u{2022}']
    } else {
        seq![unit_char(units[0], '\u{2022}')]
    }
}

/// The label of a bullet level: its first code unit, or a bullet when there is none.
pub fn bullet_text(units: &[u16]) -> (r: String)
    ensures
        r@ == bullet_model(units@),
{
    let mut s = String::new();
    if units.len() == 0 {
        s.push('\u{2022}');
    } else {
        s.push(decode_unit(units[0], '\u{2022}'));
    }
    assert(s@ =~= bullet_model(units@));
    s
}

/// One-based position of code unit `i`, saturated at 255.
pub open spec fn position_of(i: int) -> u8 {
    if i + 1 > 255 {
        255
    } else {
        (i + 1) as u8
    }
}

/// The label template of a numbered level: a unit at a placeholder position that names a
/// level (0..=8) becomes `%` and the one-based level number; others are decoded one by one.
pub open spec fn label_model(units: Seq<u16>, placeholders: Seq<u8>) -> Seq<char>
    decreases units.len(),
{
    if units.len() == 0 {
        Seq::empty()
    } else {
        let i = units.len() - 1;
        let u = units[i];
        let rest = label_model(units.drop_last(), placeholders);
        if placeholders.contains(position_of(i)) && u <= 8 {
            rest + seq!['%'] + decimal((u + 1) as nat)
        } else {
            rest.push(unit_char(u, '\u{FFFD}'))
        }
    }
}

fn contains_u8(v: &[u8], x: u8) -> (r: bool)
    ensures
        r == v@.contains(x),
{
    let mut k: usize = 0;
    while k < v.len()
        invariant
            k <= v@.len(),
            forall|j: int| 0 <= j < k ==> v@[j] != x,
        decreases v@.len() - k,
    {
        if v[k] == x {
            return true;
        }
        k = k + 1;
    }
    false
}

fn label_text(units: &Vec<u16>, placeholders: &[u8]) -> (r: String)
    ensures
        r@ == label_model(units@, placeholders@),
{
    let mut s = String::new();
    let mut i: usize = 0;
    while i < units.len()
        invariant
            i <= units@.len(),
            s@ == label_model(units@.take(i as int), placeholders@),
        decreases units@.len() - i,
    {
        assert(units@.take(i + 1).drop_last() =~= units@.take(i as int));
        let u = units[i];
        let position: u8 = if i >= 255 {
            255
        } else {
            (i + 1) as u8
        };
        if contains_u8(placeholders, position) && u <= 8 {
            let ghost before = s@;
            s.push('%');
            push_decimal(&mut s, (u + 1) as u64);
            assert(s@ =~= before + seq!['%'] + decimal((u + 1) as nat));
        } else {
            s.push(decode_unit(u, '\u{FFFD}'));
        }
        i = i + 1;
    }
    assert(units@.take(units@.len() as int) =~= units@);
    s
}

fn read_units(t: &[u8], start: usize, n: usize) -> (r: Vec<u16>)
    requires
        start + 2 * n <= t@.len(),
    ensures
        r@ == le_units(t@, start as int, n as int),
{
    let mut out: Vec<u16> = Vec::new();
    let tl = t.len();
    let mut k: usize = 0;
    while k < n
        invariant
            k <= n,
            tl == t@.len(),
            start + 2 * n <= t@.len(),
            out@ == le_units(t@, start as int, k as int),
        decreases n - k,
    {
        let u: u16 = t[start + 2 * k] as u16 + (t[start + 2 * k + 1] as u16) * 256;
        out.push(u);
        k = k + 1;
        assert(out@ =~= le_units(t@, start as int, k as int));
    }
    out
}

/// Alignment of a level's label.
pub open spec fn level_alignment(b: u8) -> Alignment {
    if b & 3 == 1 {
        Alignment::Center
    } else if b & 3 == 2 {
        Alignment::Right
    } else {
        Alignment::Left
    }
}

/// What follows a level's label.
pub open spec fn level_suffix(b: u8) -> NumberingSuffix {
    if b == 1 {
        NumberingSuffix::Space
    } else if b == 2 {
        NumberingSuffix::Nothing
    } else {
        NumberingSuffix::Tab
    }
}

/// The LVL stored at `offset` as level number `level`, with the offset just past it, or
/// why it is truncated or its paragraph properties are malformed.
pub open spec fn level_model(t: Seq<u8>, offset: int, level: u8) -> Result<
    (LevelModel, int),
    Seq<char>,
> {
    if offset < 0 || offset + 28 > t.len() {
        Err("LVLF is truncated"@)
    } else {
        let nfc = t[offset + 4];
        let papx_start = offset + 28;
        let chpx_start = papx_start + t[offset + 25];
        let xst_start = chpx_start + t[offset + 24];
        if chpx_start > t.len() {
            Err("LVL.grpprlPapx is truncated"@)
        } else if !fits(t, xst_start, 2) {
            Err(truncated_text("LVL.xst.cch"@))
        } else {
            let cch = u16_at(t, xst_start);
            let text_start = xst_start + 2;
            let text_end = text_start + 2 * cch;
            if text_end > t.len() {
                Err("LVL.xst is truncated"@)
            } else {
                let units = le_units(t, text_start, cch as int);
                let text = if nfc == 0x17 {
                    bullet_model(units)
                } else {
                    label_model(units, t.subrange(offset + 6, offset + 15))
                };
                let start = i32_at(t, offset);
                match papx_model(t.subrange(papx_start, chpx_start), Seq::empty(), 0) {
                    Err(m) => Err(m),
                    Ok(p) => Ok(
                        (
                            LevelModel {
                                level,
                                start: if start >= 0 {
                                    start as u32
                                } else {
                                    1
                                },
                                format: format_name(nfc),
                                text,
                                alignment: level_alignment(t[offset + 5]),
                                suffix: level_suffix(t[offset + 15]),
                                paragraph: PropertiesModel { numbering: None, ..p },
                            },
                            text_end,
                        ),
                    ),
                }
            }
        }
    }
}

/// Parses the LVL stored at `offset` as level number `level`; returns it and the offset
/// just past it.
pub fn parse_numbering_level(t: &[u8], offset: usize, level: u8) -> (r: Result<
    (NumberingLevel, usize),
    String,
>)
    ensures
        match r {
            Ok((l, next)) => level_model(t@, offset as int, level) == Ok::<
                (LevelModel, int),
                Seq<char>,
            >((l@, next as int)),
            Err(m) => level_model(t@, offset as int, level) == Err::<(LevelModel, int), Seq<char>>(
                m@,
            ),
        },
{
    let len = t.len();
    if offset > len || len - offset < 28 {
        return Err(owned("LVLF is truncated"));
    }
    let start_raw = match le_u32(t, offset) {
        Some(v) => v,
        None => {
            return Err(owned("LVLF is truncated"));
        },
    };
    let start = to_i32(start_raw);
    let nfc = t[offset + 4];
    let align_byte = t[offset + 5];
    let alignment = if align_byte & 3 == 1 {
        Alignment::Center
    } else if align_byte & 3 == 2 {
        Alignment::Right
    } else {
        Alignment::Left
    };
    let suffix_byte = t[offset + 15];
    let suffix = if suffix_byte == 1 {
        NumberingSuffix::Space
    } else if suffix_byte == 2 {
        NumberingSuffix::Nothing
    } else {
        NumberingSuffix::Tab
    };
    let chpx_len = t[offset + 24] as usize;
    let papx_len = t[offset + 25] as usize;
    let papx_start = offset + 28;
    if len - papx_start < papx_len {
        return Err(owned("LVL.grpprlPapx is truncated"));
    }
    let chpx_start = papx_start + papx_len;
    if len - chpx_start < chpx_len {
        return Err(truncated_message("LVL.xst.cch"));
    }
    let xst_start = chpx_start + chpx_len;
    let cch = match le_u16(t, xst_start) {
        Some(v) => v as usize,
        None => {
            return Err(truncated_message("LVL.xst.cch"));
        },
    };
    let text_start = xst_start + 2;
    if len - text_start < 2 * cch {
        return Err(owned("LVL.xst is truncated"));
    }
    let text_end = text_start + 2 * cch;
    let units = read_units(t, text_start, cch);
    let text = if nfc == 0x17 {
        bullet_text(units.as_slice())
    } else {
        let placeholders = crate::bytes::slice_range(t, offset + 6, offset + 15);
        label_text(&units, placeholders)
    };
    let papx = crate::bytes::slice_range(t, papx_start, chpx_start);
    let no_data: Vec<u8> = Vec::new();
    assert(no_data@ =~= Seq::<u8>::empty());
    let mut paragraph = decode_paragraph_properties(papx, no_data.as_slice())?;
    paragraph.numbering = None;
    let level_start: u32 = if start >= 0 {
        start as u32
    } else {
        1
    };
    let l = NumberingLevel {
        level,
        start: level_start,
        format: owned(numbering_format(nfc)),
        text,
        alignment,
        suffix,
        paragraph,
    };
    Ok((l, text_end))
}

/// The first `n` levels of a template, read one after another from `cursor`, with the
/// offset past the last.
pub open spec fn levels_model(t: Seq<u8>, cursor: int, n: int) -> Result<
    (Seq<LevelModel>, int),
    Seq<char>,
>
    decreases n,
{
    if n <= 0 {
        Ok((Seq::empty(), cursor))
    } else {
        match levels_model(t, cursor, n - 1) {
            Err(m) => Err(m),
            Ok((ls, c)) => match level_model(t, c, (n - 1) as u8) {
                Err(m) => Err(m),
                Ok((l, next)) => Ok((ls.push(l), next)),
            },
        }
    }
}

proof fn lemma_levels_none(t: Seq<u8>, cursor: int, k: int, n: int)
    requires
        0 <= k <= n,
        levels_model(t, cursor, k) is Err,
    ensures
        levels_model(t, cursor, n) == levels_model(t, cursor, k),
    decreases n - k,
{
    if k < n {
        lemma_levels_none(t, cursor, k, n - 1);
    }
}

fn parse_levels(t: &[u8], cursor: usize, count: usize) -> (r: Result<
    (Vec<NumberingLevel>, usize),
    String,
>)
    requires
        count <= 9,
    ensures
        match r {
            Ok((ls, next)) => levels_model(t@, cursor as int, count as int) == Ok::<
                (Seq<LevelModel>, int),
                Seq<char>,
            >((levels_view(ls@), next as int)),
            Err(m) => levels_model(t@, cursor as int, count as int) == Err::<
                (Seq<LevelModel>, int),
                Seq<char>,
            >(m@),
        },
{
    let mut levels: Vec<NumberingLevel> = Vec::new();
    let mut c = cursor;
    let mut k: usize = 0;
    assert(levels_view(levels@) =~= Seq::empty());
    while k < count
        invariant
            k <= count <= 9,
            levels_model(t@, cursor as int, k as int) == Ok::<(Seq<LevelModel>, int), Seq<char>>(
                (levels_view(levels@), c as int),
            ),
        decreases count - k,
    {
        match parse_numbering_level(t, c, k as u8) {
            Ok((l, next)) => {
                let ghost before = levels@;
                let ghost lv = l@;
                levels.push(l);
                assert(levels_view(levels@) =~= levels_view(before).push(lv));
                c = next;
            },
            Err(e) => {
                proof {
                    lemma_levels_none(t@, cursor as int, k + 1, count as int);
                }
                return Err(e);
            },
        }
        k = k + 1;
    }
    Ok((levels, c))
}

/// A list template: its id and its levels.
struct ListTemplate {
    lsid: i32,
    levels: Vec<NumberingLevel>,
}

spec fn templates_view(v: Seq<ListTemplate>) -> Seq<(i32, Seq<LevelModel>)> {
    v.map_values(|x: ListTemplate| (x.lsid, levels_view(x.levels@)))
}

/// The first `n` list templates of PlfLst `lst`, their levels read from `t` at `cursor` on,
/// with the offset past the last level.
pub open spec fn templates_model(t: Seq<u8>, lst: Seq<u8>, cursor: int, n: int) -> Result<
    (Seq<(i32, Seq<LevelModel>)>, int),
    Seq<char>,
>
    decreases n,
{
    if n <= 0 {
        Ok((Seq::empty(), cursor))
    } else {
        match templates_model(t, lst, cursor, n - 1) {
            Err(m) => Err(m),
            Ok((tps, c)) => {
                let off = 2 + 28 * (n - 1);
                let count = if lst[off + 26] & 1 != 0 {
                    1int
                } else {
                    9int
                };
                match levels_model(t, c, count) {
                    Err(m) => Err(m),
                    Ok((ls, next)) => Ok((tps.push((i32_at(lst, off), ls)), next)),
                }
            },
        }
    }
}

proof fn lemma_templates_none(t: Seq<u8>, lst: Seq<u8>, cursor: int, k: int, n: int)
    requires
        0 <= k <= n,
        templates_model(t, lst, cursor, k) is Err,
    ensures
        templates_model(t, lst, cursor, n) == templates_model(t, lst, cursor, k),
    decreases n - k,
{
    if k < n {
        lemma_templates_none(t, lst, cursor, k, n - 1);
    }
}

fn parse_templates(t: &[u8], lst: &[u8], cursor: usize, n: usize) -> (r: Result<
    (Vec<ListTemplate>, usize),
    String,
>)
    requires
        28 * n + 2 <= lst@.len(),
    ensures
        match r {
            Ok((tps, next)) => templates_model(t@, lst@, cursor as int, n as int) == Ok::<
                (Seq<(i32, Seq<LevelModel>)>, int),
                Seq<char>,
            >((templates_view(tps@), next as int)),
            Err(m) => templates_model(t@, lst@, cursor as int, n as int) == Err::<
                (Seq<(i32, Seq<LevelModel>)>, int),
                Seq<char>,
            >(m@),
        },
{
    let mut templates: Vec<ListTemplate> = Vec::new();
    let mut c = cursor;
    let mut k: usize = 0;
    let lst_len = lst.len();
    assert(templates_view(templates@) =~= Seq::empty());
    while k < n
        invariant
            k <= n,
            lst_len == lst@.len(),
            28 * n + 2 <= lst@.len(),
            templates_model(t@, lst@, cursor as int, k as int) == Ok::<
                (Seq<(i32, Seq<LevelModel>)>, int),
                Seq<char>,
            >((templates_view(templates@), c as int)),
        decreases n - k,
    {
        let off = 2 + k * 28;
        let lsid = match le_u32(lst, off) {
            Some(v) => to_i32(v),
            None => 0,
        };
        let count: usize = if lst[off + 26] & 1 != 0 {
            1
        } else {
            9
        };
        match parse_levels(t, c, count) {
            Ok((levels, next)) => {
                let ghost before = templates@;
                let ghost lv = levels_view(levels@);
                templates.push(ListTemplate { lsid, levels });
                assert(templates_view(templates@) =~= templates_view(before).push((lsid, lv)));
                c = next;
            },
            Err(e) => {
                proof {
                    lemma_templates_none(t@, lst@, cursor as int, k + 1, n as int);
                }
                return Err(e);
            },
        }
        k = k + 1;
    }
    Ok((templates, c))
}

/// The LFOLVL stored in `lfo` at `cursor`, with the offset just past it (and past the LVL
/// it carries when it overrides formatting).
pub open spec fn override_model(lfo: Seq<u8>, cursor: int) -> Result<
    (OverrideModel, int),
    Seq<char>,
> {
    if !fits(lfo, cursor, 4) {
        Err(truncated_text("LFOLVL.iStartAt"@))
    } else if !fits(lfo, cursor + 4, 4) {
        Err(truncated_text("LFOLVL.flags"@))
    } else {
        let start_at = i32_at(lfo, cursor);
        let flags = u32_at(lfo, cursor + 4);
        let level = (flags & 0x0F) as u8;
        let has_start = flags & 0x10 != 0;
        let has_formatting = flags & 0x20 != 0;
        let start = if has_start && !has_formatting && start_at >= 0 {
            Some(start_at as u32)
        } else {
            None
        };
        if has_formatting {
            match level_model(lfo, cursor + 8, level) {
                Err(m) => Err(m),
                Ok((l, next)) => Ok((OverrideModel { level, start, formatting: Some(l) }, next)),
            }
        } else {
            Ok((OverrideModel { level, start, formatting: None }, cursor + 8))
        }
    }
}

fn parse_override(lfo: &[u8], cursor: usize) -> (r: Result<(NumberingOverride, usize), String>)
    ensures
        match r {
            Ok((o, next)) => override_model(lfo@, cursor as int) == Ok::<
                (OverrideModel, int),
                Seq<char>,
            >((o@, next as int)),
            Err(m) => override_model(lfo@, cursor as int) == Err::<(OverrideModel, int), Seq<char>>(
                m@,
            ),
        },
{
    let len = lfo.len();
    let start_at = match le_u32(lfo, cursor) {
        Some(v) => to_i32(v),
        None => {
            return Err(truncated_message("LFOLVL.iStartAt"));
        },
    };
    assert(cursor + 4 <= len);
    let flags = match le_u32(lfo, cursor + 4) {
        Some(v) => v,
        None => {
            return Err(truncated_message("LFOLVL.flags"));
        },
    };
    let level = (flags & 0x0F) as u8;
    let has_start = flags & 0x10 != 0;
    let has_formatting = flags & 0x20 != 0;
    let start: Option<u32> = if has_start && !has_formatting && start_at >= 0 {
        Some(start_at as u32)
    } else {
        None
    };
    if has_formatting {
        let (l, next) = parse_numbering_level(lfo, cursor + 8, level)?;
        Ok((NumberingOverride { level, start, formatting: Some(l) }, next))
    } else {
        Ok((NumberingOverride { level, start, formatting: None }, cursor + 8))
    }
}

/// The first `n` LFOLVLs read one after another from `cursor`, with the offset past the last.
pub open spec fn overrides_model(lfo: Seq<u8>, cursor: int, n: int) -> Result<
    (Seq<OverrideModel>, int),
    Seq<char>,
>
    decreases n,
{
    if n <= 0 {
        Ok((Seq::empty(), cursor))
    } else {
        match overrides_model(lfo, cursor, n - 1) {
            Err(m) => Err(m),
            Ok((os, c)) => match override_model(lfo, c) {
                Err(m) => Err(m),
                Ok((o, next)) => Ok((os.push(o), next)),
            },
        }
    }
}

proof fn lemma_overrides_none(lfo: Seq<u8>, cursor: int, k: int, n: int)
    requires
        0 <= k <= n,
        overrides_model(lfo, cursor, k) is Err,
    ensures
        overrides_model(lfo, cursor, n) == overrides_model(lfo, cursor, k),
    decreases n - k,
{
    if k < n {
        lemma_overrides_none(lfo, cursor, k, n - 1);
    }
}

fn parse_overrides(lfo: &[u8], cursor: usize, n: usize) -> (r: Result<
    (Vec<NumberingOverride>, usize),
    String,
>)
    ensures
        match r {
            Ok((os, next)) => overrides_model(lfo@, cursor as int, n as int) == Ok::<
                (Seq<OverrideModel>, int),
                Seq<char>,
            >((overrides_view(os@), next as int)),
            Err(m) => overrides_model(lfo@, cursor as int, n as int) == Err::<
                (Seq<OverrideModel>, int),
                Seq<char>,
            >(m@),
        },
{
    let mut out: Vec<NumberingOverride> = Vec::new();
    let mut c = cursor;
    let mut k: usize = 0;
    assert(overrides_view(out@) =~= Seq::empty());
    while k < n
        invariant
            k <= n,
            overrides_model(lfo@, cursor as int, k as int) == Ok::<
                (Seq<OverrideModel>, int),
                Seq<char>,
            >((overrides_view(out@), c as int)),
        decreases n - k,
    {
        match parse_override(lfo, c) {
            Ok((o, next)) => {
                let ghost before = out@;
                let ghost ov = o@;
                out.push(o);
                assert(overrides_view(out@) =~= overrides_view(before).push(ov));
                c = next;
            },
            Err(e) => {
                proof {
                    lemma_overrides_none(lfo@, cursor as int, k + 1, n as int);
                }
                return Err(e);
            },
        }
        k = k + 1;
    }
    Ok((out, c))
}

/// The levels of the first template with id `lsid`.
pub open spec fn find_template(tps: Seq<(i32, Seq<LevelModel>)>, lsid: i32) -> Option<
    Seq<LevelModel>,
>
    decreases tps.len(),
{
    if tps.len() == 0 {
        None
    } else if tps[0].0 == lsid {
        Some(tps[0].1)
    } else {
        find_template(tps.drop_first(), lsid)
    }
}

fn find_template_index(tps: &Vec<ListTemplate>, lsid: i32) -> (r: Option<usize>)
    ensures
        match r {
            Some(i) => i < tps@.len() && find_template(templates_view(tps@), lsid) == Some(
                levels_view(tps@[i as int].levels@),
            ),
            None => find_template(templates_view(tps@), lsid) is None,
        },
{
    let ghost tv = templates_view(tps@);
    let mut k: usize = 0;
    assert(tv.subrange(0, tv.len() as int) =~= tv);
    while k < tps.len()
        invariant
            k <= tps@.len(),
            tv == templates_view(tps@),
            find_template(tv, lsid) == find_template(tv.subrange(k as int, tv.len() as int), lsid),
        decreases tps@.len() - k,
    {
        assert(tv.subrange(k as int, tv.len() as int).drop_first() =~= tv.subrange(
            k + 1,
            tv.len() as int,
        ));
        if tps[k].lsid == lsid {
            return Some(k);
        }
        k = k + 1;
    }
    None
}

/// The numbering instances of the first `n` LFOs, their LFOData read from `cursor` on; an
/// LFO whose list template is missing yields no instance.
pub open spec fn definitions_model(
    lfo: Seq<u8>,
    tps: Seq<(i32, Seq<LevelModel>)>,
    cursor: int,
    n: int,
) -> Result<(Seq<DefinitionModel>, int), Seq<char>>
    decreases n,
{
    if n <= 0 {
        Ok((Seq::empty(), cursor))
    } else {
        match definitions_model(lfo, tps, cursor, n - 1) {
            Err(m) => Err(m),
            Ok((ds, c)) => {
                let off = 4 + 16 * (n - 1);
                let lsid = i32_at(lfo, off);
                let override_count = lfo[off + 12];
                if !fits(lfo, c, 4) {
                    Err(truncated_text("LFOData.cp"@))
                } else {
                    match overrides_model(lfo, c + 4, override_count as int) {
                        Err(m) => Err(m),
                        Ok((ovs, next)) => match find_template(tps, lsid) {
                            None => Ok((ds, next)),
                            Some(levels) => Ok(
                                (
                                    ds.push(
                                        DefinitionModel {
                                            instance: n as u32,
                                            levels,
                                            overrides: ovs,
                                        },
                                    ),
                                    next,
                                ),
                            ),
                        },
                    }
                }
            },
        }
    }
}

proof fn lemma_definitions_none(
    lfo: Seq<u8>,
    tps: Seq<(i32, Seq<LevelModel>)>,
    cursor: int,
    k: int,
    n: int,
)
    requires
        0 <= k <= n,
        definitions_model(lfo, tps, cursor, k) is Err,
    ensures
        definitions_model(lfo, tps, cursor, n) == definitions_model(lfo, tps, cursor, k),
    decreases n - k,
{
    if k < n {
        lemma_definitions_none(lfo, tps, cursor, k, n - 1);
    }
}

#[verifier::spinoff_prover]
#[verifier::rlimit(40)]
fn parse_definitions(lfo: &[u8], tps: &Vec<ListTemplate>, cursor: usize, n: u32) -> (r: Result<
    Vec<NumberingDefinition>,
    String,
>)
    requires
        16 * n + 4 <= lfo@.len(),
    ensures
        match r {
            Ok(ds) => definitions_model(lfo@, templates_view(tps@), cursor as int, n as int) matches Ok(
                (d, _),
            ) && d == crate::ir::definitions_view(ds@),
            Err(m) => definitions_model(lfo@, templates_view(tps@), cursor as int, n as int)
                matches Err(e) && e == m@,
        },
{
    let ghost tv = templates_view(tps@);
    let mut defs: Vec<NumberingDefinition> = Vec::new();
    let mut c = cursor;
    let mut k: u32 = 0;
    let lfo_len = lfo.len();
    assert(crate::ir::definitions_view(defs@) =~= Seq::empty());
    while k < n
        invariant
            k <= n,
            lfo_len == lfo@.len(),
            16 * n + 4 <= lfo@.len(),
            tv == templates_view(tps@),
            definitions_model(lfo@, tv, cursor as int, k as int) == Ok::<
                (Seq<DefinitionModel>, int),
                Seq<char>,
            >((crate::ir::definitions_view(defs@), c as int)),
        decreases n - k,
    {
        let off = 4 + (k as usize) * 16;
        let lsid = match le_u32(lfo, off) {
            Some(v) => to_i32(v),
            None => 0,
        };
        let override_count = lfo[off + 12] as usize;
        if c > lfo_len || lfo_len - c < 4 {
            proof {
                lemma_definitions_none(lfo@, tv, cursor as int, k + 1, n as int);
            }
            return Err(truncated_message("LFOData.cp"));
        }
        match parse_overrides(lfo, c + 4, override_count) {
            Ok((overrides, next)) => {
                match find_template_index(tps, lsid) {
                    Some(i) => {
                        let levels = copy_levels(&tps[i].levels);
                        let ghost before = defs@;
                        let d = NumberingDefinition { instance: k + 1, levels, overrides };
                        let ghost dv = d@;
                        defs.push(d);
                        assert(crate::ir::definitions_view(defs@) =~= crate::ir::definitions_view(
                            before,
                        ).push(dv));
                    },
                    None => {},
                }
                c = next;
            },
            Err(e) => {
                proof {
                    lemma_definitions_none(lfo@, tv, cursor as int, k + 1, n as int);
                }
                return Err(e);
            },
        }
        k = k + 1;
    }
    Ok(defs)
}

/// The numbering instances that the PlfLfo names over the list templates `tps`.
pub open spec fn instances_model(t: Seq<u8>, fib: Fib, tps: Seq<(i32, Seq<LevelModel>)>) -> Result<
    Seq<DefinitionModel>,
    Seq<char>,
> {
    match range_model(t, fib.fc_plf_lfo, fib.lcb_plf_lfo) {
        None => Err(outside_text("PlfLfo"@)),
        Some(lfo) => if !fits(lfo, 0, 4) {
            Err(truncated_text("PlfLfo.lfoMac"@))
        } else if 16 * u32_at(lfo, 0) + 4 > lfo.len() {
            Err("PlfLfo.rgLfo is truncated"@)
        } else {
            match definitions_model(lfo, tps, 16 * u32_at(lfo, 0) + 4, u32_at(lfo, 0) as int) {
                Err(m) => Err(m),
                Ok((ds, _)) => Ok(ds),
            }
        },
    }
}

/// The numbering instances of the document, or why the list tables are malformed.
pub open spec fn numbering_model(t: Seq<u8>, fib: Fib) -> Result<Seq<DefinitionModel>, Seq<char>> {
    if fib.lcb_plf_lst == 0 || fib.lcb_plf_lfo == 0 {
        Ok(Seq::empty())
    } else {
        match range_model(t, fib.fc_plf_lst, fib.lcb_plf_lst) {
            None => Err(outside_text("PlfLst"@)),
            Some(lst) => if !fits(lst, 0, 2) {
                Err(truncated_text("PlfLst.cLst"@))
            } else if 28 * u16_at(lst, 0) + 2 > lst.len() {
                Err("PlfLst.rgLstf is truncated"@)
            } else {
                match templates_model(
                    t,
                    lst,
                    fib.fc_plf_lst + fib.lcb_plf_lst,
                    u16_at(lst, 0) as int,
                ) {
                    Err(m) => Err(m),
                    Ok((tps, _)) => instances_model(t, fib, tps),
                }
            },
        }
    }
}

fn parse_instances(table_stream: &[u8], fib: &Fib, templates: &Vec<ListTemplate>) -> (r: Result<
    Vec<NumberingDefinition>,
    String,
>)
    ensures
        match r {
            Ok(ds) => instances_model(table_stream@, *fib, templates_view(templates@)) == Ok::<
                Seq<DefinitionModel>,
                Seq<char>,
            >(crate::ir::definitions_view(ds@)),
            Err(m) => instances_model(table_stream@, *fib, templates_view(templates@)) == Err::<
                Seq<DefinitionModel>,
                Seq<char>,
            >(m@),
        },
{
    let plf_lfo = checked_range(table_stream, fib.fc_plf_lfo, fib.lcb_plf_lfo, "PlfLfo")?;
    let lfo_count = match le_u32(plf_lfo, 0) {
        Some(v) => v,
        None => {
            return Err(truncated_message("PlfLfo.lfoMac"));
        },
    };
    let lfo_len = plf_lfo.len();
    if lfo_len < 4 || ((lfo_len - 4) / 16) < lfo_count as usize {
        return Err(owned("PlfLfo.rgLfo is truncated"));
    }
    let lfo_bytes = (lfo_count as usize) * 16 + 4;
    parse_definitions(plf_lfo, templates, lfo_bytes, lfo_count)
}

/// Reads the list templates and numbering instances of the table stream.
pub fn parse_numbering(table_stream: &[u8], fib: &Fib) -> (r: Result<
    Vec<NumberingDefinition>,
    String,
>)
    ensures
        match r {
            Ok(ds) => numbering_model(table_stream@, *fib) == Ok::<Seq<DefinitionModel>, Seq<char>>(
                crate::ir::definitions_view(ds@),
            ),
            Err(m) => numbering_model(table_stream@, *fib) == Err::<Seq<DefinitionModel>, Seq<char>>(
                m@,
            ),
        },
{
    if fib.lcb_plf_lst == 0 || fib.lcb_plf_lfo == 0 {
        let empty: Vec<NumberingDefinition> = Vec::new();
        assert(crate::ir::definitions_view(empty@) =~= Seq::empty());
        return Ok(empty);
    }
    let table_len = table_stream.len();
    let plf_lst = checked_range(table_stream, fib.fc_plf_lst, fib.lcb_plf_lst, "PlfLst")?;
    let list_count = match le_u16(plf_lst, 0) {
        Some(v) => v as usize,
        None => {
            return Err(truncated_message("PlfLst.cLst"));
        },
    };
    let lst_len = plf_lst.len();
    if lst_len < 2 || (lst_len - 2) / 28 < list_count {
        return Err(owned("PlfLst.rgLstf is truncated"));
    }
    assert(fib.fc_plf_lst + fib.lcb_plf_lst <= table_len);
    let level_cursor = fib.fc_plf_lst as usize + fib.lcb_plf_lst as usize;
    let (templates, _) = parse_templates(table_stream, plf_lst, level_cursor, list_count)?;
    parse_instances(table_stream, fib, &templates)
}

} // verus!
