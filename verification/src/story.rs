//! Story text: decoding the characters that the piece table points at.
use vstd::prelude::*;
use crate::bytes::{u16_at};
use crate::clx::{encoded_fc, is_compressed, malformed_with, numbered_text, Piece};
use crate::fib::{DocError, DocErrorModel};
use crate::strings::{decimal, owned, push_decimal};

verus! {

/// Windows-1252 reading of a byte stored in a compressed piece.
pub open spec fn ansi_char(b: u8) -> char {
    if b == 0x80 {
        '\u{20AC}'
    } else if b == 0x82 {
        '\u{201A}'
    } else if b == 0x83 {
        '\u{0192}'
    } else if b == 0x84 {
        '\u{201E}'
    } else if b == 0x85 {
        '\u{2026}'
    } else if b == 0x86 {
        '\u{2020}'
    } else if b == 0x87 {
        '\u{2021}'
    } else if b == 0x88 {
        '\u{02C6}'
    } else if b == 0x89 {
        '\u{2030}'
    } else if b == 0x8A {
        '\u{0160}'
    } else if b == 0x8B {
        '\u{2039}'
    } else if b == 0x8C {
        '\u{0152}'
    } else if b == 0x8E {
        '\u{017D}'
    } else if b == 0x91 {
        '\u{2018}'
    } else if b == 0x92 {
        '\u{2019}'
    } else if b == 0x93 {
        '\u{201C}'
    } else if b == 0x94 {
        '\u{201D}'
    } else if b == 0x95 {
        '\u{2022}'
    } else if b == 0x96 {
        '\u{2013}'
    } else if b == 0x97 {
        '\u{2014}'
    } else if b == 0x98 {
        '\u{02DC}'
    } else if b == 0x99 {
        '\u{2122}'
    } else if b == 0x9A {
        '\u{0161}'
    } else if b == 0x9B {
        '\u{203A}'
    } else if b == 0x9C {
        '\u{0153}'
    } else if b == 0x9E {
        '\u{017E}'
    } else if b == 0x9F {
        '\u{0178}'
    } else {
        b as char
    }
}

/// Decodes one byte of a compressed piece.
pub fn decode_ansi_byte(byte: u8) -> (c: char)
    ensures
        c == ansi_char(byte),
{
    match byte {
        0x80 => '\u{20AC}',
        0x82 => '\u{201A}',
        0x83 => '\u{0192}',
        0x84 => '\u{201E}',
        0x85 => '\u{2026}',
        0x86 => '\u{2020}',
        0x87 => '\u{2021}',
        0x88 => '\u{02C6}',
        0x89 => '\u{2030}',
        0x8A => '\u{0160}',
        0x8B => '\u{2039}',
        0x8C => '\u{0152}',
        0x8E => '\u{017D}',
        0x91 => '\u{2018}',
        0x92 => '\u{2019}',
        0x93 => '\u{201C}',
        0x94 => '\u{201D}',
        0x95 => '\u{2022}',
        0x96 => '\u{2013}',
        0x97 => '\u{2014}',
        0x98 => '\u{02DC}',
        0x99 => '\u{2122}',
        0x9A => '\u{0161}',
        0x9B => '\u{203A}',
        0x9C => '\u{0153}',
        0x9E => '\u{017E}',
        0x9F => '\u{0178}',
        other => other as char,
    }
}

/// A code unit that is not a surrogate.
pub open spec fn is_plain_unit(u: u16) -> bool {
    u < 0xD800 || u > 0xDFFF
}

/// A high (leading) surrogate.
pub open spec fn is_high_surrogate(u: u16) -> bool {
    0xD800 <= u && u <= 0xDBFF
}

/// A low (trailing) surrogate.
pub open spec fn is_low_surrogate(u: u16) -> bool {
    0xDC00 <= u && u <= 0xDFFF
}

/// The scalar value encoded by a surrogate pair.
pub open spec fn pair_scalar(hi: u16, lo: u16) -> int {
    0x10000 + (hi - 0xD800) * 0x400 + (lo - 0xDC00)
}

/// Strict UTF-16 decoding: `None` when an unpaired surrogate occurs.
pub open spec fn utf16_decode(u: Seq<u16>) -> Option<Seq<char>>
    decreases u.len(),
{
    if u.len() == 0 {
        Some(Seq::empty())
    } else if is_plain_unit(u[0]) {
        match utf16_decode(u.drop_first()) {
            Some(r) => Some(seq![u[0] as char] + r),
            None => None,
        }
    } else if is_high_surrogate(u[0]) && u.len() >= 2 && is_low_surrogate(u[1]) {
        match utf16_decode(u.subrange(2, u.len() as int)) {
            Some(r) => Some(seq![pair_scalar(u[0], u[1]) as char] + r),
            None => None,
        }
    } else {
        None
    }
}

/// The `n` little-endian code units stored from byte `start`.
pub open spec fn le_units(s: Seq<u8>, start: int, n: int) -> Seq<u16> {
    Seq::new(n as nat, |k: int| u16_at(s, start + 2 * k))
}

/// The `n` Windows-1252 characters stored from byte `start`.
pub open spec fn ansi_chars(s: Seq<u8>, start: int, n: int) -> Seq<char> {
    Seq::new(n as nat, |k: int| ansi_char(s[start + k]))
}

/// Appends the characters of `n` compressed bytes.
fn push_ansi(out: &mut Vec<char>, data: &[u8], start: usize, n: usize)
    requires
        start + n <= data.len(),
    ensures
        final(out)@ == old(out)@ + ansi_chars(data@, start as int, n as int),
{
    let mut k: usize = 0;
    while k < n
        invariant
            k <= n,
            start + n <= data.len(),
            out@ == old(out)@ + ansi_chars(data@, start as int, k as int),
        decreases n - k,
    {
        out.push(decode_ansi_byte(data[start + k]));
        k = k + 1;
        assert(out@ =~= old(out)@ + ansi_chars(data@, start as int, k as int));
    }
}

/// Appends the strict UTF-16 decoding of `n` code units; `false` when they do not decode.
fn push_utf16(out: &mut Vec<char>, data: &[u8], start: usize, n: usize) -> (ok: bool)
    requires
        start + 2 * n <= data.len(),
    ensures
        ok == utf16_decode(le_units(data@, start as int, n as int)) is Some,
        ok ==> final(out)@ == old(out)@ + utf16_decode(
            le_units(data@, start as int, n as int),
        ).unwrap(),
{
    let ghost units = le_units(data@, start as int, n as int);
    let ghost mut acc: Seq<char> = Seq::empty();
    let mut i: usize = 0;
    assert(units.subrange(0, n as int) =~= units);
    while i < n
        invariant
            i <= n,
            start + 2 * n <= data.len(),
            units == le_units(data@, start as int, n as int),
            out@ == old(out)@ + acc,
            utf16_decode(units) == match utf16_decode(units.subrange(i as int, n as int)) {
                Some(r) => Some(acc + r),
                None => None::<Seq<char>>,
            },
        decreases n - i,
    {
        let ghost rest = units.subrange(i as int, n as int);
        let u: u16 = data[start + 2 * i] as u16 + (data[start + 2 * i + 1] as u16) * 256;
        assert(u == rest[0]);
        if u < 0xD800 || u > 0xDFFF {
            let c = char::from_u32(u as u32);
            match c {
                Some(ch) => {
                    out.push(ch);
                    proof {
                        assert(rest.drop_first() =~= units.subrange(i + 1, n as int));
                        assert(ch == u as char);
                        let old_acc = acc;
                        acc = acc.push(ch);
                        match utf16_decode(rest.drop_first()) {
                            Some(r) => {
                                assert(old_acc + (seq![ch] + r) =~= acc + r);
                            },
                            None => {},
                        }
                    }
                    i = i + 1;
                },
                None => {
                    return false;
                },
            }
        } else if u <= 0xDBFF && i + 1 < n {
            let v: u16 = data[start + 2 * i + 2] as u16 + (data[start + 2 * i + 3] as u16) * 256;
            assert(v == rest[1]);
            if v >= 0xDC00 && v <= 0xDFFF {
                let code: u32 = 0x10000u32 + ((u - 0xD800) as u32) * 0x400 + ((v - 0xDC00) as u32);
                let c = char::from_u32(code);
                match c {
                    Some(ch) => {
                        out.push(ch);
                        proof {
                            assert(rest.subrange(2, rest.len() as int) =~= units.subrange(
                                i + 2,
                                n as int,
                            ));
                            assert(ch == pair_scalar(u, v) as char);
                            let old_acc = acc;
                            acc = acc.push(ch);
                            match utf16_decode(rest.subrange(2, rest.len() as int)) {
                                Some(r) => {
                                    assert(old_acc + (seq![ch] + r) =~= acc + r);
                                },
                                None => {},
                            }
                        }
                        i = i + 2;
                    },
                    None => {
                        return false;
                    },
                }
            } else {
                return false;
            }
        } else {
            return false;
        }
    }
    proof {
        assert(units.subrange(n as int, n as int) =~= Seq::<u16>::empty());
        assert(acc + Seq::<char>::empty() =~= acc);
    }
    true
}

/// Text of one piece, clipped to the main story `[0, main)`.
pub open spec fn main_segment(w: Seq<u8>, p: Piece, index: int, main: u32) -> Result<
    Seq<char>,
    DocErrorModel,
> {
    let cs = if p.cp_start < main {
        p.cp_start
    } else {
        main
    };
    let ce = if p.cp_end < main {
        p.cp_end
    } else {
        main
    };
    let oob = DocErrorModel::PieceOutOfBounds { piece: index as usize };
    if cs >= ce {
        Ok(Seq::empty())
    } else {
        let skip = cs - p.cp_start;
        let take = ce - cs;
        let fc = encoded_fc(p.raw_fc);
        if p.raw_fc & 0x8000_0000 != 0 {
            Err(
                DocErrorModel::MalformedClx(
                    numbered_text("Pcd "@, index as nat, " has reserved FcCompressed bit set"@),
                ),
            )
        } else if is_compressed(p.raw_fc) {
            if fc % 2 != 0 {
                Err(
                    DocErrorModel::MalformedClx(
                        numbered_text("compressed Pcd "@, index as nat, " has an odd encoded FC"@),
                    ),
                )
            } else if fc / 2 + skip > u32::MAX {
                Err(oob)
            } else if fc / 2 + skip + take > w.len() {
                Err(oob)
            } else {
                Ok(ansi_chars(w, fc / 2 + skip, take))
            }
        } else {
            if 2 * skip > u32::MAX || fc + 2 * skip > u32::MAX || 2 * take > u32::MAX {
                Err(oob)
            } else if fc + 2 * skip + 2 * take > w.len() {
                Err(oob)
            } else {
                match utf16_decode(le_units(w, fc + 2 * skip, take)) {
                    Some(c) => Ok(c),
                    None => Err(DocErrorModel::InvalidUtf16 { piece: index as usize }),
                }
            }
        }
    }
}

/// Main-story text of the first `n` pieces, or the first error among them.
pub open spec fn main_text_prefix(w: Seq<u8>, pieces: Seq<Piece>, main: u32, n: int) -> Result<
    Seq<char>,
    DocErrorModel,
>
    decreases n,
{
    if n <= 0 {
        Ok(Seq::empty())
    } else {
        match main_text_prefix(w, pieces, main, n - 1) {
            Err(e) => Err(e),
            Ok(acc) => match main_segment(w, pieces[n - 1], n - 1, main) {
                Err(e) => Err(e),
                Ok(seg) => Ok(acc + seg),
            },
        }
    }
}

/// The main-story text that the piece table describes.
pub open spec fn main_text(w: Seq<u8>, pieces: Seq<Piece>, main: u32) -> Result<
    Seq<char>,
    DocErrorModel,
> {
    match main_text_prefix(w, pieces, main, pieces.len() as int) {
        Err(e) => Err(e),
        Ok(t) => if t.len() != main {
            Err(
                DocErrorModel::MalformedClx(
                    "piece table reconstructed "@ + decimal(t.len()) + " main-story CPs, expected "@
                        + decimal(main as nat),
                ),
            )
        } else {
            Ok(t)
        },
    }
}

proof fn lemma_main_prefix_err(w: Seq<u8>, pieces: Seq<Piece>, main: u32, k: int, n: int)
    requires
        0 <= k <= n,
        main_text_prefix(w, pieces, main, k) is Err,
    ensures
        main_text_prefix(w, pieces, main, n) == main_text_prefix(w, pieces, main, k),
    decreases n - k,
{
    if k < n {
        lemma_main_prefix_err(w, pieces, main, k, n - 1);
    }
}

fn out_of_bounds(index: usize) -> (r: DocError)
    ensures
        r@ == (DocErrorModel::PieceOutOfBounds { piece: index }),
{
    DocError::PieceOutOfBounds { piece: index }
}

/// Appends the main-story text of one piece.
fn push_main_segment(
    out: &mut Vec<char>,
    word_document: &[u8],
    piece: Piece,
    index: usize,
    main_cp: u32,
) -> (r: Result<(), DocError>)
    ensures
        match r {
            Ok(_) => main_segment(word_document@, piece, index as int, main_cp) matches Ok(seg)
                && final(out)@ == old(out)@ + seg,
            Err(e) => main_segment(word_document@, piece, index as int, main_cp) == Err::<
                Seq<char>,
                DocErrorModel,
            >(e@),
        },
{
    let cp_start = if piece.cp_start < main_cp {
        piece.cp_start
    } else {
        main_cp
    };
    let cp_end = if piece.cp_end < main_cp {
        piece.cp_end
    } else {
        main_cp
    };
    if cp_start >= cp_end {
        assert(old(out)@ + Seq::<char>::empty() =~= old(out)@);
        return Ok(());
    }
    let skip_cp = cp_start - piece.cp_start;
    let take_cp = cp_end - cp_start;
    let compressed = piece.raw_fc & 0x4000_0000 != 0;
    let fc = piece.raw_fc & 0x3FFF_FFFF;
    if piece.raw_fc & 0x8000_0000 != 0 {
        return Err(malformed_with("Pcd ", index as u64, " has reserved FcCompressed bit set"));
    }
    if compressed {
        if fc % 2 != 0 {
            return Err(malformed_with("compressed Pcd ", index as u64, " has an odd encoded FC"));
        }
        let start = match (fc / 2).checked_add(skip_cp) {
            Some(v) => v as usize,
            None => {
                return Err(out_of_bounds(index));
            },
        };
        let take = take_cp as usize;
        if start > word_document.len() || word_document.len() - start < take {
            return Err(out_of_bounds(index));
        }
        push_ansi(out, word_document, start, take);
        Ok(())
    } else {
        let skip2 = match skip_cp.checked_mul(2) {
            Some(v) => v,
            None => {
                return Err(out_of_bounds(index));
            },
        };
        let start = match fc.checked_add(skip2) {
            Some(v) => v as usize,
            None => {
                return Err(out_of_bounds(index));
            },
        };
        let byte_len = match take_cp.checked_mul(2) {
            Some(v) => v as usize,
            None => {
                return Err(out_of_bounds(index));
            },
        };
        if start > word_document.len() || word_document.len() - start < byte_len {
            return Err(out_of_bounds(index));
        }
        if push_utf16(out, word_document, start, take_cp as usize) {
            Ok(())
        } else {
            Err(DocError::InvalidUtf16 { piece: index })
        }
    }
}

/// Reconstructs the main-story text (CPs `0..main_cp`) from the piece table.
pub fn reconstruct_main_text(word_document: &[u8], pieces: &[Piece], main_cp: u32) -> (r: Result<
    Vec<char>,
    DocError,
>)
    ensures
        match r {
            Ok(t) => main_text(word_document@, pieces@, main_cp) == Ok::<
                Seq<char>,
                DocErrorModel,
            >(t@),
            Err(e) => main_text(word_document@, pieces@, main_cp) == Err::<
                Seq<char>,
                DocErrorModel,
            >(e@),
        },
{
    let mut out: Vec<char> = Vec::new();
    let mut index: usize = 0;
    while index < pieces.len()
        invariant
            index <= pieces.len(),
            main_text_prefix(word_document@, pieces@, main_cp, index as int) == Ok::<
                Seq<char>,
                DocErrorModel,
            >(out@),
        decreases pieces.len() - index,
    {
        match push_main_segment(&mut out, word_document, pieces[index], index, main_cp) {
            Ok(_) => {},
            Err(e) => {
                proof {
                    lemma_main_prefix_err(
                        word_document@,
                        pieces@,
                        main_cp,
                        index + 1,
                        pieces@.len() as int,
                    );
                }
                return Err(e);
            },
        }
        index = index + 1;
    }
    if out.len() != main_cp as usize {
        let mut text = owned("piece table reconstructed ");
        push_decimal(&mut text, out.len() as u64);
        text.push_str(" main-story CPs, expected ");
        push_decimal(&mut text, main_cp as u64);
        return Err(DocError::MalformedClx(text));
    }
    Ok(out)
}

/// The smaller of two CPs.
pub open spec fn cp_min(a: u32, b: u32) -> u32 {
    if a < b {
        a
    } else {
        b
    }
}

/// The larger of two CPs.
pub open spec fn cp_max(a: u32, b: u32) -> u32 {
    if a > b {
        a
    } else {
        b
    }
}

/// `2 * n`, saturated at `u32::MAX`.
pub open spec fn double_sat(n: u32) -> int {
    if 2 * n > u32::MAX {
        u32::MAX as int
    } else {
        2 * n
    }
}

/// `2 * n`, saturated at `u32::MAX`.
fn double_saturating(n: u32) -> (r: u32)
    ensures
        r == double_sat(n),
{
    if n > u32::MAX / 2 {
        u32::MAX
    } else {
        n * 2
    }
}

/// Text of one piece, clipped to the CP range `[lo, hi)`.
pub open spec fn range_segment(w: Seq<u8>, p: Piece, index: int, lo: u32, hi: u32) -> Result<
    Seq<char>,
    DocErrorModel,
> {
    let cs = cp_max(p.cp_start, lo);
    let ce = cp_min(p.cp_end, hi);
    let oob = DocErrorModel::PieceOutOfBounds { piece: index as usize };
    if cs >= ce {
        Ok(Seq::empty())
    } else {
        let skip = cs - p.cp_start;
        let take = ce - cs;
        let fc = encoded_fc(p.raw_fc);
        if is_compressed(p.raw_fc) {
            if fc / 2 + skip > u32::MAX {
                Err(oob)
            } else if fc / 2 + skip + take > w.len() {
                Err(oob)
            } else {
                Ok(ansi_chars(w, fc / 2 + skip, take))
            }
        } else {
            let start = fc + double_sat(skip as u32);
            let blen = double_sat(take as u32);
            if start > u32::MAX {
                Err(oob)
            } else if start + blen > w.len() {
                Err(oob)
            } else {
                match utf16_decode(le_units(w, start, blen / 2)) {
                    Some(c) => Ok(c),
                    None => Err(DocErrorModel::InvalidUtf16 { piece: index as usize }),
                }
            }
        }
    }
}

/// Text of the CP range `[lo, hi)` over the first `n` pieces, or the first error among them.
pub open spec fn range_text_prefix(
    w: Seq<u8>,
    pieces: Seq<Piece>,
    lo: u32,
    hi: u32,
    n: int,
) -> Result<Seq<char>, DocErrorModel>
    decreases n,
{
    if n <= 0 {
        Ok(Seq::empty())
    } else {
        match range_text_prefix(w, pieces, lo, hi, n - 1) {
            Err(e) => Err(e),
            Ok(acc) => match range_segment(w, pieces[n - 1], n - 1, lo, hi) {
                Err(e) => Err(e),
                Ok(seg) => Ok(acc + seg),
            },
        }
    }
}

/// The text that the piece table gives for the CP range `[lo, hi)`.
pub open spec fn range_text(w: Seq<u8>, pieces: Seq<Piece>, lo: u32, hi: u32) -> Result<
    Seq<char>,
    DocErrorModel,
> {
    range_text_prefix(w, pieces, lo, hi, pieces.len() as int)
}

proof fn lemma_range_prefix_err(
    w: Seq<u8>,
    pieces: Seq<Piece>,
    lo: u32,
    hi: u32,
    k: int,
    n: int,
)
    requires
        0 <= k <= n,
        range_text_prefix(w, pieces, lo, hi, k) is Err,
    ensures
        range_text_prefix(w, pieces, lo, hi, n) == range_text_prefix(w, pieces, lo, hi, k),
    decreases n - k,
{
    if k < n {
        lemma_range_prefix_err(w, pieces, lo, hi, k, n - 1);
    }
}

/// Appends the text of one piece clipped to `[range_start, range_end)`.
fn push_range_segment(
    out: &mut Vec<char>,
    word_document: &[u8],
    piece: Piece,
    index: usize,
    range_start: u32,
    range_end: u32,
) -> (r: Result<(), DocError>)
    ensures
        match r {
            Ok(_) => range_segment(word_document@, piece, index as int, range_start, range_end) matches Ok(seg)
                && final(out)@ == old(out)@ + seg,
            Err(e) => range_segment(word_document@, piece, index as int, range_start, range_end)
                == Err::<Seq<char>, DocErrorModel>(e@),
        },
{
    let cp_start = if piece.cp_start > range_start {
        piece.cp_start
    } else {
        range_start
    };
    let cp_end = if piece.cp_end < range_end {
        piece.cp_end
    } else {
        range_end
    };
    if cp_start >= cp_end {
        assert(old(out)@ + Seq::<char>::empty() =~= old(out)@);
        return Ok(());
    }
    let skip_cp = cp_start - piece.cp_start;
    let take_cp = cp_end - cp_start;
    let compressed = piece.raw_fc & 0x4000_0000 != 0;
    let fc = piece.raw_fc & 0x3FFF_FFFF;
    if compressed {
        let start = match (fc / 2).checked_add(skip_cp) {
            Some(v) => v as usize,
            None => {
                return Err(out_of_bounds(index));
            },
        };
        let take = take_cp as usize;
        if start > word_document.len() || word_document.len() - start < take {
            return Err(out_of_bounds(index));
        }
        push_ansi(out, word_document, start, take);
        Ok(())
    } else {
        let start = match fc.checked_add(double_saturating(skip_cp)) {
            Some(v) => v as usize,
            None => {
                return Err(out_of_bounds(index));
            },
        };
        let byte_len = double_saturating(take_cp) as usize;
        if start > word_document.len() || word_document.len() - start < byte_len {
            return Err(out_of_bounds(index));
        }
        if push_utf16(out, word_document, start, byte_len / 2) {
            Ok(())
        } else {
            Err(DocError::InvalidUtf16 { piece: index })
        }
    }
}

/// Reconstructs the text of the CP range `[range_start, range_end)` from the piece table.
pub fn reconstruct_text_range(
    word_document: &[u8],
    pieces: &[Piece],
    range_start: u32,
    range_end: u32,
) -> (r: Result<Vec<char>, DocError>)
    ensures
        match r {
            Ok(t) => range_text(word_document@, pieces@, range_start, range_end) == Ok::<
                Seq<char>,
                DocErrorModel,
            >(t@),
            Err(e) => range_text(word_document@, pieces@, range_start, range_end) == Err::<
                Seq<char>,
                DocErrorModel,
            >(e@),
        },
{
    let mut out: Vec<char> = Vec::new();
    let mut index: usize = 0;
    while index < pieces.len()
        invariant
            index <= pieces.len(),
            range_text_prefix(word_document@, pieces@, range_start, range_end, index as int)
                == Ok::<Seq<char>, DocErrorModel>(out@),
        decreases pieces.len() - index,
    {
        match push_range_segment(&mut out, word_document, pieces[index], index, range_start, range_end) {
            Ok(_) => {},
            Err(e) => {
                proof {
                    lemma_range_prefix_err(
                        word_document@,
                        pieces@,
                        range_start,
                        range_end,
                        index + 1,
                        pieces@.len() as int,
                    );
                }
                return Err(e);
            },
        }
        index = index + 1;
    }
    Ok(out)
}

/// Message text of an error that reading a CP range can give.
pub open spec fn range_error_text(e: DocErrorModel) -> Seq<char> {
    match e {
        DocErrorModel::PieceOutOfBounds { piece } => "piece "@ + decimal(piece as nat)
            + " points outside the WordDocument stream"@,
        DocErrorModel::InvalidUtf16 { piece } => "piece "@ + decimal(piece as nat)
            + " contains invalid UTF-16"@,
        _ => Seq::empty(),
    }
}

/// Reading a CP range fails only with an out-of-bounds piece or invalid UTF-16.
pub proof fn lemma_range_error_kind(w: Seq<u8>, pieces: Seq<Piece>, lo: u32, hi: u32, n: int)
    requires
        range_text_prefix(w, pieces, lo, hi, n) is Err,
    ensures
        range_text_prefix(w, pieces, lo, hi, n)->Err_0 is PieceOutOfBounds
            || range_text_prefix(w, pieces, lo, hi, n)->Err_0 is InvalidUtf16,
    decreases n,
{
    if n > 0 {
        if range_text_prefix(w, pieces, lo, hi, n - 1) is Err {
            lemma_range_error_kind(w, pieces, lo, hi, n - 1);
        }
    }
}

/// The message of a range-reading error.
pub fn range_error_message(e: &DocError) -> (r: String)
    requires
        e@ is PieceOutOfBounds || e@ is InvalidUtf16,
    ensures
        r@ == range_error_text(e@),
{
    e.message()
}

} // verus!
