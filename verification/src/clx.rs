//! The piece table (CLX / PlcPcd) and the reconstruction of story text from it.
use vstd::prelude::*;
use crate::bytes::{fits, i32_at, le_u16, le_u32, slice_range, to_i32, u16_at, u32_at, u32_from};
use crate::fib::{DocError, DocErrorModel};
use crate::ir::{story_total, StoryCounts};
use crate::sprm::{truncated_message, truncated_text};
use crate::strings::{decimal, owned, push_decimal};

verus! {

/// One piece of the piece table: a CP interval and the encoded file position of its text.
#[derive(Debug, Clone, Copy, PartialEq, Eq, Structural)]
pub struct Piece {
    pub cp_start: u32,
    pub cp_end: u32,
    pub raw_fc: u32,
}

/// The piece stores 8-bit (compressed) text.
pub open spec fn is_compressed(raw: u32) -> bool {
    raw & 0x4000_0000 != 0
}

/// The encoded file position with the flag bits removed.
pub open spec fn encoded_fc(raw: u32) -> u32 {
    raw & 0x3FFF_FFFF
}

/// File position of the piece's first character.
pub open spec fn piece_fc(raw: u32) -> u32 {
    if is_compressed(raw) {
        (encoded_fc(raw) / 2) as u32
    } else {
        encoded_fc(raw)
    }
}

/// Bytes per character in the piece.
pub open spec fn bytes_per_cp(raw: u32) -> u32 {
    if is_compressed(raw) {
        1
    } else {
        2
    }
}

pub const MAX_PIECES: usize = 1_000_000;

/// A message with a number between two fixed texts.
pub open spec fn numbered_text(prefix: Seq<char>, n: nat, suffix: Seq<char>) -> Seq<char> {
    prefix + decimal(n) + suffix
}

/// Where the Pcdt starts after skipping the Prc records from `cursor`, or why a Prc is
/// malformed.
pub open spec fn prc_end(clx: Seq<u8>, cursor: int) -> Result<int, Seq<char>>
    decreases clx.len() - cursor,
{
    if 0 <= cursor < clx.len() && clx[cursor] == 1 {
        if !fits(clx, cursor + 1, 2) {
            Err(truncated_text("Prc.cbGrpprl"@))
        } else if u16_at(clx, cursor + 1) > 0x3FA2 {
            Err(numbered_text("Prc.grpprl is too large ("@, u16_at(clx, cursor + 1) as nat, ")"@))
        } else if cursor + 3 + u16_at(clx, cursor + 1) > clx.len() {
            Err("truncated Prc"@)
        } else {
            prc_end(clx, cursor + 3 + u16_at(clx, cursor + 1))
        }
    } else {
        Ok(cursor)
    }
}

/// CP `i` of a PlcPcd.
pub open spec fn plc_cp(plc: Seq<u8>, i: int) -> i32 {
    i32_at(plc, 4 * i)
}

/// The CP array of a PlcPcd with `n` pieces is non-negative and strictly increasing.
pub open spec fn cps_valid(plc: Seq<u8>, n: int) -> bool {
    &&& forall|i: int| 0 <= i <= n ==> #[trigger] plc_cp(plc, i) >= 0
    &&& forall|i: int| 0 < i <= n ==> #[trigger] plc_cp(plc, i) > plc_cp(plc, i - 1)
}

/// The first fault in CPs `i..=n` of a PlcPcd, scanning upwards, as its message.
pub open spec fn cps_error_from(plc: Seq<u8>, n: int, i: int) -> Option<Seq<char>>
    decreases n + 1 - i,
{
    if i < 0 || i > n {
        None
    } else if plc_cp(plc, i) < 0 {
        Some(numbered_text("negative CP at index "@, i as nat, ""@))
    } else if i > 0 && plc_cp(plc, i) <= plc_cp(plc, i - 1) {
        Some(numbered_text("CP array is not strictly increasing at index "@, i as nat, ""@))
    } else {
        cps_error_from(plc, n, i + 1)
    }
}

/// The CP that must end the piece table, or why it cannot be computed.
pub open spec fn expected_last_cp(stories: StoryCounts) -> Result<u32, Seq<char>> {
    match story_total(stories) {
        None => Err("story character total overflowed"@),
        Some(total) => if total != stories.main {
            if total < u32::MAX {
                Ok((total + 1) as u32)
            } else {
                Err("piece-table CP total overflowed"@)
            }
        } else {
            Ok(stories.main)
        },
    }
}

/// The message when the last CP is not the expected one.
pub open spec fn last_cp_text(last: nat, expected: nat) -> Seq<char> {
    "last CP is "@ + decimal(last) + ", expected "@ + decimal(expected)
}

/// Piece `i` of a PlcPcd with `n` pieces.
pub open spec fn plc_piece(plc: Seq<u8>, n: int, i: int) -> Piece {
    Piece {
        cp_start: plc_cp(plc, i) as u32,
        cp_end: plc_cp(plc, i + 1) as u32,
        raw_fc: u32_at(plc, 4 * (n + 1) + 8 * i + 2),
    }
}

/// The result of parsing a CLX.
pub open spec fn clx_pieces(clx: Seq<u8>, stories: StoryCounts) -> Result<Seq<Piece>, DocErrorModel> {
    match prc_end(clx, 0) {
        Err(m) => Err(DocErrorModel::MalformedClx(m)),
        Ok(c) => if !(c < clx.len() && clx[c] == 2) {
            Err(DocErrorModel::MalformedClx("missing Pcdt marker 0x02"@))
        } else if !fits(clx, c + 1, 4) {
            Err(DocErrorModel::MalformedClx(truncated_text("Pcdt.lcb"@)))
        } else {
            let lcb = u32_at(clx, c + 1) as int;
            let ps = c + 5;
            if ps + lcb > clx.len() {
                Err(DocErrorModel::MalformedClx("truncated PlcPcd"@))
            } else if lcb < 4 || (lcb - 4) % 12 != 0 {
                Err(
                    DocErrorModel::MalformedClx(
                        numbered_text(
                            "PlcPcd length "@,
                            lcb as nat,
                            " does not encode whole Pcd records"@,
                        ),
                    ),
                )
            } else if (lcb - 4) / 12 == 0 {
                Err(DocErrorModel::MalformedClx("empty piece table"@))
            } else if (lcb - 4) / 12 > 1_000_000 {
                Err(
                    DocErrorModel::TooManyPieces {
                        actual: ((lcb - 4) / 12) as usize,
                        limit: 1_000_000,
                    },
                )
            } else {
                let n = (lcb - 4) / 12;
                let plc = clx.subrange(ps, ps + lcb);
                match cps_error_from(plc, n, 0) {
                    Some(m) => Err(DocErrorModel::MalformedClx(m)),
                    None => match expected_last_cp(stories) {
                        Err(m) => Err(DocErrorModel::MalformedClx(m)),
                        Ok(last) => if plc_cp(plc, n) != last {
                            Err(
                                DocErrorModel::MalformedClx(
                                    last_cp_text(plc_cp(plc, n) as nat, last as nat),
                                ),
                            )
                        } else {
                            Ok(Seq::new(n as nat, |i: int| plc_piece(plc, n, i)))
                        },
                    },
                }
            }
        },
    }
}

/// Pieces are non-empty, contiguous and in increasing CP order.
pub open spec fn pieces_wf(pieces: Seq<Piece>) -> bool {
    &&& forall|i: int| 0 <= i < pieces.len() ==> #[trigger] pieces[i].cp_start
        < pieces[i].cp_end
    &&& forall|i: int| 0 < i < pieces.len() ==> #[trigger] pieces[i].cp_start == pieces[i
        - 1].cp_end
}

fn malformed(text: &str) -> (r: DocError)
    ensures
        r@ == DocErrorModel::MalformedClx(text@),
{
    DocError::MalformedClx(owned(text))
}

/// A malformed-CLX error whose message has a number between two fixed texts.
pub(crate) fn malformed_with(prefix: &str, n: u64, suffix: &str) -> (r: DocError)
    ensures
        r@ == DocErrorModel::MalformedClx(numbered_text(prefix@, n as nat, suffix@)),
{
    let mut text = owned(prefix);
    push_decimal(&mut text, n);
    text.push_str(suffix);
    DocError::MalformedClx(text)
}

/// A malformed-CLX error naming the field that the data ended in.
fn truncated(field: &str) -> (r: DocError)
    ensures
        r@ == DocErrorModel::MalformedClx(truncated_text(field@)),
{
    DocError::MalformedClx(truncated_message(field))
}

fn read_u16_slice(data: &[u8], offset: usize, field: &str) -> (r: Result<u16, DocError>)
    ensures
        fits(data@, offset as int, 2) ==> r == Ok::<u16, DocError>(u16_at(data@, offset as int)),
        !fits(data@, offset as int, 2) ==> (r matches Err(e) && e@ == DocErrorModel::MalformedClx(
            truncated_text(field@),
        )),
{
    match le_u16(data, offset) {
        Some(v) => Ok(v),
        None => Err(truncated(field)),
    }
}

fn read_u32_slice(data: &[u8], offset: usize, field: &str) -> (r: Result<u32, DocError>)
    ensures
        fits(data@, offset as int, 4) ==> r == Ok::<u32, DocError>(u32_at(data@, offset as int)),
        !fits(data@, offset as int, 4) ==> (r matches Err(e) && e@ == DocErrorModel::MalformedClx(
            truncated_text(field@),
        )),
{
    match le_u32(data, offset) {
        Some(v) => Ok(v),
        None => Err(truncated(field)),
    }
}

proof fn lemma_prc_end_bounds(clx: Seq<u8>, cursor: int)
    requires
        0 <= cursor,
    ensures
        prc_end(clx, cursor) matches Ok(c) ==> cursor <= c && (c >= clx.len() || clx[c] != 1),
    decreases clx.len() - cursor,
{
    if 0 <= cursor < clx.len() && clx[cursor] == 1 {
        if fits(clx, cursor + 1, 2) && u16_at(clx, cursor + 1) <= 0x3FA2 && cursor + 3 + u16_at(
            clx,
            cursor + 1,
        ) <= clx.len() {
            lemma_prc_end_bounds(clx, cursor + 3 + u16_at(clx, cursor + 1));
        }
    }
}

/// Skips the Prc records at the start of a CLX.
fn skip_prcs(clx: &[u8]) -> (r: Result<usize, DocError>)
    ensures
        match r {
            Ok(c) => prc_end(clx@, 0) == Ok::<int, Seq<char>>(c as int),
            Err(e) => prc_end(clx@, 0) matches Err(m) && e@ == DocErrorModel::MalformedClx(m),
        },
{
    let ghost s = clx@;
    let mut cursor: usize = 0;
    while cursor < clx.len() && clx[cursor] == 0x01
        invariant
            cursor <= clx.len(),
            prc_end(s, 0) == prc_end(s, cursor as int),
            s == clx@,
        decreases clx.len() - cursor,
    {
        let len_offset = cursor + 1;
        let grpprl_len = read_u16_slice(clx, len_offset, "Prc.cbGrpprl")?;
        if grpprl_len > 0x3FA2 {
            return Err(malformed_with("Prc.grpprl is too large (", grpprl_len as u64, ")"));
        }
        let glen = grpprl_len as usize;
        if clx.len() - len_offset < 2 || clx.len() - len_offset - 2 < glen {
            return Err(malformed("truncated Prc"));
        }
        cursor = len_offset + 2 + glen;
    }
    Ok(cursor)
}

/// Reads the `n + 1` CPs of a PlcPcd, checking that they are non-negative and increasing.
fn read_cps(plc: &[u8], n: usize) -> (r: Result<Vec<u32>, DocError>)
    requires
        plc.len() == 4 + 12 * n,
        n <= MAX_PIECES,
    ensures
        match r {
            Ok(cps) => cps_valid(plc@, n as int) && cps_error_from(plc@, n as int, 0) is None
                && cps@.len() == n + 1 && forall|i: int|
                0 <= i <= n ==> #[trigger] cps@[i] == plc_cp(plc@, i) as u32,
            Err(e) => cps_error_from(plc@, n as int, 0) matches Some(m) && e@
                == DocErrorModel::MalformedClx(m),
        },
{
    let ghost p = plc@;
    let mut cps: Vec<u32> = Vec::new();
    let mut index: usize = 0;
    while index <= n
        invariant
            index <= n + 1,
            n <= MAX_PIECES,
            plc.len() == 4 + 12 * n,
            plc@ == p,
            cps@.len() == index,
            forall|i: int| 0 <= i < index ==> #[trigger] cps@[i] == plc_cp(p, i) as u32,
            forall|i: int| 0 <= i < index ==> #[trigger] plc_cp(p, i) >= 0,
            forall|i: int| 0 < i < index ==> #[trigger] plc_cp(p, i) > plc_cp(p, i - 1),
            cps_error_from(p, n as int, 0) == cps_error_from(p, n as int, index as int),
        decreases n + 1 - index,
    {
        let raw = match le_u32(plc, index * 4) {
            Some(v) => v,
            None => {
                return Err(truncated("PlcPcd.aCP"));
            },
        };
        let cp = to_i32(raw);
        assert(cp == plc_cp(p, index as int));
        if cp < 0 {
            return Err(malformed_with("negative CP at index ", index as u64, ""));
        }
        let cpu = cp as u32;
        if index > 0 && cpu <= cps[index - 1] {
            assert(plc_cp(p, index as int) <= plc_cp(p, index - 1));
            return Err(
                malformed_with("CP array is not strictly increasing at index ", index as u64, ""),
            );
        }
        cps.push(cpu);
        index = index + 1;
    }
    Ok(cps)
}

/// Builds the pieces of a PlcPcd whose CPs were already read.
fn build_pieces(plc: &[u8], n: usize, cps: &Vec<u32>) -> (r: Vec<Piece>)
    requires
        plc.len() == 4 + 12 * n,
        n <= MAX_PIECES,
        cps_valid(plc@, n as int),
        cps@.len() == n + 1,
        forall|i: int| 0 <= i <= n ==> #[trigger] cps@[i] == plc_cp(plc@, i) as u32,
    ensures
        r@ == Seq::new(n as nat, |i: int| plc_piece(plc@, n as int, i)),
        pieces_wf(r@),
{
    let ghost p = plc@;
    let cp_bytes = (n + 1) * 4;
    let mut pieces: Vec<Piece> = Vec::new();
    let mut k: usize = 0;
    while k < n
        invariant
            k <= n,
            n <= MAX_PIECES,
            plc.len() == 4 + 12 * n,
            cp_bytes == (n + 1) * 4,
            plc@ == p,
            cps@.len() == n + 1,
            forall|i: int| 0 <= i <= n ==> #[trigger] cps@[i] == plc_cp(p, i) as u32,
            pieces@.len() == k,
            forall|i: int| 0 <= i < k ==> #[trigger] pieces@[i] == plc_piece(p, n as int, i),
        decreases n - k,
    {
        let raw_fc = u32_from(slice_range(plc, cp_bytes + k * 8 + 2, cp_bytes + k * 8 + 6));
        pieces.push(Piece { cp_start: cps[k], cp_end: cps[k + 1], raw_fc });
        k = k + 1;
    }
    assert(pieces@ =~= Seq::new(n as nat, |i: int| plc_piece(p, n as int, i)));
    assert(pieces_wf(pieces@)) by {
        assert forall|i: int| 0 <= i < pieces@.len() implies #[trigger] pieces@[i].cp_start
            < pieces@[i].cp_end by {
            assert(plc_cp(p, i + 1) > plc_cp(p, i));
            assert(plc_cp(p, i) >= 0);
        }
        assert forall|i: int| 0 < i < pieces@.len() implies #[trigger] pieces@[i].cp_start
            == pieces@[i - 1].cp_end by {
        }
    }
    pieces
}

/// Parses a CLX into its pieces.
pub fn parse_clx(clx: &[u8], stories: StoryCounts) -> (r: Result<Vec<Piece>, DocError>)
    ensures
        match r {
            Ok(p) => clx_pieces(clx@, stories) == Ok::<Seq<Piece>, DocErrorModel>(p@),
            Err(e) => clx_pieces(clx@, stories) == Err::<Seq<Piece>, DocErrorModel>(e@),
        },
        r matches Ok(p) ==> pieces_wf(p@) && p@.len() > 0 && p@.len() <= MAX_PIECES,
{
    let ghost s = clx@;
    let cursor = skip_prcs(clx)?;
    if !(cursor < clx.len() && clx[cursor] == 0x02) {
        return Err(malformed("missing Pcdt marker 0x02"));
    }
    let lcb_raw = read_u32_slice(clx, cursor + 1, "Pcdt.lcb")?;
    let lcb = lcb_raw as usize;
    let plc_start = cursor + 5;
    if clx.len() - plc_start < lcb {
        return Err(malformed("truncated PlcPcd"));
    }
    let plc_end = plc_start + lcb;
    if lcb < 4 || (lcb - 4) % 12 != 0 {
        return Err(
            malformed_with("PlcPcd length ", lcb as u64, " does not encode whole Pcd records"),
        );
    }
    let piece_count = (lcb - 4) / 12;
    if piece_count == 0 {
        return Err(malformed("empty piece table"));
    }
    if piece_count > MAX_PIECES {
        return Err(DocError::TooManyPieces { actual: piece_count, limit: MAX_PIECES });
    }
    let plc = slice_range(clx, plc_start, plc_end);
    assert(plc@ == s.subrange(plc_start as int, plc_start + lcb_raw));
    let cps = read_cps(plc, piece_count)?;
    let total_story_cp = match stories.total() {
        Some(t) => t,
        None => {
            return Err(malformed("story character total overflowed"));
        },
    };
    let has_subdocuments = total_story_cp != stories.main;
    let expected_last = if has_subdocuments {
        match total_story_cp.checked_add(1) {
            Some(v) => v,
            None => {
                return Err(malformed("piece-table CP total overflowed"));
            },
        }
    } else {
        stories.main
    };
    assert(expected_last_cp(stories) == Ok::<u32, Seq<char>>(expected_last));
    if cps[piece_count] != expected_last {
        let mut text = owned("last CP is ");
        push_decimal(&mut text, cps[piece_count] as u64);
        text.push_str(", expected ");
        push_decimal(&mut text, expected_last as u64);
        return Err(DocError::MalformedClx(text));
    }
    let pieces = build_pieces(plc, piece_count, &cps);
    Ok(pieces)
}

} // verus!
