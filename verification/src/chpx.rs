//! Character formatting from the CHPX FKPs: hidden text, deleted revisions and symbol glyphs.
use vstd::prelude::*;
use crate::bytes::{slice_range, sub_slice, u16_at, u16_from, u32_at, u32_from};
use crate::clx::{bytes_per_cp, piece_fc, Piece};
use crate::fib::Fib;
use crate::formatting::{
    checked_range, fkp_outside_message, fkp_outside_text, fkp_page, outside_text, pn_offset,
    range_model, read_u32_at,
};
use crate::sprm::{operand, parse_prls, prls, prls_in_bounds, Prl};
use crate::strings::{decimal, owned, push_decimal};

verus! {

/// The character properties of one CHPX run that the converter uses.
#[derive(Debug, Clone, Copy, PartialEq, Eq, Structural)]
pub struct ChpxRun {
    pub vanish: bool,
    pub deleted: bool,
    pub symbol: Option<u16>,
    pub fc_start: u32,
    pub fc_end: u32,
}

/// The last value of a one-byte toggle sprm among the first `n` Prls (`false` when absent).
pub open spec fn last_flag(g: Seq<u8>, ps: Seq<Prl>, sprm: u16, n: int) -> bool
    decreases n,
{
    if n <= 0 {
        false
    } else if ps[n - 1].sprm == sprm && operand(g, ps[n - 1]).len() >= 1 {
        operand(g, ps[n - 1])[0] & 1 != 0
    } else {
        last_flag(g, ps, sprm, n - 1)
    }
}

/// The glyph of the last sprmCSymbol among the first `n` Prls.
pub open spec fn last_symbol(g: Seq<u8>, ps: Seq<Prl>, n: int) -> Option<u16>
    decreases n,
{
    if n <= 0 {
        None
    } else if ps[n - 1].sprm == 0x6A09 && operand(g, ps[n - 1]).len() >= 4 {
        Some(u16_at(operand(g, ps[n - 1]), 2))
    } else {
        last_symbol(g, ps, n - 1)
    }
}

/// Run `i` of a CHPX FKP page with `rc` runs: `None` when it has no CHPX; an error when its
/// CHPX is malformed.
pub open spec fn page_run(page: Seq<u8>, rc: int, i: int) -> Result<Option<ChpxRun>, Seq<char>> {
    let co = page[(rc + 1) * 4 + i] * 2;
    if co == 0 {
        Ok(None)
    } else {
        let len = page[co] as int;
        if co + 1 + len > page.len() {
            Err("Chpx.grpprl is outside page"@)
        } else {
            let g = page.subrange(co + 1, co + 1 + len);
            match prls(g) {
                Err(m) => Err(m),
                Ok(ps) => Ok(
                    Some(
                        ChpxRun {
                            vanish: last_flag(g, ps, 0x083C, ps.len() as int),
                            deleted: last_flag(g, ps, 0x0800, ps.len() as int),
                            symbol: last_symbol(g, ps, ps.len() as int),
                            fc_start: u32_at(page, 4 * i),
                            fc_end: u32_at(page, 4 * i + 4),
                        },
                    ),
                ),
            }
        }
    }
}

/// The first `n` runs of a page.
pub open spec fn page_runs_prefix(page: Seq<u8>, rc: int, n: int) -> Result<
    Seq<Option<ChpxRun>>,
    Seq<char>,
>
    decreases n,
{
    if n <= 0 {
        Ok(Seq::empty())
    } else {
        match page_runs_prefix(page, rc, n - 1) {
            Err(m) => Err(m),
            Ok(acc) => match page_run(page, rc, n - 1) {
                Err(m) => Err(m),
                Ok(r) => Ok(acc.push(r)),
            },
        }
    }
}

/// All runs of a CHPX FKP page.
pub open spec fn page_runs(page: Seq<u8>) -> Result<Seq<Option<ChpxRun>>, Seq<char>> {
    let rc = page[511] as int;
    if rc < 1 || rc > 0x65 {
        Err("ChpxFkp has invalid crun "@ + decimal(rc as nat))
    } else {
        page_runs_prefix(page, rc, rc)
    }
}

/// The runs of the first `n` pages listed in PlcBteChpx `plc`.
pub open spec fn plc_runs_prefix(word: Seq<u8>, plc: Seq<u8>, n: int) -> Result<
    Seq<Option<ChpxRun>>,
    Seq<char>,
>
    decreases n,
{
    if n <= 0 {
        Ok(Seq::empty())
    } else {
        match plc_runs_prefix(word, plc, n - 1) {
            Err(m) => Err(m),
            Ok(acc) => {
                let fc_count = (plc.len() - 4) / 8 + 1;
                let pn_raw = u32_at(plc, fc_count * 4 + 4 * (n - 1));
                match fkp_page(word, pn_offset(pn_raw)) {
                    None => Err(fkp_outside_text("ChpxFkp"@, pn_offset(pn_raw))),
                    Some(page) => match page_runs(page) {
                        Err(m) => Err(m),
                        Ok(rs) => Ok(acc + rs),
                    },
                }
            },
        }
    }
}

/// All CHPX runs of the document, in FKP order, or why a structure is malformed.
pub open spec fn chpx_runs_model(word: Seq<u8>, table: Seq<u8>, fc: u32, lcb: u32) -> Result<
    Seq<Option<ChpxRun>>,
    Seq<char>,
> {
    match range_model(table, fc, lcb) {
        None => Err(outside_text("PlcBteChpx"@)),
        Some(plc) => if plc.len() < 12 || (plc.len() - 4) % 8 != 0 {
            Err("invalid PlcBteChpx length "@ + decimal(plc.len()))
        } else {
            plc_runs_prefix(word, plc, (plc.len() - 4) / 8)
        },
    }
}

fn last_flag_exec(g: &[u8], ps: &Vec<Prl>, sprm: u16) -> (r: bool)
    requires
        prls_in_bounds(g@, ps@),
    ensures
        r == last_flag(g@, ps@, sprm, ps@.len() as int),
{
    let mut flag = false;
    let mut k: usize = 0;
    while k < ps.len()
        invariant
            k <= ps@.len(),
            prls_in_bounds(g@, ps@),
            flag == last_flag(g@, ps@, sprm, k as int),
        decreases ps@.len() - k,
    {
        let op = slice_range(g, ps[k].start, ps[k].end);
        if ps[k].sprm == sprm && op.len() >= 1 {
            flag = op[0] & 1 != 0;
        }
        k = k + 1;
    }
    flag
}

fn last_symbol_exec(g: &[u8], ps: &Vec<Prl>) -> (r: Option<u16>)
    requires
        prls_in_bounds(g@, ps@),
    ensures
        r == last_symbol(g@, ps@, ps@.len() as int),
{
    let mut symbol: Option<u16> = None;
    let mut k: usize = 0;
    while k < ps.len()
        invariant
            k <= ps@.len(),
            prls_in_bounds(g@, ps@),
            symbol == last_symbol(g@, ps@, k as int),
        decreases ps@.len() - k,
    {
        let op = slice_range(g, ps[k].start, ps[k].end);
        if ps[k].sprm == 0x6A09 && op.len() >= 4 {
            symbol = Some(u16_from(slice_range(op, 2, 4)));
        }
        k = k + 1;
    }
    symbol
}

proof fn lemma_page_prefix_none(page: Seq<u8>, rc: int, k: int, n: int)
    requires
        0 <= k <= n,
        page_runs_prefix(page, rc, k) is Err,
    ensures
        page_runs_prefix(page, rc, n) == page_runs_prefix(page, rc, k),
    decreases n - k,
{
    if k < n {
        lemma_page_prefix_none(page, rc, k, n - 1);
    }
}

proof fn lemma_plc_prefix_none(word: Seq<u8>, plc: Seq<u8>, k: int, n: int)
    requires
        0 <= k <= n,
        plc_runs_prefix(word, plc, k) is Err,
    ensures
        plc_runs_prefix(word, plc, n) == plc_runs_prefix(word, plc, k),
    decreases n - k,
{
    if k < n {
        lemma_plc_prefix_none(word, plc, k, n - 1);
    }
}

/// Appends the runs of one CHPX FKP page.
fn push_page_runs(page: &[u8], out: &mut Vec<Option<ChpxRun>>) -> (r: Result<(), String>)
    requires
        page@.len() == 512,
    ensures
        match r {
            Ok(_) => page_runs(page@) matches Ok(rs) && final(out)@ == old(out)@ + rs,
            Err(m) => page_runs(page@) == Err::<Seq<Option<ChpxRun>>, Seq<char>>(m@),
        },
{
    let run_count = page[511] as usize;
    if run_count < 1 || run_count > 0x65 {
        let mut m = owned("ChpxFkp has invalid crun ");
        push_decimal(&mut m, run_count as u64);
        return Err(m);
    }
    let rgb_offset = (run_count + 1) * 4;
    let ghost start = out@;
    let mut run_index: usize = 0;
    while run_index < run_count
        invariant
            run_index <= run_count,
            1 <= run_count <= 0x65,
            run_count == page@[511],
            rgb_offset == (run_count + 1) * 4,
            page@.len() == 512,
            page_runs_prefix(page@, run_count as int, run_index as int) matches Ok(acc) && out@
                == start + acc,
        decreases run_count - run_index,
    {
        let ghost acc = page_runs_prefix(page@, run_count as int, run_index as int)->Ok_0;
        let chpx_offset = page[rgb_offset + run_index] as usize * 2;
        if chpx_offset == 0 {
            out.push(None);
        } else {
            let length = page[chpx_offset] as usize;
            let grpprl = match sub_slice(page, chpx_offset + 1, length) {
                Some(g) => g,
                None => {
                    proof {
                        lemma_page_prefix_none(page@, run_count as int, run_index + 1, run_count as int);
                    }
                    return Err(owned("Chpx.grpprl is outside page"));
                },
            };
            let ps = match parse_prls(grpprl) {
                Ok(ps) => ps,
                Err(e) => {
                    proof {
                        lemma_page_prefix_none(page@, run_count as int, run_index + 1, run_count as int);
                    }
                    return Err(e);
                },
            };
            let vanish = last_flag_exec(grpprl, &ps, 0x083C);
            let deleted = last_flag_exec(grpprl, &ps, 0x0800);
            let symbol = last_symbol_exec(grpprl, &ps);
            let fc_start = u32_from(slice_range(page, run_index * 4, run_index * 4 + 4));
            let fc_end = u32_from(slice_range(page, run_index * 4 + 4, run_index * 4 + 8));
            out.push(Some(ChpxRun { vanish, deleted, symbol, fc_start, fc_end }));
        }
        assert(out@ =~= start + acc.push(page_run(page@, run_count as int, run_index as int)->Ok_0));
        run_index = run_index + 1;
    }
    Ok(())
}

/// Collects the CHPX runs listed in PlcBteChpx.
pub fn collect_chpx_runs(word_document: &[u8], table_stream: &[u8], fib: &Fib) -> (r: Result<
    Vec<Option<ChpxRun>>,
    String,
>)
    ensures
        match r {
            Ok(v) => chpx_runs_model(word_document@, table_stream@, fib.fc_plcf_bte_chpx, fib.lcb_plcf_bte_chpx)
                == Ok::<Seq<Option<ChpxRun>>, Seq<char>>(v@),
            Err(m) => chpx_runs_model(word_document@, table_stream@, fib.fc_plcf_bte_chpx, fib.lcb_plcf_bte_chpx)
                == Err::<Seq<Option<ChpxRun>>, Seq<char>>(m@),
        },
{
    let plc = checked_range(table_stream, fib.fc_plcf_bte_chpx, fib.lcb_plcf_bte_chpx, "PlcBteChpx")?;
    if plc.len() < 12 || (plc.len() - 4) % 8 != 0 {
        let mut m = owned("invalid PlcBteChpx length ");
        push_decimal(&mut m, plc.len() as u64);
        return Err(m);
    }
    let page_count = (plc.len() - 4) / 8;
    let fc_count = page_count + 1;
    let page_numbers_offset = fc_count * 4;
    let mut out: Vec<Option<ChpxRun>> = Vec::new();
    let mut page_index: usize = 0;
    while page_index < page_count
        invariant
            page_index <= page_count,
            page_count == (plc@.len() - 4) / 8,
            plc@.len() == 4 + 8 * page_count,
            plc@.len() >= 12,
            (plc@.len() - 4) % 8 == 0,
            fc_count == page_count + 1,
            page_numbers_offset == fc_count * 4,
            range_model(table_stream@, fib.fc_plcf_bte_chpx, fib.lcb_plcf_bte_chpx) == Some(plc@),
            plc_runs_prefix(word_document@, plc@, page_index as int) == Ok::<
                Seq<Option<ChpxRun>>,
                Seq<char>,
            >(out@),
        decreases page_count - page_index,
    {
        assert(page_numbers_offset + page_index * 4 < plc@.len());
        let pn_raw = read_u32_at(plc, page_numbers_offset + page_index * 4, "PnFkpChpx")?;
        let pn = pn_raw & 0x003F_FFFF;
        assert(pn_raw & 0x003F_FFFF <= 0x003F_FFFF) by (bit_vector);
        let page_offset = pn as usize * 512;
        let page = match sub_slice(word_document, page_offset, 512) {
            Some(p) => p,
            None => {
                proof {
                    lemma_plc_prefix_none(word_document@, plc@, page_index + 1, page_count as int);
                }
                return Err(fkp_outside_message("ChpxFkp", page_offset));
            },
        };
        match push_page_runs(page, &mut out) {
            Ok(_) => {},
            Err(e) => {
                proof {
                    lemma_plc_prefix_none(word_document@, plc@, page_index + 1, page_count as int);
                }
                return Err(e);
            },
        }
        page_index = page_index + 1;
    }
    Ok(out)
}

/// The CP interval of piece `p` whose characters lie in `[fc_start, fc_end)`.
pub open spec fn piece_span(p: Piece, fc_start: u32, fc_end: u32) -> Option<(int, int)> {
    let bpc = bytes_per_cp(p.raw_fc) as int;
    let pfc = piece_fc(p.raw_fc) as int;
    let cp_len = if p.cp_end >= p.cp_start {
        p.cp_end - p.cp_start
    } else {
        0
    };
    let len_bytes = if cp_len * bpc > u32::MAX {
        u32::MAX as int
    } else {
        cp_len * bpc
    };
    if pfc + len_bytes > u32::MAX {
        None
    } else {
        let pfe = pfc + len_bytes;
        let start = if fc_start > pfc {
            fc_start as int
        } else {
            pfc
        };
        let end = if fc_end < pfe {
            fc_end as int
        } else {
            pfe
        };
        if start >= end {
            None
        } else {
            let lo = p.cp_start + (start - pfc) / bpc;
            let hi0 = p.cp_start + (end - pfc + bpc - 1) / bpc;
            let hi = if hi0 < p.cp_end {
                hi0
            } else {
                p.cp_end as int
            };
            Some((lo, hi))
        }
    }
}

/// Piece `p` maps CP `cp` into the file range `[fc_start, fc_end)`.
pub open spec fn span_covers(p: Piece, fc_start: u32, fc_end: u32, cp: int) -> bool {
    match piece_span(p, fc_start, fc_end) {
        Some(sp) => sp.0 <= cp < sp.1,
        None => false,
    }
}

/// Some piece maps CP `cp` into the file range `[fc_start, fc_end)`.
pub open spec fn covers(pieces: Seq<Piece>, fc_start: u32, fc_end: u32, cp: int) -> bool {
    exists|i: int| 0 <= i < pieces.len() && #[trigger] span_covers(pieces[i], fc_start, fc_end, cp)
}

/// The CP interval of a piece's overlap with a file range, computed in machine integers.
fn span_of(piece: Piece, fc_start: u32, fc_end: u32) -> (r: Option<(u32, u32)>)
    ensures
        match r {
            Some(sp) => piece_span(piece, fc_start, fc_end) == Some((sp.0 as int, sp.1 as int)),
            None => piece_span(piece, fc_start, fc_end) is None,
        },
{
    if piece.cp_start >= piece.cp_end {
        return None;
    }
    let compressed = piece.raw_fc & 0x4000_0000 != 0;
    let encoded = piece.raw_fc & 0x3FFF_FFFF;
    let pfc: u32 = if compressed {
        encoded / 2
    } else {
        encoded
    };
    let bpc: u32 = if compressed {
        1
    } else {
        2
    };
    let cp_len: u32 = piece.cp_end - piece.cp_start;
    let len_bytes: u32 = if compressed {
        cp_len
    } else if cp_len > 0x7FFF_FFFF {
        u32::MAX
    } else {
        cp_len * 2
    };
    assert(pfc == piece_fc(piece.raw_fc));
    assert(bpc == bytes_per_cp(piece.raw_fc));
    assert(len_bytes as int == if cp_len * bpc > u32::MAX {
        u32::MAX as int
    } else {
        cp_len * bpc
    });
    let pfe = match pfc.checked_add(len_bytes) {
        Some(v) => v,
        None => {
            return None;
        },
    };
    let start = if fc_start > pfc {
        fc_start
    } else {
        pfc
    };
    let end = if fc_end < pfe {
        fc_end
    } else {
        pfe
    };
    if start >= end {
        return None;
    }
    let lo_off = (start - pfc) / bpc;
    let hi_diff = end - pfc;
    let hi_off = hi_diff / bpc + if hi_diff % bpc != 0 {
        1
    } else {
        0
    };
    assert(lo_off < cp_len) by {
        assert(start - pfc < len_bytes);
    }
    assert(hi_off <= cp_len) by {
        assert(hi_diff <= len_bytes);
    }
    assert(hi_off == (end - pfc + bpc - 1) / (bpc as int));
    let lo = piece.cp_start + lo_off;
    let hi0 = piece.cp_start + hi_off;
    let hi = if hi0 < piece.cp_end {
        hi0
    } else {
        piece.cp_end
    };
    Some((lo, hi))
}

/// Marks the characters whose file positions lie in `[fc_start, fc_end)`.
pub fn mark_character_fc_range(pieces: &[Piece], fc_start: u32, fc_end: u32, marked: &mut Vec<bool>)
    ensures
        final(marked)@.len() == old(marked)@.len(),
        forall|cp: int| 0 <= cp < old(marked)@.len() ==> #[trigger] final(marked)@[cp] == (old(
            marked,
        )@[cp] || covers(pieces@, fc_start, fc_end, cp)),
{
    let mut i: usize = 0;
    while i < pieces.len()
        invariant
            i <= pieces@.len(),
            marked@.len() == old(marked)@.len(),
            forall|cp: int| 0 <= cp < old(marked)@.len() ==> #[trigger] marked@[cp] == (old(
                marked,
            )@[cp] || exists|j: int|
                0 <= j < i && #[trigger] span_covers(pieces@[j], fc_start, fc_end, cp)),
        decreases pieces@.len() - i,
    {
        let ghost before = marked@;
        let piece = pieces[i];
        match span_of(piece, fc_start, fc_end) {
            None => {},
            Some((lo, hi)) => {
                let mut cp = lo;
                while cp < hi
                    invariant
                        lo <= cp <= hi || (hi <= lo && cp == lo),
                        marked@.len() == before.len(),
                        forall|k: int| 0 <= k < before.len() ==> #[trigger] marked@[k] == (before[k]
                            || (lo <= k < cp)),
                    decreases hi - cp,
                {
                    if (cp as usize) < marked.len() {
                        marked.set(cp as usize, true);
                    }
                    cp = cp + 1;
                }
            },
        }
        assert forall|k: int| 0 <= k < old(marked)@.len() implies #[trigger] marked@[k] == (old(
            marked,
        )@[k] || exists|j: int| 0 <= j < i + 1 && #[trigger] span_covers(pieces@[j], fc_start, fc_end, k)) by {
            if span_covers(pieces@[i as int], fc_start, fc_end, k) {
                assert(0 <= i < i + 1);
            }
            if exists|j: int| 0 <= j < i + 1 && #[trigger] span_covers(pieces@[j], fc_start, fc_end, k) {
                let j = choose|j: int| 0 <= j < i + 1 && #[trigger] span_covers(pieces@[j], fc_start, fc_end, k);
                if j < i {
                    assert(exists|j2: int| 0 <= j2 < i && #[trigger] span_covers(pieces@[j2], fc_start, fc_end, k));
                }
            }
        }
        i = i + 1;
    }
}

/// Records `symbol` for the characters whose file positions lie in `[fc_start, fc_end)`.
pub fn mark_symbol_fc_range(
    pieces: &[Piece],
    fc_start: u32,
    fc_end: u32,
    symbol: u16,
    symbols: &mut Vec<Option<u16>>,
)
    ensures
        final(symbols)@.len() == old(symbols)@.len(),
        forall|cp: int| 0 <= cp < old(symbols)@.len() ==> #[trigger] final(symbols)@[cp] == if covers(
            pieces@,
            fc_start,
            fc_end,
            cp,
        ) {
            Some(symbol)
        } else {
            old(symbols)@[cp]
        },
{
    let mut i: usize = 0;
    while i < pieces.len()
        invariant
            i <= pieces@.len(),
            symbols@.len() == old(symbols)@.len(),
            forall|cp: int| 0 <= cp < old(symbols)@.len() ==> #[trigger] symbols@[cp] == if exists|j: int|
                0 <= j < i && #[trigger] span_covers(pieces@[j], fc_start, fc_end, cp) {
                Some(symbol)
            } else {
                old(symbols)@[cp]
            },
        decreases pieces@.len() - i,
    {
        let ghost before = symbols@;
        let piece = pieces[i];
        match span_of(piece, fc_start, fc_end) {
            None => {},
            Some((lo, hi)) => {
                let mut cp = lo;
                while cp < hi
                    invariant
                        lo <= cp <= hi || (hi <= lo && cp == lo),
                        symbols@.len() == before.len(),
                        forall|k: int| 0 <= k < before.len() ==> #[trigger] symbols@[k] == if lo <= k
                            < cp {
                            Some(symbol)
                        } else {
                            before[k]
                        },
                    decreases hi - cp,
                {
                    if (cp as usize) < symbols.len() {
                        symbols.set(cp as usize, Some(symbol));
                    }
                    cp = cp + 1;
                }
            },
        }
        assert forall|k: int| 0 <= k < old(symbols)@.len() implies #[trigger] symbols@[k] == if exists|j: int|
            0 <= j < i + 1 && #[trigger] span_covers(pieces@[j], fc_start, fc_end, k) {
            Some(symbol)
        } else {
            old(symbols)@[k]
        } by {
            if span_covers(pieces@[i as int], fc_start, fc_end, k) {
                assert(0 <= i < i + 1);
            }
            if exists|j: int| 0 <= j < i + 1 && #[trigger] span_covers(pieces@[j], fc_start, fc_end, k) {
                let j = choose|j: int| 0 <= j < i + 1 && #[trigger] span_covers(pieces@[j], fc_start, fc_end, k);
                if j < i {
                    assert(exists|j2: int| 0 <= j2 < i && #[trigger] span_covers(pieces@[j2], fc_start, fc_end, k));
                }
            }
        }
        i = i + 1;
    }
}

/// Some run among the first `k` marks CP `cp` hidden (`vanish`) or deleted (otherwise).
pub open spec fn marked_by(runs: Seq<Option<ChpxRun>>, pieces: Seq<Piece>, cp: int, k: int, vanish: bool) -> bool {
    exists|j: int|
        0 <= j < k && #[trigger] run_marks(runs[j], pieces, cp, vanish)
}

/// Run `r` marks CP `cp` hidden (`vanish`) or deleted (otherwise).
pub open spec fn run_marks(r: Option<ChpxRun>, pieces: Seq<Piece>, cp: int, vanish: bool) -> bool {
    match r {
        Some(run) => (if vanish {
            run.vanish
        } else {
            run.deleted
        }) && covers(pieces, run.fc_start, run.fc_end, cp),
        None => false,
    }
}

/// A paragraph mark, cell mark or field delimiter.
pub open spec fn is_structural(c: char) -> bool {
    c == '\r' || c == '\u{0007}' || c == '\u{0013}' || c == '\u{0014}' || c == '\u{0015}'
}

/// A paragraph mark, cell mark or field delimiter.
pub fn is_structural_character(character: char) -> (r: bool)
    ensures
        r == is_structural(character),
{
    character == '\r' || character == '\u{0007}' || character == '\u{0013}' || character
        == '\u{0014}' || character == '\u{0015}'
}

/// What a suppressed (hidden or deleted) character becomes: paragraph marks turn into line
/// breaks, other non-structural characters into U+FFFC.
pub open spec fn suppressed(c: char, hidden: bool, deleted: bool) -> char {
    if hidden || deleted {
        if c == '\r' {
            '\u{000B}'
        } else if !is_structural(c) {
            '\u{FFFC}'
        } else {
            c
        }
    } else {
        c
    }
}

/// The character is replaced because of its marks.
pub open spec fn is_replaced(c: char, hidden: bool, deleted: bool) -> bool {
    (hidden || deleted) && (c == '\r' || !is_structural(c))
}

/// Number of replaced characters among the first `n` that carry the mark (`vanish` selects
/// hidden, otherwise deleted).
pub open spec fn replaced_count(
    text: Seq<char>,
    runs: Seq<Option<ChpxRun>>,
    pieces: Seq<Piece>,
    n: int,
    vanish: bool,
) -> nat
    decreases n,
{
    if n <= 0 {
        0
    } else {
        let i = n - 1;
        let h = marked_by(runs, pieces, i, runs.len() as int, true);
        let d = marked_by(runs, pieces, i, runs.len() as int, false);
        replaced_count(text, runs, pieces, n - 1, vanish) + if is_replaced(text[i], h, d) && (if vanish {
            h
        } else {
            d
        }) {
            1nat
        } else {
            0nat
        }
    }
}

proof fn lemma_replaced_count_le(text: Seq<char>, runs: Seq<Option<ChpxRun>>, pieces: Seq<Piece>, n: int, vanish: bool)
    requires
        0 <= n,
    ensures
        replaced_count(text, runs, pieces, n, vanish) <= n,
    decreases n,
{
    if n > 0 {
        lemma_replaced_count_le(text, runs, pieces, n - 1, vanish);
    }
}

/// Marks for every CP whether some run with the flag covers it.
fn run_marks_vec(runs: &Vec<Option<ChpxRun>>, pieces: &[Piece], len: usize, vanish: bool) -> (r: Vec<bool>)
    ensures
        r@.len() == len,
        forall|cp: int| 0 <= cp < len ==> #[trigger] r@[cp] == marked_by(runs@, pieces@, cp, runs@.len() as int, vanish),
{
    let mut marked: Vec<bool> = Vec::new();
    let mut n: usize = 0;
    while n < len
        invariant
            n <= len,
            marked@.len() == n,
            forall|cp: int| 0 <= cp < n ==> !#[trigger] marked@[cp],
        decreases len - n,
    {
        marked.push(false);
        n = n + 1;
    }
    let mut k: usize = 0;
    while k < runs.len()
        invariant
            k <= runs@.len(),
            marked@.len() == len,
            forall|cp: int| 0 <= cp < len ==> #[trigger] marked@[cp] == marked_by(runs@, pieces@, cp, k as int, vanish),
        decreases runs@.len() - k,
    {
        let ghost before = marked@;
        if let Some(run) = runs[k] {
            let flag = if vanish {
                run.vanish
            } else {
                run.deleted
            };
            if flag {
                mark_character_fc_range(pieces, run.fc_start, run.fc_end, &mut marked);
            }
        }
        assert forall|cp: int| 0 <= cp < len implies #[trigger] marked@[cp] == marked_by(runs@, pieces@, cp, k + 1, vanish) by {
            if run_marks(runs@[k as int], pieces@, cp, vanish) {
                assert(0 <= k < k + 1);
            }
            if marked_by(runs@, pieces@, cp, k + 1, vanish) {
                let j = choose|j: int| 0 <= j < k + 1 && #[trigger] run_marks(runs@[j], pieces@, cp, vanish);
                if j < k {
                    assert(marked_by(runs@, pieces@, cp, k as int, vanish));
                }
            }
        }
        k = k + 1;
    }
    marked
}

/// Suppresses characters formatted as hidden (vanish) or marked as deleted revisions:
/// paragraph marks become line breaks, other non-structural characters U+FFFC. Returns the
/// numbers of replaced hidden and deleted characters.
pub fn apply_hidden_character_formatting(
    word_document: &[u8],
    table_stream: &[u8],
    fib: &Fib,
    pieces: &[Piece],
    text: &mut Vec<char>,
) -> (r: Result<(usize, usize), String>)
    ensures
        match chpx_runs_model(word_document@, table_stream@, fib.fc_plcf_bte_chpx, fib.lcb_plcf_bte_chpx) {
            Err(m) => (r matches Err(e) && e@ == m) && final(text)@ == old(text)@,
            Ok(runs) => {
                &&& final(text)@.len() == old(text)@.len()
                &&& forall|i: int| 0 <= i < old(text)@.len() ==> #[trigger] final(text)@[i] == suppressed(
                    old(text)@[i],
                    marked_by(runs, pieces@, i, runs.len() as int, true),
                    marked_by(runs, pieces@, i, runs.len() as int, false),
                )
                &&& r matches Ok(c) && c.0 == replaced_count(old(text)@, runs, pieces@, old(text)@.len() as int, true)
                    && c.1 == replaced_count(old(text)@, runs, pieces@, old(text)@.len() as int, false)
            },
        },
{
    let runs = collect_chpx_runs(word_document, table_stream, fib)?;
    let ghost rv = runs@;
    let ghost initial = text@;
    let hidden = run_marks_vec(&runs, pieces, text.len(), true);
    let deleted = run_marks_vec(&runs, pieces, text.len(), false);
    let mut hidden_count: usize = 0;
    let mut deleted_count: usize = 0;
    let mut index: usize = 0;
    while index < text.len()
        invariant
            index <= text@.len(),
            text@.len() == initial.len(),
            hidden@.len() == initial.len(),
            deleted@.len() == initial.len(),
            forall|cp: int| 0 <= cp < initial.len() ==> #[trigger] hidden@[cp] == marked_by(rv, pieces@, cp, rv.len() as int, true),
            forall|cp: int| 0 <= cp < initial.len() ==> #[trigger] deleted@[cp] == marked_by(rv, pieces@, cp, rv.len() as int, false),
            forall|i: int| 0 <= i < index ==> #[trigger] text@[i] == suppressed(initial[i], hidden@[i], deleted@[i]),
            forall|i: int| index <= i < initial.len() ==> #[trigger] text@[i] == initial[i],
            hidden_count == replaced_count(initial, rv, pieces@, index as int, true),
            deleted_count == replaced_count(initial, rv, pieces@, index as int, false),
            hidden_count <= index,
            deleted_count <= index,
        decreases initial.len() - index,
    {
        let is_hidden = hidden[index];
        let is_deleted = deleted[index];
        let character = text[index];
        if is_hidden || is_deleted {
            if character == '\r' {
                text.set(index, '\u{000B}');
                hidden_count = hidden_count + if is_hidden {
                    1
                } else {
                    0
                };
                deleted_count = deleted_count + if is_deleted {
                    1
                } else {
                    0
                };
            } else if !is_structural_character(character) {
                text.set(index, '\u{FFFC}');
                hidden_count = hidden_count + if is_hidden {
                    1
                } else {
                    0
                };
                deleted_count = deleted_count + if is_deleted {
                    1
                } else {
                    0
                };
            }
        }
        index = index + 1;
    }
    Ok((hidden_count, deleted_count))
}

/// The symbol glyph the last covering sprmCSymbol run among the first `k` gives CP `cp`.
pub open spec fn symbol_by(runs: Seq<Option<ChpxRun>>, pieces: Seq<Piece>, cp: int, k: int) -> Option<u16>
    decreases k,
{
    if k <= 0 {
        None
    } else {
        match runs[k - 1] {
            Some(run) => if run.symbol is Some && covers(pieces, run.fc_start, run.fc_end, cp) {
                run.symbol
            } else {
                symbol_by(runs, pieces, cp, k - 1)
            },
            None => symbol_by(runs, pieces, cp, k - 1),
        }
    }
}

/// Collects the legacy symbol glyph (sprmCSymbol) recorded for each main-story CP.
pub fn collect_symbol_character_formatting(
    word_document: &[u8],
    table_stream: &[u8],
    fib: &Fib,
    pieces: &[Piece],
    text_len: usize,
) -> (r: Result<Vec<Option<u16>>, String>)
    ensures
        match chpx_runs_model(word_document@, table_stream@, fib.fc_plcf_bte_chpx, fib.lcb_plcf_bte_chpx) {
            Err(m) => r matches Err(e) && e@ == m,
            Ok(runs) => r matches Ok(v) && v@.len() == text_len && forall|cp: int| 0 <= cp < text_len
                ==> #[trigger] v@[cp] == symbol_by(runs, pieces@, cp, runs.len() as int),
        },
{
    let runs = collect_chpx_runs(word_document, table_stream, fib)?;
    let mut symbols: Vec<Option<u16>> = Vec::new();
    let mut n: usize = 0;
    while n < text_len
        invariant
            n <= text_len,
            symbols@.len() == n,
            forall|cp: int| 0 <= cp < n ==> #[trigger] symbols@[cp] == None::<u16>,
        decreases text_len - n,
    {
        symbols.push(None);
        n = n + 1;
    }
    let mut k: usize = 0;
    while k < runs.len()
        invariant
            k <= runs@.len(),
            symbols@.len() == text_len,
            forall|cp: int| 0 <= cp < text_len ==> #[trigger] symbols@[cp] == symbol_by(runs@, pieces@, cp, k as int),
        decreases runs@.len() - k,
    {
        if let Some(run) = runs[k] {
            if let Some(symbol) = run.symbol {
                mark_symbol_fc_range(pieces, run.fc_start, run.fc_end, symbol, &mut symbols);
            }
        }
        k = k + 1;
    }
    Ok(symbols)
}

} // verus!
