//! Property modifiers (Prl): a sprm followed by its operand.
use vstd::prelude::*;
use crate::bytes::{fits, le_u16, u16_at};
use crate::strings::{hex_fixed, owned, push_hex};

verus! {

/// One Prl of a grpprl: its sprm and the byte range of its operand.
#[derive(Debug, Clone, Copy, PartialEq, Eq, Structural)]
pub struct Prl {
    pub sprm: u16,
    pub start: usize,
    pub end: usize,
}

/// The message of a read that ran past the end of the data.
pub open spec fn truncated_text(field: Seq<char>) -> Seq<char> {
    "truncated "@ + field
}

/// A message naming a sprm in four upper-case hexadecimal digits.
pub open spec fn sprm_text(prefix: Seq<char>, sprm: u16, suffix: Seq<char>) -> Seq<char> {
    prefix + hex_fixed(sprm as nat, 4) + suffix
}

/// Length of the operand of `sprm`, whose operand starts at `cursor`, or why the size
/// byte(s) of a variable-length operand are missing.
pub open spec fn operand_len(g: Seq<u8>, cursor: int, sprm: u16) -> Result<int, Seq<char>> {
    let spra = sprm / 8192;
    if spra == 0 || spra == 1 {
        Ok(1)
    } else if spra == 2 || spra == 4 || spra == 5 {
        Ok(2)
    } else if spra == 3 {
        Ok(4)
    } else if spra == 7 {
        Ok(3)
    } else if sprm == 0xD608 {
        if fits(g, cursor, 2) {
            Ok(u16_at(g, cursor) + 1)
        } else {
            Err(truncated_text("TDefTableOperand.cb"@))
        }
    } else if 0 <= cursor < g.len() {
        Ok(g[cursor] + 1)
    } else {
        Err(sprm_text("variable-length sprm 0x"@, sprm, " is truncated"@))
    }
}

/// The Prls of `g` from byte `cursor` on, or why the grpprl is truncated.
pub open spec fn prls_from(g: Seq<u8>, cursor: int) -> Result<Seq<Prl>, Seq<char>>
    decreases g.len() - cursor,
{
    if cursor < 0 || cursor >= g.len() {
        Ok(Seq::empty())
    } else if !fits(g, cursor, 2) {
        Err(truncated_text("Sprm"@))
    } else {
        let sprm = u16_at(g, cursor);
        match operand_len(g, cursor + 2, sprm) {
            Err(m) => Err(m),
            Ok(n) => if cursor + 2 + n > g.len() {
                Err(sprm_text("operand for sprm 0x"@, sprm, " is truncated"@))
            } else {
                match prls_from(g, cursor + 2 + n) {
                    Err(m) => Err(m),
                    Ok(rest) => Ok(
                        seq![Prl { sprm, start: (cursor + 2) as usize, end: (cursor + 2 + n) as usize }]
                            + rest,
                    ),
                }
            },
        }
    }
}

/// The Prls of a grpprl, or why it is truncated.
pub open spec fn prls(g: Seq<u8>) -> Result<Seq<Prl>, Seq<char>> {
    prls_from(g, 0)
}

/// The operand bytes of a Prl.
pub open spec fn operand(g: Seq<u8>, p: Prl) -> Seq<u8> {
    g.subrange(p.start as int, p.end as int)
}

/// Every Prl's operand lies inside `g`.
pub open spec fn prls_in_bounds(g: Seq<u8>, ps: Seq<Prl>) -> bool {
    forall|i: int| #![trigger ps[i]] 0 <= i < ps.len() ==> ps[i].start <= ps[i].end && ps[i].end <= g.len()
}

proof fn lemma_prls_from_bounds(g: Seq<u8>, cursor: int)
    requires
        0 <= cursor,
        g.len() <= usize::MAX,
    ensures
        prls_from(g, cursor) matches Ok(ps) ==> prls_in_bounds(g, ps),
    decreases g.len() - cursor,
{
    if cursor < g.len() && fits(g, cursor, 2) {
        let sprm = u16_at(g, cursor);
        match operand_len(g, cursor + 2, sprm) {
            Err(m) => {
                assert(prls_from(g, cursor) == Err::<Seq<Prl>, Seq<char>>(m));
            },
            Ok(n) => if cursor + 2 + n <= g.len() {
                lemma_prls_from_bounds(g, cursor + 2 + n);
                match prls_from(g, cursor + 2 + n) {
                    Err(m) => {
                        assert(prls_from(g, cursor) == Err::<Seq<Prl>, Seq<char>>(m));
                    },
                    Ok(rest) => {
                        let ps = seq![Prl { sprm, start: (cursor + 2) as usize, end: (cursor + 2 + n) as usize }]
                            + rest;
                        assert(prls_from(g, cursor) == Ok::<Seq<Prl>, Seq<char>>(ps));
                        assert forall|i: int| #![trigger ps[i]] 0 <= i < ps.len() implies ps[i].start
                            <= ps[i].end && ps[i].end <= g.len() by {
                            if i > 0 {
                                assert(ps[i] == rest[i - 1]);
                            } else {
                                assert(ps[0] == Prl { sprm, start: (cursor + 2) as usize, end: (cursor + 2 + n) as usize });
                                assert(n >= 1);
                            }
                        }
                        assert(prls_in_bounds(g, ps));
                    },
                }
            } else {
                assert(prls_from(g, cursor) is Err);
            },
        }
    } else if cursor < g.len() {
        assert(prls_from(g, cursor) is Err);
    }
}

/// A message naming a sprm.
fn sprm_message(prefix: &str, sprm: u16, suffix: &str) -> (r: String)
    ensures
        r@ == sprm_text(prefix@, sprm, suffix@),
{
    let mut m = owned(prefix);
    push_hex(&mut m, sprm as u32, 4);
    m.push_str(suffix);
    m
}

/// The message of a read that ran past the end of the data.
pub fn truncated_message(field: &str) -> (r: String)
    ensures
        r@ == truncated_text(field@),
{
    let mut m = owned("truncated ");
    m.push_str(field);
    m
}

/// Splits a grpprl into its Prls.
pub fn parse_prls(grpprl: &[u8]) -> (r: Result<Vec<Prl>, String>)
    ensures
        match r {
            Ok(v) => prls(grpprl@) == Ok::<Seq<Prl>, Seq<char>>(v@),
            Err(m) => prls(grpprl@) == Err::<Seq<Prl>, Seq<char>>(m@),
        },
        r matches Ok(v) ==> prls_in_bounds(grpprl@, v@),
{
    let ghost g = grpprl@;
    let mut out: Vec<Prl> = Vec::new();
    let mut cursor: usize = 0;
    while cursor < grpprl.len()
        invariant
            cursor <= grpprl@.len(),
            g == grpprl@,
            prls(g) == match prls_from(g, cursor as int) {
                Ok(rest) => Ok(out@ + rest),
                Err(m) => Err::<Seq<Prl>, Seq<char>>(m),
            },
        decreases grpprl@.len() - cursor,
    {
        let sprm = match le_u16(grpprl, cursor) {
            Some(v) => v,
            None => {
                return Err(truncated_message("Sprm"));
            },
        };
        let c = cursor + 2;
        let spra = sprm / 8192;
        let olen: usize = if spra == 0 || spra == 1 {
            1
        } else if spra == 2 || spra == 4 || spra == 5 {
            2
        } else if spra == 3 {
            4
        } else if spra == 7 {
            3
        } else if sprm == 0xD608 {
            match le_u16(grpprl, c) {
                Some(v) => v as usize + 1,
                None => {
                    return Err(truncated_message("TDefTableOperand.cb"));
                },
            }
        } else {
            if c >= grpprl.len() {
                return Err(sprm_message("variable-length sprm 0x", sprm, " is truncated"));
            }
            grpprl[c] as usize + 1
        };
        assert(operand_len(g, c as int, sprm) == Ok::<int, Seq<char>>(olen as int));
        if c > grpprl.len() || grpprl.len() - c < olen {
            return Err(sprm_message("operand for sprm 0x", sprm, " is truncated"));
        }
        let ghost prl = Prl { sprm, start: c, end: (c + olen) as usize };
        proof {
            match prls_from(g, c + olen) {
                Ok(rest) => {
                    assert(out@ + (seq![prl] + rest) =~= out@.push(prl) + rest);
                },
                Err(_) => {},
            }
        }
        out.push(Prl { sprm, start: c, end: c + olen });
        cursor = c + olen;
    }
    proof {
        assert(out@ + Seq::<Prl>::empty() =~= out@);
        lemma_prls_from_bounds(g, 0);
    }
    Ok(out)
}

} // verus!
