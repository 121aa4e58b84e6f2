//! Textbox stories and where they are anchored in the main story.
use vstd::prelude::*;
use crate::bytes::{le_u16, le_u32, u16_at, u32_at};
use crate::clx::Piece;
use crate::fib::{DocError, DocErrorModel};
use crate::ir::StoryCounts;
use crate::fib::Fib;
use crate::formatting::{checked_range, range_model};
use crate::story::{lemma_range_error_kind, range_error_message, range_error_text, range_text, reconstruct_text_range};
use crate::strings::{decimal, owned, push_decimal};
use std::collections::BTreeMap;

verus! {

/// Textbox texts by the main-story CP of their anchor, each anchor's texts in placement
/// order, and the number of textboxes that could not be placed.
pub struct TextboxPlacements {
    by_anchor: BTreeMap<u32, Vec<String>>,
    placed: Ghost<Seq<(u32, Seq<char>)>>,
    count: usize,
    unplaced: usize,
}

/// `n`, capped at `usize::MAX`.
pub open spec fn capped_len(n: nat) -> nat {
    if n < usize::MAX {
        n
    } else {
        usize::MAX as nat
    }
}

/// The texts among `pairs` anchored at `cp`, in order.
pub open spec fn texts_at(pairs: Seq<(u32, Seq<char>)>, cp: u32) -> Seq<Seq<char>>
    decreases pairs.len(),
{
    if pairs.len() == 0 {
        Seq::empty()
    } else {
        let rest = texts_at(pairs.drop_last(), cp);
        if pairs.last().0 == cp {
            rest.push(pairs.last().1)
        } else {
            rest
        }
    }
}

/// The characters of each string.
pub open spec fn texts_view(v: Seq<String>) -> Seq<Seq<char>> {
    v.map_values(|s: String| s@)
}

impl TextboxPlacements {
    /// The map holds, for each anchor, the texts placed there in order (an anchor with no
    /// text has no entry), and the count is the number of texts placed.
    pub closed spec fn wf(&self) -> bool {
        &&& self.count == capped_len(self.placed@.len())
        &&& forall|cp: u32|
            #![trigger texts_at(self.placed@, cp)]
            if self.by_anchor@.contains_key(cp) {
                texts_view(self.by_anchor@[cp]@) == texts_at(self.placed@, cp)
            } else {
                texts_at(self.placed@, cp) == Seq::<Seq<char>>::empty()
            }
    }

    /// The placed (anchor CP, text) pairs in placement order.
    pub closed spec fn pairs(&self) -> Seq<(u32, Seq<char>)> {
        self.placed@
    }

    /// The texts anchored at `cp`, in order; empty when none.
    pub open spec fn anchored(&self, cp: u32) -> Seq<Seq<char>> {
        texts_at(self.pairs(), cp)
    }

    /// Number of textbox stories that could not be placed.
    pub closed spec fn unplaced_count(&self) -> usize {
        self.unplaced
    }

    /// No textboxes at all.
    pub fn empty() -> (r: TextboxPlacements)
        ensures
            r.wf(),
            r.pairs() == Seq::<(u32, Seq<char>)>::empty(),
            r.unplaced_count() == 0,
            forall|cp: u32| #[trigger] r.anchored(cp) == Seq::<Seq<char>>::empty(),
    {
        TextboxPlacements {
            by_anchor: BTreeMap::new(),
            placed: Ghost(Seq::empty()),
            count: 0,
            unplaced: 0,
        }
    }

    /// Anchors `text` at `cp`, after the texts placed so far.
    pub fn place(&mut self, cp: u32, text: String)
        requires
            old(self).wf(),
        ensures
            final(self).wf(),
            final(self).pairs() == old(self).pairs().push((cp, text@)),
            final(self).unplaced_count() == old(self).unplaced_count(),
    {
        broadcast use vstd::laws_cmp::group_laws_cmp, vstd::std_specs::btree::group_btree_axioms;

        let ghost old_map = self.by_anchor@;
        let ghost old_placed = self.placed@;
        let ghost tv = text@;
        let mut texts = match self.by_anchor.remove(&cp) {
            Some(v) => v,
            None => Vec::new(),
        };
        texts.push(text);
        self.by_anchor.insert(cp, texts);
        let ghost map = self.by_anchor;
        let ghost new_placed = old_placed.push((cp, tv));
        assert forall|c: u32| #![trigger texts_at(new_placed, c)] if map@.contains_key(c) {
            texts_view(map@[c]@) == texts_at(new_placed, c)
        } else {
            texts_at(new_placed, c) == Seq::<Seq<char>>::empty()
        } by {
            assert(new_placed.drop_last() =~= old_placed);
            assert(texts_at(old_placed, c) == texts_at(old_placed, c));
            if c == cp {
                if old_map.contains_key(cp) {
                    assert(texts_view(map@[c]@) =~= texts_view(old_map[c]@).push(tv));
                } else {
                    assert(texts_view(map@[c]@) =~= Seq::<Seq<char>>::empty().push(tv));
                }
            } else {
                assert(map@.contains_key(c) == old_map.contains_key(c));
                if old_map.contains_key(c) {
                    assert(map@[c] == old_map[c]);
                }
            }
        }
        let count = if self.count < usize::MAX {
            self.count + 1
        } else {
            self.count
        };
        self.placed = Ghost(new_placed);
        self.count = count;
    }

    /// Records how many textbox stories could not be placed.
    pub fn set_unplaced(&mut self, count: usize)
        requires
            old(self).wf(),
        ensures
            final(self).wf(),
            final(self).pairs() == old(self).pairs(),
            final(self).unplaced_count() == count,
    {
        self.unplaced = count;
    }

    /// Number of textbox stories that could not be placed.
    pub fn unplaced(&self) -> (r: usize)
        ensures
            r == self.unplaced_count(),
    {
        self.unplaced
    }

    /// Number of placed texts (capped at `usize::MAX`).
    pub fn placed_len(&self) -> (r: usize)
        requires
            self.wf(),
        ensures
            r == capped_len(self.pairs().len()),
    {
        self.count
    }

    /// The texts anchored at `cp`, in order; `None` when there are none.
    pub fn anchored_at(&self, cp: u32) -> (r: Option<&Vec<String>>)
        requires
            self.wf(),
        ensures
            match r {
                Some(v) => texts_view(v@) == self.anchored(cp),
                None => self.anchored(cp) == Seq::<Seq<char>>::empty(),
            },
    {
        broadcast use vstd::laws_cmp::group_laws_cmp, vstd::std_specs::btree::group_btree_axioms;

        assert(texts_at(self.placed@, cp) == texts_at(self.placed@, cp));
        self.by_anchor.get(&cp)
    }

    /// The texts anchored at `cp`, in order.
    pub fn get(&self, cp: u32) -> (r: Vec<String>)
        requires
            self.wf(),
        ensures
            texts_view(r@) == self.anchored(cp),
    {
        let mut out: Vec<String> = Vec::new();
        match self.anchored_at(cp) {
            Some(v) => {
                let mut k: usize = 0;
                while k < v.len()
                    invariant
                        k <= v@.len(),
                        texts_view(out@) == texts_view(v@).take(k as int),
                    decreases v@.len() - k,
                {
                    let ghost before = out@;
                    let t = v[k].clone();
                    out.push(t);
                    assert(texts_view(out@) =~= texts_view(before).push(t@));
                    assert(texts_view(v@).take(k + 1) =~= texts_view(v@).take(k as int).push(v@[k as int]@));
                    assert(texts_view(out@) =~= texts_view(v@).take(k + 1));
                    k = k + 1;
                }
                assert(texts_view(v@).take(v@.len() as int) =~= texts_view(v@));
            },
            None => {
                assert(texts_view(out@) =~= Seq::<Seq<char>>::empty());
            },
        }
        out
    }
}

impl Default for TextboxPlacements {
    fn default() -> (r: Self)
        ensures
            r.wf(),
            r.pairs().len() == 0,
            r.unplaced_count() == 0,
    {
        TextboxPlacements::empty()
    }
}

/// Characters with the Unicode `White_Space` property.
pub open spec fn is_white(c: char) -> bool {
    ('\u{9}' <= c && c <= '\u{D}') || c == ' ' || c == '\u{85}' || c == '\u{A0}' || c
        == '\u{1680}' || ('\u{2000}' <= c && c <= '\u{200A}') || c == '\u{2028}' || c
        == '\u{2029}' || c == '\u{202F}' || c == '\u{205F}' || c == '\u{3000}'
}

pub fn is_whitespace_char(c: char) -> (r: bool)
    ensures
        r == is_white(c),
{
    ('\u{9}' <= c && c <= '\u{D}') || c == ' ' || c == '\u{85}' || c == '\u{A0}' || c
        == '\u{1680}' || ('\u{2000}' <= c && c <= '\u{200A}') || c == '\u{2028}' || c
        == '\u{2029}' || c == '\u{202F}' || c == '\u{205F}' || c == '\u{3000}'
}

/// Textbox story text with cell marks dropped and paragraph marks read as spaces.
pub open spec fn flatten_story(s: Seq<char>) -> Seq<char>
    decreases s.len(),
{
    if s.len() == 0 {
        Seq::empty()
    } else {
        let rest = flatten_story(s.drop_last());
        let c = s.last();
        if c == '\u{7}' {
            rest
        } else if c == '\r' {
            rest.push(' ')
        } else {
            rest.push(c)
        }
    }
}

/// `s` without leading white space.
pub open spec fn trim_start(s: Seq<char>) -> Seq<char>
    decreases s.len(),
{
    if s.len() > 0 && is_white(s[0]) {
        trim_start(s.drop_first())
    } else {
        s
    }
}

/// `s` without trailing white space.
pub open spec fn trim_end(s: Seq<char>) -> Seq<char>
    decreases s.len(),
{
    if s.len() > 0 && is_white(s.last()) {
        trim_end(s.drop_last())
    } else {
        s
    }
}

/// `s` without leading and trailing white space.
pub open spec fn trim(s: Seq<char>) -> Seq<char> {
    trim_end(trim_start(s))
}

/// The text a textbox story contributes: flattened, then trimmed.
pub open spec fn textbox_text(story: Seq<char>) -> Seq<char> {
    trim(flatten_story(story))
}

fn flatten_chars(chars: &Vec<char>) -> (r: Vec<char>)
    ensures
        r@ == flatten_story(chars@),
{
    let mut out: Vec<char> = Vec::new();
    let mut k: usize = 0;
    while k < chars.len()
        invariant
            k <= chars@.len(),
            out@ == flatten_story(chars@.take(k as int)),
        decreases chars@.len() - k,
    {
        assert(chars@.take(k + 1).drop_last() =~= chars@.take(k as int));
        let c = chars[k];
        if c == '\u{7}' {
        } else if c == '\r' {
            out.push(' ');
        } else {
            out.push(c);
        }
        k = k + 1;
    }
    assert(chars@.take(chars@.len() as int) =~= chars@);
    out
}

fn trimmed_string(chars: &Vec<char>) -> (r: String)
    ensures
        r@ == trim(chars@),
{
    let n = chars.len();
    let mut lo: usize = 0;
    assert(chars@.subrange(0, n as int) =~= chars@);
    while lo < n && is_whitespace_char(chars[lo])
        invariant
            lo <= n,
            n == chars@.len(),
            trim_start(chars@) == trim_start(chars@.subrange(lo as int, n as int)),
        decreases n - lo,
    {
        assert(chars@.subrange(lo as int, n as int).drop_first() =~= chars@.subrange(
            lo + 1,
            n as int,
        ));
        lo = lo + 1;
    }
    let ghost t = chars@.subrange(lo as int, n as int);
    assert(trim_start(chars@) == t);
    let mut hi: usize = n;
    assert(chars@.subrange(lo as int, hi as int) =~= t);
    while hi > lo && is_whitespace_char(chars[hi - 1])
        invariant
            lo <= hi <= n,
            n == chars@.len(),
            trim_end(t) == trim_end(chars@.subrange(lo as int, hi as int)),
        decreases hi - lo,
    {
        assert(chars@.subrange(lo as int, hi as int).drop_last() =~= chars@.subrange(
            lo as int,
            hi - 1,
        ));
        hi = hi - 1;
    }
    let mut out = String::new();
    let mut k: usize = lo;
    while k < hi
        invariant
            lo <= k <= hi <= n,
            n == chars@.len(),
            out@ == chars@.subrange(lo as int, k as int),
        decreases hi - k,
    {
        out.push(chars[k]);
        k = k + 1;
        assert(out@ =~= chars@.subrange(lo as int, k as int));
    }
    out
}

/// `x` saturated at `u32::MAX`.
pub open spec fn sat_u32(x: int) -> u32 {
    if x > u32::MAX {
        u32::MAX
    } else {
        x as u32
    }
}

/// The CP at which the textbox story starts: the lengths of the stories before it,
/// saturated.
pub open spec fn textbox_base(s: StoryCounts) -> u32 {
    sat_u32(s.main + s.footnotes + s.headers + s.comments + s.endnotes)
}

/// The (lid, text) views of textbox entries.
pub open spec fn entries_view(v: Seq<(u32, String)>) -> Seq<(u32, Seq<char>)> {
    v.map_values(|e: (u32, String)| (e.0, e.1@))
}

/// Textbox `i` of a PlcftxbxTxt holding `count` records: `None` when it is reusable, has an
/// empty or out-of-story CP range, or its text is blank.
pub open spec fn textbox_entry(
    w: Seq<u8>,
    pieces: Seq<Piece>,
    plc: Seq<u8>,
    count: int,
    base: u32,
    total: u32,
    i: int,
) -> Result<Option<(u32, Seq<char>)>, DocErrorModel> {
    let record = (count + 1) * 4 + i * 22;
    if u16_at(plc, record + 8) & 1 != 0 {
        Ok(None)
    } else {
        let lid = u32_at(plc, record + 14);
        let start = u32_at(plc, 4 * i);
        let end = u32_at(plc, 4 * i + 4);
        if start >= end || end > total {
            Ok(None)
        } else {
            match range_text(w, pieces, sat_u32(base + start), sat_u32(base + end)) {
                Err(e) => Err(e),
                Ok(story) => {
                    let t = textbox_text(story);
                    if t.len() == 0 {
                        Ok(None)
                    } else {
                        Ok(Some((lid, t)))
                    }
                },
            }
        }
    }
}

/// The textboxes among the first `n` records, in order, or the first error.
pub open spec fn textbox_entries(
    w: Seq<u8>,
    pieces: Seq<Piece>,
    plc: Seq<u8>,
    count: int,
    base: u32,
    total: u32,
    n: int,
) -> Result<Seq<(u32, Seq<char>)>, DocErrorModel>
    decreases n,
{
    if n <= 0 {
        Ok(Seq::empty())
    } else {
        match textbox_entries(w, pieces, plc, count, base, total, n - 1) {
            Err(e) => Err(e),
            Ok(acc) => match textbox_entry(w, pieces, plc, count, base, total, n - 1) {
                Err(e) => Err(e),
                Ok(None) => Ok(acc),
                Ok(Some(x)) => Ok(acc.push(x)),
            },
        }
    }
}

proof fn lemma_entries_err(
    w: Seq<u8>,
    pieces: Seq<Piece>,
    plc: Seq<u8>,
    count: int,
    base: u32,
    total: u32,
    k: int,
    n: int,
)
    requires
        0 <= k <= n,
        textbox_entries(w, pieces, plc, count, base, total, k) is Err,
    ensures
        textbox_entries(w, pieces, plc, count, base, total, n) == textbox_entries(
            w,
            pieces,
            plc,
            count,
            base,
            total,
            k,
        ),
    decreases n - k,
{
    if k < n {
        lemma_entries_err(w, pieces, plc, count, base, total, k, n - 1);
    }
}

fn add_sat(a: u32, b: u32) -> (r: u32)
    ensures
        r == sat_u32(a + b),
{
    if a > u32::MAX - b {
        u32::MAX
    } else {
        a + b
    }
}

/// Reads textbox record `index` of a PlcftxbxTxt holding `count` records.
fn read_textbox_entry(
    word_document: &[u8],
    pieces: &[Piece],
    plc: &[u8],
    count: usize,
    base: u32,
    total: u32,
    index: usize,
) -> (r: Result<Option<(u32, String)>, DocError>)
    requires
        index + 1 < count,
        plc@.len() == 4 + 26 * count,
    ensures
        match r {
            Ok(None) => textbox_entry(word_document@, pieces@, plc@, count as int, base, total, index as int)
                == Ok::<Option<(u32, Seq<char>)>, DocErrorModel>(None),
            Ok(Some(x)) => textbox_entry(word_document@, pieces@, plc@, count as int, base, total, index as int)
                == Ok::<Option<(u32, Seq<char>)>, DocErrorModel>(Some((x.0, x.1@))),
            Err(e) => textbox_entry(word_document@, pieces@, plc@, count as int, base, total, index as int)
                == Err::<Option<(u32, Seq<char>)>, DocErrorModel>(e@),
        },
{
    let plc_len = plc.len();
    assert(plc_len == 4 + 26 * count);
    let record = (count + 1) * 4 + index * 22;
    let flags = match le_u16(plc, record + 8) {
        Some(v) => v,
        None => {
            return Ok(None);
        },
    };
    if flags & 1 != 0 {
        return Ok(None);
    }
    let lid = match le_u32(plc, record + 14) {
        Some(v) => v,
        None => {
            return Ok(None);
        },
    };
    let start = match le_u32(plc, index * 4) {
        Some(v) => v,
        None => {
            return Ok(None);
        },
    };
    let end = match le_u32(plc, (index + 1) * 4) {
        Some(v) => v,
        None => {
            return Ok(None);
        },
    };
    if start >= end || end > total {
        return Ok(None);
    }
    let chars = reconstruct_text_range(word_document, pieces, add_sat(base, start), add_sat(base, end))?;
    let flat = flatten_chars(&chars);
    let text = trimmed_string(&flat);
    if text.as_str().is_empty() {
        Ok(None)
    } else {
        Ok(Some((lid, text)))
    }
}

/// Reads the textbox records `0..count - 1` of a PlcftxbxTxt.
fn read_textbox_entries(
    word_document: &[u8],
    pieces: &[Piece],
    plc: &[u8],
    count: usize,
    base: u32,
    total: u32,
) -> (r: Result<Vec<(u32, String)>, DocError>)
    requires
        count >= 1,
        plc@.len() == 4 + 26 * count,
    ensures
        match r {
            Ok(v) => textbox_entries(word_document@, pieces@, plc@, count as int, base, total, count - 1)
                == Ok::<Seq<(u32, Seq<char>)>, DocErrorModel>(entries_view(v@)),
            Err(e) => textbox_entries(word_document@, pieces@, plc@, count as int, base, total, count - 1)
                == Err::<Seq<(u32, Seq<char>)>, DocErrorModel>(e@),
        },
{
    let mut out: Vec<(u32, String)> = Vec::new();
    let mut index: usize = 0;
    assert(entries_view(out@) =~= Seq::empty());
    while index < count - 1
        invariant
            count >= 1,
            plc@.len() == 4 + 26 * count,
            index <= count - 1,
            textbox_entries(word_document@, pieces@, plc@, count as int, base, total, index as int)
                == Ok::<Seq<(u32, Seq<char>)>, DocErrorModel>(entries_view(out@)),
        decreases count - 1 - index,
    {
        match read_textbox_entry(word_document, pieces, plc, count, base, total, index) {
            Ok(None) => {},
            Ok(Some(x)) => {
                let ghost before = out@;
                let ghost xv = (x.0, x.1@);
                out.push(x);
                assert(entries_view(out@) =~= entries_view(before).push(xv));
            },
            Err(e) => {
                proof {
                    lemma_entries_err(
                        word_document@,
                        pieces@,
                        plc@,
                        count as int,
                        base,
                        total,
                        index + 1,
                        count - 1,
                    );
                }
                return Err(e);
            },
        }
        index = index + 1;
    }
    Ok(out)
}

/// The texts of the textboxes with shape id `lid`, in order.
pub open spec fn lid_texts(tbs: Seq<(u32, Seq<char>)>, lid: u32) -> Seq<Seq<char>>
    decreases tbs.len(),
{
    if tbs.len() == 0 {
        Seq::empty()
    } else {
        let rest = lid_texts(tbs.drop_last(), lid);
        if tbs.last().0 == lid {
            rest.push(tbs.last().1)
        } else {
            rest
        }
    }
}

/// `texts`, each anchored at `cp`.
pub open spec fn at_anchor(texts: Seq<Seq<char>>, cp: u32) -> Seq<(u32, Seq<char>)> {
    Seq::new(texts.len(), |i: int| (cp, texts[i]))
}

/// Placement by shape id over the first `n` anchors: each anchor whose shape id has not been
/// seen yet receives every textbox with that id. Returns the placed pairs and the ids seen.
pub open spec fn place_by_lid(tbs: Seq<(u32, Seq<char>)>, anchors: Seq<(u32, u32)>, n: int) -> (
    Seq<(u32, Seq<char>)>,
    Seq<u32>,
)
    decreases n,
{
    if n <= 0 {
        (Seq::empty(), Seq::empty())
    } else {
        let prev = place_by_lid(tbs, anchors, n - 1);
        let a = anchors[n - 1];
        if prev.1.contains(a.1) {
            prev
        } else {
            (prev.0 + at_anchor(lid_texts(tbs, a.1), a.0), prev.1.push(a.1))
        }
    }
}

/// Textbox `i` anchored at anchor `i`.
pub open spec fn zip_pairs(tbs: Seq<(u32, Seq<char>)>, anchors: Seq<(u32, u32)>) -> Seq<
    (u32, Seq<char>),
> {
    Seq::new(tbs.len(), |i: int| (anchors[i].0, tbs[i].1))
}

/// Placed pairs and the count of unplaced textboxes: by shape id; when no id matches and the
/// counts agree, in order; otherwise the textboxes left over are counted as unplaced.
pub open spec fn placement(tbs: Seq<(u32, Seq<char>)>, anchors: Seq<(u32, u32)>) -> (
    Seq<(u32, Seq<char>)>,
    int,
) {
    let pairs = place_by_lid(tbs, anchors, anchors.len() as int).0;
    if pairs.len() == 0 && tbs.len() == anchors.len() {
        (zip_pairs(tbs, anchors), 0)
    } else {
        (pairs, if tbs.len() >= pairs.len() {
            tbs.len() - pairs.len()
        } else {
            0
        })
    }
}

fn contains_u32(v: &Vec<u32>, x: u32) -> (r: bool)
    ensures
        r == v@.contains(x),
{
    let mut k: usize = 0;
    while k < v.len()
        invariant
            k <= v@.len(),
            forall|j: int| 0 <= j < k ==> v@[j] != x,
        decreases v@.len() - k,
    {
        if v[k] == x {
            return true;
        }
        k = k + 1;
    }
    false
}

/// Places every textbox with shape id `lid` at `cp`.
fn place_lid(r: &mut TextboxPlacements, tbs: &Vec<(u32, String)>, lid: u32, cp: u32)
    requires
        old(r).wf(),
    ensures
        final(r).wf(),
        final(r).pairs() == old(r).pairs() + at_anchor(lid_texts(entries_view(tbs@), lid), cp),
        final(r).unplaced_count() == old(r).unplaced_count(),
{
    let ghost tv = entries_view(tbs@);
    let mut j: usize = 0;
    assert(at_anchor(lid_texts(tv.take(0), lid), cp) =~= Seq::empty());
    assert(old(r).pairs() + Seq::<(u32, Seq<char>)>::empty() =~= old(r).pairs());
    while j < tbs.len()
        invariant
            j <= tbs@.len(),
            tv == entries_view(tbs@),
            r.wf(),
            r.pairs() == old(r).pairs() + at_anchor(lid_texts(tv.take(j as int), lid), cp),
            r.unplaced_count() == old(r).unplaced_count(),
        decreases tbs@.len() - j,
    {
        assert(tv.take(j + 1).drop_last() =~= tv.take(j as int));
        if tbs[j].0 == lid {
            let text = tbs[j].1.clone();
            r.place(cp, text);
            assert(at_anchor(lid_texts(tv.take(j + 1), lid), cp) =~= at_anchor(
                lid_texts(tv.take(j as int), lid),
                cp,
            ).push((cp, text@)));
            assert(old(r).pairs() + at_anchor(lid_texts(tv.take(j + 1), lid), cp) =~= (old(
                r,
            ).pairs() + at_anchor(lid_texts(tv.take(j as int), lid), cp)).push((cp, text@)));
        }
        j = j + 1;
    }
    assert(tv.take(tbs@.len() as int) =~= tv);
}

/// Places textboxes at their anchors.
fn place_textboxes(tbs: &Vec<(u32, String)>, anchors: &Vec<(u32, u32)>) -> (r: TextboxPlacements)
    ensures
        r.wf(),
        r.pairs() == placement(entries_view(tbs@), anchors@).0,
        r.unplaced_count() == placement(entries_view(tbs@), anchors@).1,
{
    let ghost tv = entries_view(tbs@);
    let mut r = TextboxPlacements::empty();
    let mut used: Vec<u32> = Vec::new();
    let mut k: usize = 0;
    while k < anchors.len()
        invariant
            k <= anchors@.len(),
            tv == entries_view(tbs@),
            r.wf(),
            r.pairs() == place_by_lid(tv, anchors@, k as int).0,
            used@ == place_by_lid(tv, anchors@, k as int).1,
            r.unplaced_count() == 0,
        decreases anchors@.len() - k,
    {
        let (cp, lid) = anchors[k];
        if !contains_u32(&used, lid) {
            place_lid(&mut r, tbs, lid, cp);
            used.push(lid);
        }
        k = k + 1;
    }
    proof {
        crate::laws::law_textboxes_accounted(tv, anchors@);
    }
    if r.placed_len() == 0 && tbs.len() == anchors.len() {
        let mut z = TextboxPlacements::empty();
        let mut i: usize = 0;
        while i < tbs.len()
            invariant
                i <= tbs@.len(),
                tbs@.len() == anchors@.len(),
                tv == entries_view(tbs@),
                z.wf(),
                z.pairs() == zip_pairs(tv, anchors@).take(i as int),
                z.unplaced_count() == 0,
            decreases tbs@.len() - i,
        {
            let text = tbs[i].1.clone();
            z.place(anchors[i].0, text);
            assert(zip_pairs(tv, anchors@).take(i + 1) =~= zip_pairs(tv, anchors@).take(
                i as int,
            ).push((anchors@[i as int].0, text@)));
            i = i + 1;
        }
        assert(zip_pairs(tv, anchors@).take(tbs@.len() as int) =~= zip_pairs(tv, anchors@));
        z
    } else {
        let placed = r.placed_len();
        let unplaced = if tbs.len() >= placed {
            tbs.len() - placed
        } else {
            0
        };
        r.set_unplaced(unplaced);
        r
    }
}

proof fn lemma_entries_error_kind(
    w: Seq<u8>,
    pieces: Seq<Piece>,
    plc: Seq<u8>,
    count: int,
    base: u32,
    total: u32,
    n: int,
)
    requires
        textbox_entries(w, pieces, plc, count, base, total, n) is Err,
    ensures
        textbox_entries(w, pieces, plc, count, base, total, n)->Err_0 is PieceOutOfBounds
            || textbox_entries(w, pieces, plc, count, base, total, n)->Err_0 is InvalidUtf16,
    decreases n,
{
    if n > 0 {
        if textbox_entries(w, pieces, plc, count, base, total, n - 1) is Err {
            lemma_entries_error_kind(w, pieces, plc, count, base, total, n - 1);
        } else {
            let i = n - 1;
            let record = (count + 1) * 4 + i * 22;
            let start = u32_at(plc, 4 * i);
            let end = u32_at(plc, 4 * i + 4);
            let lo = sat_u32(base + start);
            let hi = sat_u32(base + end);
            if range_text(w, pieces, lo, hi) is Err {
                lemma_range_error_kind(w, pieces, lo, hi, pieces.len() as int);
            }
        }
    }
}

/// The (CP, shape id) pairs of a PlcfSpaMom.
pub open spec fn anchors_of(spa: Seq<u8>) -> Seq<(u32, u32)> {
    let n = (spa.len() - 4) / 30;
    Seq::new(n as nat, |i: int| (u32_at(spa, 4 * i), u32_at(spa, (n + 1) * 4 + 26 * i)))
}

/// The placements of the main-document textboxes, or the message of the failure.
pub open spec fn textboxes_model(w: Seq<u8>, table: Seq<u8>, fib: Fib, pieces: Seq<Piece>) -> Result<
    (Seq<(u32, Seq<char>)>, int),
    Seq<char>,
> {
    if fib.stories.textboxes == 0 || fib.lcb_plcf_txbx_txt == 0 {
        Ok((Seq::empty(), 0))
    } else {
        match range_model(table, fib.fc_plcf_txbx_txt, fib.lcb_plcf_txbx_txt) {
            None => Err("PlcftxbxTxt"@ + " is outside its stream"@),
            Some(plc) => if plc.len() < 30 || (plc.len() - 4) % 26 != 0 {
                Err("invalid "@ + "PlcftxbxTxt"@ + " length "@ + decimal(plc.len()))
            } else {
                let count = (plc.len() - 4) / 26;
                match textbox_entries(
                    w,
                    pieces,
                    plc,
                    count as int,
                    textbox_base(fib.stories),
                    fib.stories.textboxes,
                    count - 1,
                ) {
                    Err(e) => Err(range_error_text(e)),
                    Ok(tbs) => match range_model(table, fib.fc_plc_spa_mom, fib.lcb_plc_spa_mom) {
                        None => Err("PlcfSpaMom"@ + " is outside its stream"@),
                        Some(spa) => if spa.len() < 30 || (spa.len() - 4) % 30 != 0 {
                            Err("invalid "@ + "PlcfSpaMom"@ + " length "@ + decimal(spa.len()))
                        } else {
                            Ok(placement(tbs, anchors_of(spa)))
                        },
                    },
                }
            },
        }
    }
}

fn length_error(name: &str, len: usize) -> (r: String)
    ensures
        r@ == "invalid "@ + name@ + " length "@ + decimal(len as nat),
{
    let mut m = owned("invalid ");
    m.push_str(name);
    m.push_str(" length ");
    push_decimal(&mut m, len as u64);
    m
}

fn read_anchors(spa: &[u8]) -> (r: Vec<(u32, u32)>)
    requires
        spa@.len() >= 30,
        (spa@.len() - 4) % 30 == 0,
    ensures
        r@ == anchors_of(spa@),
{
    let len = spa.len();
    let n = (len - 4) / 30;
    let records = (n + 1) * 4;
    let mut anchors: Vec<(u32, u32)> = Vec::new();
    let mut i: usize = 0;
    while i < n
        invariant
            len == spa@.len(),
            len >= 30,
            (len - 4) % 30 == 0,
            n == (len - 4) / 30,
            records == (n + 1) * 4,
            i <= n,
            anchors@ == anchors_of(spa@).take(i as int),
        decreases n - i,
    {
        assert(len == 4 + 30 * n);
        let cp = match le_u32(spa, i * 4) {
            Some(v) => v,
            None => 0,
        };
        let lid = match le_u32(spa, records + i * 26) {
            Some(v) => v,
            None => 0,
        };
        anchors.push((cp, lid));
        i = i + 1;
        assert(anchors@ =~= anchors_of(spa@).take(i as int));
    }
    assert(anchors_of(spa@).take(n as int) =~= anchors_of(spa@));
    anchors
}

/// Reads the main-document textbox stories and places each at the CP of its anchor.
pub fn parse_textboxes(
    word_document: &[u8],
    table_stream: &[u8],
    fib: &Fib,
    pieces: &[Piece],
) -> (r: Result<TextboxPlacements, String>)
    ensures
        match r {
            Ok(p) => textboxes_model(word_document@, table_stream@, *fib, pieces@) == Ok::<
                (Seq<(u32, Seq<char>)>, int),
                Seq<char>,
            >((p.pairs(), p.unplaced_count() as int)),
            Err(m) => textboxes_model(word_document@, table_stream@, *fib, pieces@) == Err::<
                (Seq<(u32, Seq<char>)>, int),
                Seq<char>,
            >(m@),
        },
        r matches Ok(p) ==> p.wf(),
{
    if fib.stories.textboxes == 0 || fib.lcb_plcf_txbx_txt == 0 {
        return Ok(TextboxPlacements::empty());
    }
    let plc = checked_range(table_stream, fib.fc_plcf_txbx_txt, fib.lcb_plcf_txbx_txt, "PlcftxbxTxt")?;
    if plc.len() < 30 || (plc.len() - 4) % 26 != 0 {
        return Err(length_error("PlcftxbxTxt", plc.len()));
    }
    let count = (plc.len() - 4) / 26;
    let s = &fib.stories;
    let base = add_sat(add_sat(add_sat(add_sat(s.main, s.footnotes), s.headers), s.comments), s.endnotes);
    assert(base == textbox_base(fib.stories));
    let textboxes = match read_textbox_entries(word_document, pieces, plc, count, base, s.textboxes) {
        Ok(t) => t,
        Err(e) => {
            proof {
                lemma_entries_error_kind(
                    word_document@,
                    pieces@,
                    plc@,
                    count as int,
                    base,
                    s.textboxes,
                    count - 1,
                );
            }
            return Err(range_error_message(&e));
        },
    };
    let spa = checked_range(table_stream, fib.fc_plc_spa_mom, fib.lcb_plc_spa_mom, "PlcfSpaMom")?;
    if spa.len() < 30 || (spa.len() - 4) % 30 != 0 {
        return Err(length_error("PlcfSpaMom", spa.len()));
    }
    let anchors = read_anchors(spa);
    Ok(place_textboxes(&textboxes, &anchors))
}

} // verus!
