//! Limits and bookkeeping of the compound-file (OLE/CFB) container that holds a document.
use vstd::prelude::*;
use crate::ir::{StreamInfo, StreamKind};
use crate::strings::{decimal, owned, push_decimal};
use vstd::utf8::encode_utf8;
use std::io::{Cursor, Read};

verus! {

/// Largest source file accepted, in bytes.
pub const MAX_CONTAINER_BYTES: u64 = 536870912;

/// Largest stream read, in bytes.
pub const MAX_STREAM_BYTES: u64 = 268435456;

/// Most entries a container may list.
pub const MAX_STREAMS: usize = 16384;

/// Why a container could not be used.
#[derive(Debug)]
pub enum ContainerError {
    Io(std::io::Error),
    ContainerTooLarge { actual: u64, limit: u64 },
    TooManyEntries(usize),
    StreamTooLarge { path: String, actual: u64, limit: u64 },
    MissingStream(String),
}

/// `std::io::Error`'s `Display` text. Nothing is stated of it.
#[verifier::external_body]
pub(crate) fn io_error_text(e: &std::io::Error) -> String {
    e.to_string()
}

/// Message text of a container error other than an I/O failure.
pub open spec fn container_error_text(e: ContainerError) -> Seq<char> {
    match e {
        ContainerError::Io(_) => "could not inspect source file: "@,
        ContainerError::ContainerTooLarge { actual, limit } => "source is too large ("@ + decimal(
            actual as nat,
        ) + " bytes; limit is "@ + decimal(limit as nat) + " bytes)"@,
        ContainerError::TooManyEntries(n) => "compound file contains too many entries (limit is "@
            + decimal(n as nat) + ")"@,
        ContainerError::StreamTooLarge { path, actual, limit } => "stream "@ + path@
            + " is too large ("@ + decimal(actual as nat) + " bytes; limit is "@ + decimal(
            limit as nat,
        ) + " bytes)"@,
        ContainerError::MissingStream(p) => "required stream is missing: "@ + p@,
    }
}

impl ContainerError {
    /// The error's message text; for an I/O failure, the fixed prefix followed by the
    /// failure's own text.
    pub fn message(&self) -> (r: String)
        ensures
            self is Io ==> container_error_text(*self).is_prefix_of(r@),
            !(self is Io) ==> r@ == container_error_text(*self),
    {
        let mut s = String::new();
        match self {
            ContainerError::Io(e) => {
                s.push_str("could not inspect source file: ");
                let detail = io_error_text(e);
                let ghost before = s@;
                s.push_str(detail.as_str());
                assert(s@.subrange(0, before.len() as int) =~= before);
            },
            ContainerError::ContainerTooLarge { actual, limit } => {
                s.push_str("source is too large (");
                push_decimal(&mut s, *actual);
                s.push_str(" bytes; limit is ");
                push_decimal(&mut s, *limit);
                s.push_str(" bytes)");
            },
            ContainerError::TooManyEntries(n) => {
                s.push_str("compound file contains too many entries (limit is ");
                push_decimal(&mut s, *n as u64);
                s.push_str(")");
            },
            ContainerError::StreamTooLarge { path, actual, limit } => {
                s.push_str("stream ");
                s.push_str(path.as_str());
                s.push_str(" is too large (");
                push_decimal(&mut s, *actual);
                s.push_str(" bytes; limit is ");
                push_decimal(&mut s, *limit);
                s.push_str(" bytes)");
            },
            ContainerError::MissingStream(p) => {
                s.push_str("required stream is missing: ");
                s.push_str(p.as_str());
            },
        }
        s
    }
}

/// Refuses a source file larger than the limit.
pub fn check_source_size(len: u64) -> (r: Result<(), ContainerError>)
    ensures
        r is Ok <==> len <= MAX_CONTAINER_BYTES,
        r is Err ==> (r matches Err(ContainerError::ContainerTooLarge { actual, limit })
            && actual == len && limit == MAX_CONTAINER_BYTES),
{
    if len > MAX_CONTAINER_BYTES {
        Err(ContainerError::ContainerTooLarge { actual: len, limit: MAX_CONTAINER_BYTES })
    } else {
        Ok(())
    }
}

/// The kind of a directory entry.
pub open spec fn kind_of(is_root: bool, is_storage: bool) -> StreamKind {
    if is_root {
        StreamKind::Root
    } else if is_storage {
        StreamKind::Storage
    } else {
        StreamKind::Stream
    }
}

/// Lists one directory entry, unless the inventory is full.
pub fn add_inventory_entry(
    inventory: &mut Vec<StreamInfo>,
    path: String,
    is_root: bool,
    is_storage: bool,
    size: u64,
) -> (r: Result<(), ContainerError>)
    ensures
        r is Ok <==> old(inventory)@.len() < MAX_STREAMS,
        r is Ok ==> final(inventory)@ == old(inventory)@.push(
            StreamInfo { path, kind: kind_of(is_root, is_storage), size },
        ),
        r is Err ==> (r matches Err(ContainerError::TooManyEntries(n)) && n == MAX_STREAMS
            && final(inventory)@ == old(inventory)@),
{
    if inventory.len() >= MAX_STREAMS {
        return Err(ContainerError::TooManyEntries(MAX_STREAMS));
    }
    let kind = if is_root {
        StreamKind::Root
    } else if is_storage {
        StreamKind::Storage
    } else {
        StreamKind::Stream
    };
    inventory.push(StreamInfo { path, kind, size });
    Ok(())
}

/// `a` is not after `b` in lexicographic byte order.
pub open spec fn bytes_le(a: Seq<u8>, b: Seq<u8>) -> bool
    decreases a.len(),
{
    if a.len() == 0 {
        true
    } else if b.len() == 0 {
        false
    } else if a[0] != b[0] {
        a[0] < b[0]
    } else {
        bytes_le(a.drop_first(), b.drop_first())
    }
}

/// Path `a` is not after path `b` in the order of `String`: lexicographic on UTF-8 bytes.
pub open spec fn path_le(a: Seq<char>, b: Seq<char>) -> bool {
    bytes_le(encode_utf8(a), encode_utf8(b))
}

/// The entries are ordered by path.
pub open spec fn sorted_by_path(s: Seq<StreamInfo>) -> bool {
    forall|i: int, j: int| 0 <= i < j < s.len() ==> path_le(#[trigger] s[i].path@, #[trigger] s[j].path@)
}

proof fn lemma_bytes_total(a: Seq<u8>, b: Seq<u8>)
    ensures
        bytes_le(a, b) || bytes_le(b, a),
    decreases a.len(),
{
    if a.len() > 0 && b.len() > 0 && a[0] == b[0] {
        lemma_bytes_total(a.drop_first(), b.drop_first());
    }
}

proof fn lemma_bytes_trans(a: Seq<u8>, b: Seq<u8>, c: Seq<u8>)
    requires
        bytes_le(a, b),
        bytes_le(b, c),
    ensures
        bytes_le(a, c),
    decreases a.len(),
{
    if a.len() > 0 && b.len() > 0 && c.len() > 0 && a[0] == b[0] && b[0] == c[0] {
        lemma_bytes_trans(a.drop_first(), b.drop_first(), c.drop_first());
    }
}

/// Whether `a` is not after `b` in lexicographic byte order.
fn bytes_not_after(a: &[u8], b: &[u8]) -> (r: bool)
    ensures
        r == bytes_le(a@, b@),
{
    let mut i: usize = 0;
    assert(a@.skip(0) =~= a@);
    assert(b@.skip(0) =~= b@);
    while i < a.len() && i < b.len()
        invariant
            i <= a@.len(),
            i <= b@.len(),
            bytes_le(a@, b@) == bytes_le(a@.skip(i as int), b@.skip(i as int)),
        decreases a@.len() - i,
    {
        if a[i] != b[i] {
            return a[i] < b[i];
        }
        assert(a@.skip(i as int).drop_first() =~= a@.skip(i + 1));
        assert(b@.skip(i as int).drop_first() =~= b@.skip(i + 1));
        i = i + 1;
    }
    i == a.len()
}

/// Whether path `a` is not after path `b`.
fn path_not_after(a: &String, b: &String) -> (r: bool)
    ensures
        r == path_le(a@, b@),
{
    bytes_not_after(a.as_str().as_bytes(), b.as_str().as_bytes())
}

/// Where `e` goes among the sorted entries `out`: before every entry whose path is not
/// before `e`'s, after every other.
fn insertion_point(out: &Vec<StreamInfo>, e: &StreamInfo) -> (p: usize)
    requires
        sorted_by_path(out@),
    ensures
        p <= out@.len(),
        forall|i: int| 0 <= i < p ==> !path_le(e.path@, #[trigger] out@[i].path@),
        forall|i: int| p <= i < out@.len() ==> path_le(e.path@, #[trigger] out@[i].path@),
{
    let mut lo: usize = 0;
    let mut hi: usize = out.len();
    while lo < hi
        invariant
            lo <= hi <= out@.len(),
            sorted_by_path(out@),
            forall|i: int| 0 <= i < lo ==> !path_le(e.path@, #[trigger] out@[i].path@),
            forall|i: int| hi <= i < out@.len() ==> path_le(e.path@, #[trigger] out@[i].path@),
        decreases hi - lo,
    {
        let mid = lo + (hi - lo) / 2;
        if path_not_after(&e.path, &out[mid].path) {
            assert forall|i: int| mid <= i < out@.len() implies path_le(
                e.path@,
                #[trigger] out@[i].path@,
            ) by {
                if mid < i {
                    assert(path_le(out@[mid as int].path@, out@[i].path@));
                    lemma_bytes_trans(
                        encode_utf8(e.path@),
                        encode_utf8(out@[mid as int].path@),
                        encode_utf8(out@[i].path@),
                    );
                }
            }
            hi = mid;
        } else {
            assert forall|i: int| 0 <= i <= mid implies !path_le(
                e.path@,
                #[trigger] out@[i].path@,
            ) by {
                if i < mid {
                    assert(path_le(out@[i].path@, out@[mid as int].path@));
                    if path_le(e.path@, out@[i].path@) {
                        lemma_bytes_trans(
                            encode_utf8(e.path@),
                            encode_utf8(out@[i].path@),
                            encode_utf8(out@[mid as int].path@),
                        );
                    }
                }
            }
            lo = mid + 1;
        }
    }
    lo
}

/// An inventory entry as plain values: its path, kind and size.
pub open spec fn info_view(i: StreamInfo) -> (Seq<char>, StreamKind, u64) {
    (i.path@, i.kind, i.size)
}

pub open spec fn inventory_view(s: Seq<StreamInfo>) -> Seq<(Seq<char>, StreamKind, u64)> {
    s.map_values(|i: StreamInfo| info_view(i))
}

/// Sorts entries by path: the same entries, each not after the next.
fn sort_by_path(v: &mut Vec<StreamInfo>)
    ensures
        final(v)@.to_multiset() == old(v)@.to_multiset(),
        inventory_view(final(v)@).to_multiset() == inventory_view(old(v)@).to_multiset(),
        sorted_by_path(final(v)@),
{
    let ghost initial = v@;
    let mut out: Vec<StreamInfo> = Vec::new();
    proof {
        vstd::seq_lib::to_multiset_len(out@);
        vstd::multiset::lemma_multiset_empty_len(out@.to_multiset());
        assert(out@.to_multiset().add(v@.to_multiset()) =~= v@.to_multiset());
        assert(inventory_view(out@) =~= Seq::empty());
        vstd::seq_lib::to_multiset_len(inventory_view(out@));
        vstd::multiset::lemma_multiset_empty_len(inventory_view(out@).to_multiset());
        assert(inventory_view(out@).to_multiset().add(inventory_view(v@).to_multiset())
            =~= inventory_view(v@).to_multiset());
    }
    while v.len() > 0
        invariant
            out@.to_multiset().add(v@.to_multiset()) == initial.to_multiset(),
            inventory_view(out@).to_multiset().add(inventory_view(v@).to_multiset())
                == inventory_view(initial).to_multiset(),
            sorted_by_path(out@),
        decreases v@.len(),
    {
        let ghost before = v@;
        let e = v.pop().unwrap();
        assert(before =~= v@.push(e));
        assert(inventory_view(before) =~= inventory_view(v@).push(info_view(e)));
        proof {
            vstd::seq_lib::to_multiset_build(v@, e);
            vstd::seq_lib::to_multiset_build(inventory_view(v@), info_view(e));
        }
        let p = insertion_point(&out, &e);
        let ghost old_out = out@;
        out.insert(p, e);
        assert(out@ =~= old_out.insert(p as int, e));
        assert(inventory_view(out@) =~= inventory_view(old_out).insert(p as int, info_view(e)));
        proof {
            vstd::seq_lib::to_multiset_insert(old_out, p as int, e);
            vstd::seq_lib::to_multiset_insert(inventory_view(old_out), p as int, info_view(e));
        }
        assert(out@.to_multiset().add(v@.to_multiset()) =~= old_out.to_multiset().add(
            before.to_multiset(),
        ));
        assert(inventory_view(out@).to_multiset().add(inventory_view(v@).to_multiset())
            =~= inventory_view(old_out).to_multiset().add(inventory_view(before).to_multiset()));
        assert forall|i: int, j: int| 0 <= i < j < out@.len() implies path_le(
            #[trigger] out@[i].path@,
            #[trigger] out@[j].path@,
        ) by {
            if j < p {
                assert(out@[i] == old_out[i] && out@[j] == old_out[j]);
            } else if j == p {
                assert(out@[i] == old_out[i]);
                lemma_bytes_total(encode_utf8(e.path@), encode_utf8(old_out[i].path@));
            } else if i < p {
                assert(out@[i] == old_out[i] && out@[j] == old_out[j - 1]);
                assert(!path_le(e.path@, old_out[i].path@));
                lemma_bytes_total(encode_utf8(e.path@), encode_utf8(old_out[i].path@));
                assert(path_le(e.path@, old_out[j - 1].path@));
                lemma_bytes_trans(
                    encode_utf8(old_out[i].path@),
                    encode_utf8(e.path@),
                    encode_utf8(old_out[j - 1].path@),
                );
            } else if i == p {
                assert(out@[j] == old_out[j - 1]);
            } else {
                assert(out@[i] == old_out[i - 1] && out@[j] == old_out[j - 1]);
            }
        }
    }
    proof {
        vstd::seq_lib::to_multiset_len(v@);
        vstd::multiset::lemma_multiset_empty_len(v@.to_multiset());
        assert(inventory_view(v@) =~= Seq::empty());
        vstd::seq_lib::to_multiset_len(inventory_view(v@));
        vstd::multiset::lemma_multiset_empty_len(inventory_view(v@).to_multiset());
    }
    assert(out@.to_multiset() =~= initial.to_multiset());
    assert(inventory_view(out@).to_multiset() =~= inventory_view(initial).to_multiset());
    *v = out;
}

/// Orders a listed inventory by path.
pub fn finish_inventory(inventory: Vec<StreamInfo>) -> (r: Vec<StreamInfo>)
    ensures
        r@.to_multiset() == inventory@.to_multiset(),
        inventory_view(r@).to_multiset() == inventory_view(inventory@).to_multiset(),
        sorted_by_path(r@),
{
    let mut v = inventory;
    sort_by_path(&mut v);
    v
}

/// Checks an entry before its stream is read; returns the byte capacity to reserve.
pub fn check_stream(path: &str, is_stream: bool, len: u64) -> (r: Result<usize, ContainerError>)
    ensures
        !is_stream ==> (r matches Err(ContainerError::MissingStream(p)) && p@ == path@),
        is_stream && len > MAX_STREAM_BYTES ==> (r matches Err(
            ContainerError::StreamTooLarge { path: p, actual, limit },
        ) && p@ == path@ && actual == len && limit == MAX_STREAM_BYTES),
        is_stream && len <= MAX_STREAM_BYTES ==> r == Ok::<usize, ContainerError>(len as usize),
{
    if !is_stream {
        return Err(ContainerError::MissingStream(owned(path)));
    }
    if len > MAX_STREAM_BYTES {
        return Err(
            ContainerError::StreamTooLarge { path: owned(path), actual: len, limit: MAX_STREAM_BYTES },
        );
    }
    Ok(len as usize)
}

/// The entries that `cfb` lists for the compound file in `source`, as (path, whether it is
/// the root, whether it is a storage, size): `CompoundFile::walk` in its preorder, each path
/// taken by `to_string_lossy`; `None` when `cfb` cannot open `source` as a compound file.
pub uninterp spec fn cfb_walk_of(source: Seq<u8>) -> Option<Seq<(Seq<char>, bool, bool, u64)>>;

/// What `CompoundFile::entry` tells of `path` in the compound file in `source`: whether it
/// is a stream, and its size; `None` when there is no such entry.
pub uninterp spec fn cfb_entry_of(source: Seq<u8>, path: Seq<char>) -> Option<(bool, u64)>;

/// The bytes of stream `path` of the compound file in `source`, read to the end; `None` when
/// `cfb` cannot open or read it.
pub uninterp spec fn cfb_stream_of(source: Seq<u8>, path: Seq<char>) -> Option<Seq<u8>>;

pub open spec fn walk_view(v: Seq<(String, bool, bool, u64)>) -> Seq<(Seq<char>, bool, bool, u64)> {
    v.map_values(|e: (String, bool, bool, u64)| (e.0@, e.1, e.2, e.3))
}

/// The first `n` entries of `w`, or all of them when there are fewer.
pub open spec fn first_entries(w: Seq<(Seq<char>, bool, bool, u64)>, n: int) -> Seq<(Seq<char>, bool, bool, u64)> {
    if w.len() <= n {
        w
    } else {
        w.take(n)
    }
}

/// `cfb::OpenOptions::open_with` over the bytes of `source`, then `CompoundFile::walk`,
/// stopped after `at_most` entries. The walk succeeds exactly when the open does, and lists
/// the first `at_most` entries that the walk yields.
#[verifier::external_body]
fn cfb_walk(source: &[u8], at_most: usize) -> (r: Result<Vec<(String, bool, bool, u64)>, std::io::Error>)
    ensures
        r is Ok <==> cfb_walk_of(source@) is Some,
        r matches Ok(v) ==> cfb_walk_of(source@) matches Some(w) && walk_view(v@) == first_entries(
            w,
            at_most as int,
        ),
{
    let compound = cfb::OpenOptions::new().max_buffer_size(1024 * 1024).open_with(Cursor::new(source))?;
    let mut listed = Vec::new();
    for e in compound.walk().take(at_most) {
        listed.push((e.path().to_string_lossy().into_owned(), e.is_root(), e.is_storage(), e.len()));
    }
    Ok(listed)
}

/// `cfb::OpenOptions::open_with` over the bytes of `source`, then `CompoundFile::entry`: the
/// open fails exactly as in `cfb_walk`; a failed lookup gives `None`.
#[verifier::external_body]
fn cfb_entry(source: &[u8], path: &str) -> (r: Result<Option<(bool, u64)>, std::io::Error>)
    ensures
        r is Ok <==> cfb_walk_of(source@) is Some,
        r matches Ok(e) ==> e == cfb_entry_of(source@, path@),
{
    let compound = cfb::OpenOptions::new().max_buffer_size(1024 * 1024).open_with(Cursor::new(source))?;
    match compound.entry(path) {
        Ok(e) => Ok(Some((e.is_stream(), e.len()))),
        Err(_) => Ok(None),
    }
}

/// `cfb::OpenOptions::open_with` over the bytes of `source`, `CompoundFile::open_stream` and
/// `Read::read_to_end`: the stream's bytes, or the error of whichever step failed.
#[verifier::external_body]
fn cfb_stream(source: &[u8], path: &str) -> (r: Result<Vec<u8>, std::io::Error>)
    ensures
        r is Ok <==> cfb_stream_of(source@, path@) is Some,
        r matches Ok(b) ==> cfb_stream_of(source@, path@) == Some(b@),
{
    let mut compound = cfb::OpenOptions::new().max_buffer_size(1024 * 1024).open_with(Cursor::new(source))?;
    let mut bytes = Vec::new();
    compound.open_stream(path)?.read_to_end(&mut bytes)?;
    Ok(bytes)
}

/// The inventory entries of a walk, as plain values.
pub open spec fn walk_inventory(w: Seq<(Seq<char>, bool, bool, u64)>) -> Seq<(Seq<char>, StreamKind, u64)> {
    w.map_values(|e: (Seq<char>, bool, bool, u64)| (e.0, kind_of(e.1, e.2), e.3))
}

/// Opens the compound file in `source` and lists its entries, ordered by path. A source over
/// the size limit, or with more entries than the limit, is refused.
pub fn open_container(source: &[u8]) -> (r: Result<Vec<StreamInfo>, ContainerError>)
    ensures
        source@.len() > MAX_CONTAINER_BYTES ==> (r matches Err(
            ContainerError::ContainerTooLarge { actual, limit },
        ) && actual == source@.len() && limit == MAX_CONTAINER_BYTES),
        source@.len() <= MAX_CONTAINER_BYTES ==> match cfb_walk_of(source@) {
            None => r matches Err(ContainerError::Io(_)),
            Some(w) => if w.len() > MAX_STREAMS {
                r matches Err(ContainerError::TooManyEntries(n)) && n == MAX_STREAMS
            } else {
                r matches Ok(inv) && sorted_by_path(inv@) && inventory_view(inv@).to_multiset()
                    == walk_inventory(w).to_multiset()
            },
        },
{
    check_source_size(source.len() as u64)?;
    let listed = match cfb_walk(source, MAX_STREAMS + 1) {
        Ok(v) => v,
        Err(e) => return Err(ContainerError::Io(e)),
    };
    let ghost w = cfb_walk_of(source@)->0;
    let ghost lv = walk_view(listed@);
    let mut inventory: Vec<StreamInfo> = Vec::new();
    let mut i: usize = 0;
    assert(inventory_view(inventory@) =~= walk_inventory(lv.take(0)));
    while i < listed.len()
        invariant
            i <= listed@.len(),
            lv == walk_view(listed@),
            lv == first_entries(w, MAX_STREAMS + 1),
            cfb_walk_of(source@) == Some(w),
            source@.len() <= MAX_CONTAINER_BYTES,
            inventory@.len() == i,
            i <= MAX_STREAMS,
            inventory_view(inventory@) == walk_inventory(lv.take(i as int)),
        decreases listed@.len() - i,
    {
        let path = owned(listed[i].0.as_str());
        let ghost e = lv[i as int];
        assert(e == (listed@[i as int].0@, listed@[i as int].1, listed@[i as int].2, listed@[i as int].3));
        let ghost before = inventory@;
        add_inventory_entry(&mut inventory, path, listed[i].1, listed[i].2, listed[i].3)?;
        assert(lv.take(i + 1) =~= lv.take(i as int).push(e));
        assert(inventory_view(inventory@) =~= inventory_view(before).push(
            (e.0, kind_of(e.1, e.2), e.3),
        ));
        assert(walk_inventory(lv.take(i + 1)) =~= walk_inventory(lv.take(i as int)).push(
            (e.0, kind_of(e.1, e.2), e.3),
        ));
        i = i + 1;
    }
    assert(lv.take(i as int) =~= lv);
    assert(lv =~= w);
    Ok(finish_inventory(inventory))
}

/// Reads stream `path` of the compound file in `source`: a missing entry, or one that is
/// not a stream, is a missing stream; a stream over the size limit is refused.
pub fn container_stream(source: &[u8], path: &str) -> (r: Result<Vec<u8>, ContainerError>)
    ensures
        match cfb_walk_of(source@) {
            None => r matches Err(ContainerError::Io(_)),
            Some(_) => match cfb_entry_of(source@, path@) {
                None => r matches Err(ContainerError::MissingStream(p)) && p@ == path@,
                Some((is_stream, len)) => {
                    &&& !is_stream ==> (r matches Err(ContainerError::MissingStream(p)) && p@
                        == path@)
                    &&& is_stream && len > MAX_STREAM_BYTES ==> (r matches Err(
                        ContainerError::StreamTooLarge { path: p, actual, limit },
                    ) && p@ == path@ && actual == len && limit == MAX_STREAM_BYTES)
                    &&& is_stream && len <= MAX_STREAM_BYTES ==> match cfb_stream_of(
                        source@,
                        path@,
                    ) {
                        None => r matches Err(ContainerError::Io(_)),
                        Some(b) => r matches Ok(v) && v@ == b,
                    }
                },
            },
        },
{
    let entry = match cfb_entry(source, path) {
        Ok(e) => e,
        Err(e) => return Err(ContainerError::Io(e)),
    };
    let (is_stream, len) = match entry {
        Some(e) => e,
        None => return Err(ContainerError::MissingStream(owned(path))),
    };
    check_stream(path, is_stream, len)?;
    match cfb_stream(source, path) {
        Ok(bytes) => Ok(bytes),
        Err(e) => Err(ContainerError::Io(e)),
    }
}

} // verus!
