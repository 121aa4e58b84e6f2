//! The SHA-256 fingerprint of a source file.
use vstd::prelude::*;
use sha2::{Digest, Sha256};

verus! {

/// The declared `sha2` hasher type.
#[verifier::external_type_specification]
#[verifier::external_body]
pub struct ExSha256(Sha256);

/// The bytes a hasher has absorbed so far.
pub uninterp spec fn absorbed(h: Sha256) -> Seq<u8>;

/// The SHA-256 digest of `data`.
pub uninterp spec fn sha256_of(data: Seq<u8>) -> Seq<u8>;

/// `Sha256::new`: a hasher that has absorbed nothing.
#[verifier::external_body]
fn hasher_new() -> (h: Sha256)
    ensures
        absorbed(h) == Seq::<u8>::empty(),
{
    Sha256::new()
}

/// `Digest::update`: the hasher absorbs `data` after what it absorbed before.
#[verifier::external_body]
fn hasher_update(h: &mut Sha256, data: &[u8])
    ensures
        absorbed(*final(h)) == absorbed(*old(h)) + data@,
{
    Digest::update(h, data);
}

/// `Digest::finalize`: the SHA-256 digest of all the bytes absorbed, 32 bytes.
#[verifier::external_body]
fn hasher_finalize(h: Sha256) -> (r: Vec<u8>)
    ensures
        r@ == sha256_of(absorbed(h)),
        r@.len() == 32,
{
    h.finalize().to_vec()
}

/// Computes the SHA-256 fingerprint of a source read in chunks.
pub struct SourceHasher {
    inner: Sha256,
}

impl SourceHasher {
    /// The bytes fed so far.
    pub closed spec fn fed(&self) -> Seq<u8> {
        absorbed(self.inner)
    }

    /// A hasher that was fed nothing.
    pub fn new() -> (r: SourceHasher)
        ensures
            r.fed() == Seq::<u8>::empty(),
    {
        SourceHasher { inner: hasher_new() }
    }

    /// Feeds the next chunk of the source.
    pub fn update(&mut self, chunk: &[u8])
        ensures
            final(self).fed() == old(self).fed() + chunk@,
    {
        hasher_update(&mut self.inner, chunk);
    }

    /// The SHA-256 digest of everything fed, in lower-case hexadecimal.
    pub fn finish(self) -> (r: String)
        ensures
            r@ == lower_hex(sha256_of(self.fed())),
            r@.len() == 64,
    {
        let digest = hasher_finalize(self.inner);
        let s = hex_string(digest.as_slice());
        proof {
            lemma_hex_len(digest@);
        }
        s
    }
}

/// Lower-case hexadecimal digit for `d` (0..=15).
pub open spec fn lower_hex_char(d: int) -> char {
    if d < 10 {
        (48 + d) as char
    } else {
        (87 + d) as char
    }
}

/// Two lower-case hexadecimal digits per byte.
pub open spec fn lower_hex(bytes: Seq<u8>) -> Seq<char>
    decreases bytes.len(),
{
    if bytes.len() == 0 {
        Seq::empty()
    } else {
        lower_hex(bytes.drop_last()) + seq![
            lower_hex_char((bytes.last() / 16) as int),
            lower_hex_char((bytes.last() % 16) as int),
        ]
    }
}

fn hex_digit(d: u8) -> (c: char)
    requires
        d < 16,
    ensures
        c == lower_hex_char(d as int),
{
    if d < 10 {
        (48u8 + d) as char
    } else {
        (87u8 + d) as char
    }
}

/// Two lower-case hexadecimal digits per byte.
pub fn hex_string(bytes: &[u8]) -> (r: String)
    ensures
        r@ == lower_hex(bytes@),
{
    let mut s = String::new();
    let mut k: usize = 0;
    while k < bytes.len()
        invariant
            k <= bytes@.len(),
            s@ == lower_hex(bytes@.take(k as int)),
        decreases bytes@.len() - k,
    {
        let b = bytes[k];
        s.push(hex_digit(b / 16));
        s.push(hex_digit(b % 16));
        assert(bytes@.take(k + 1).drop_last() =~= bytes@.take(k as int));
        k = k + 1;
        assert(s@ =~= lower_hex(bytes@.take(k as int)));
    }
    assert(bytes@.take(bytes@.len() as int) =~= bytes@);
    s
}

proof fn lemma_hex_len(bytes: Seq<u8>)
    ensures
        lower_hex(bytes).len() == 2 * bytes.len(),
    decreases bytes.len(),
{
    if bytes.len() > 0 {
        lemma_hex_len(bytes.drop_last());
    }
}

} // verus!
