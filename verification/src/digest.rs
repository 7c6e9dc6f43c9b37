//! BLAKE3 digests of bytes, all at once or piece by piece.

use crate::decimal;
use vstd::prelude::*;

verus! {

/// The BLAKE3 digest of bytes, in hexadecimal.
pub uninterp spec fn blake3_hex(bytes: Seq<u8>) -> Seq<char>;

/// The bytes that a hasher has taken in.
pub uninterp spec fn taken_in(h: blake3::Hasher) -> Seq<u8>;

#[verifier::external_type_specification]
#[verifier::external_body]
pub struct ExHasher(blake3::Hasher);

/// The digest of bytes, by `blake3::hash` and `Hash::to_hex`. The contract gives it a name: it
/// depends on the bytes alone.
#[verifier::external_body]
fn hash_hex(bytes: &[u8]) -> (r: String)
    ensures
        r@ == blake3_hex(bytes@),
{
    blake3::hash(bytes).to_hex().to_string()
}

/// A hasher that has taken in nothing, by `blake3::Hasher::new`.
#[verifier::external_body]
fn new_hasher() -> (r: blake3::Hasher)
    ensures
        taken_in(r) == Seq::<u8>::empty(),
{
    blake3::Hasher::new()
}

/// Takes in more bytes, by `blake3::Hasher::update`: they come behind those taken in before.
#[verifier::external_body]
fn update_hasher(h: &mut blake3::Hasher, bytes: &[u8])
    ensures
        taken_in(*final(h)) == taken_in(*old(h)) + bytes@,
{
    h.update(bytes);
}

/// The digest of what was taken in, by `blake3::Hasher::finalize` and `Hash::to_hex`: the same
/// as that of all the bytes at once.
#[verifier::external_body]
fn finish_hasher(h: &blake3::Hasher) -> (r: String)
    ensures
        r@ == blake3_hex(taken_in(*h)),
{
    h.finalize().to_hex().to_string()
}

/// The digest of bytes.
pub fn digest_of(bytes: &[u8]) -> (r: String)
    ensures
        r@ == blake3_hex(bytes@),
{
    hash_hex(bytes)
}

/// A digest in the making.
pub struct StreamDigest {
    hasher: blake3::Hasher,
}

impl View for StreamDigest {
    type V = Seq<u8>;

    closed spec fn view(&self) -> Seq<u8> {
        taken_in(self.hasher)
    }
}

impl StreamDigest {
    /// The digest of no bytes yet.
    pub fn new() -> (r: Self)
        ensures
            r@ == Seq::<u8>::empty(),
    {
        StreamDigest { hasher: new_hasher() }
    }

    /// Takes in the next bytes.
    pub fn feed(&mut self, bytes: &[u8])
        ensures
            final(self)@ == old(self)@ + bytes@,
    {
        update_hasher(&mut self.hasher, bytes);
    }

    /// The digest of all bytes taken in.
    pub fn finish(&self) -> (r: String)
        ensures
            r@ == blake3_hex(self@),
    {
        finish_hasher(&self.hasher)
    }
}

/// The bytes of a list of pieces.
pub open spec fn joined(pieces: Seq<Vec<u8>>) -> Seq<u8>
    decreases pieces.len(),
{
    if pieces.len() == 0 {
        Seq::empty()
    } else {
        joined(pieces.drop_last()) + pieces.last()@
    }
}

/// The digest of what a reader gives, piece by piece.
pub fn blake3_digest_reader(pieces: &Vec<Vec<u8>>) -> (r: String)
    ensures
        r@ == blake3_hex(joined(pieces@)),
{
    let mut digest = StreamDigest::new();
    let mut i: usize = 0;
    while i < pieces.len()
        invariant
            i <= pieces.len(),
            digest@ == joined(pieces@.take(i as int)),
        decreases pieces.len() - i,
    {
        assert(pieces@.take(i + 1).drop_last() =~= pieces@.take(i as int));
        digest.feed(pieces[i].as_slice());
        i += 1;
    }
    assert(pieces@.take(pieces@.len() as int) =~= pieces@);
    digest.finish()
}

/// How many bytes a file is read in at a time.
pub const READ_BUFFER_BYTES: u64 = 64 * 1024;

/// The digest of a stretch of a file, in the making.
pub struct RangeDigest {
    digest: StreamDigest,
    offset: u64,
    length: u64,
    remaining: u64,
}

/// What a digest of a stretch has come to: where the stretch lies, how much is still to be read,
/// and the bytes taken in.
pub struct RangeDigestView {
    pub offset: u64,
    pub length: u64,
    pub remaining: u64,
    pub taken: Seq<u8>,
}

impl View for RangeDigest {
    type V = RangeDigestView;

    closed spec fn view(&self) -> RangeDigestView {
        RangeDigestView {
            offset: self.offset,
            length: self.length,
            remaining: self.remaining,
            taken: self.digest@,
        }
    }
}

/// The complaint about a stretch that ended early.
pub open spec fn short_read(offset: u64, length: u64) -> Seq<char> {
    "short local read while hashing range: offset="@ + decimal::dec(offset as nat) + " length="@
        + decimal::dec(length as nat)
}

impl RangeDigest {
    /// A stretch of which nothing is read yet.
    pub fn new(offset: u64, length: u64) -> (r: Self)
        ensures
            r@ == (RangeDigestView { offset, length, remaining: length, taken: Seq::empty() }),
    {
        RangeDigest { digest: StreamDigest::new(), offset, length, remaining: length }
    }

    /// How many bytes to read next; none once all are read.
    pub fn wanted(&self) -> (r: u64)
        ensures
            r == (if self@.remaining < READ_BUFFER_BYTES {
                self@.remaining
            } else {
                READ_BUFFER_BYTES
            }),
    {
        if self.remaining < READ_BUFFER_BYTES {
            self.remaining
        } else {
            READ_BUFFER_BYTES
        }
    }

    /// Takes in the bytes that were read.
    pub fn feed(&mut self, bytes: &[u8])
        requires
            bytes@.len() <= old(self)@.remaining,
        ensures
            final(self)@ == (RangeDigestView {
                remaining: (old(self)@.remaining - bytes@.len()) as u64,
                taken: old(self)@.taken + bytes@,
                ..old(self)@
            }),
    {
        let n: u64 = bytes.len() as u64;
        self.digest.feed(bytes);
        self.remaining = self.remaining - n;
    }

    /// The digest of the stretch, or the complaint that it ended early.
    pub fn finish(&self) -> (r: Result<String, String>)
        ensures
            match r {
                Ok(hex) => self@.remaining == 0 && hex@ == blake3_hex(self@.taken),
                Err(m) => self@.remaining > 0 && m@ == short_read(self@.offset, self@.length),
            },
    {
        if self.remaining == 0 {
            Ok(self.digest.finish())
        } else {
            let mut m = "short local read while hashing range: offset=".to_string();
            m.append(decimal::dec_text(self.offset as u128).as_str());
            m.append(" length=");
            m.append(decimal::dec_text(self.length as u128).as_str());
            Err(m)
        }
    }
}

} // verus!
