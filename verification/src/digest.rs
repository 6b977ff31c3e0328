//! The checksum of a package file.

use vstd::prelude::*;

use sha2::Digest;

verus! {

/// A hasher of the `sha2` crate.
#[verifier::external_type_specification]
#[verifier::external_body]
pub struct ExSha256(sha2::Sha256);

/// The bytes that a hasher of the `sha2` crate was fed.
pub uninterp spec fn absorbed(hasher: sha2::Sha256) -> Seq<u8>;

/// The digest that the `sha2` crate computes of bytes with SHA-256.
pub uninterp spec fn sha256(bytes: Seq<u8>) -> Seq<u8>;

/// `sha2::Sha256::new`: a hasher that was fed nothing.
#[verifier::external_body]
fn new_hasher() -> (r: sha2::Sha256)
    ensures
        absorbed(r) == Seq::<u8>::empty(),
{
    sha2::Sha256::new()
}

/// `sha2::Sha256::update`: the hasher was fed these bytes too, behind the others.
#[verifier::external_body]
fn feed(hasher: &mut sha2::Sha256, bytes: &[u8])
    ensures
        absorbed(*final(hasher)) == absorbed(*old(hasher)) + bytes@,
{
    hasher.update(bytes);
}

/// `sha2::Sha256::finalize`: the digest of all that the hasher was fed, of 32 bytes.
/// The digest is named. The hasher counts bits in a word of 64, so it is asked for
/// no digest of more bytes than that.
#[verifier::external_body]
fn finalize(hasher: sha2::Sha256) -> (r: Vec<u8>)
    requires
        absorbed(hasher).len() < 0x2000_0000_0000_0000,
    ensures
        r@ == sha256(absorbed(hasher)),
        r@.len() == 32,
{
    hasher.finalize().to_vec()
}

/// The digit of a number below sixteen.
pub open spec fn hex_digit(n: int) -> char {
    if n < 10 {
        (('0' as int) + n) as char
    } else {
        (('a' as int) + (n - 10)) as char
    }
}

/// Bytes in hexadecimal digits, two for each byte, the upper half first.
pub open spec fn hex_text(bytes: Seq<u8>) -> Seq<char> {
    Seq::new(
        2 * bytes.len(),
        |i: int|
            if i % 2 == 0 {
                hex_digit(bytes[i / 2] as int / 16)
            } else {
                hex_digit(bytes[i / 2] as int % 16)
            },
    )
}

/// `hex::encode`: the bytes in hexadecimal digits with lower case letters.
#[verifier::external_body]
fn hex_encode(bytes: &Vec<u8>) -> (r: String)
    ensures
        r@ == hex_text(bytes@),
{
    hex::encode(bytes)
}

/// The checksum of bytes: their SHA-256 digest in hexadecimal digits.
pub open spec fn checksum(bytes: Seq<u8>) -> Seq<char> {
    hex_text(sha256(bytes))
}

/// The checksum of a file in the making, that is read piece by piece.
pub struct Checksum {
    hasher: sha2::Sha256,
    count: u64,
}

impl View for Checksum {
    type V = Seq<u8>;

    /// The bytes that were read.
    closed spec fn view(&self) -> Seq<u8> {
        absorbed(self.hasher)
    }
}

impl Checksum {
    /// The bytes that were read are counted, and are few enough to be hashed.
    pub closed spec fn wf(&self) -> bool {
        &&& self.count == absorbed(self.hasher).len()
        &&& self.count < 0x2000_0000_0000_0000
    }

    /// The checksum of nothing yet.
    pub fn new() -> (r: Checksum)
        ensures
            r.wf(),
            r@ == Seq::<u8>::empty(),
    {
        Checksum { hasher: new_hasher(), count: 0 }
    }

    /// Whether so many more bytes can be hashed.
    pub fn has_room(&self, n: usize) -> (r: bool)
        requires
            self.wf(),
        ensures
            r == (self@.len() + n < 0x2000_0000_0000_0000),
    {
        (n as u64) < 0x2000_0000_0000_0000 - self.count
    }

    /// Reads the next piece.
    pub fn update(&mut self, piece: &[u8])
        requires
            old(self).wf(),
            old(self)@.len() + piece@.len() < 0x2000_0000_0000_0000,
        ensures
            final(self).wf(),
            final(self)@ == old(self)@ + piece@,
    {
        feed(&mut self.hasher, piece);
        self.count = self.count + piece.len() as u64;
    }

    /// The checksum of all that was read: 64 digits.
    pub fn finish(self) -> (r: String)
        requires
            self.wf(),
        ensures
            r@ == checksum(self@),
            r@.len() == 64,
    {
        let digest = finalize(self.hasher);
        hex_encode(&digest)
    }
}

} // verus!
