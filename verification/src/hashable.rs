use vstd::prelude::*;



verus! {

/// The SHA-256 digest of a byte sequence. The digest is a pure function of
/// the input bytes alone; its definition is left to the hashing crate.
pub uninterp spec fn sha256_of(bytes: Seq<u8>) -> Seq<u8>;

/// Relies on crypto_hash::digest with the SHA-256 algorithm: the digest
/// depends on the input bytes alone and is 32 bytes long.
#[verifier::external_body]
pub(crate) fn sha256_digest(data: &Vec<u8>) -> (r: Vec<u8>)
    ensures
        r@ == sha256_of(data@),
        r@.len() == 32,
{
    crypto_hash::digest(crypto_hash::Algorithm::SHA256, data.as_slice())
}

/// The lowercase hexadecimal digit with value `n`.
pub open spec fn hex_digit(n: int) -> char {
    if n == 0 {
        '0'
    } else if n == 1 {
        '1'
    } else if n == 2 {
        '2'
    } else if n == 3 {
        '3'
    } else if n == 4 {
        '4'
    } else if n == 5 {
        '5'
    } else if n == 6 {
        '6'
    } else if n == 7 {
        '7'
    } else if n == 8 {
        '8'
    } else if n == 9 {
        '9'
    } else if n == 10 {
        'a'
    } else if n == 11 {
        'b'
    } else if n == 12 {
        'c'
    } else if n == 13 {
        'd'
    } else if n == 14 {
        'e'
    } else {
        'f'
    }
}

/// Lowercase hexadecimal rendering of a byte sequence: two digits per byte,
/// most significant digit first.
pub open spec fn hex_of(bytes: Seq<u8>) -> Seq<char> {
    Seq::new(
        bytes.len() * 2,
        |i: int|
            if i % 2 == 0 {
                hex_digit(bytes[i / 2] as int / 16)
            } else {
                hex_digit(bytes[i / 2] as int % 16)
            },
    )
}

/// Relies on hex::encode: lowercase hexadecimal, two digits per byte, most
/// significant digit first.
#[verifier::external_body]
pub(crate) fn hex_encode(data: &Vec<u8>) -> (r: String)
    ensures
        r@ == hex_of(data@),
{
    hex::encode(data.as_slice())
}

/// An entity with a canonical byte form. Its content hash is always the
/// SHA-256 digest of exactly those bytes, so two values with the same
/// canonical bytes hash identically.
pub trait Hashable: Sized {
    /// The canonical byte form: a deterministic, order-preserving
    /// serialization of the entity's own fields.
    spec fn canon(&self) -> Seq<u8>;

    /// Serializes the entity to its canonical bytes.
    fn bytes(&self) -> (r: Vec<u8>)
        ensures
            r@ == self.canon(),
    ;

    /// The content hash: the SHA-256 digest of the canonical bytes.
    fn hash(&self) -> (r: crate::Hash)
        ensures
            r@ == sha256_of(self.canon()),
            r@.len() == 32,
    ;
}

} // verus!
