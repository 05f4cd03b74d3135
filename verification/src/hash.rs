//! Content fingerprinting: the digest of a file's full byte content,
//! hex-encoded in lowercase, is the durable identity of a catalog entry.

use vstd::prelude::*;

use md5::Digest;

verus! {

/// What the content fingerprint of a byte string is: a function of the
/// bytes alone, independent of path, name or metadata.
pub uninterp spec fn md5_hex_of(bytes: Seq<u8>) -> Seq<char>;

/// Relies on md5's `Md5` (through digest's `Digest::digest`) for the
/// 16-byte digest of the input bytes, and on base16ct's
/// `lower::encode_string` for its lowercase hex form of two digits per
/// byte.
#[verifier::external_body]
pub(crate) fn md5_hex(bytes: &[u8]) -> (r: String)
    ensures
        r@ == md5_hex_of(bytes@),
        r@.len() == 32,
{
    let digest = md5::Md5::digest(bytes);
    base16ct::lower::encode_string(&digest)
}

} // verus!
