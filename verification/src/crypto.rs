use hmac::Mac;
use vstd::prelude::*;

verus! {

/// The HMAC-SHA256 tag of `data` under `key`, as the `hmac` and `sha2`
/// crates compute it.
pub uninterp spec fn hmac_sha256(key: Seq<u8>, data: Seq<u8>) -> [u8; 32];

/// HMAC-SHA256 of `data` under a 32-byte secret.
///
/// Trusted: calls `hmac::Hmac::<sha2::Sha256>::new_from_slice`, `update` and
/// `finalize`. Claims that the tag is `hmac_sha256(secret, data)`, a function of
/// the two inputs alone. `new_from_slice` accepts keys of any length (the
/// source hashes or pads the key and always returns `Ok`), so the call does
/// not panic.
#[verifier::external_body]
pub(crate) fn p2p_hmac_sha256(secret: &[u8; 32], data: &[u8]) -> (r: [u8; 32])
    ensures
        r == hmac_sha256(secret@, data@),
{
    let mut mac = hmac::Hmac::<sha2::Sha256>::new_from_slice(secret).expect("hmac sha256 key");
    mac.update(data);
    mac.finalize().into_bytes().into()
}


/// The MD5 digest of `data`, as the `md5` crate computes it.
pub uninterp spec fn md5_digest(data: Seq<u8>) -> [u8; 16];

/// MD5 of `data`.
///
/// Trusted: calls `md5::compute`. Claims that the digest is
/// `md5_digest(data)`, a function of the input alone.
#[verifier::external_body]
pub(crate) fn md5_compute(data: &[u8]) -> (r: [u8; 16])
    ensures
        r == md5_digest(data@),
{
    md5::compute(data).0
}

/// The HMAC-SHA1 tag of `data` under `key`, as the `hmac` and `sha1`
/// crates compute it.
pub uninterp spec fn hmac_sha1(key: Seq<u8>, data: Seq<u8>) -> [u8; 20];

/// HMAC-SHA1 of `data` under a 16-byte key.
///
/// Trusted: calls `hmac::Hmac::<sha1::Sha1>::new_from_slice`, `update` and
/// `finalize`. Claims that the tag is `hmac_sha1(key, data)`, a function of
/// the two inputs alone; `new_from_slice` accepts keys of any length, so the
/// call does not panic.
#[verifier::external_body]
pub(crate) fn hmac_sha1_compute(key: &[u8; 16], data: &[u8]) -> (r: [u8; 20])
    ensures
        r == hmac_sha1(key@, data@),
{
    let mut mac = hmac::Hmac::<sha1::Sha1>::new_from_slice(key).expect("hmac key");
    mac.update(data);
    mac.finalize().into_bytes().into()
}

/// The CRC-32 (IEEE) checksum of `data`, as `crc32fast` computes it.
pub uninterp spec fn crc32_checksum(data: Seq<u8>) -> u32;

/// CRC-32 of `data`.
///
/// Trusted: calls `crc32fast::hash`. Claims that the checksum is
/// `crc32_checksum(data)`, a function of the input alone.
#[verifier::external_body]
pub(crate) fn crc32_compute(data: &[u8]) -> (r: u32)
    ensures
        r == crc32_checksum(data@),
{
    crc32fast::hash(data)
}

} // verus!
