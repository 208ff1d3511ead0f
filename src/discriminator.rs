//! Instruction discriminators: the first 8 bytes of the SHA-256 digest of
//! `"<namespace>:<name>"`.

use crate::codec::put_all;
use sha2::Digest;
use vstd::prelude::*;
use vstd::utf8::encode_utf8;

verus! {

/// The SHA-256 digest of `data`.
pub uninterp spec fn sha256_of(data: Seq<u8>) -> Seq<u8>;

/// Relies on `sha2::Sha256::digest`: the 32-byte SHA-256 digest of `data`,
/// which depends on `data` alone.
#[verifier::external_body]
fn sha256(data: &[u8]) -> (r: [u8; 32])
    ensures
        r@ == sha256_of(data@),
{
    sha2::Sha256::digest(data).into()
}

/// The bytes that are hashed: the UTF-8 text `"<namespace>:<name>"`.
pub open spec fn preimage(namespace: Seq<char>, name: Seq<char>) -> Seq<u8> {
    encode_utf8(namespace) + seq![0x3au8] + encode_utf8(name)
}

/// The discriminator of `name` in `namespace`.
pub open spec fn discriminator_of(namespace: Seq<char>, name: Seq<char>) -> Seq<u8> {
    sha256_of(preimage(namespace, name)).take(8)
}

/// The namespace of instruction handlers.
pub const GLOBAL_NAMESPACE: &'static str = "global";

/// The 8-byte discriminator of `name` in `namespace`.
pub fn discriminator(namespace: &str, name: &str) -> (r: [u8; 8])
    ensures
        r@ == discriminator_of(namespace@, name@),
{
    let mut data: Vec<u8> = Vec::new();
    put_all(&mut data, namespace.as_bytes());
    data.push(0x3au8);
    put_all(&mut data, name.as_bytes());
    assert(data@ =~= preimage(namespace@, name@));
    let h = sha256(data.as_slice());
    let r = [h[0], h[1], h[2], h[3], h[4], h[5], h[6], h[7]];
    assert(r@ =~= h@.take(8));
    r
}

/// The discriminator of the instruction handler `instruction_name`.
pub fn calculate_anchor_discriminator(instruction_name: &str) -> (r: [u8; 8])
    ensures
        r@ == discriminator_of(GLOBAL_NAMESPACE@, instruction_name@),
{
    discriminator(GLOBAL_NAMESPACE, instruction_name)
}

} // verus!
