//! How protected passwords are stored: the bytes of a password are sealed by the operating system
//! and the sealed blob is kept as standard Base64 text.
use vstd::prelude::*;

use base64::Engine;

verus! {

/// A Base64 decoding failure, as `base64` reports it.
#[verifier::external_type_specification]
#[verifier::external_body]
pub struct ExDecodeError(base64::DecodeError);

/// The standard Base64 text (RFC 4648 alphabet, with padding) of `bytes`, as `base64`'s
/// `STANDARD` engine writes it.
pub uninterp spec fn base64_encoded(bytes: Seq<u8>) -> Seq<char>;

/// The bytes `base64`'s `STANDARD` engine reads from `text`, or `None` when it refuses the text.
pub uninterp spec fn base64_decoded(text: Seq<char>) -> Option<Seq<u8>>;

/// The length of the standard Base64 text of `n` bytes: four characters for every three bytes
/// or part of three.
pub open spec fn base64_len(n: nat) -> nat {
    (n / 3) * 4 + if n % 3 == 0 {
        0nat
    } else {
        4nat
    }
}

/// Calls `STANDARD.encode` of `base64`. The text is named; what the crate documents is stated:
/// its length (`encoded_len` with padding), and that the same engine decodes it back to the
/// bytes. The crate panics when that length does not fit in `usize`, which `requires` leaves out.
#[verifier::external_body]
fn base64_encode(bytes: &Vec<u8>) -> (res: String)
    requires
        base64_len(bytes@.len()) <= usize::MAX,
    ensures
        res@ == base64_encoded(bytes@),
        res@.len() == base64_len(bytes@.len()),
        base64_decoded(res@) == Some(bytes@),
{
    base64::engine::general_purpose::STANDARD.encode(bytes)
}

/// Calls `STANDARD.decode` of `base64`. The result is named.
#[verifier::external_body]
fn base64_decode(text: &str) -> (res: Result<Vec<u8>, base64::DecodeError>)
    ensures
        res is Ok <==> base64_decoded(text@) is Some,
        res matches Ok(bytes) ==> base64_decoded(text@) == Some(bytes@),
{
    base64::engine::general_purpose::STANDARD.decode(text)
}

/// Why a stored protected password could not be read.
#[derive(Debug)]
pub enum SecretTextError {
    /// The stored text is not standard Base64.
    Base64(base64::DecodeError),
}

/// The text a sealed password blob is stored as; it reads back as the same blob.
pub fn protected_text(blob: &Vec<u8>) -> (res: String)
    requires
        base64_len(blob@.len()) <= usize::MAX,
    ensures
        res@ == base64_encoded(blob@),
        base64_decoded(res@) == Some(blob@),
{
    base64_encode(blob)
}

/// The sealed password blob a stored text holds.
pub fn protected_blob(text: &str) -> (res: Result<Vec<u8>, SecretTextError>)
    ensures
        res is Ok <==> base64_decoded(text@) is Some,
        res matches Ok(bytes) ==> base64_decoded(text@) == Some(bytes@),
{
    match base64_decode(text) {
        Ok(bytes) => Ok(bytes),
        Err(error) => Err(SecretTextError::Base64(error)),
    }
}

} // verus!
