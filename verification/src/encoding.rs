//! Text encodings of bytes.

use vstd::prelude::*;

verus! {

#[verifier::external_type_specification]
#[verifier::external_body]
pub struct ExBase58Error(bs58::decode::Error);

#[verifier::external_type_specification]
#[verifier::external_body]
pub struct ExBase64Error(base64::DecodeError);

/// The base-58 text of a byte string, in the default alphabet.
pub uninterp spec fn base58_text(bytes: Seq<u8>) -> Seq<char>;

/// The bytes that a base-58 text stands for, where it stands for any.
pub uninterp spec fn base58_bytes(text: Seq<char>) -> Option<Seq<u8>>;

/// The base-64 text of a byte string, in the standard alphabet with
/// padding.
pub uninterp spec fn base64_text(bytes: Seq<u8>) -> Seq<char>;

/// The bytes that a base-64 text stands for, where it stands for any.
pub uninterp spec fn base64_bytes(text: Seq<char>) -> Option<Seq<u8>>;

/// `bs58::encode(..).into_string()`: the base-58 text of `bytes`.
#[verifier::external_body]
pub(crate) fn base58_encode(bytes: &Vec<u8>) -> (text: String)
    ensures
        text@ == base58_text(bytes@),
{
    bs58::encode(bytes).into_string()
}

/// `bs58::decode(..).into_vec()`: the bytes that `text` stands for, or why
/// it stands for none.
#[verifier::external_body]
pub(crate) fn base58_decode(text: &String) -> (bytes: Result<Vec<u8>, bs58::decode::Error>)
    ensures
        match bytes {
            Ok(bytes) => base58_bytes(text@) == Some(bytes@),
            Err(_) => base58_bytes(text@).is_none(),
        },
{
    bs58::decode(text).into_vec()
}

/// `base64::encode`: the base-64 text of `bytes`.
#[verifier::external_body]
pub(crate) fn base64_encode(bytes: &Vec<u8>) -> (text: String)
    ensures
        text@ == base64_text(bytes@),
{
    base64::encode(bytes)
}

/// `base64::decode`: the bytes that `text` stands for, or why it stands
/// for none.
#[verifier::external_body]
pub(crate) fn base64_decode(text: &String) -> (bytes: Result<Vec<u8>, base64::DecodeError>)
    ensures
        match bytes {
            Ok(bytes) => base64_bytes(text@) == Some(bytes@),
            Err(_) => base64_bytes(text@).is_none(),
        },
{
    base64::decode(text)
}

} // verus!
