//! Turning bytes into text, and telling files apart by their bytes.
use encoding_rs::GBK;
use vstd::prelude::*;
use vstd::utf8::{decode_utf8, valid_utf8};

verus! {

/// Calls `std::str::from_utf8`: bytes that are UTF-8 as the text that they encode.
#[verifier::external_body]
pub(crate) fn utf8_text(bytes: &[u8]) -> (text: Option<String>)
    ensures
        match text {
            Some(decoded) => valid_utf8(bytes@) && decoded@ == decode_utf8(bytes@),
            None => !valid_utf8(bytes@),
        },
{
    std::str::from_utf8(bytes).ok().map(|text| text.to_owned())
}

/// Bytes as text, with replacement characters for what is no UTF-8.
pub uninterp spec fn lossy_text(bytes: Seq<u8>) -> Seq<char>;

/// Calls `String::from_utf8_lossy`, which changes nothing in bytes that are UTF-8.
#[verifier::external_body]
pub(crate) fn lossy_text_of(bytes: &[u8]) -> (text: String)
    ensures
        text@ == lossy_text(bytes@),
        valid_utf8(bytes@) ==> text@ == decode_utf8(bytes@),
{
    String::from_utf8_lossy(bytes).into_owned()
}

/// Bytes decoded as GB18030, and whether any of them were malformed.
pub uninterp spec fn gbk_text(bytes: Seq<u8>) -> (Seq<char>, bool);

/// Calls `encoding_rs::GBK.decode`, which decodes the bytes after a byte order mark as the
/// mark says, and replaces what is malformed. The call panics where the size of its buffer,
/// of about three times the bytes, is beyond what can be allocated.
#[verifier::external_body]
pub(crate) fn gbk_text_of(bytes: &[u8]) -> (text: (String, bool))
    requires
        bytes@.len() <= usize::MAX / 16,
    ensures
        (text.0@, text.1) == gbk_text(bytes@),
{
    let (text, _, had_errors) = GBK.decode(bytes);
    (text.into_owned(), had_errors)
}

/// The fingerprint of a file.
pub uninterp spec fn blake3_hex(bytes: Seq<u8>) -> Seq<char>;

/// Calls `blake3::hash` and `Hash::to_hex`.
#[verifier::external_body]
pub(crate) fn blake3_hex_of(bytes: &[u8]) -> (hex: String)
    ensures
        hex@ == blake3_hex(bytes@),
        hex@.len() == 64,
{
    blake3::hash(bytes).to_hex().to_string()
}

} // verus!
