//! Manifest keys. A repository identity, `host:user/repo`, is kept in the
//! manifest as the unpadded base 32 text of its UTF-8 bytes.

use vstd::prelude::*;
use vstd::utf8::{
    decode_utf8, encode_utf8, encode_utf8_decode_utf8, encode_utf8_valid_utf8, valid_utf8,
};

verus! {

/// The base 32 text of `data`: RFC 4648 alphabet, no padding.
pub uninterp spec fn base32_text(data: Seq<u8>) -> Seq<char>;

/// The bytes that a base 32 text stands for, where it stands for any.
pub uninterp spec fn base32_data(text: Seq<char>) -> Option<Seq<u8>>;

/// `base32::encode` with the unpadded RFC 4648 alphabet. The result is
/// named [`base32_text`]; decoding it gives the bytes back.
#[verifier::external_body]
fn base32_encode(data: &[u8]) -> (text: String)
    ensures
        text@ == base32_text(data@),
        base32_data(text@) == Some(data@),
{
    base32::encode(base32::Alphabet::RFC4648 { padding: false }, data)
}

/// `base32::decode` with the unpadded RFC 4648 alphabet. The result is
/// named [`base32_data`].
#[verifier::external_body]
fn base32_decode(text: &str) -> (data: Option<Vec<u8>>)
    ensures
        match data {
            Some(bytes) => base32_data(text@) == Some(bytes@),
            None => base32_data(text@) is None,
        },
{
    base32::decode(base32::Alphabet::RFC4648 { padding: false }, text)
}

/// `String::from_utf8` of std: the text that the bytes encode, where they
/// are valid UTF-8.
#[verifier::external_body]
fn text_from_utf8(bytes: Vec<u8>) -> (text: Option<String>)
    ensures
        text is Some <==> valid_utf8(bytes@),
        text matches Some(t) ==> t@ == decode_utf8(bytes@),
{
    String::from_utf8(bytes).ok()
}

/// The manifest key of an identity.
pub open spec fn entry_of(identity: Seq<char>) -> Seq<char> {
    base32_text(encode_utf8(identity))
}

/// Why a manifest key stands for no identity.
#[derive(Debug, Clone, Copy, PartialEq, Eq, Structural)]
pub enum EntryFault {
    /// The key is no base 32 text.
    NotBase32,
    /// The bytes under the key are no UTF-8 text.
    NotUtf8,
}

/// The identity that a manifest key stands for.
pub open spec fn identity_of(entry: Seq<char>) -> Result<Seq<char>, EntryFault> {
    match base32_data(entry) {
        Some(bytes) => if valid_utf8(bytes) {
            Ok(decode_utf8(bytes))
        } else {
            Err(EntryFault::NotUtf8)
        },
        None => Err(EntryFault::NotBase32),
    }
}

/// The manifest key of `identity`. The key stands for that identity again.
pub fn encode_entry(identity: &str) -> (entry: String)
    ensures
        entry@ == entry_of(identity@),
        identity_of(entry@) == Ok::<Seq<char>, EntryFault>(identity@),
{
    proof {
        encode_utf8_valid_utf8(identity@);
        encode_utf8_decode_utf8(identity@);
    }
    base32_encode(identity.as_bytes())
}

/// The identity that the manifest key `entry` stands for.
pub fn decode_entry(entry: &str) -> (identity: Result<String, EntryFault>)
    ensures
        match identity_of(entry@) {
            Ok(text) => identity matches Ok(found) && found@ == text,
            Err(fault) => identity == Err::<String, EntryFault>(fault),
        },
{
    match base32_decode(entry) {
        Some(bytes) => match text_from_utf8(bytes) {
            Some(text) => Ok(text),
            None => Err(EntryFault::NotUtf8),
        },
        None => Err(EntryFault::NotBase32),
    }
}

} // verus!
