//! Lists of texts as MessagePack bytes, by the `rmp_serde` crate.
//!
//! The format is the crate's own. The verifier knows the bytes of a list only
//! by name, and likewise the list that bytes decode to.

use vstd::prelude::*;

verus! {

/// `rmp_serde::encode::Error`, why a list could not be written.
#[verifier::external_type_specification]
#[verifier::external_body]
pub struct ExEncodeError(rmp_serde::encode::Error);

/// `rmp_serde::decode::Error`, why bytes could not be read as a list.
#[verifier::external_type_specification]
#[verifier::external_body]
pub struct ExDecodeError(rmp_serde::decode::Error);

/// The texts of a list of strings.
pub open spec fn texts_of(strings: Seq<String>) -> Seq<Seq<char>> {
    strings.map_values(|s: String| s@)
}

/// The bytes that `rmp_serde::encode::write` writes for a list of texts.
pub uninterp spec fn packed(texts: Seq<Seq<char>>) -> Seq<u8>;

/// The list of texts that `rmp_serde::decode::from_read` reads from the
/// front of `bytes`, where it reads one.
pub uninterp spec fn unpacked(bytes: Seq<u8>) -> Option<Seq<Seq<char>>>;

/// `rmp_serde::encode::write` into a fresh vector: the list as one
/// MessagePack array of strings. The crate fails here only where the writer
/// does, and a vector takes every byte, so the bytes are always there.
#[verifier::external_body]
pub(crate) fn pack(texts: &Vec<String>) -> (bytes: Result<Vec<u8>, rmp_serde::encode::Error>)
    ensures
        bytes is Ok,
        bytes matches Ok(b) ==> b@ == packed(texts_of(texts@)),
{
    let mut bytes: Vec<u8> = Vec::new();
    match rmp_serde::encode::write(&mut bytes, texts) {
        Ok(()) => Ok(bytes),
        Err(e) => Err(e),
    }
}

/// `rmp_serde::decode::from_read` on the bytes: the list of strings that
/// they begin with, or the crate's error where they begin with none.
#[verifier::external_body]
pub(crate) fn unpack(bytes: &Vec<u8>) -> (texts: Result<Vec<String>, rmp_serde::decode::Error>)
    ensures
        texts matches Ok(t) ==> unpacked(bytes@) == Some(texts_of(t@)),
        texts is Err ==> unpacked(bytes@) is None,
{
    rmp_serde::decode::from_read(bytes.as_slice())
}

} // verus!
