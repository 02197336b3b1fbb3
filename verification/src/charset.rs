//! Character encodings, by way of the `encoding` crate.
//!
//! An encoding is known to this crate by a label of the WHATWG Encoding
//! standard that selects it. What a label selects, and what the bytes of a
//! text in that encoding decode to, is for the `encoding` crate to say.

use vstd::prelude::*;

verus! {

/// The name of the encoding that `label` selects, as
/// `encoding::label::encoding_from_whatwg_label` and the encoding's `name`
/// give it. There is none where the label selects no encoding.
pub uninterp spec fn encoding_name(label: Seq<char>) -> Option<Seq<char>>;

/// The text that `data` decodes to in the encoding that `label` selects.
/// There is none where the label selects no encoding, and none where `data`
/// is no text in that encoding.
pub uninterp spec fn decoded(label: Seq<char>, data: Seq<u8>) -> Option<Seq<char>>;

/// The model of a string that may be missing.
pub open spec fn string_or_none(s: Option<String>) -> Option<Seq<char>> {
    match s {
        Some(s) => Some(s@),
        None => None,
    }
}

/// Calls `encoding::label::encoding_from_whatwg_label` and takes the `name`
/// of the encoding found. The contract claims only that the result is a
/// function of the label, named [`encoding_name`].
#[verifier::external_body]
pub(crate) fn name_of_label(label: &str) -> (r: Option<String>)
    ensures
        string_or_none(r) == encoding_name(label@),
{
    match encoding::label::encoding_from_whatwg_label(label) {
        Some(e) => Some(e.name().to_string()),
        None => None,
    }
}

/// Calls `encoding::label::encoding_from_whatwg_label` and, on the encoding
/// found, `decode` with `DecoderTrap::Strict`. The contract claims only that
/// the result is a function of the label and the bytes, named [`decoded`]; a
/// label that selects nothing and bytes that do not decode both give `None`.
#[verifier::external_body]
pub(crate) fn decode_strictly(label: &str, data: &[u8]) -> (r: Option<String>)
    ensures
        string_or_none(r) == decoded(label@, data@),
{
    match encoding::label::encoding_from_whatwg_label(label) {
        Some(e) => e.decode(data, encoding::DecoderTrap::Strict).ok(),
        None => None,
    }
}

} // verus!
