//! Lowercasing, as the standard library does it.

use vstd::prelude::*;
use vstd::utf8::encode_utf8;

verus! {

/// The lowercase form of `text` under the Unicode case mapping that
/// `str::to_lowercase` applies. The mapping is a fixed table, too long to spell
/// out, so it is known here by name only.
pub uninterp spec fn lowercased(text: Seq<char>) -> Seq<char>;

/// `str::to_lowercase` returns a new string that holds the lowercase form of
/// the text it is called on. Nothing is proved of this; it is what the standard
/// library documents.
pub assume_specification[ str::to_lowercase ](text: &str) -> (lower: String)
    ensures
        lower@ == lowercased(text@),
;

/// The bytes that n-grams are cut from: the UTF-8 encoding of the lowercase
/// form of `text`.
pub open spec fn lowered_bytes(text: Seq<char>) -> Seq<u8> {
    encode_utf8(lowercased(text))
}

} // verus!
