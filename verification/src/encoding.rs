use vstd::prelude::*;

use encoding_rs::Encoding;

verus! {

/// Whether the label names an encoding, the replacement encoding aside.
pub uninterp spec fn encoding_known(label: Seq<char>) -> bool;

/// The text that decoding the bytes under the labelled encoding yields.
pub uninterp spec fn decoded_text(label: Seq<char>, bytes: Seq<u8>) -> Seq<char>;

/// The bytes that encoding the text under the labelled encoding yields.
pub uninterp spec fn encoded_bytes(label: Seq<char>, text: Seq<char>) -> Seq<u8>;

/// Convert a byte string in the named encoding into text.
///
/// Relies on encoding_rs: `Encoding::for_label_no_replacement` recognises a
/// label or not by the label alone, and `Encoding::decode` yields a text
/// that depends on the encoding and the bytes alone.
#[verifier::external_body]
pub fn decode(text: &[u8], encoding: &String) -> (r: Result<String, String>)
    ensures
        r is Ok <==> encoding_known(encoding@),
        r is Ok ==> r->Ok_0@ == decoded_text(encoding@, text@),
        r is Err ==> r->Err_0@ == "Unsupported encoding: "@ + encoding@,
{
    let encoding = Encoding::for_label_no_replacement(encoding.as_bytes())
        .ok_or(format!("Unsupported encoding: {}", encoding))?;
    Ok(encoding.decode(text).0.into_owned())
}

/// Convert text into a byte string in the named encoding.
///
/// Relies on encoding_rs: `Encoding::for_label_no_replacement` recognises a
/// label or not by the label alone, and `Encoding::encode` yields bytes
/// that depend on the encoding and the text alone.
#[verifier::external_body]
pub fn encode(text: &str, encoding: &str) -> (r: Result<Vec<u8>, String>)
    ensures
        r is Ok <==> encoding_known(encoding@),
        r is Ok ==> r->Ok_0@ == encoded_bytes(encoding@, text@),
        r is Err ==> r->Err_0@ == "Unsupported encoding: "@ + encoding@,
{
    let encoding = Encoding::for_label_no_replacement(encoding.as_bytes())
        .ok_or(format!("Unsupported encoding: {}", encoding))?;
    Ok(encoding.encode(text).0.into_owned())
}

} // verus!
