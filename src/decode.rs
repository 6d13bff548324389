//! Decoding of byte strings (bookmark titles) whose character set is unknown.
use vstd::prelude::*;

verus! {

/// The name of the encoding that chardetng guesses for a complete byte stream.
pub uninterp spec fn guessed_label(bytes: Seq<u8>) -> Seq<char>;

/// Whether encoding_rs knows `label` as the label of an encoding.
pub uninterp spec fn known_label(label: Seq<char>) -> bool;

/// The text, and whether malformed sequences were met, when encoding_rs
/// decodes `bytes` with the encoding labelled `label`.
pub uninterp spec fn decoded(label: Seq<char>, bytes: Seq<u8>) -> (Seq<char>, bool);

/// A title that could not be decoded without error.
#[derive(Debug, Clone, Copy, PartialEq, Eq)]
pub struct DecodeError;

/// Relies on chardetng's `EncodingDetector`: a new detector fed the whole
/// stream at once (`feed(bytes, true)`), then asked for its `guess(None, true)`,
/// whose `Encoding::name` is returned. The guess depends on the bytes alone.
#[verifier::external_body]
fn guess_encoding_label(bytes: &[u8]) -> (r: String)
    ensures
        r@ == guessed_label(bytes@),
{
    let mut detector = chardetng::EncodingDetector::new();
    detector.feed(bytes, true);
    detector.guess(None, true).name().to_string()
}

/// Relies on `encoding_rs::Encoding::for_label` (`None` for a label that
/// names no encoding) and on `Encoding::decode` of the encoding found: the
/// decoded text and whether malformed sequences were replaced.
#[verifier::external_body]
fn decode_labelled(label: &str, bytes: &[u8]) -> (r: Option<(String, bool)>)
    ensures
        r is Some <==> known_label(label@),
        r matches Some(d) ==> d.0@ == decoded(label@, bytes@).0 && d.1 == decoded(
            label@,
            bytes@,
        ).1,
{
    match encoding_rs::Encoding::for_label(label.as_bytes()) {
        Some(encoding) => {
            let (text, _, malformed) = encoding.decode(bytes);
            Some((text.into_owned(), malformed))
        },
        None => None,
    }
}

/// The outcome of decoding: the text when decoding met no malformed sequence.
pub fn accept_decoded(text: String, malformed: bool) -> (r: Result<String, DecodeError>)
    ensures
        malformed ==> r is Err,
        !malformed ==> (r matches Ok(t) && t@ == text@),
{
    if malformed {
        Err(DecodeError)
    } else {
        Ok(text)
    }
}

/// Decodes `bytes` in the character set that detection guesses for them.
/// Fails when the guessed name labels no encoding or when decoding meets a
/// malformed sequence.
pub fn decode_str_to_utf8(bytes: &[u8]) -> (r: Result<String, DecodeError>)
    ensures
        r is Ok <==> known_label(guessed_label(bytes@)) && !decoded(
            guessed_label(bytes@),
            bytes@,
        ).1,
        r matches Ok(t) ==> t@ == decoded(guessed_label(bytes@), bytes@).0,
{
    let label = guess_encoding_label(bytes);
    match decode_labelled(label.as_str(), bytes) {
        Some((text, malformed)) => accept_decoded(text, malformed),
        None => Err(DecodeError),
    }
}

} // verus!
