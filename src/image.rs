//! The escape sequence that shows an image inline in the terminal.
use vstd::prelude::*;
use base64::Engine;
use crate::pdf::PdfSize;
use crate::text::{decimal, decimal_string, signed_decimal, signed_decimal_string};

verus! {

/// The standard, padded Base64 encoding of `bytes`.
pub uninterp spec fn base64_of(bytes: Seq<u8>) -> Seq<char>;

/// Relies on base64's `general_purpose::STANDARD` engine and `Engine::encode`:
/// the standard-alphabet encoding with padding, a function of the bytes alone.
#[verifier::external_body]
fn base64_standard(bytes: &[u8]) -> (r: String)
    ensures
        r@ == base64_of(bytes@),
{
    base64::engine::general_purpose::STANDARD.encode(bytes)
}

/// The inline-image sequence for `data` drawn at `width` by `height` pixels:
/// its size, its dimensions, and its Base64 body, without moving the cursor.
pub open spec fn inline_image_of(data: Seq<u8>, width: int, height: int) -> Seq<char> {
    "\x1b]1337;File=inline=1;size="@ + decimal(data.len()) + ";width="@ + signed_decimal(width) + "px;height="@
        + signed_decimal(height) + "px;doNotMoveCursor=1:"@ + base64_of(data) + "\x07"@
}

/// The escape sequence that displays `image_data` at the size `pdf_size` gives.
pub fn inline_image_sequence(image_data: &[u8], pdf_size: &PdfSize) -> (r: String)
    ensures
        r@ == inline_image_of(image_data@, pdf_size.width as int, pdf_size.height as int),
{
    let size = decimal_string(image_data.len() as u64);
    let width = signed_decimal_string(pdf_size.width());
    let height = signed_decimal_string(pdf_size.height());
    let body = base64_standard(image_data);
    let r = String::from_str("\x1b]1337;File=inline=1;size=").concat(size.as_str()).concat(";width=").concat(
        width.as_str(),
    ).concat("px;height=").concat(height.as_str()).concat("px;doNotMoveCursor=1:").concat(body.as_str()).concat(
        "\x07",
    );
    r
}

} // verus!
