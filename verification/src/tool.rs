//! The content blocks a successful tool call returns.
use vstd::prelude::*;

verus! {

/// One block of a tool result.
pub enum ContentBlock {
    Text(String),
    /// Base64-encoded image data with its MIME type.
    Image { data: String, mime_type: &'static str },
}

/// Standard base64 (RFC 4648 alphabet, padded) of the bytes.
pub uninterp spec fn base64_standard(bytes: Seq<u8>) -> Seq<char>;

/// Calls `base64::Engine::encode` on the `STANDARD` engine; the result is
/// named by `base64_standard`.  `encode` panics only when the encoded length
/// overflows `usize`, which no input of at most `isize::MAX` bytes (the most
/// any allocation can hold) reaches.
#[verifier::external_body]
fn encode_base64(bytes: &[u8]) -> (r: String)
    requires
        bytes@.len() <= isize::MAX,
    ensures
        r@ == base64_standard(bytes@),
{
    base64::Engine::encode(&base64::engine::general_purpose::STANDARD, bytes)
}

/// The content of a successful result: the JSON text first, then the PNG
/// image, base64-encoded, when there is one.
pub fn tool_content(text: String, png: Option<Vec<u8>>) -> (r: Vec<ContentBlock>)
    requires
        png matches Some(p) ==> p@.len() <= isize::MAX,
    ensures
        r@.len() == (if png is Some { 2int } else { 1int }),
        r@[0] matches ContentBlock::Text(t) && t@ == text@,
        png matches Some(p) ==> (r@[1] matches ContentBlock::Image { data, mime_type } && data@
            == base64_standard(p@) && mime_type@ == "image/png"@),
{
    let mut content: Vec<ContentBlock> = Vec::new();
    content.push(ContentBlock::Text(text));
    if let Some(p) = png {
        let data = encode_base64(p.as_slice());
        content.push(ContentBlock::Image { data, mime_type: "image/png" });
    }
    content
}

} // verus!
