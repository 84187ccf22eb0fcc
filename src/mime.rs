//! Content-type selection by magic-byte sniffing.

use vstd::prelude::*;
use vstd::slice::*;
use vstd::string::*;

verus! {

/// How many leading bytes of a file the sniffer looks at.
pub const SNIFF_LIMIT: usize = 8192;

/// The MIME type that infer's matchers find in a byte buffer, if any.
pub uninterp spec fn sniffed_type(b: Seq<u8>) -> Option<Seq<char>>;

/// Relies on `infer::get`: the first matching file type's MIME name, or
/// `None` when no matcher recognizes the bytes.
#[verifier::external_body]
fn infer_mime(b: &[u8]) -> (r: Option<String>)
    ensures
        match r {
            Some(m) => sniffed_type(b@) == Some(m@),
            None => sniffed_type(b@) is None,
        },
{
    infer::get(b).map(|t| t.mime_type().to_string())
}

/// The fallback type for bytes that nothing recognizes.
pub open spec fn octet_stream() -> Seq<char> {
    "application/octet-stream"@
}

/// The type to send for a sniffing result: the sniffed type, or the fallback.
pub open spec fn type_or_default(sniffed: Option<Seq<char>>) -> Seq<char> {
    match sniffed {
        Some(m) => m,
        None => octet_stream(),
    }
}

/// The part of a file the sniffer reads: at most its first `SNIFF_LIMIT` bytes.
pub open spec fn sniff_window(content: Seq<u8>) -> Seq<u8> {
    if content.len() <= SNIFF_LIMIT {
        content
    } else {
        content.take(SNIFF_LIMIT as int)
    }
}

/// The content type of a file with these bytes.
pub open spec fn content_type_spec(content: Seq<u8>) -> Seq<char> {
    type_or_default(sniffed_type(sniff_window(content)))
}

/// Picks the sniffed type, or `application/octet-stream` when there is none.
pub fn mime_or_default(sniffed: Option<String>) -> (r: String)
    ensures
        r@ == type_or_default(
            match sniffed {
                Some(m) => Some(m@),
                None => None,
            },
        ),
{
    match sniffed {
        Some(m) => m,
        None => String::from_str("application/octet-stream"),
    }
}

/// The content type of a file, inferred from its leading bytes.
pub fn content_type_of(content: &[u8]) -> (r: String)
    ensures
        r@ == content_type_spec(content@),
{
    let window = if content.len() <= SNIFF_LIMIT {
        content
    } else {
        slice_subrange(content, 0, SNIFF_LIMIT)
    };
    assert(window@ =~= sniff_window(content@));
    mime_or_default(infer_mime(window))
}

} // verus!
