//! PNG images sent back by the editor as `data:` URLs.
use vstd::prelude::*;
use vstd::string::*;

use base64::Engine;

verus! {

/// The bytes that standard base64 (with padding, no trailing bits) decodes
/// `text` to, or `None` where it is not valid base64.
pub uninterp spec fn base64_decoded(text: Seq<char>) -> Option<Seq<u8>>;

/// Relies on base64::engine::general_purpose::STANDARD's `decode`: the
/// decoded bytes, or an error for text that is not valid base64.
#[verifier::external_body]
fn decode_base64(text: &str) -> (r: Option<Vec<u8>>)
    ensures
        match r {
            Some(bytes) => base64_decoded(text@) == Some(bytes@),
            None => base64_decoded(text@) is None,
        },
{
    base64::engine::general_purpose::STANDARD.decode(text).ok()
}

/// The start of a base64-encoded PNG data URL.
pub open spec fn png_prefix() -> Seq<char> {
    "data:image/png;base64,"@
}

/// The PNG bytes of `data_url`: `None` unless it starts with the PNG data
/// URL prefix and the rest is valid base64.
pub fn png_bytes_of(data_url: &str) -> (r: Option<Vec<u8>>)
    ensures
        match r {
            Some(bytes) => data_url@.len() >= png_prefix().len() && data_url@.subrange(
                0,
                png_prefix().len() as int,
            ) == png_prefix() && base64_decoded(data_url@.subrange(png_prefix().len() as int, data_url@.len() as int))
                == Some(bytes@),
            None => !(data_url@.len() >= png_prefix().len() && data_url@.subrange(0, png_prefix().len() as int)
                == png_prefix()) || base64_decoded(
                data_url@.subrange(png_prefix().len() as int, data_url@.len() as int),
            ) is None,
        },
{
    let prefix = "data:image/png;base64,";
    let n = data_url.unicode_len();
    let p = prefix.unicode_len();
    assert(prefix@ == png_prefix());
    if n < p {
        return None;
    }
    let mut i: usize = 0;
    while i < p
        invariant
            i <= p,
            p == prefix@.len(),
            p <= n,
            n == data_url@.len(),
            prefix@ == png_prefix(),
            forall|j: int| 0 <= j < i ==> data_url@[j] == prefix@[j],
        decreases p - i,
    {
        if data_url.get_char(i) != prefix.get_char(i) {
            proof {
                assert(data_url@.subrange(0, p as int)[i as int] != prefix@[i as int]);
                assert(data_url@.subrange(0, p as int) != png_prefix());
            }
            return None;
        }
        i = i + 1;
    }
    assert(data_url@.subrange(0, p as int) =~= prefix@);
    let rest = data_url.substring_char(p, n);
    decode_base64(rest)
}

} // verus!
