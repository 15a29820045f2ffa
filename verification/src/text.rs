//! Decoding bytes into text.  Request-line tokens and header names and
//! values are interpreted as UTF-8 text; bytes that are not valid UTF-8
//! degrade to the empty string rather than failing the parse.

use vstd::prelude::*;
use vstd::string::StringSliceAdditionalSpecFns;
use vstd::utf8::{decode_utf8, encode_utf8, valid_utf8};

verus! {

/// The text that a byte sequence stands for: its UTF-8 decoding when it is
/// valid UTF-8, and the empty string otherwise.
pub open spec fn spec_bytes_as_str(data: Seq<u8>) -> Seq<char> {
    if valid_utf8(data) {
        decode_utf8(data)
    } else {
        Seq::empty()
    }
}

/// Relies on `str::from_utf8`: it returns `Ok` exactly when the bytes are
/// valid UTF-8, and the returned `&str` is the decoding of those bytes.
#[verifier::external_body]
fn try_utf8<'a>(data: &'a [u8]) -> (r: Option<&'a str>)
    ensures
        r is Some <==> valid_utf8(data@),
        r matches Some(s) ==> s@ == decode_utf8(data@),
{
    core::str::from_utf8(data).ok()
}

/// The bytes read as UTF-8 text, or the empty string when they are not
/// valid UTF-8.
pub fn bytes_as_str<'a>(data: &'a [u8]) -> (r: &'a str)
    ensures
        r@ == spec_bytes_as_str(data@),
{
    match try_utf8(data) {
        Some(s) => s,
        None => {
            proof {
                reveal_strlit("");
            }
            ""
        },
    }
}

/// UTF-8 encoding is injective: equal encodings come from equal texts.
pub proof fn lemma_encode_utf8_injective(a: Seq<char>, b: Seq<char>)
    requires
        encode_utf8(a) == encode_utf8(b),
    ensures
        a == b,
{
    vstd::utf8::encode_utf8_decode_utf8(a);
    vstd::utf8::encode_utf8_decode_utf8(b);
}

/// Whether two byte slices hold the same bytes.
pub fn bytes_eq(a: &[u8], b: &[u8]) -> (r: bool)
    ensures
        r == (a@ == b@),
{
    let n = a.len();
    if n != b.len() {
        proof {
            assert(a@ != b@);
        }
        return false;
    }
    let mut i: usize = 0;
    while i < n
        invariant
            0 <= i <= n,
            n == a@.len(),
            n == b@.len(),
            forall|j: int| 0 <= j < i ==> a@[j] == b@[j],
        decreases n - i,
    {
        if a[i] != b[i] {
            return false;
        }
        i = i + 1;
    }
    proof {
        assert(a@ =~= b@);
    }
    true
}

/// Whether two strings hold the same text, decided by comparing their
/// UTF-8 bytes.
pub fn str_eq(a: &str, b: &str) -> (r: bool)
    ensures
        r == (a@ == b@),
{
    let r = bytes_eq(a.as_bytes(), b.as_bytes());
    proof {
        if a.spec_bytes() == b.spec_bytes() {
            lemma_encode_utf8_injective(a@, b@);
        }
    }
    r
}

} // verus!
