//! Text from std: what the library believes of the std functions it calls.

use vstd::prelude::*;
use vstd::utf8;

verus! {

/// `String::push` appends one character.
pub assume_specification[ String::push ](s: &mut String, c: char)
    ensures
        final(s)@ == old(s)@.push(c),
;

/// `char::from_u32` gives the character with that code point, and `None` for
/// a surrogate or a number past the last code point.
pub assume_specification[ char::from_u32 ](i: u32) -> (r: Option<char>)
    ensures
        r == (if i < 0xD800 || (0xE000 <= i && i <= 0x10FFFF) {
            Some(i as char)
        } else {
            None::<char>
        }),
;

/// `core::str::from_utf8` followed by a copy into a `String`: succeeds exactly
/// on well-formed UTF-8, and the text is then the one those bytes encode.
#[verifier::external_body]
pub(crate) fn utf8_text(b: &[u8]) -> (r: Option<String>)
    ensures
        r is Some <==> utf8::valid_utf8(b@),
        r is Some ==> r->Some_0@ == utf8::decode_utf8(b@),
{
    match core::str::from_utf8(b) {
        Ok(s) => Some(s.to_owned()),
        Err(_) => None,
    }
}

/// The text that `String::from_utf8_lossy` makes of bytes.
pub uninterp spec fn lossy(b: Seq<u8>) -> Seq<char>;

/// [`lossy`], with what is known of it: well-formed UTF-8 stays as it is.
pub open spec fn readable(b: Seq<u8>) -> Seq<char> {
    if utf8::valid_utf8(b) {
        utf8::decode_utf8(b)
    } else {
        lossy(b)
    }
}

/// `String::from_utf8_lossy`: a function of the bytes alone, and on
/// well-formed UTF-8 the text those bytes encode.
#[verifier::external_body]
pub(crate) fn lossy_text(b: &[u8]) -> (r: String)
    ensures
        r@ == (if utf8::valid_utf8(b@) {
            utf8::decode_utf8(b@)
        } else {
            lossy(b@)
        }),
{
    String::from_utf8_lossy(b).into_owned()
}

/// Text that is well formed is read as it is.
pub proof fn law_readable(b: Seq<u8>)
    requires
        utf8::valid_utf8(b),
    ensures
        readable(b) == utf8::decode_utf8(b),
{
}

} // verus!
