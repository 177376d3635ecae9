//! Text out of bytes, and text in lower case.

use vstd::prelude::*;
use vstd::utf8::{decode_utf8, is_ascii_chars, valid_utf8};

verus! {

/// What `String::from_utf8_lossy` makes of bytes that are not valid UTF-8.
pub uninterp spec fn lossy_text(bytes: Seq<u8>) -> Seq<char>;

/// The text of `bytes`, with replacement characters where they are not valid UTF-8.
pub open spec fn decoded_of(bytes: Seq<u8>) -> Seq<char> {
    if valid_utf8(bytes) {
        decode_utf8(bytes)
    } else {
        lossy_text(bytes)
    }
}

/// The text of `bytes`: `String::from_utf8_lossy` of the standard library.
///
/// Valid UTF-8 gives the text that it encodes. Of other bytes it is only said that the same
/// bytes give the same text; where the replacement characters stand is not stated.
#[verifier::external_body]
pub(crate) fn decode(bytes: &[u8]) -> (r: String)
    ensures
        r@ == (if valid_utf8(bytes@) {
            decode_utf8(bytes@)
        } else {
            lossy_text(bytes@)
        }),
{
    String::from_utf8_lossy(bytes).into_owned()
}

/// What `str::to_lowercase` makes of text that is not ASCII.
pub uninterp spec fn unicode_lower(s: Seq<char>) -> Seq<char>;

/// The small letter for an ASCII capital, and every other character as it is.
pub open spec fn ascii_lower(c: char) -> char {
    if 'A' <= c <= 'Z' {
        (c as int + 32) as char
    } else {
        c
    }
}

/// `s` in lower case.
pub open spec fn lowered_of(s: Seq<char>) -> Seq<char> {
    if is_ascii_chars(s) {
        Seq::new(s.len(), |i: int| ascii_lower(s[i]))
    } else {
        unicode_lower(s)
    }
}

/// `s` in lower case: `str::to_lowercase` of the standard library.
///
/// In ASCII text each capital becomes its small letter. Of other text it is only said that the
/// same text gives the same result; Unicode's rules for it are not stated.
#[verifier::external_body]
pub(crate) fn lower(s: &str) -> (r: String)
    ensures
        r@ == (if is_ascii_chars(s@) {
            Seq::new(s@.len(), |i: int| ascii_lower(s@[i]))
        } else {
            unicode_lower(s@)
        }),
{
    s.to_lowercase()
}

/// Whether two characters are the same, or the small and the capital form of one letter.
pub open spec fn same_letter(a: char, b: char) -> bool {
    ||| a == b
    ||| 'a' <= a <= 'z' && b as int == a as int - 32
    ||| 'a' <= b <= 'z' && a as int == b as int - 32
}

/// Plain text in lower case has no capital letters, and is the same text otherwise; texts that
/// differ in capital letters alone are the same in lower case.
pub proof fn law_lower_case(a: Seq<char>, b: Seq<char>)
    requires
        is_ascii_chars(a),
        is_ascii_chars(b),
        a.len() == b.len(),
        forall|i: int| 0 <= i < a.len() ==> same_letter(#[trigger] a[i], #[trigger] b[i]),
    ensures
        lowered_of(a) == lowered_of(b),
        lowered_of(a).len() == a.len(),
        forall|i: int|
            0 <= i < a.len() ==> same_letter(a[i], #[trigger] lowered_of(a)[i]) && !('A'
                <= lowered_of(a)[i] <= 'Z'),
{
    assert forall|i: int| 0 <= i < a.len() implies ascii_lower(#[trigger] a[i]) == ascii_lower(
        #[trigger] b[i],
    ) by {
        assert(same_letter(a[i], b[i]));
    }
    assert(lowered_of(a) =~= lowered_of(b));
}

} // verus!
