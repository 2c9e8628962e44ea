//! UTF-8 text checks used when decompressed bytes are not MessagePack.
use vstd::prelude::*;
use vstd::string::StrSliceExecFns;
use vstd::utf8::{decode_utf8, valid_utf8};

verus! {

/// Relies on `String::from_utf8`: it succeeds exactly on valid UTF-8 and
/// then holds the decoded characters.
#[verifier::external_body]
pub(crate) fn utf8_text(bytes: &[u8]) -> (r: Option<String>)
    ensures
        r is Some <==> valid_utf8(bytes@),
        r matches Some(s) ==> s@ == decode_utf8(bytes@),
{
    String::from_utf8(bytes.to_vec()).ok()
}

/// A control character: general category Cc, U+0000 to U+001F and U+007F
/// to U+009F.
pub open spec fn is_control_char(c: char) -> bool {
    (c as u32) <= 0x1f || (0x7f <= (c as u32) && (c as u32) <= 0x9f)
}

/// A character with the Unicode `White_Space` property.
pub open spec fn is_white_space(c: char) -> bool {
    let u = c as u32;
    (0x09 <= u && u <= 0x0d) || u == 0x20 || u == 0x85 || u == 0xa0 || u == 0x1680 || (0x2000 <= u
        && u <= 0x200a) || u == 0x2028 || u == 0x2029 || u == 0x202f || u == 0x205f || u == 0x3000
}

/// The text holds a character that is not a control character.
pub open spec fn has_visible_char(t: Seq<char>) -> bool {
    exists|i: int| 0 <= i < t.len() && !is_control_char(#[trigger] t[i])
}

/// Position of the first character from `i` on that is not white space.
pub open spec fn first_non_space(t: Seq<char>, i: nat) -> Option<nat>
    decreases t.len() - i,
{
    if i >= t.len() {
        None
    } else if !is_white_space(t[i as int]) {
        Some(i)
    } else {
        first_non_space(t, i + 1)
    }
}

/// Once surrounding white space is trimmed, the text starts with `{` or `[`.
pub open spec fn looks_like_json(t: Seq<char>) -> bool {
    match first_non_space(t, 0) {
        Some(i) => t[i as int] == '{' || t[i as int] == '[',
        None => false,
    }
}

fn control_char(c: char) -> (b: bool)
    ensures
        b == is_control_char(c),
{
    let u = c as u32;
    u <= 0x1f || (0x7f <= u && u <= 0x9f)
}

fn white_space(c: char) -> (b: bool)
    ensures
        b == is_white_space(c),
{
    let u = c as u32;
    (0x09 <= u && u <= 0x0d) || u == 0x20 || u == 0x85 || u == 0xa0 || u == 0x1680 || (0x2000 <= u
        && u <= 0x200a) || u == 0x2028 || u == 0x2029 || u == 0x202f || u == 0x205f || u == 0x3000
}

/// Whether the text holds a character that is not a control character.
pub fn contains_visible_char(s: &str) -> (b: bool)
    ensures
        b == has_visible_char(s@),
{
    let n = s.unicode_len();
    let mut i: usize = 0;
    while i < n
        invariant
            n == s@.len(),
            i <= n,
            forall|k: int| 0 <= k < i ==> is_control_char(#[trigger] s@[k]),
        decreases n - i,
    {
        if !control_char(s.get_char(i)) {
            return true;
        }
        i = i + 1;
    }
    false
}

/// Whether the trimmed text starts with `{` or `[`.
pub fn starts_like_json(s: &str) -> (b: bool)
    ensures
        b == looks_like_json(s@),
{
    let n = s.unicode_len();
    let mut i: usize = 0;
    while i < n
        invariant
            n == s@.len(),
            i <= n,
            first_non_space(s@, 0) == first_non_space(s@, i as nat),
        decreases n - i,
    {
        let c = s.get_char(i);
        if !white_space(c) {
            return c == '{' || c == '[';
        }
        i = i + 1;
    }
    false
}

} // verus!
