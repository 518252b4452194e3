//! Text from bytes and from UTF-16 code units.

use vstd::prelude::*;
use vstd::utf8::{decode_utf8, is_scalar, valid_utf8};

verus! {

/// `String::push` appends one character to the end of the string.
pub assume_specification[ String::push ](text: &mut String, ch: char)
    ensures
        final(text)@ == old(text)@.push(ch),
;

/// `String::from_utf8` turns bytes into the string that they encode. It gives
/// a string exactly when all of the bytes are well-formed UTF-8, and the string
/// then holds the characters that the bytes decode to.
#[verifier::external_body]
pub(crate) fn string_from_utf8(bytes: Vec<u8>) -> (result: Option<String>)
    ensures
        result is Some <==> valid_utf8(bytes@),
        result matches Some(text) ==> text@ == decode_utf8(bytes@),
{
    match String::from_utf8(bytes) {
        Ok(text) => Some(text),
        Err(_) => None,
    }
}

/// `char::from_u32` gives the character with the number `value`. There is one
/// exactly when `value` is a Unicode scalar value: at most `0x10FFFF` and no
/// surrogate.
#[verifier::external_body]
pub(crate) fn char_from_u32(value: u32) -> (result: Option<char>)
    ensures
        result is Some <==> is_scalar(value),
        result matches Some(ch) ==> ch as u32 == value,
{
    char::from_u32(value)
}

/// The text `text` in upper case, as Unicode defines it character by
/// character.
pub uninterp spec fn uppercase(text: Seq<char>) -> Seq<char>;

/// `str::to_uppercase` gives the upper-case equivalent of the text as a new
/// string. The result depends on the characters alone.
#[verifier::external_body]
pub(crate) fn to_uppercase(text: &str) -> (result: String)
    ensures
        result@ == uppercase(text@),
{
    text.to_uppercase()
}

/// Whether two texts hold the same characters.
pub fn same_text(left: &str, right: &str) -> (result: bool)
    ensures
        result == (left@ == right@),
{
    let a = left.as_bytes();
    let b = right.as_bytes();
    proof {
        vstd::utf8::encode_utf8_decode_utf8(left@);
        vstd::utf8::encode_utf8_decode_utf8(right@);
    }
    if a.len() != b.len() {
        return false;
    }
    let mut i: usize = 0;
    while i < a.len()
        invariant
            a@ == vstd::utf8::encode_utf8(left@),
            b@ == vstd::utf8::encode_utf8(right@),
            a.len() == b.len(),
            i <= a.len(),
            forall|k: int| 0 <= k < i ==> a@[k] == b@[k],
        decreases a.len() - i,
    {
        if a[i] != b[i] {
            return false;
        }
        i = i + 1;
    }
    assert(a@ =~= b@);
    true
}

/// The character that stands in for a code unit that cannot be decoded.
pub open spec fn replacement_character() -> char {
    '\u{FFFD}'
}

/// A code unit that is the first half of a surrogate pair.
pub open spec fn is_high_surrogate(unit: u16) -> bool {
    0xD800 <= unit <= 0xDBFF
}

/// A code unit that is the second half of a surrogate pair.
pub open spec fn is_low_surrogate(unit: u16) -> bool {
    0xDC00 <= unit <= 0xDFFF
}

/// The scalar value that the surrogate pair `high`, `low` encodes.
pub open spec fn surrogate_pair_scalar(high: u16, low: u16) -> int {
    0x10000 + (high - 0xD800) * 0x400 + (low - 0xDC00)
}

/// The text that the UTF-16 code units from index `from` on encode. A high
/// surrogate and the low surrogate after it make one character; any other
/// surrogate is unpaired and becomes the replacement character; every other
/// unit is the character of that number.
pub open spec fn utf16_text(units: Seq<u16>, from: int) -> Seq<char>
    decreases units.len() - from,
{
    if from < 0 || from >= units.len() {
        Seq::empty()
    } else if is_high_surrogate(units[from]) && from + 1 < units.len() && is_low_surrogate(
        units[from + 1],
    ) {
        seq![surrogate_pair_scalar(units[from], units[from + 1]) as char] + utf16_text(
            units,
            from + 2,
        )
    } else if is_high_surrogate(units[from]) || is_low_surrogate(units[from]) {
        seq![replacement_character()] + utf16_text(units, from + 1)
    } else {
        seq![units[from] as char] + utf16_text(units, from + 1)
    }
}

/// The character with the number `scalar`, which is a scalar value.
fn scalar_char(scalar: u32) -> (ch: char)
    requires
        is_scalar(scalar),
    ensures
        ch == scalar as char,
{
    match char_from_u32(scalar) {
        Some(ch) => {
            proof {
                vstd::utf8::char_u32_cast(ch, scalar);
            }
            ch
        },
        None => '\u{FFFD}',
    }
}

/// Decodes UTF-16 code units into text, with the replacement character in
/// place of each unpaired surrogate.
pub fn decode_utf16(units: &Vec<u16>) -> (text: String)
    ensures
        text@ == utf16_text(units@, 0),
{
    let mut text = String::new();
    let mut i: usize = 0;
    while i < units.len()
        invariant
            i <= units.len(),
            utf16_text(units@, 0) == text@ + utf16_text(units@, i as int),
        decreases units.len() - i,
    {
        let unit: u16 = units[i];
        let ghost before = text@;
        let ch: char;
        let next: usize;
        if 0xD800 <= unit && unit <= 0xDBFF && i + 1 < units.len() && 0xDC00 <= units[i + 1]
            && units[i + 1] <= 0xDFFF {
            let low: u16 = units[i + 1];
            ch = scalar_char(0x10000 + ((unit - 0xD800) as u32) * 0x400 + ((low - 0xDC00) as u32));
            next = i + 2;
        } else if 0xD800 <= unit && unit <= 0xDFFF {
            ch = '\u{FFFD}';
            next = i + 1;
        } else {
            ch = scalar_char(unit as u32);
            next = i + 1;
        }
        proof {
            let rest = utf16_text(units@, next as int);
            assert(utf16_text(units@, i as int) == seq![ch] + rest);
            assert(before + (seq![ch] + rest) =~= before.push(ch) + rest);
        }
        text.push(ch);
        i = next;
    }
    assert(utf16_text(units@, i as int) =~= Seq::<char>::empty());
    text
}

} // verus!
