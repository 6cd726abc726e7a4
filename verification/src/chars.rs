//! Character classes used by the tag grammar, and case-insensitive
//! comparison of tag names.

use vstd::prelude::*;

verus! {

/// A character valid in an attribute name. The exclusion set follows the
/// HTML attribute-name grammar: the C1 control block together with DELETE
/// (U+007F through U+009F), the space, the two quote characters, `>`, `/`,
/// `=`, and the Unicode noncharacters (U+FDD0 through U+FDEF and the final
/// two code points of every plane).
pub open spec fn is_attr_name_char(c: char) -> bool {
    let u = c as u32;
    !((0x7F <= u && u <= 0x9F) || u == 0x20 || u == 0x22 || u == 0x27 || u == 0x3E || u == 0x2F
        || u == 0x3D || (0xFDD0 <= u && u <= 0xFDEF) || u % 0x10000 >= 0xFFFE)
}

/// Executable form of [`is_attr_name_char`].
pub fn attr_name_char(c: char) -> (r: bool)
    ensures
        r == is_attr_name_char(c),
{
    let u = c as u32;
    !((0x7F <= u && u <= 0x9F) || u == 0x20 || u == 0x22 || u == 0x27 || u == 0x3E || u == 0x2F
        || u == 0x3D || (0xFDD0 <= u && u <= 0xFDEF) || u % 0x10000 >= 0xFFFE)
}

/// ASCII whitespace: space, tab, line feed, form feed, carriage return.
pub open spec fn is_ascii_ws(c: char) -> bool {
    c == ' ' || c == '\t' || c == '\n' || c == '\u{000C}' || c == '\r'
}

/// Executable form of [`is_ascii_ws`].
pub fn ascii_ws(c: char) -> (r: bool)
    ensures
        r == is_ascii_ws(c),
{
    c == ' ' || c == '\t' || c == '\n' || c == '\u{000C}' || c == '\r'
}

/// A character that ends the name of a start tag: ASCII whitespace, `/`
/// or `>`.
pub open spec fn is_start_name_end(c: char) -> bool {
    is_ascii_ws(c) || c == '/' || c == '>'
}

/// Executable form of [`is_start_name_end`].
pub fn start_name_end(c: char) -> (r: bool)
    ensures
        r == is_start_name_end(c),
{
    ascii_ws(c) || c == '/' || c == '>'
}

/// A character that ends the name of an end tag: ASCII whitespace or `>`.
pub open spec fn is_end_name_end(c: char) -> bool {
    is_ascii_ws(c) || c == '>'
}

/// Executable form of [`is_end_name_end`].
pub fn end_name_end(c: char) -> (r: bool)
    ensures
        r == is_end_name_end(c),
{
    ascii_ws(c) || c == '>'
}

/// The ASCII-lowercase image of a character: `A`..`Z` map to `a`..`z`,
/// every other character is unchanged.
pub open spec fn lower_char(c: char) -> char {
    if 'A' <= c && c <= 'Z' {
        ((c as u8) + 32) as char
    } else {
        c
    }
}

/// Two character sequences are equal up to ASCII case.
pub open spec fn eq_ignore_case(a: Seq<char>, b: Seq<char>) -> bool {
    a.len() == b.len() && forall|i: int| 0 <= i < a.len() ==> lower_char(a[i]) == lower_char(b[i])
}

/// Two sequences that are equal up to ASCII case match any third sequence
/// up to ASCII case in exactly the same way.
pub proof fn lemma_eq_ignore_case_common(x: Seq<char>, a: Seq<char>, b: Seq<char>)
    requires
        eq_ignore_case(a, b),
    ensures
        eq_ignore_case(x, a) == eq_ignore_case(x, b),
{
    if eq_ignore_case(x, a) {
        assert forall|i: int| 0 <= i < x.len() implies lower_char(x[i]) == lower_char(b[i]) by {
            assert(lower_char(a[i]) == lower_char(b[i]));
        }
    }
    if eq_ignore_case(x, b) {
        assert forall|i: int| 0 <= i < x.len() implies lower_char(x[i]) == lower_char(a[i]) by {
            assert(lower_char(a[i]) == lower_char(b[i]));
        }
    }
}

/// Executable ASCII-lowercasing of one character.
pub fn to_lower_char(c: char) -> (r: char)
    ensures
        r == lower_char(c),
{
    if 'A' <= c && c <= 'Z' {
        (((c as u8) + 32) as char)
    } else {
        c
    }
}

} // verus!
