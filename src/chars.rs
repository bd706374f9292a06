//! Character classes of the language and the byte geometry of its source text.
use unicode_general_category::{get_general_category, GeneralCategory};
use vstd::prelude::*;

verus! {

/// The Unicode line terminators: LF, VT, FF, CR, NEL, LS and PS.
pub open spec fn is_line_terminator_char(c: char) -> bool {
    c == '\n' || c == '\u{0B}' || c == '\u{0C}' || c == '\r' || c == '\u{85}' || c == '\u{2028}'
        || c == '\u{2029}'
}

/// The characters with the Unicode `White_Space` property.
pub open spec fn is_white_space_char(c: char) -> bool {
    ('\u{09}' <= c && c <= '\u{0D}') || c == ' ' || c == '\u{85}' || c == '\u{A0}' || c
        == '\u{1680}' || ('\u{2000}' <= c && c <= '\u{200A}') || c == '\u{2028}' || c == '\u{2029}'
        || c == '\u{202F}' || c == '\u{205F}' || c == '\u{3000}'
}

/// White space that does not end a line.
pub open spec fn is_blank_char(c: char) -> bool {
    is_white_space_char(c) && !is_line_terminator_char(c)
}

/// The bidirectional formatting characters: ALM, LRM, RLM, LRE, RLE, PDF, LRO, RLO,
/// LRI, RLI, FSI and PDI.
pub open spec fn is_bidi_char(c: char) -> bool {
    c == '\u{061C}' || c == '\u{200E}' || c == '\u{200F}' || ('\u{202A}' <= c && c <= '\u{202E}')
        || ('\u{2066}' <= c && c <= '\u{2069}')
}

/// Whether `c` has the Unicode general category Control (Cc) or Unassigned (Cn).
pub uninterp spec fn control_or_unassigned(c: char) -> bool;

/// A character that may not occur in source text: a control or unassigned character
/// that is not white space, or, when `forbid_bidi` holds, a bidirectional formatting
/// character.
pub open spec fn is_forbidden_char(c: char, forbid_bidi: bool) -> bool {
    (is_control_or_unassigned(c) && !is_white_space_char(c)) || (forbid_bidi && is_bidi_char(c))
}

/// Control (Cc) or unassigned (Cn): within ASCII, exactly U+0000..U+001F and U+007F.
pub open spec fn is_control_or_unassigned(c: char) -> bool {
    if (c as u32) < 0x80 {
        (c as u32) < 0x20 || (c as u32) == 0x7F
    } else {
        control_or_unassigned(c)
    }
}

/// Number of bytes of the UTF-8 encoding of `c`.
pub open spec fn utf8_width(c: char) -> nat {
    if (c as u32) < 0x80 {
        1
    } else if (c as u32) < 0x800 {
        2
    } else if (c as u32) < 0x10000 {
        3
    } else {
        4
    }
}

/// Byte offset of the `i`-th character of `s` in its UTF-8 encoding.
pub open spec fn byte_offset(s: Seq<char>, i: int) -> nat
    decreases i,
{
    if i <= 0 || s.len() == 0 {
        0
    } else if i > s.len() {
        byte_offset(s, s.len() as int)
    } else {
        byte_offset(s, i - 1) + utf8_width(s[i - 1])
    }
}

/// Length in bytes of the UTF-8 encoding of `s`.
pub open spec fn byte_len(s: Seq<char>) -> nat {
    byte_offset(s, s.len() as int)
}

pub proof fn lemma_byte_offset_monotonic(s: Seq<char>, i: int, j: int)
    requires
        0 <= i <= j <= s.len(),
    ensures
        byte_offset(s, i) <= byte_offset(s, j),
    decreases j - i,
{
    if i < j {
        lemma_byte_offset_monotonic(s, i, j - 1);
    }
}

/// Relies on unicode_general_category::get_general_category, whose table gives Cc
/// exactly to U+0000..U+001F and U+007F..U+009F and assigns every printable ASCII
/// character.
#[verifier::external_body]
fn category_is_control_or_unassigned(c: char) -> (r: bool)
    ensures
        r == control_or_unassigned(c),
        (c as u32) <= 0x1F || (0x7F <= (c as u32) && (c as u32) <= 0x9F) ==> r,
        0x20 <= (c as u32) && (c as u32) <= 0x7E ==> !r,
{
    match get_general_category(c) {
        GeneralCategory::Control => true,
        GeneralCategory::Unassigned => true,
        _ => false,
    }
}

pub fn is_line_terminator(c: char) -> (r: bool)
    ensures
        r == is_line_terminator_char(c),
{
    c == '\n' || c == '\u{0B}' || c == '\u{0C}' || c == '\r' || c == '\u{85}' || c == '\u{2028}'
        || c == '\u{2029}'
}

pub fn is_white_space(c: char) -> (r: bool)
    ensures
        r == is_white_space_char(c),
{
    ('\u{09}' <= c && c <= '\u{0D}') || c == ' ' || c == '\u{85}' || c == '\u{A0}' || c
        == '\u{1680}' || ('\u{2000}' <= c && c <= '\u{200A}') || c == '\u{2028}' || c == '\u{2029}'
        || c == '\u{202F}' || c == '\u{205F}' || c == '\u{3000}'
}

pub fn is_bidi(c: char) -> (r: bool)
    ensures
        r == is_bidi_char(c),
{
    c == '\u{061C}' || c == '\u{200E}' || c == '\u{200F}' || ('\u{202A}' <= c && c <= '\u{202E}')
        || ('\u{2066}' <= c && c <= '\u{2069}')
}

/// The forbidden-character rule, given whether `c` is a control or unassigned character.
pub fn forbidden_given(in_category: bool, c: char, forbid_bidi: bool) -> (r: bool)
    ensures
        r == ((in_category && !is_white_space_char(c)) || (forbid_bidi && is_bidi_char(
            c,
        ))),
{
    (in_category && !is_white_space(c)) || (forbid_bidi && is_bidi(c))
}

pub fn is_forbidden(c: char, forbid_bidi: bool) -> (r: bool)
    ensures
        r == is_forbidden_char(c, forbid_bidi),
{
    forbidden_given(category_is_control_or_unassigned(c), c, forbid_bidi)
}

pub fn char_width(c: char) -> (r: usize)
    ensures
        r == utf8_width(c),
{
    let u = c as u32;
    if u < 0x80 {
        1
    } else if u < 0x800 {
        2
    } else if u < 0x10000 {
        3
    } else {
        4
    }
}

/// Relies on str::chars: it yields the characters of `s` in order, and a `str`
/// holds at most `isize::MAX` bytes, `len_utf8` of them for each character.
#[verifier::external_body]
pub(crate) fn chars_of(s: &str) -> (r: Vec<char>)
    ensures
        r@ == s@,
        byte_len(r@) <= usize::MAX,
{
    s.chars().collect()
}

/// Relies on String::push: appends `c` to the string.
#[verifier::external_body]
pub(crate) fn push_char(s: &mut String, c: char)
    ensures
        final(s)@ == old(s)@.push(c),
{
    s.push(c)
}

/// The characters `from..to` of `chars` as a string.
pub fn string_of(chars: &Vec<char>, from: usize, to: usize) -> (r: String)
    requires
        from <= to <= chars@.len(),
    ensures
        r@ == chars@.subrange(from as int, to as int),
{
    let mut r = String::new();
    let mut i = from;
    while i < to
        invariant
            from <= i <= to <= chars@.len(),
            r@ == chars@.subrange(from as int, i as int),
        decreases to - i,
    {
        push_char(&mut r, chars[i]);
        i = i + 1;
        assert(r@ =~= chars@.subrange(from as int, i as int));
    }
    r
}

} // verus!
