//! Token model for one line of text.
//!
//! A line is cut into typed tokens whose character spans cover the line in
//! ascending order; between two neighbouring tokens the scanner may silently
//! drop exactly one space character, so neighbouring spans touch or are one
//! apart. The final token is always the zero-width end-of-input sentinel.

use vstd::prelude::*;

verus! {

/// The flavour of a protected span: inline code between backticks, inline
/// math between dollar signs, or a dotted document name such as `a.m`.
#[derive(Clone, Copy, PartialEq, Eq, Structural, Debug)]
pub enum SubKind {
    InlineCode,
    InlineMath,
    DocLink,
}

/// The class a token falls into; the spacing rules are driven entirely by
/// the classes of two neighbouring tokens.
#[derive(Clone, Copy, PartialEq, Eq, Structural, Debug)]
pub enum TokenKind {
    /// A maximal run of CJK characters, or a maximal run of Latin letters
    /// and digits.
    Word,
    /// Two or more consecutive spaces, reproduced verbatim.
    MultiSpace,
    /// Half-width punctuation that must not be preceded by a space.
    Punct,
    /// Full-width punctuation; never spaced on either side.
    FwPunct,
    /// Catch-all for hyphens, percent signs and bare operators; the original
    /// separation around it is reproduced exactly.
    Other,
    /// A delimited protected span, opaque to the spacing rules.
    SpecialBlock(SubKind),
    /// An emphasis span delimited by matching `*` or `_` markers.
    InlineEm,
    /// The zero-width end-of-input sentinel, always last.
    Eoi,
}

/// One token: its class and its half-open character-index span in the line.
#[derive(Clone, Copy, PartialEq, Eq, Structural, Debug)]
pub struct Token {
    pub kind: TokenKind,
    pub start: usize,
    pub end: usize,
}

/// The exact substring of the line covered by a token.
pub open spec fn tok_text(s: Seq<char>, t: Token) -> Seq<char> {
    s.subrange(t.start as int, t.end as int)
}

/// CJK ideographs and syllabic scripts, the spacing class kept apart from
/// Latin letters and digits.
pub open spec fn is_cjk(c: char) -> bool {
    let u = c as u32;
    (0x3040 <= u && u <= 0x30FF)  // hiragana and katakana
    || (0x3400 <= u && u <= 0x4DBF)  // ideograph extension A
    || (0x4E00 <= u && u <= 0x9FFF)  // unified ideographs
    || (0xAC00 <= u && u <= 0xD7AF)  // hangul syllables
    || (0xF900 <= u && u <= 0xFAFF)  // compatibility ideographs
}

/// Latin letters and decimal digits, the other `Word` class.
pub open spec fn is_alnum(c: char) -> bool {
    let u = c as u32;
    (0x30 <= u && u <= 0x39)  // 0-9
    || (0x41 <= u && u <= 0x5A)  // A-Z
    || (0x61 <= u && u <= 0x7A)  // a-z
}

/// Half-width punctuation that never takes a space in front of it.
pub open spec fn is_punct(c: char) -> bool {
    c == ',' || c == '.' || c == '?' || c == '!' || c == ';' || c == ':'
}

/// Full-width punctuation: CJK symbols and the full-width forms block with
/// its full-width letters and digits left out.
pub open spec fn is_fw_punct(c: char) -> bool {
    let u = c as u32;
    (0x3000 <= u && u <= 0x303F)
    || (0xFF01 <= u && u <= 0xFF0F)
    || (0xFF1A <= u && u <= 0xFF20)
    || (0xFF3B <= u && u <= 0xFF40)
    || (0xFF5B <= u && u <= 0xFF64)
}

/// Characters of the `Other` class: hyphens, percent signs and bare
/// operators. A backtick lands here when it opens no inline-code span.
pub open spec fn is_other_char(c: char) -> bool {
    c == '-' || c == '+' || c == '%' || c == '=' || c == '<' || c == '>'
    || c == '/' || c == '^' || c == '~' || c == '|' || c == '`'
}

pub fn char_is_cjk(c: char) -> (b: bool)
    ensures
        b == is_cjk(c),
{
    let u = c as u32;
    (0x3040 <= u && u <= 0x30FF)
    || (0x3400 <= u && u <= 0x4DBF)
    || (0x4E00 <= u && u <= 0x9FFF)
    || (0xAC00 <= u && u <= 0xD7AF)
    || (0xF900 <= u && u <= 0xFAFF)
}

pub fn char_is_alnum(c: char) -> (b: bool)
    ensures
        b == is_alnum(c),
{
    let u = c as u32;
    (0x30 <= u && u <= 0x39) || (0x41 <= u && u <= 0x5A) || (0x61 <= u && u <= 0x7A)
}

pub fn char_is_punct(c: char) -> (b: bool)
    ensures
        b == is_punct(c),
{
    c == ',' || c == '.' || c == '?' || c == '!' || c == ';' || c == ':'
}

pub fn char_is_fw_punct(c: char) -> (b: bool)
    ensures
        b == is_fw_punct(c),
{
    let u = c as u32;
    (0x3000 <= u && u <= 0x303F)
    || (0xFF01 <= u && u <= 0xFF0F)
    || (0xFF1A <= u && u <= 0xFF20)
    || (0xFF3B <= u && u <= 0xFF40)
    || (0xFF5B <= u && u <= 0xFF64)
}

pub fn char_is_other(c: char) -> (b: bool)
    ensures
        b == is_other_char(c),
{
    c == '-' || c == '+' || c == '%' || c == '=' || c == '<' || c == '>'
    || c == '/' || c == '^' || c == '~' || c == '|' || c == '`'
}

} // verus!
