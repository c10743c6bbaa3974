//! Character classes and text helpers that the tokenizer is built on.
//!
//! Within ASCII every class is decided here. Beyond ASCII the standard
//! library's Unicode tables are asked, and their answers are known by name
//! only.
use vstd::prelude::*;

verus! {

/// What `char::is_whitespace` answers for a character, with the Unicode
/// tables of the standard library in use.
pub uninterp spec fn unicode_whitespace(c: char) -> bool;

/// What `char::is_alphanumeric` answers for a character, with the Unicode
/// tables of the standard library in use.
pub uninterp spec fn unicode_alphanumeric(c: char) -> bool;

/// What `char::is_numeric` answers for a character, with the Unicode
/// tables of the standard library in use.
pub uninterp spec fn unicode_numeric(c: char) -> bool;

/// What `str::to_lowercase` makes of a text, with the Unicode tables of the
/// standard library in use.
pub uninterp spec fn unicode_lowercase(text: Seq<char>) -> Seq<char>;

/// `char::is_whitespace`: the answer depends on the character alone and is
/// given the name `unicode_whitespace`; nothing more is claimed of it.
pub assume_specification[ char::is_whitespace ](c: char) -> (r: bool)
    ensures
        r == unicode_whitespace(c),
;

/// `char::is_alphanumeric`: the answer depends on the character alone and is
/// given the name `unicode_alphanumeric`; nothing more is claimed of it.
pub assume_specification[ char::is_alphanumeric ](c: char) -> (r: bool)
    ensures
        r == unicode_alphanumeric(c),
;

/// `char::is_numeric`: the answer depends on the character alone and is given
/// the name `unicode_numeric`; nothing more is claimed of it.
pub assume_specification[ char::is_numeric ](c: char) -> (r: bool)
    ensures
        r == unicode_numeric(c),
;

/// `str::to_lowercase`: the new text depends on the given text alone and is
/// given the name `unicode_lowercase`; nothing more is claimed of it.
pub assume_specification[ str::to_lowercase ](s: &str) -> (r: String)
    ensures
        r@ == unicode_lowercase(s@),
;

/// `String::push` appends one character to the end of the text.
pub assume_specification[ String::push ](s: &mut String, c: char)
    ensures
        final(s)@ == old(s)@.push(c),
;

/// A decimal digit, `0` to `9`.
pub open spec fn digit_char(c: char) -> bool {
    '0' <= c && c <= '9'
}

/// An ASCII letter of either case.
pub open spec fn letter_char(c: char) -> bool {
    ('a' <= c && c <= 'z') || ('A' <= c && c <= 'Z')
}

/// A character of the ASCII range.
pub open spec fn ascii_char(c: char) -> bool {
    c <= '\x7f'
}

/// White space: in ASCII the blank, tab, line feed, vertical tab, form feed
/// and carriage return; beyond ASCII whatever Unicode counts as white space.
pub open spec fn whitespace_char(c: char) -> bool {
    c == ' ' || ('\t' <= c && c <= '\r') || (!ascii_char(c) && unicode_whitespace(c))
}

/// A letter or a digit: in ASCII `0` to `9`, `a` to `z` and `A` to `Z`;
/// beyond ASCII whatever Unicode counts as alphanumeric.
pub open spec fn word_char(c: char) -> bool {
    digit_char(c) || letter_char(c) || (!ascii_char(c) && unicode_alphanumeric(c))
}

/// A numeric character: in ASCII a decimal digit; beyond ASCII whatever
/// Unicode counts as numeric.
pub open spec fn numeric_char(c: char) -> bool {
    digit_char(c) || (!ascii_char(c) && unicode_numeric(c))
}

/// One of the eight characters that always form a token of their own.
pub open spec fn symbol_char(c: char) -> bool {
    c == '(' || c == ')' || c == ',' || c == '+' || c == '-' || c == '*' || c == '/' || c == '^'
}

/// The lower-case form of an ASCII capital; any other character unchanged.
pub open spec fn lower_char(c: char) -> char {
    if 'A' <= c && c <= 'Z' {
        ((c as u8) + 32) as u8 as char
    } else {
        c
    }
}

/// Every character of the text is ASCII.
pub open spec fn ascii_text(text: Seq<char>) -> bool {
    forall|i: int| 0 <= i < text.len() ==> ascii_char(#[trigger] text[i])
}

/// The text with every ASCII capital replaced by its lower-case form.
pub open spec fn ascii_lowercase(text: Seq<char>) -> Seq<char> {
    Seq::new(text.len(), |i: int| lower_char(text[i]))
}

/// The lower-case form of a text: letter by letter for an ASCII text, by the
/// Unicode rules for any other.
pub open spec fn lowercase(text: Seq<char>) -> Seq<char> {
    if ascii_text(text) {
        ascii_lowercase(text)
    } else {
        unicode_lowercase(text)
    }
}

/// Every character of the text is numeric.
pub open spec fn all_numeric(text: Seq<char>) -> bool {
    forall|i: int| 0 <= i < text.len() ==> numeric_char(#[trigger] text[i])
}

/// Every character of the text is a decimal digit.
pub open spec fn all_digits(text: Seq<char>) -> bool {
    forall|i: int| 0 <= i < text.len() ==> digit_char(#[trigger] text[i])
}

/// Whether a character is a decimal digit.
pub fn is_digit_char(c: char) -> (r: bool)
    ensures
        r == digit_char(c),
{
    '0' <= c && c <= '9'
}

/// Whether a character is white space.
pub fn is_whitespace_char(c: char) -> (r: bool)
    ensures
        r == whitespace_char(c),
{
    c == ' ' || ('\t' <= c && c <= '\r') || (c > '\x7f' && c.is_whitespace())
}

/// Whether a character is a letter or a digit.
pub fn is_word_char(c: char) -> (r: bool)
    ensures
        r == word_char(c),
{
    ('0' <= c && c <= '9') || ('a' <= c && c <= 'z') || ('A' <= c && c <= 'Z') || (c > '\x7f'
        && c.is_alphanumeric())
}

/// Whether a character is numeric.
pub fn is_numeric_char(c: char) -> (r: bool)
    ensures
        r == numeric_char(c),
{
    ('0' <= c && c <= '9') || (c > '\x7f' && c.is_numeric())
}

/// Whether a character is one of the eight symbols.
pub fn is_symbol_char(c: char) -> (r: bool)
    ensures
        r == symbol_char(c),
{
    c == '(' || c == ')' || c == ',' || c == '+' || c == '-' || c == '*' || c == '/' || c == '^'
}

/// The lower-case form of an ASCII capital; any other character unchanged.
pub fn to_lower(c: char) -> (r: char)
    ensures
        r == lower_char(c),
{
    if 'A' <= c && c <= 'Z' {
        let b: u8 = c as u8;
        (b + 32) as char
    } else {
        c
    }
}

/// Whether every character is numeric.
pub fn is_all_numeric(text: &Vec<char>) -> (r: bool)
    ensures
        r == all_numeric(text@),
{
    let mut i: usize = 0;
    while i < text.len()
        invariant
            i <= text.len(),
            forall|j: int| 0 <= j < i ==> numeric_char(#[trigger] text@[j]),
        decreases text.len() - i,
    {
        if !is_numeric_char(text[i]) {
            return false;
        }
        i += 1;
    }
    true
}

/// Whether every character is ASCII.
pub fn is_ascii_text(text: &Vec<char>) -> (r: bool)
    ensures
        r == ascii_text(text@),
{
    let mut i: usize = 0;
    while i < text.len()
        invariant
            i <= text.len(),
            forall|j: int| 0 <= j < i ==> ascii_char(#[trigger] text@[j]),
        decreases text.len() - i,
    {
        if text[i] > '\x7f' {
            return false;
        }
        i += 1;
    }
    true
}

/// The text with every ASCII capital replaced by its lower-case form.
pub fn ascii_lowercase_of(text: &Vec<char>) -> (out: Vec<char>)
    ensures
        out@ == ascii_lowercase(text@),
{
    let mut out: Vec<char> = Vec::new();
    let mut i: usize = 0;
    while i < text.len()
        invariant
            i <= text.len(),
            out.len() == i,
            forall|j: int| 0 <= j < i ==> out@[j] == lower_char(text@[j]),
        decreases text.len() - i,
    {
        out.push(to_lower(text[i]));
        i += 1;
    }
    assert(out@ =~= ascii_lowercase(text@));
    out
}

/// The lower-case form of a text.
pub fn lowercase_of(text: &Vec<char>) -> (out: Vec<char>)
    ensures
        out@ == lowercase(text@),
{
    if is_ascii_text(text) {
        ascii_lowercase_of(text)
    } else {
        let whole = text_of(text);
        let lowered = whole.as_str().to_lowercase();
        chars_of(lowered.as_str())
    }
}

/// The characters of a text, in order.
pub fn chars_of(text: &str) -> (out: Vec<char>)
    ensures
        out@ == text@,
{
    let mut out: Vec<char> = Vec::new();
    for c in it: text.chars()
        invariant
            out@ == it.seq().take(it.index() as int),
            it.seq() == text@,
    {
        out.push(c);
    }
    out
}

/// The text made of the given characters.
pub fn text_of(chars: &Vec<char>) -> (out: String)
    ensures
        out@ == chars@,
{
    let mut out = String::new();
    let mut i: usize = 0;
    while i < chars.len()
        invariant
            i <= chars.len(),
            out@ == chars@.take(i as int),
        decreases chars.len() - i,
    {
        out.push(chars[i]);
        i += 1;
    }
    out
}

/// Whether the characters spell the given word.
pub fn spells(chars: &Vec<char>, word: &str) -> (r: bool)
    ensures
        r == (chars@ == word@),
{
    let other = chars_of(word);
    if other.len() != chars.len() {
        return false;
    }
    let mut i: usize = 0;
    while i < chars.len()
        invariant
            i <= chars.len(),
            other.len() == chars.len(),
            other@ == word@,
            forall|j: int| 0 <= j < i ==> chars@[j] == other@[j],
        decreases chars.len() - i,
    {
        if chars[i] != other[i] {
            return false;
        }
        i += 1;
    }
    assert(chars@ =~= other@);
    true
}

} // verus!
