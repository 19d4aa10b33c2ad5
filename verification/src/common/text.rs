//! Text of the input and output lines.
//!
//! Trimming a line, reading an integer from it and writing one out are the
//! standard library's. Verus does not read them: each result has a name, and
//! the contracts of the small functions that make the calls are taken on
//! trust.

use vstd::prelude::*;
use vstd::string::*;

verus! {

/// The text that `str::trim` returns for a text: the text without the white
/// space at its two ends.
pub uninterp spec fn trimmed(s: Seq<char>) -> Seq<char>;

/// The integer that `str::parse::<i64>` reads from a text, if it reads one.
pub uninterp spec fn parsed_int(s: Seq<char>) -> Option<i64>;

/// The text that formatting an integer with `{}` gives: its decimal form.
pub uninterp spec fn int_text(i: i64) -> Seq<char>;

/// `str::trim`: the text is [`trimmed`] of the argument.
#[verifier::external_body]
pub(crate) fn trim_text<'a>(s: &'a str) -> (r: &'a str)
    ensures
        r@ == trimmed(s@),
{
    s.trim()
}

/// `str::parse::<i64>`: the result is [`parsed_int`] of the argument.
#[verifier::external_body]
pub(crate) fn parse_int(s: &str) -> (r: Option<i64>)
    ensures
        r == parsed_int(s@),
{
    s.parse::<i64>().ok()
}

/// The `Display` of `i64`, through `format!`: the text is [`int_text`] of
/// the argument.
#[verifier::external_body]
pub(crate) fn show_int(i: i64) -> (r: String)
    ensures
        r@ == int_text(i),
{
    format!("{}", i)
}

/// `String::from` on a character: the text that holds that character alone.
#[verifier::external_body]
pub(crate) fn show_char(c: char) -> (r: String)
    ensures
        r@ == seq![c],
{
    String::from(c)
}

/// The character that a text consists of, if it consists of one.
pub open spec fn parsed_char(s: Seq<char>) -> Option<char> {
    if s.len() == 1 {
        Some(s[0])
    } else {
        None
    }
}

/// Reads a character from a text: the text must hold it and nothing else.
pub fn parse_char(s: &str) -> (r: Option<char>)
    ensures
        r == parsed_char(s@),
{
    if s.unicode_len() == 1 {
        Some(s.get_char(0))
    } else {
        None
    }
}

} // verus!
