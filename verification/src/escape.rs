//! HTML and script escaping, done by the `html-escape` crate behind trusted
//! wrappers.
//!
//! Text and attribute escaping have short exact specifications; the script
//! encoders rewrite `</script`-like byte patterns through a state machine, so
//! their results are only named.

use vstd::prelude::*;

verus! {

/// The text-escaping of one character: `&`, `<` and `>` become entities,
/// every other character stands unchanged.
pub open spec fn escape_text_char(c: char) -> Seq<char> {
    if c == '&' {
        seq!['&', 'a', 'm', 'p', ';']
    } else if c == '<' {
        seq!['&', 'l', 't', ';']
    } else if c == '>' {
        seq!['&', 'g', 't', ';']
    } else {
        seq![c]
    }
}

/// The text-escaping of a string, character by character.
pub open spec fn escape_text_seq(s: Seq<char>) -> Seq<char>
    decreases s.len(),
{
    if s.len() == 0 {
        Seq::empty()
    } else {
        escape_text_char(s.first()) + escape_text_seq(s.drop_first())
    }
}

/// The double-quoted-attribute escaping of one character: `&`, `<`, `>` and
/// `"` become entities, every other character stands unchanged.
pub open spec fn escape_attribute_char(c: char) -> Seq<char> {
    if c == '&' {
        seq!['&', 'a', 'm', 'p', ';']
    } else if c == '<' {
        seq!['&', 'l', 't', ';']
    } else if c == '>' {
        seq!['&', 'g', 't', ';']
    } else if c == '"' {
        seq!['&', 'q', 'u', 'o', 't', ';']
    } else {
        seq![c]
    }
}

/// The double-quoted-attribute escaping of a string, character by character.
pub open spec fn escape_attribute_seq(s: Seq<char>) -> Seq<char>
    decreases s.len(),
{
    if s.len() == 0 {
        Seq::empty()
    } else {
        escape_attribute_char(s.first()) + escape_attribute_seq(s.drop_first())
    }
}

/// Relies on html_escape::encode_text: it replaces `&`, `<` and `>` with
/// `&amp;`, `&lt;` and `&gt;` and leaves every other character unchanged.
#[verifier::external_body]
pub fn encode_text(s: &str) -> (r: String)
    ensures
        r@ == escape_text_seq(s@),
{
    html_escape::encode_text(s).to_string()
}

/// Relies on html_escape::encode_double_quoted_attribute: it replaces `&`,
/// `<`, `>` and `"` with `&amp;`, `&lt;`, `&gt;` and `&quot;` and leaves
/// every other character unchanged.
#[verifier::external_body]
pub fn encode_double_quoted_attribute(s: &str) -> (r: String)
    ensures
        r@ == escape_attribute_seq(s@),
{
    html_escape::encode_double_quoted_attribute(s).to_string()
}

pub uninterp spec fn script_single_quoted_text_of(s: Seq<char>) -> Seq<char>;

/// Relies on html_escape::encode_script_single_quoted_text: the result is a
/// function of the input text alone, and an empty input yields an empty
/// result.
#[verifier::external_body]
pub fn encode_script_single_quoted_text(s: &str) -> (r: String)
    ensures
        r@ == script_single_quoted_text_of(s@),
        s@.len() == 0 ==> r@.len() == 0,
{
    html_escape::encode_script_single_quoted_text(s).to_string()
}

pub uninterp spec fn script_text_of(s: Seq<char>) -> Seq<char>;

/// Relies on html_escape::encode_script: the result is a function of the
/// input text alone, and an empty input yields an empty result.
#[verifier::external_body]
pub fn encode_script(s: &str) -> (r: String)
    ensures
        r@ == script_text_of(s@),
        s@.len() == 0 ==> r@.len() == 0,
{
    html_escape::encode_script(s).to_string()
}

} // verus!
