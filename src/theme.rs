//! Finding a theme's caret color and swapping it for another.
//!
//! A theme is read as a stream of XML events. The text event that reads
//! exactly `caret` is the marker; the next text event holds the current
//! caret color. Every occurrence of that color string in the document is
//! then replaced.

use vstd::prelude::*;
use crate::text::{chars_of, replace_all, replaced, string_of};

verus! {

/// One event of an XML document, as far as caret lookup cares.
#[derive(Clone, Debug, PartialEq, Eq)]
pub enum XmlToken {
    /// Character data.
    Text(String),
    /// Any other event: tags, whitespace, comments, declarations.
    Markup,
    /// The document is malformed here; the message says how.
    Malformed(String),
}

/// Why a theme could not be patched.
#[derive(Clone, Debug, PartialEq, Eq)]
pub enum ThemeError {
    /// No `caret` marker, or no text after it.
    NotFound,
    /// The document is not well-formed XML.
    Parse(String),
}

/// The events that the XML reader yields for a document, up to and including
/// the first error.
pub uninterp spec fn xml_tokens_of(doc: Seq<char>) -> Seq<XmlToken>;

/// Relies on `xml::reader::EventReader`: the events of the document in order.
/// Its iterator stops after the end of the document or after the first error.
#[verifier::external_body]
fn xml_tokens(doc: &str) -> (r: Vec<XmlToken>)
    ensures
        r@ == xml_tokens_of(doc@),
{
    let mut r = Vec::new();
    for e in xml::reader::EventReader::from_str(doc) {
        r.push(match e {
            Ok(xml::reader::XmlEvent::Characters(s)) => XmlToken::Text(s),
            Ok(_) => XmlToken::Markup,
            Err(err) => XmlToken::Malformed(err.to_string()),
        });
    }
    r
}

/// The marker text that precedes the caret color.
pub open spec fn marker() -> Seq<char> {
    seq!['c', 'a', 'r', 'e', 't']
}

/// The caret color of a token stream: the first text after the first
/// marker. `armed` records that the marker was already seen.
pub open spec fn caret_value(toks: Seq<XmlToken>, armed: bool) -> Result<Seq<char>, ThemeError>
    decreases toks.len(),
{
    if toks.len() == 0 {
        Err(ThemeError::NotFound)
    } else {
        match toks[0] {
            XmlToken::Text(s) => if armed {
                Ok(s@)
            } else {
                caret_value(toks.drop_first(), s@ == marker())
            },
            XmlToken::Markup => caret_value(toks.drop_first(), armed),
            XmlToken::Malformed(m) => Err(ThemeError::Parse(m)),
        }
    }
}

/// A patch outcome seen as characters.
pub open spec fn text_result(r: Result<String, ThemeError>) -> Result<Seq<char>, ThemeError> {
    match r {
        Ok(s) => Ok(s@),
        Err(e) => Err(e),
    }
}

/// The document with its caret color replaced by `new`, everywhere the old
/// color string occurs.
pub open spec fn patched(toks: Seq<XmlToken>, doc: Seq<char>, new: Seq<char>) -> Result<Seq<char>, ThemeError> {
    match caret_value(toks, false) {
        Ok(old) => Ok(replaced(doc, old, new)),
        Err(e) => Err(e),
    }
}

fn is_marker(s: &String) -> (r: bool)
    ensures
        r == (s@ == marker()),
{
    let v = chars_of(s.as_str());
    let r = v.len() == 5 && v[0] == 'c' && v[1] == 'a' && v[2] == 'r' && v[3] == 'e' && v[4] == 't';
    proof {
        if r {
            assert(v@ =~= marker());
        }
    }
    r
}

/// The current caret color: the first text event after the first `caret`
/// marker.
pub fn find_caret_color(tokens: &Vec<XmlToken>) -> (r: Result<String, ThemeError>)
    ensures
        text_result(r) == caret_value(tokens@, false),
{
    let mut armed = false;
    let mut i: usize = 0;
    assert(tokens@.skip(0) =~= tokens@);
    while i < tokens.len()
        invariant
            i <= tokens.len(),
            caret_value(tokens@.skip(i as int), armed) == caret_value(tokens@, false),
        decreases tokens.len() - i,
    {
        assert(tokens@.skip(i as int).drop_first() =~= tokens@.skip(i + 1));
        match &tokens[i] {
            XmlToken::Text(s) => {
                if armed {
                    return Ok(s.clone());
                }
                armed = is_marker(s);
            },
            XmlToken::Markup => {},
            XmlToken::Malformed(m) => {
                return Err(ThemeError::Parse(m.clone()));
            },
        }
        i += 1;
    }
    Err(ThemeError::NotFound)
}

/// Replaces the caret color found in `tokens` by `new_color_hex` throughout
/// `theme`, where `tokens` are the XML events of `theme`.
pub fn patch_with_tokens(theme: &str, tokens: &Vec<XmlToken>, new_color_hex: &str) -> (r: Result<String, ThemeError>)
    ensures
        text_result(r) == patched(tokens@, theme@, new_color_hex@),
{
    match find_caret_color(tokens) {
        Ok(old) => {
            let doc = chars_of(theme);
            let from = chars_of(old.as_str());
            let to = chars_of(new_color_hex);
            let out = replace_all(&doc, &from, &to);
            Ok(string_of(&out))
        },
        Err(e) => Err(e),
    }
}

/// The theme text with its caret color replaced by `new_color_hex`
/// throughout; the file on disk is the caller's business.
pub fn set_cursor_color(theme: &str, new_color_hex: &str) -> (r: Result<String, ThemeError>)
    ensures
        text_result(r) == patched(xml_tokens_of(theme@), theme@, new_color_hex@),
{
    let tokens = xml_tokens(theme);
    patch_with_tokens(theme, &tokens, new_color_hex)
}

/// The name of the backup file kept beside a theme file.
pub open spec fn backup_name(file_name: Seq<char>) -> Seq<char> {
    file_name + seq!['_', 'b', 'a', 'c', 'k', 'u', 'p']
}

/// The file name under which the theme's unmodified content is kept.
pub fn backup_file_name(file_name: &str) -> (r: String)
    ensures
        r@ == backup_name(file_name@),
{
    let mut v = chars_of(file_name);
    v.push('_');
    v.push('b');
    v.push('a');
    v.push('c');
    v.push('k');
    v.push('u');
    v.push('p');
    proof {
        assert(v@ =~= backup_name(file_name@));
    }
    string_of(&v)
}

/// Without a `caret` marker in a well-formed token stream, lookup fails
/// with `NotFound`, so patching changes nothing.
pub proof fn lemma_no_marker_not_found(toks: Seq<XmlToken>)
    requires
        forall|k: int| 0 <= k < toks.len() ==> !(toks[k] is Malformed),
        forall|k: int| 0 <= k < toks.len() ==> !(#[trigger] toks[k] matches XmlToken::Text(s) && s@ == marker()),
    ensures
        caret_value(toks, false) == Err::<Seq<char>, ThemeError>(ThemeError::NotFound),
        forall|doc: Seq<char>, new: Seq<char>| patched(toks, doc, new) == Err::<Seq<char>, ThemeError>(ThemeError::NotFound),
    decreases toks.len(),
{
    if toks.len() > 0 {
        let r = toks.drop_first();
        assert forall|k: int| 0 <= k < r.len() implies !(r[k] is Malformed) by {
            assert(r[k] == toks[k + 1]);
        }
        assert forall|k: int| 0 <= k < r.len() implies !(#[trigger] r[k] matches XmlToken::Text(s) && s@ == marker()) by {
            assert(r[k] == toks[k + 1]);
        }
        assert(!(toks[0] is Malformed));
        assert(!(toks[0] matches XmlToken::Text(s) && s@ == marker()));
        lemma_no_marker_not_found(r);
    }
}

} // verus!
