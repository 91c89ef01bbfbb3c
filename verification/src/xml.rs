//! Single-pass XML escaping for tool-result formatting.

use vstd::prelude::*;
use crate::text::{is_control, spec_is_control, push_str};

verus! {

broadcast use vstd::string::group_string_axioms;

/// Extra capacity reserved beyond the input length when escaping.
pub const XML_ESCAPE_CAPACITY_PAD: usize = 16;

/// The replacement text for one character.
pub open spec fn spec_escape_char(c: char, escape_quotes: bool) -> Seq<char> {
    if c == '&' {
        "&amp;"@
    } else if c == '<' {
        "&lt;"@
    } else if c == '>' {
        "&gt;"@
    } else if c == '"' && escape_quotes {
        "&quot;"@
    } else if c == '\'' && escape_quotes {
        "&apos;"@
    } else if spec_is_control(c) && c != '\n' && c != '\r' && c != '\t' {
        Seq::empty()
    } else {
        seq![c]
    }
}

/// Escaping of a whole character sequence: each character replaced in order.
pub open spec fn spec_escape(s: Seq<char>, escape_quotes: bool) -> Seq<char>
    decreases s.len(),
{
    if s.len() == 0 {
        Seq::empty()
    } else {
        spec_escape(s.drop_last(), escape_quotes) + spec_escape_char(s.last(), escape_quotes)
    }
}

fn escape_xml_common(s: &str, escape_quotes: bool) -> (out: String)
    ensures
        out@ == spec_escape(s@, escape_quotes),
{
    let mut out = String::new();
    for c in it: s.chars()
        invariant
            it.seq() == s@,
            out@ == spec_escape(s@.take(it.index() as int), escape_quotes),
    {
        let ghost before = out@;
        let ghost k = it.index() as int;
        if c == '&' {
            push_str(&mut out, "&amp;");
        } else if c == '<' {
            push_str(&mut out, "&lt;");
        } else if c == '>' {
            push_str(&mut out, "&gt;");
        } else if c == '"' && escape_quotes {
            push_str(&mut out, "&quot;");
        } else if c == '\'' && escape_quotes {
            push_str(&mut out, "&apos;");
        } else if is_control(c) && c != '\n' && c != '\r' && c != '\t' {
        } else {
            out.push(c);
        }
        proof {
            assert(s@.take(k + 1).drop_last() == s@.take(k));
            assert(out@ == before + spec_escape_char(c, escape_quotes));
        }
    }
    proof {
        assert(s@.take(s@.len() as int) == s@);
    }
    out
}

/// Escape attribute value characters (&, <, >, ", ').
pub fn escape_xml_attr(s: &str) -> (out: String)
    ensures
        out@ == spec_escape(s@, true),
{
    escape_xml_common(s, true)
}

/// Escape text content characters (&, <, >).
pub fn escape_xml_content(s: &str) -> (out: String)
    ensures
        out@ == spec_escape(s@, false),
{
    escape_xml_common(s, false)
}

} // verus!
