//! The grammar of the notation, stated mathematically.
//!
//! A document is a sequence of items, each an element or a run of text.  An
//! element is `[` target `]` `(` attribute `)`, where the target is again a
//! sequence of items and the attribute is plain text; the `](` in the middle
//! must be adjacent.  Within text, the five characters `\ [ ] ( )` are
//! special: they appear either with their delimiter meaning or escaped by a
//! backslash, in which case the pair contributes the escaped character
//! literally.
//!
//! [`parsed`] is the reference description of parsing: a total, deterministic
//! function from the characters of the input to either the sequence of
//! top-level node models or the error the input deserves.  The executable
//! parser is proved to return exactly this.

use vstd::prelude::*;

use crate::ast::NodeModel;
use crate::ast::ParseError;

verus! {

/// The five characters with delimiter or escape meaning.
pub open spec fn is_special(c: char) -> bool {
    c == '\\' || c == '[' || c == ']' || c == '(' || c == ')'
}

/// A well-formed escape pair starts at `i`: a backslash directly followed by
/// a special character.
pub open spec fn valid_escape_at(s: Seq<char>, i: int) -> bool {
    0 <= i && i + 1 < s.len() && s[i] == '\\' && is_special(s[i + 1])
}

/// Scans an attribute whose content starts at `i` (just past its opening
/// `(`): the position of the unescaped `)` that closes it, or the error met
/// first.  Attributes are plain text: an unescaped `[` is refused, while `]`
/// and `(` may appear literally.
pub open spec fn attr_close(s: Seq<char>, i: int) -> Result<int, ParseError>
    decreases s.len() - i
        when 0 <= i <= s.len()
{
    if i == s.len() {
        Err(ParseError::UnterminatedAttr)
    } else if s[i] == ')' {
        Ok(i)
    } else if s[i] == '[' {
        Err(ParseError::NestedAttr)
    } else if s[i] == '\\' {
        if valid_escape_at(s, i) {
            attr_close(s, i + 2)
        } else {
            Err(ParseError::DanglingEscape)
        }
    } else {
        attr_close(s, i + 1)
    }
}

/// The escape-resolved reading of the span `[i, e)`: each escape pair lying
/// within the span contributes the escaped character alone, every other
/// character contributes itself.
pub open spec fn resolved(s: Seq<char>, i: int, e: int) -> Seq<char>
    decreases e - i
        when e <= s.len()
{
    if i < 0 || i >= e {
        Seq::empty()
    } else if valid_escape_at(s, i) && i + 2 <= e {
        seq![s[i + 1]] + resolved(s, i + 2, e)
    } else {
        seq![s[i]] + resolved(s, i + 1, e)
    }
}

/// Puts one resolved character of text in front of already-parsed items,
/// merging it with a leading text node so that each run of text yields a
/// single node.
pub open spec fn prepend_char(c: char, rest: Seq<NodeModel>) -> Seq<NodeModel> {
    if rest.len() > 0 && rest[0] is Text {
        seq![NodeModel::Text(seq![c] + rest[0]->Text_0)] + rest.subrange(1, rest.len() as int)
    } else {
        seq![NodeModel::Text(seq![c])] + rest
    }
}

/// Parses a sequence of items from position `i` on.  At the top level
/// (`in_target` false) it succeeds exactly when it consumes the rest of the
/// input; inside a target it stops at the unescaped `]` that closes the
/// target.  Returns the node models in reading order together with the
/// position where parsing stopped: the input's length at the top level, the
/// position of the closing `]` inside a target.
pub open spec fn parse_items(s: Seq<char>, i: int, in_target: bool) -> Result<(Seq<NodeModel>, int), ParseError>
    decreases s.len() - i
        when 0 <= i <= s.len()
{
    if i == s.len() {
        if in_target {
            Err(ParseError::UnterminatedTarget)
        } else {
            Ok((Seq::empty(), i))
        }
    } else if s[i] == ']' {
        if in_target {
            Ok((Seq::empty(), i))
        } else {
            Err(ParseError::StrayDelimiter)
        }
    } else if s[i] == '(' || s[i] == ')' {
        if in_target {
            Err(ParseError::UnterminatedTarget)
        } else {
            Err(ParseError::StrayDelimiter)
        }
    } else if s[i] == '[' {
        match parse_items(s, i + 1, true) {
            Err(e) => Err(e),
            Ok((inner, rb)) => {
                if !(i < rb < s.len()) {
                    // never reached: see lemma_parse_items_bounds
                    Err(ParseError::UnterminatedTarget)
                } else if rb + 1 == s.len() || s[rb + 1] != '(' {
                    Err(ParseError::MalformedAdjacency)
                } else {
                    match attr_close(s, rb + 2) {
                        Err(e) => Err(e),
                        Ok(cp) => {
                            if !(i < cp < s.len()) {
                                // never reached: see lemma_attr_close_bounds
                                Err(ParseError::UnterminatedAttr)
                            } else {
                                let node = NodeModel::Element {
                                    inner,
                                    attr: resolved(s, rb + 2, cp),
                                };
                                match parse_items(s, cp + 1, in_target) {
                                    Err(e) => Err(e),
                                    Ok((rest, end)) => Ok((seq![node] + rest, end)),
                                }
                            }
                        },
                    }
                }
            },
        }
    } else if s[i] == '\\' && !valid_escape_at(s, i) {
        Err(ParseError::DanglingEscape)
    } else {
        // one character of text: a literal character or an escape pair
        let step: int = if s[i] == '\\' { 2 } else { 1 };
        let c = if s[i] == '\\' { s[i + 1] } else { s[i] };
        match parse_items(s, i + step, in_target) {
            Err(e) => Err(e),
            Ok((rest, end)) => Ok((prepend_char(c, rest), end)),
        }
    }
}

/// What a whole document parses to: its top-level nodes in reading order, or
/// the error met first.
pub open spec fn parsed(s: Seq<char>) -> Result<Seq<NodeModel>, ParseError> {
    match parse_items(s, 0, false) {
        Ok((ns, end)) => Ok(ns),
        Err(e) => Err(e),
    }
}

/// A successful attribute scan stops on a closing parenthesis inside the
/// input, at or after where it started.
pub proof fn lemma_attr_close_bounds(s: Seq<char>, i: int)
    requires
        0 <= i <= s.len(),
    ensures
        match attr_close(s, i) {
            Ok(cp) => i <= cp < s.len() && s[cp] == ')',
            Err(_) => true,
        },
    decreases s.len() - i,
{
    if i < s.len() && s[i] == '\\' && valid_escape_at(s, i) {
        lemma_attr_close_bounds(s, i + 2);
    } else if i < s.len() && s[i] != ')' && s[i] != '[' && s[i] != '\\' {
        lemma_attr_close_bounds(s, i + 1);
    }
}

/// A successful item parse stops at the input's end at the top level, and on
/// a closing bracket inside the input when parsing a target.
pub proof fn lemma_parse_items_bounds(s: Seq<char>, i: int, in_target: bool)
    requires
        0 <= i <= s.len(),
    ensures
        match parse_items(s, i, in_target) {
            Ok((ns, end)) => {
                &&& i <= end <= s.len()
                &&& in_target ==> end < s.len() && s[end] == ']'
                &&& !in_target ==> end == s.len()
            },
            Err(_) => true,
        },
    decreases s.len() - i,
{
    if i == s.len() {
    } else if s[i] == ']' || s[i] == '(' || s[i] == ')' {
    } else if s[i] == '[' {
        lemma_parse_items_bounds(s, i + 1, true);
        match parse_items(s, i + 1, true) {
            Err(_) => {},
            Ok((inner, rb)) => {
                if i < rb < s.len() && rb + 1 < s.len() && s[rb + 1] == '(' {
                    lemma_attr_close_bounds(s, rb + 2);
                    match attr_close(s, rb + 2) {
                        Err(_) => {},
                        Ok(cp) => {
                            lemma_parse_items_bounds(s, cp + 1, in_target);
                        },
                    }
                }
            },
        }
    } else if s[i] == '\\' && !valid_escape_at(s, i) {
    } else {
        let step: int = if s[i] == '\\' { 2 } else { 1 };
        lemma_parse_items_bounds(s, i + step, in_target);
    }
}

} // verus!
