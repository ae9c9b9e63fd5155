//! The executable parser, proved against [`crate::grammar::parsed`].

use vstd::prelude::*;
use vstd::string::StrSliceExecFns;
use vstd::string::StringExecFns;

use crate::ast::Node;
use crate::ast::NodeModel;
use crate::ast::ParseError;
use crate::ast::models;
use crate::grammar::attr_close;
use crate::grammar::is_special;
use crate::grammar::lemma_attr_close_bounds;
use crate::grammar::lemma_parse_items_bounds;
use crate::grammar::parse_items;
use crate::grammar::parsed;
use crate::grammar::prepend_char;
use crate::grammar::resolved;
use crate::grammar::valid_escape_at;

verus! {

/// Whether `c` is one of the five characters with delimiter or escape
/// meaning.
fn is_special_char(c: char) -> (r: bool)
    ensures
        r == is_special(c),
{
    c == '\\' || c == '[' || c == ']' || c == '(' || c == ')'
}

/// Builds the escape-resolved text of the span `[from, to)` of `s`.
fn resolve_span(s: &str, n: usize, from: usize, to: usize) -> (r: String)
    requires
        from <= to <= s@.len(),
        n == s@.len(),
    ensures
        r@ == resolved(s@, from as int, to as int),
{
    let mut out = String::new();
    let mut i = from;
    proof {
        assert(Seq::<char>::empty() + resolved(s@, from as int, to as int)
            =~= resolved(s@, from as int, to as int));
    }
    while i < to
        invariant
            from <= i <= to <= s@.len(),
            n == s@.len(),
            resolved(s@, from as int, to as int) == out@ + resolved(s@, i as int, to as int),
        decreases to - i,
    {
        let c = s.get_char(i);
        if c == '\\' && i + 1 < n && is_special_char(s.get_char(i + 1)) && i + 2 <= to {
            let piece = s.substring_char(i + 1, i + 2);
            proof {
                assert(piece@ =~= seq![s@[i + 1]]);
                assert(out@ + (piece@ + resolved(s@, i + 2, to as int))
                    =~= (out@ + piece@) + resolved(s@, i + 2, to as int));
            }
            out.append(piece);
            i = i + 2;
        } else {
            let piece = s.substring_char(i, i + 1);
            proof {
                assert(piece@ =~= seq![s@[i as int]]);
                assert(!(valid_escape_at(s@, i as int) && i + 2 <= to));
                assert(out@ + (piece@ + resolved(s@, i + 1, to as int))
                    =~= (out@ + piece@) + resolved(s@, i + 1, to as int));
            }
            out.append(piece);
            i = i + 1;
        }
    }
    proof {
        assert(out@ + resolved(s@, to as int, to as int) =~= out@);
    }
    out
}

/// Finds the closing parenthesis of an attribute whose content starts at
/// `i`, as [`attr_close`] describes.
fn scan_attr(s: &str, n: usize, i: usize) -> (r: Result<usize, ParseError>)
    requires
        i <= s@.len(),
        n == s@.len(),
    ensures
        match r {
            Ok(cp) => attr_close(s@, i as int) == Ok::<int, ParseError>(cp as int),
            Err(e) => attr_close(s@, i as int) == Err::<int, ParseError>(e),
        },
{
    let mut j = i;
    loop
        invariant
            i <= j <= n,
            n == s@.len(),
            attr_close(s@, i as int) == attr_close(s@, j as int),
        decreases n - j,
    {
        if j == n {
            return Err(ParseError::UnterminatedAttr);
        }
        let c = s.get_char(j);
        if c == ')' {
            return Ok(j);
        } else if c == '[' {
            return Err(ParseError::NestedAttr);
        } else if c == '\\' {
            if j + 1 < n && is_special_char(s.get_char(j + 1)) {
                j = j + 2;
            } else {
                return Err(ParseError::DanglingEscape);
            }
        } else {
            j = j + 1;
        }
    }
}

/// Parses items from position `i` on, as [`parse_items`] describes: the
/// parsed nodes and the position where parsing stopped, or the error met
/// first.
fn parse_nodes(s: &str, n: usize, i: usize, in_target: bool) -> (r: Result<
    (Vec<Node>, usize),
    ParseError,
>)
    requires
        i <= s@.len(),
        n == s@.len(),
    ensures
        match r {
            Ok((ns, end)) => parse_items(s@, i as int, in_target) == Ok::<
                (Seq<NodeModel>, int),
                ParseError,
            >((models(ns@), end as int)),
            Err(e) => parse_items(s@, i as int, in_target) == Err::<
                (Seq<NodeModel>, int),
                ParseError,
            >(e),
        },
    decreases s@.len() - i,
{
    if i == n {
        if in_target {
            return Err(ParseError::UnterminatedTarget);
        } else {
            let ns: Vec<Node> = Vec::new();
            proof {
                assert(models(ns@) =~= Seq::<NodeModel>::empty());
            }
            return Ok((ns, i));
        }
    }
    let c = s.get_char(i);
    if c == ']' {
        if in_target {
            let ns: Vec<Node> = Vec::new();
            proof {
                assert(models(ns@) =~= Seq::<NodeModel>::empty());
            }
            Ok((ns, i))
        } else {
            Err(ParseError::StrayDelimiter)
        }
    } else if c == '(' || c == ')' {
        if in_target {
            Err(ParseError::UnterminatedTarget)
        } else {
            Err(ParseError::StrayDelimiter)
        }
    } else if c == '[' {
        match parse_nodes(s, n, i + 1, true) {
            Err(e) => Err(e),
            Ok((inner, rb)) => {
                proof {
                    lemma_parse_items_bounds(s@, i + 1, true);
                }
                if rb + 1 == n {
                    Err(ParseError::MalformedAdjacency)
                } else if s.get_char(rb + 1) != '(' {
                    Err(ParseError::MalformedAdjacency)
                } else {
                    match scan_attr(s, n, rb + 2) {
                        Err(e) => Err(e),
                        Ok(cp) => {
                            proof {
                                lemma_attr_close_bounds(s@, rb + 2);
                            }
                            let attr = resolve_span(s, n, rb + 2, cp);
                            match parse_nodes(s, n, cp + 1, in_target) {
                                Err(e) => Err(e),
                                Ok((mut rest, end)) => {
                                    let node = Node::Element { inner, attr };
                                    proof {
                                        assert(node.model() == NodeModel::Element {
                                            inner: models(node->Element_inner@),
                                            attr: node->Element_attr@,
                                        });
                                        assert(models(rest@.insert(0, node))
                                            =~= seq![node.model()] + models(rest@)) by {
                                            lemma_models_prepend(node, rest@);
                                            assert(rest@.insert(0, node) =~= seq![node] + rest@);
                                        }
                                    }
                                    rest.insert(0, node);
                                    Ok((rest, end))
                                },
                            }
                        },
                    }
                }
            },
        }
    } else if c == '\\' && (i + 1 == n || !is_special_char(s.get_char(i + 1))) {
        Err(ParseError::DanglingEscape)
    } else {
        // one character of text: a literal character or an escape pair
        let step: usize = if c == '\\' {
            2
        } else {
            1
        };
        let piece = if c == '\\' {
            s.substring_char(i + 1, i + 2)
        } else {
            s.substring_char(i, i + 1)
        };
        let ghost rc: char = if c == '\\' {
            s@[i + 1]
        } else {
            s@[i as int]
        };
        proof {
            assert(piece@ =~= seq![rc]);
        }
        match parse_nodes(s, n, i + step, in_target) {
            Err(e) => Err(e),
            Ok((mut rest, end)) => {
                let ghost rest0: Seq<Node> = rest@;
                if rest.len() > 0 {
                    let head = rest.remove(0);
                    proof {
                        assert(rest0 =~= seq![head] + rest@);
                        lemma_models_prepend(head, rest@);
                    }
                    match head {
                        Node::Text(t) => {
                            let mut merged = String::from_str(piece);
                            merged.append(t.as_str());
                            let node = Node::Text(merged);
                            proof {
                                lemma_prepend_char_merges(rc, node, Node::Text(t), rest@);
                                lemma_models_prepend(node, rest@);
                                assert(rest@.insert(0, node) =~= seq![node] + rest@);
                            }
                            rest.insert(0, node);
                            Ok((rest, end))
                        },
                        other => {
                            proof {
                                assert(models(rest0)[0] == other.model());
                                assert(!(models(rest0)[0] is Text));
                                lemma_models_prepend(other, rest@);
                                assert(rest@.insert(0, other) =~= seq![other] + rest@);
                            }
                            rest.insert(0, other);
                            proof {
                                assert(rest@ =~= rest0);
                            }
                            let node = Node::Text(String::from_str(piece));
                            proof {
                                lemma_models_prepend(node, rest@);
                                assert(rest@.insert(0, node) =~= seq![node] + rest@);
                            }
                            rest.insert(0, node);
                            Ok((rest, end))
                        },
                    }
                } else {
                    let node = Node::Text(String::from_str(piece));
                    proof {
                        assert(models(rest@) =~= Seq::<NodeModel>::empty());
                        lemma_models_prepend(node, rest@);
                        assert(rest@.insert(0, node) =~= seq![node] + rest@);
                    }
                    rest.insert(0, node);
                    Ok((rest, end))
                }
            },
        }
    }
}

/// The model of a prepended node is the prepended model.
proof fn lemma_models_prepend(x: Node, rest: Seq<Node>)
    ensures
        models(seq![x] + rest) == seq![x.model()] + models(rest),
{
    let all = seq![x] + rest;
    assert(all.len() == rest.len() + 1);
    assert(all[0] == x);
    assert(all.subrange(1, all.len() as int) =~= rest);
    assert(models(all) == seq![x.model()] + models(rest));
}

/// Merging one resolved character into a leading text node matches
/// [`prepend_char`] on models.
proof fn lemma_prepend_char_merges(c: char, merged: Node, head: Node, rest: Seq<Node>)
    requires
        head is Text,
        merged is Text,
        merged->Text_0@ == seq![c] + head->Text_0@,
    ensures
        prepend_char(c, models(seq![head] + rest)) == seq![merged.model()] + models(rest),
{
    lemma_models_prepend(head, rest);
    let ms = models(seq![head] + rest);
    assert(ms[0] == head.model());
    assert(ms[0] is Text);
    assert(ms.subrange(1, ms.len() as int) =~= models(rest));
    assert(seq![c] + ms[0]->Text_0 == merged->Text_0@);
    assert(prepend_char(c, ms) == seq![NodeModel::Text(merged->Text_0@)] + models(rest));
}

/// Parses a document.
///
/// On success the returned nodes are, in reading order, exactly the top-level
/// items of the document: each run of text (with its escape pairs resolved to
/// the characters they stand for) becomes one [`Node::Text`], and each
/// element becomes a [`Node::Element`] holding its parsed target and its
/// resolved attribute text.  On any grammar violation the result is the
/// [`ParseError`] describing it.  [`parsed`] states both outcomes exactly;
/// in particular the degenerate element `[]()` is accepted, with an empty
/// target and an empty attribute.
pub fn parse(document: &str) -> (r: Result<Vec<Node>, ParseError>)
    ensures
        match r {
            Ok(ns) => parsed(document@) == Ok::<Seq<NodeModel>, ParseError>(models(ns@)),
            Err(e) => parsed(document@) == Err::<Seq<NodeModel>, ParseError>(e),
        },
{
    let n = document.unicode_len();
    match parse_nodes(document, n, 0, false) {
        Ok((ns, _end)) => Ok(ns),
        Err(e) => Err(e),
    }
}

} // verus!
