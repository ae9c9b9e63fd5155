//! The document tree and the parse error taxonomy.

use vstd::prelude::*;

verus! {

broadcast use vstd::std_specs::vec::group_vec_axioms;

/// The ways an input can be ill-formed.  Parsing is deterministic, so for a
/// given document exactly one of these is reported, as [`crate::grammar::parsed`]
/// describes.
#[derive(Clone, Copy, Debug, PartialEq, Eq, Structural)]
pub enum ParseError {
    /// An opening `[` whose target is never closed by a matching `]`.
    UnterminatedTarget,
    /// An opening `(` whose attribute is never closed by a matching `)`.
    UnterminatedAttr,
    /// Something other than `(` (or nothing at all) directly after the `]`
    /// that closes a target: the attribute must be adjacent.
    MalformedAdjacency,
    /// An unescaped `[` inside an attribute: attributes are plain text and
    /// admit no element.
    NestedAttr,
    /// A backslash not followed by one of `\ [ ] ( )`, including a backslash
    /// at the end of the input.
    DanglingEscape,
    /// An unescaped `]`, `(` or `)` outside of any element.
    StrayDelimiter,
}

/// A node of the parsed tree.  Text is stored with escape sequences already
/// resolved: an escape pair in the source contributes the escaped character
/// alone.
#[derive(Debug, PartialEq)]
pub enum Node {
    /// A run of literal text.
    Text(String),
    /// An element: a bracketed target holding child nodes, and the
    /// parenthesized attribute text that follows it.
    Element {
        /// The parsed content of the target.
        inner: Vec<Node>,
        /// The attribute, plain text with escapes resolved.
        attr: String,
    },
}

/// The mathematical shape of a [`Node`]: the same tree with every piece of
/// text read as a sequence of characters.  Contracts speak of this type.
pub enum NodeModel {
    /// A run of literal text.
    Text(Seq<char>),
    /// An element with its children and its attribute.
    Element { inner: Seq<NodeModel>, attr: Seq<char> },
}

impl Node {
    /// What this node stands for.
    pub open spec fn model(self) -> NodeModel
        decreases self,
    {
        match self {
            Node::Text(s) => NodeModel::Text(s@),
            Node::Element { inner, attr } => {
                proof {
                    assert(decreases_to!(self => inner));
                    assert(decreases_to!(inner => inner@));
                }
                NodeModel::Element { inner: models(inner@), attr: attr@ }
            },
        }
    }
}

/// The models of a sequence of nodes, in order.
pub open spec fn models(ns: Seq<Node>) -> Seq<NodeModel>
    decreases ns,
{
    if ns.len() == 0 {
        Seq::empty()
    } else {
        seq![ns[0].model()] + models(ns.subrange(1, ns.len() as int))
    }
}

} // verus!
