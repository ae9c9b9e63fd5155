//! Very Minimal Markup Language (VMML)
//! ===================================
//!
//! VMML is a lightweight markup notation: plain text interspersed with
//! bracketed elements that each carry a single parenthesized attribute and may
//! nest arbitrarily.  An example document:
//!
//! ```text
//! The [quick](bold) brown [fox](orange) jumps [over the [lazy](bold) dog](italic).
//! ```
//!
//! * `quick` is an element with the attribute `bold`.
//! * `fox` is an element with the attribute `orange`.
//! * `over the lazy dog` is an element with the attribute `italic`, and it
//!   contains a nested element `lazy` with the attribute `bold`.
//!
//! The notation leaves the meaning of an attribute entirely to the caller: the
//! parser captures elements, nesting and escaping, and hands the attribute
//! text over verbatim.
//!
//! [`parse`] turns a document into a tree of [`Node`]s or reports a
//! [`ParseError`]; [`escape`] rewrites text so that it can be embedded
//! literally in a document.  Both carry contracts that pin their results down
//! to the grammar's mathematical description in [`grammar`].

pub mod ast;
pub mod grammar;
pub mod laws;
pub mod escaper;
pub mod parser;

pub use ast::Node;
pub use ast::NodeModel;
pub use ast::ParseError;
pub use escaper::escape;
pub use parser::parse;
