//! A composer and parser for an XML-like vector-graphics document format.
//!
//! Text is tokenized into a sequence of structural [`events::Event`]s, a
//! [`node::Document`] is built from those events, and a document or an event
//! sequence is composed back to text with deterministic formatting choices:
//! attributes sorted by name, quote characters picked from the value, one
//! newline between events.

use vstd::prelude::*;

pub mod events;
pub mod node;
pub mod roundtrip;
pub mod text;

pub use crate::events::composer::Composer;
pub use crate::events::parser::Parser;
pub use crate::node::Document;

verus! {

/// Read a document: a parser over the given text.
pub fn read(content: &str) -> (r: Parser)
    ensures
        r.wf(),
        r.text() == content@,
        r.pos() == 0,
{
    Parser::new(content)
}

} // verus!
