//! Structural events: the unit the tokenizer produces and the composer
//! consumes.

use vstd::prelude::*;

use crate::node::attrs_unique;
use crate::node::element::tag::Type;
use crate::node::Attributes;
use crate::node::SpecAttr;

pub mod composer;
pub mod parser;

verus! {

/// An event at the specification level.
#[verifier::ext_equal]
pub enum SpecEvent {
    Tag(Seq<char>, Type, Seq<SpecAttr>),
    Text(Seq<char>),
    Comment(Seq<char>),
    UnpaddedComment(Seq<char>),
    Declaration(Seq<char>),
    Instruction(Seq<char>),
}

impl SpecEvent {
    /// Attribute names inside a tag event are unique; other events carry no
    /// attributes.
    pub open spec fn wf(self) -> bool {
        match self {
            SpecEvent::Tag(_, _, attrs) => attrs_unique(attrs),
            _ => true,
        }
    }
}

/// The views of a sequence of events.
pub open spec fn spec_events_of(s: Seq<Event>) -> Seq<SpecEvent> {
    s.map_values(|e: Event| e@)
}

pub proof fn lemma_spec_events_of_push(s: Seq<Event>, e: Event)
    ensures
        spec_events_of(s.push(e)) == spec_events_of(s).push(e@),
{
    let lhs = spec_events_of(s.push(e));
    let rhs = spec_events_of(s).push(e@);
    assert forall|k: int| 0 <= k < lhs.len() implies #[trigger] lhs[k] == rhs[k] by {
        if k < s.len() {
            assert(s.push(e)[k] == s[k]);
            assert(spec_events_of(s)[k] == s[k]@);
        } else {
            assert(s.push(e)[k] == e);
        }
    }
    assert(lhs =~= rhs);
}

pub proof fn lemma_spec_events_of_concat(a: Seq<Event>, b: Seq<Event>)
    ensures
        spec_events_of(a + b) == spec_events_of(a) + spec_events_of(b),
{
    let lhs = spec_events_of(a + b);
    let rhs = spec_events_of(a) + spec_events_of(b);
    assert forall|k: int| 0 <= k < lhs.len() implies #[trigger] lhs[k] == rhs[k] by {
        if k < a.len() {
            assert((a + b)[k] == a[k]);
            assert(spec_events_of(a)[k] == a[k]@);
        } else {
            assert((a + b)[k] == b[k - a.len()]);
            assert(spec_events_of(b)[k - a.len()] == b[k - a.len()]@);
        }
    }
    assert(lhs =~= rhs);
}

/// An event.
#[derive(Debug)]
pub enum Event {
    /// A tag.
    Tag(String, Type, Attributes),
    /// A text.
    Text(String),
    /// A padded comment (eg. `<!-- foo -->`).
    Comment(String),
    /// An unpadded comment (eg. `<!--foo-->`).
    UnpaddedComment(String),
    /// A declaration.
    Declaration(String),
    /// An instruction.
    Instruction(String),
}

impl View for Event {
    type V = SpecEvent;

    open spec fn view(&self) -> SpecEvent {
        match self {
            Event::Tag(name, kind, attributes) => SpecEvent::Tag(name@, *kind, attributes@),
            Event::Text(content) => SpecEvent::Text(content@),
            Event::Comment(content) => SpecEvent::Comment(content@),
            Event::UnpaddedComment(content) => SpecEvent::UnpaddedComment(content@),
            Event::Declaration(content) => SpecEvent::Declaration(content@),
            Event::Instruction(content) => SpecEvent::Instruction(content@),
        }
    }
}

impl Event {
    /// Create a tag event.
    pub fn new_tag(name: &str, children: Type, attributes: Attributes) -> (r: Event)
        ensures
            r@ == SpecEvent::Tag(name@, children, attributes@),
    {
        Event::Tag(name.to_owned(), children, attributes)
    }

    /// Create a text event.
    pub fn new_text(content: &str) -> (r: Event)
        ensures
            r@ == SpecEvent::Text(content@),
    {
        Event::Text(content.to_owned())
    }

    /// Create a padded comment event.
    pub fn new_comment(content: &str) -> (r: Event)
        ensures
            r@ == SpecEvent::Comment(content@),
    {
        Event::Comment(content.to_owned())
    }

    /// Create an unpadded comment event.
    pub fn new_comment_unpadded(content: &str) -> (r: Event)
        ensures
            r@ == SpecEvent::UnpaddedComment(content@),
    {
        Event::UnpaddedComment(content.to_owned())
    }

    /// Create a declaration event.
    pub fn new_declaration(content: &str) -> (r: Event)
        ensures
            r@ == SpecEvent::Declaration(content@),
    {
        Event::Declaration(content.to_owned())
    }

    /// Create an instruction event.
    pub fn new_instruction(content: &str) -> (r: Event)
        ensures
            r@ == SpecEvent::Instruction(content@),
    {
        Event::Instruction(content.to_owned())
    }
}

} // verus!
