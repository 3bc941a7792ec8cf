//! The node tree: a document is a prolog, one root element and trailing
//! nodes; an element owns its attributes and an ordered list of children.

use vstd::prelude::*;

mod attributes;
pub mod element;
pub mod parser;
mod value;

pub use attributes::attrs_unique;
pub use attributes::find_name;
pub use attributes::lemma_find_name;
pub use attributes::spec_insert;
pub use attributes::spec_lookup;
pub use attributes::Attr;
pub use attributes::Attributes;
pub use attributes::SpecAttr;
pub use parser::Error;
pub use value::Value;

use crate::events::spec_events_of;
use crate::events::Event;
use crate::events::SpecEvent;
use element::spec_children_view;
use element::spec_node_view;
use element::GenericElement;
use element::tag::Type;

verus! {

broadcast use vstd::std_specs::vec::group_vec_axioms;

/// A node at the specification level.
#[verifier::ext_equal]
pub enum SpecNode {
    Element(SpecElement),
    Text(Seq<char>),
    Comment(Seq<char>),
    UnpaddedComment(Seq<char>),
    Declaration(Seq<char>),
    Instruction(Seq<char>),
}

/// An element at the specification level.
#[verifier::ext_equal]
pub struct SpecElement {
    pub name: Seq<char>,
    pub attrs: Seq<SpecAttr>,
    pub children: Seq<SpecNode>,
}

/// A document at the specification level.
#[verifier::ext_equal]
pub struct SpecDocument {
    pub prolog: Seq<SpecNode>,
    pub svg: SpecElement,
    pub misc: Seq<SpecNode>,
}

/// The events one node stands for.
pub open spec fn spec_node_events(n: SpecNode) -> Seq<SpecEvent>
    decreases n,
{
    match n {
        SpecNode::Element(e) => spec_element_events(e),
        SpecNode::Text(c) => seq![SpecEvent::Text(c)],
        SpecNode::Comment(c) => seq![SpecEvent::Comment(c)],
        SpecNode::UnpaddedComment(c) => seq![SpecEvent::UnpaddedComment(c)],
        SpecNode::Declaration(c) => seq![SpecEvent::Declaration(c)],
        SpecNode::Instruction(c) => seq![SpecEvent::Instruction(c)],
    }
}

/// The events an element stands for: a childless element is one empty tag,
/// any other is a start tag, its children's events and an end tag without
/// attributes.
pub open spec fn spec_element_events(e: SpecElement) -> Seq<SpecEvent>
    decreases e,
{
    if e.children.len() == 0 {
        seq![SpecEvent::Tag(e.name, Type::Empty, e.attrs)]
    } else {
        seq![SpecEvent::Tag(e.name, Type::Start, e.attrs)] + spec_nodes_events(e.children)
            + seq![SpecEvent::Tag(e.name, Type::End, Seq::<SpecAttr>::empty())]
    }
}

/// The events a list of nodes stands for, in order.
pub open spec fn spec_nodes_events(cs: Seq<SpecNode>) -> Seq<SpecEvent>
    decreases cs,
{
    if cs.len() == 0 {
        Seq::empty()
    } else {
        spec_node_events(cs[0]) + spec_nodes_events(cs.drop_first())
    }
}

pub proof fn lemma_nodes_events_push(cs: Seq<SpecNode>, n: SpecNode)
    ensures
        spec_nodes_events(cs.push(n)) == spec_nodes_events(cs) + spec_node_events(n),
    decreases cs,
{
    if cs.len() == 0 {
        assert(spec_nodes_events(cs) == Seq::<SpecEvent>::empty());
        assert(cs.push(n)[0] == n);
        assert(cs.push(n).drop_first() =~= cs);
        assert(spec_nodes_events(cs.push(n)) =~= spec_nodes_events(cs) + spec_node_events(n));
    } else {
        assert(cs.push(n).drop_first() =~= cs.drop_first().push(n));
        lemma_nodes_events_push(cs.drop_first(), n);
        assert(cs.push(n)[0] == cs[0]);
        assert(spec_nodes_events(cs.push(n)) =~= spec_nodes_events(cs) + spec_node_events(n));
    }
}

/// The events a whole document stands for: the prolog's, the root
/// element's, then the trailing nodes'.
pub open spec fn spec_document_events(d: SpecDocument) -> Seq<SpecEvent> {
    spec_nodes_events(d.prolog) + spec_element_events(d.svg) + spec_nodes_events(d.misc)
}

/// A node.
#[derive(Debug)]
pub enum Node {
    /// An element.
    Element(GenericElement),
    /// A text node.
    Text(String),
    /// A padded comment (eg. `<!-- foo -->`).
    Comment(String),
    /// An unpadded comment (eg. `<!--foo-->`).
    UnpaddedComment(String),
    /// A declaration.
    Declaration(String),
    /// An instruction.
    Instruction(String),
}

impl View for Node {
    type V = SpecNode;

    open spec fn view(&self) -> SpecNode {
        spec_node_view(*self)
    }
}

impl Clone for Node {
    /// Copy the node and all it holds.
    fn clone(&self) -> (r: Self)
        ensures
            r@ == self@,
        decreases *self,
    {
        match self {
            Node::Element(e) => Node::Element(e.clone()),
            Node::Text(c) => Node::Text(c.clone()),
            Node::Comment(c) => Node::Comment(c.clone()),
            Node::UnpaddedComment(c) => Node::UnpaddedComment(c.clone()),
            Node::Declaration(c) => Node::Declaration(c.clone()),
            Node::Instruction(c) => Node::Instruction(c.clone()),
        }
    }
}

impl Node {
    /// Create an element node.
    pub fn new_element(name: &str) -> (r: Node)
        ensures
            r@ == SpecNode::Element(
                SpecElement {
                    name: name@,
                    attrs: Seq::<SpecAttr>::empty(),
                    children: Seq::<SpecNode>::empty(),
                },
            ),
    {
        Node::Element(GenericElement::new(name))
    }

    /// Create a text node.
    pub fn new_text(content: &str) -> (r: Node)
        ensures
            r@ == SpecNode::Text(content@),
    {
        Node::Text(content.to_owned())
    }

    /// Create a comment node whose content will be padded (eg.
    /// `new_comment("foo")` is written as `<!-- foo -->`).
    pub fn new_comment(content: &str) -> (r: Node)
        ensures
            r@ == SpecNode::Comment(content@),
    {
        Node::Comment(content.to_owned())
    }

    /// Create a comment node whose content will not be padded (eg.
    /// `new_unpadded_comment("foo")` is written as `<!--foo-->`).
    pub fn new_unpadded_comment(content: &str) -> (r: Node)
        ensures
            r@ == SpecNode::UnpaddedComment(content@),
    {
        Node::UnpaddedComment(content.to_owned())
    }

    /// Create a declaration node.
    pub fn new_declaration(content: &str) -> (r: Node)
        ensures
            r@ == SpecNode::Declaration(content@),
    {
        Node::Declaration(content.to_owned())
    }

    /// Create an instruction node.
    pub fn new_instruction(content: &str) -> (r: Node)
        ensures
            r@ == SpecNode::Instruction(content@),
    {
        Node::Instruction(content.to_owned())
    }

    /// The events this node stands for.
    pub fn to_events(&self) -> (r: Vec<Event>)
        ensures
            spec_events_of(r@) == spec_node_events(self@),
        decreases *self,
    {
        match self {
            Node::Element(element) => element.to_events(),
            Node::Text(content) => {
                let out = vec![Event::Text(content.clone())];
                proof {
                    assert(spec_events_of(out@) =~= spec_node_events(self@));
                }
                out
            },
            Node::Comment(content) => {
                let out = vec![Event::Comment(content.clone())];
                proof {
                    assert(spec_events_of(out@) =~= spec_node_events(self@));
                }
                out
            },
            Node::UnpaddedComment(content) => {
                let out = vec![Event::UnpaddedComment(content.clone())];
                proof {
                    assert(spec_events_of(out@) =~= spec_node_events(self@));
                }
                out
            },
            Node::Declaration(content) => {
                let out = vec![Event::Declaration(content.clone())];
                proof {
                    assert(spec_events_of(out@) =~= spec_node_events(self@));
                }
                out
            },
            Node::Instruction(content) => {
                let out = vec![Event::Instruction(content.clone())];
                proof {
                    assert(spec_events_of(out@) =~= spec_node_events(self@));
                }
                out
            },
        }
    }
}

/// A complete document: the prolog before the root element, the root
/// element, and everything after it.
#[derive(Debug)]
pub struct Document {
    prolog: Vec<Node>,
    svg: GenericElement,
    misc_followers: Vec<Node>,
}

impl View for Document {
    type V = SpecDocument;

    closed spec fn view(&self) -> SpecDocument {
        SpecDocument {
            prolog: spec_children_view(self.prolog@),
            svg: self.svg@,
            misc: spec_children_view(self.misc_followers@),
        }
    }
}

impl Document {
    /// Create a document holding an empty root element named `svg`.
    pub fn new() -> (r: Document)
        ensures
            r@ == (SpecDocument {
                prolog: Seq::<SpecNode>::empty(),
                svg: SpecElement {
                    name: "svg"@,
                    attrs: Seq::<SpecAttr>::empty(),
                    children: Seq::<SpecNode>::empty(),
                },
                misc: Seq::<SpecNode>::empty(),
            }),
    {
        let r = Document {
            prolog: Vec::new(),
            svg: GenericElement::new("svg"),
            misc_followers: Vec::new(),
        };
        proof {
            assert(spec_children_view(Seq::<Node>::empty()) =~= Seq::<SpecNode>::empty());
            assert(r@ =~= (SpecDocument {
                prolog: Seq::<SpecNode>::empty(),
                svg: SpecElement {
                    name: "svg"@,
                    attrs: Seq::<SpecAttr>::empty(),
                    children: Seq::<SpecNode>::empty(),
                },
                misc: Seq::<SpecNode>::empty(),
            }));
        }
        r
    }

    /// Append a node to the root element.
    pub fn add(self, node: Node) -> (r: Document)
        ensures
            r@ == (SpecDocument {
                svg: SpecElement {
                    children: self@.svg.children.push(node@),
                    ..self@.svg
                },
                ..self@
            }),
    {
        let ghost dv = self@;
        let ghost nv = node@;
        let Document { prolog, mut svg, misc_followers } = self;
        svg.append(node);
        let r = Document { prolog, svg, misc_followers };
        proof {
            assert(r@ =~= (SpecDocument {
                svg: SpecElement { children: dv.svg.children.push(nv), ..dv.svg },
                ..dv
            }));
        }
        r
    }

    /// Assign an attribute on the root element.
    pub fn set(self, name: &str, value: Value) -> (r: Document)
        requires
            attrs_unique(self@.svg.attrs),
        ensures
            r@ == (SpecDocument {
                svg: SpecElement {
                    attrs: spec_insert(self@.svg.attrs, name@, value@),
                    ..self@.svg
                },
                ..self@
            }),
            attrs_unique(r@.svg.attrs),
    {
        let ghost dv = self@;
        let ghost vv = value@;
        let Document { prolog, mut svg, misc_followers } = self;
        svg.assign(name, value);
        let r = Document { prolog, svg, misc_followers };
        proof {
            assert(r@ =~= (SpecDocument {
                svg: SpecElement { attrs: spec_insert(dv.svg.attrs, name@, vv), ..dv.svg },
                ..dv
            }));
        }
        r
    }

    /// Assemble a document from its parts.
    pub(crate) fn from_parts(prolog: Vec<Node>, svg: GenericElement, misc_followers: Vec<
        Node,
    >) -> (r: Document)
        ensures
            r@ == (SpecDocument {
                prolog: spec_children_view(prolog@),
                svg: svg@,
                misc: spec_children_view(misc_followers@),
            }),
    {
        let ghost pv = spec_children_view(prolog@);
        let ghost sv = svg@;
        let ghost mv = spec_children_view(misc_followers@);
        let r = Document { prolog, svg, misc_followers };
        proof {
            assert(r@ =~= (SpecDocument { prolog: pv, svg: sv, misc: mv }));
        }
        r
    }

    /// Build a document from an event sequence.
    pub fn from_events(events: Vec<Event>) -> (r: Result<Document, Error>)
        ensures
            match parser::spec_build_document(spec_events_of(events@)) {
                Ok(d) => r matches Ok(doc) && doc@ == d,
                Err(m) => r matches Err(e) && e.spec_message() == m,
            },
    {
        let mut event_parser = parser::Parser::new(events);
        event_parser.process()
    }

    /// Run a tokenizer to its end and build a document from what it
    /// produced; a tokenizer error is passed on with its position.
    pub fn from_event_parser(parser: crate::events::parser::Parser) -> (r: Result<
        Document,
        Error,
    >)
        requires
            parser.wf(),
        ensures
            match crate::events::parser::spec_tokenize(parser.text(), parser.pos()) {
                Ok(evs) => match parser::spec_build_document(evs) {
                    Ok(d) => r matches Ok(doc) && doc@ == d,
                    Err(m) => r matches Err(e) && e.spec_message() == m,
                },
                Err((ep, m)) => r matches Err(e) && e.spec_message() == m + " (position "@
                    + crate::text::dec_rep(ep as nat) + ")"@,
            },
    {
        let mut tokenizer = parser;
        let ghost t0 = tokenizer.text();
        let ghost p0 = tokenizer.pos();
        let mut events: Vec<Event> = Vec::new();
        proof {
            tokenizer.lemma_wf_bounds();
            assert(spec_events_of(events@) =~= Seq::<SpecEvent>::empty());
        }
        loop
            invariant
                tokenizer.wf(),
                tokenizer.text() == t0,
                t0 == parser.text(),
                p0 == parser.pos(),
                0 <= p0 <= t0.len(),
                0 <= tokenizer.pos() <= t0.len(),
                crate::events::parser::spec_tokenize(t0, p0) == (match
                    crate::events::parser::spec_tokenize(t0, tokenizer.pos()) {
                    Ok(rest) => Ok::<_, (int, Seq<char>)>(spec_events_of(events@) + rest),
                    Err(e) => Err(e),
                }),
            ensures
                crate::events::parser::spec_tokenize(t0, p0) == Ok::<_, (int, Seq<char>)>(
                    spec_events_of(events@),
                ),
            decreases t0.len() - tokenizer.pos(),
        {
            let ghost pre_pos = tokenizer.pos();
            proof {
                crate::events::parser::lemma_spec_step_advances(t0, pre_pos);
            }
            let step = tokenizer.next();
            match step {
                None => {
                    proof {
                        assert(spec_events_of(events@) + Seq::<SpecEvent>::empty()
                            =~= spec_events_of(events@));
                    }
                    break;
                },
                Some(Ok(ev)) => {
                    let ghost e = ev;
                    let ghost pre = events@;
                    events.push(ev);
                    proof {
                        crate::events::lemma_spec_events_of_push(pre, e);
                        assert(match crate::events::parser::spec_tokenize(
                            t0,
                            tokenizer.pos(),
                        ) {
                            Ok(rest) => spec_events_of(pre).push(e@) + rest
                                =~= spec_events_of(pre) + (seq![e@] + rest),
                            Err(_) => true,
                        });
                    }
                },
                Some(Err(err)) => {
                    let message = err.to_text();
                    return Err(Error::new(message));
                },
            }
        }
        Document::from_events(events)
    }

    /// The root element.
    pub fn get_svg(&self) -> (r: &GenericElement)
        ensures
            r@ == self@.svg,
    {
        &self.svg
    }

    /// The root element, for mutation.
    pub fn get_mut_svg(&mut self) -> (r: &mut GenericElement)
        ensures
            r@ == old(self)@.svg,
            final(self)@ == (SpecDocument { svg: final(r)@, ..old(self)@ }),
    {
        &mut self.svg
    }

    /// The document as composed text.
    pub fn to_text(&self) -> (r: String)
        ensures
            r@ == crate::events::composer::spec_render_events(spec_document_events(self@)),
    {
        let events = self.to_events();
        crate::events::composer::compose_events(&events)
    }

    /// The events the whole document stands for.
    #[verifier::loop_isolation(false)]
    pub fn to_events(&self) -> (r: Vec<Event>)
        ensures
            spec_events_of(r@) == spec_document_events(self@),
    {
        let mut out: Vec<Event> = Vec::new();
        proof {
            element::lemma_children_view(self.prolog@);
            element::lemma_children_view(self.misc_followers@);
            assert(spec_events_of(out@) =~= spec_nodes_events(self@.prolog.take(0)));
        }
        let n = self.prolog.len();
        let mut i: usize = 0;
        while i < n
            invariant
                i <= n,
                spec_events_of(out@) == spec_nodes_events(self@.prolog.take(i as int)),
            decreases n - i,
        {
            let mut child_events = self.prolog[i].to_events();
            let ghost cev = child_events@;
            let ghost pre = out@;
            out.append(&mut child_events);
            proof {
                crate::events::lemma_spec_events_of_concat(pre, cev);
                assert(self@.prolog.take(i as int + 1) =~= self@.prolog.take(i as int).push(
                    self@.prolog[i as int],
                ));
                lemma_nodes_events_push(self@.prolog.take(i as int), self@.prolog[i as int]);
                assert(spec_events_of(out@) =~= spec_nodes_events(self@.prolog.take(i as int + 1)));
            }
            i = i + 1;
        }
        let mut svg_events = self.svg.to_events();
        let ghost sev = svg_events@;
        let ghost pre = out@;
        out.append(&mut svg_events);
        proof {
            crate::events::lemma_spec_events_of_concat(pre, sev);
            assert(self@.prolog.take(n as int) =~= self@.prolog);
            assert(spec_events_of(out@) =~= spec_nodes_events(self@.prolog)
                + spec_element_events(self@.svg) + spec_nodes_events(self@.misc.take(0)));
        }
        let m = self.misc_followers.len();
        let mut j: usize = 0;
        while j < m
            invariant
                j <= m,
                spec_events_of(out@) == spec_nodes_events(self@.prolog) + spec_element_events(
                    self@.svg,
                ) + spec_nodes_events(self@.misc.take(j as int)),
            decreases m - j,
        {
            let mut child_events = self.misc_followers[j].to_events();
            let ghost cev = child_events@;
            let ghost pre2 = out@;
            out.append(&mut child_events);
            proof {
                crate::events::lemma_spec_events_of_concat(pre2, cev);
                assert(self@.misc.take(j as int + 1) =~= self@.misc.take(j as int).push(
                    self@.misc[j as int],
                ));
                lemma_nodes_events_push(self@.misc.take(j as int), self@.misc[j as int]);
                assert(spec_events_of(out@) =~= spec_nodes_events(self@.prolog)
                    + spec_element_events(self@.svg) + spec_nodes_events(self@.misc.take(
                    j as int + 1,
                )));
            }
            j = j + 1;
        }
        proof {
            assert(self@.misc.take(m as int) =~= self@.misc);
            assert(spec_events_of(out@) =~= spec_document_events(self@));
        }
        out
    }
}

} // verus!
