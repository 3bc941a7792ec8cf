//! The element nodes.

use vstd::prelude::*;
use vstd::string::StrSliceExecFns;

use crate::events::Event;
use crate::events::SpecEvent;
use crate::node::attrs_unique;
use crate::node::spec_element_events;
use crate::node::spec_events_of;
use crate::node::spec_insert;
use crate::node::spec_nodes_events;
use crate::node::Attributes;
use crate::node::Node;
use crate::node::SpecElement;
use crate::node::SpecNode;
use crate::node::Value;

pub mod tag;

use tag::Type;

verus! {

broadcast use vstd::std_specs::vec::group_vec_axioms;

/// An element: a name, attributes, and an ordered list of children.
#[derive(Debug)]
pub struct GenericElement {
    name: String,
    attributes: Attributes,
    children: Vec<Node>,
}

/// The view of a list of child nodes.
pub open spec fn spec_children_view(cs: Seq<Node>) -> Seq<SpecNode>
    decreases cs,
{
    if cs.len() == 0 {
        Seq::empty()
    } else {
        seq![spec_node_view(cs[0])] + spec_children_view(cs.drop_first())
    }
}

/// The view of one node.
pub open spec fn spec_node_view(n: Node) -> SpecNode
    decreases n,
{
    match n {
        Node::Element(e) => SpecNode::Element(spec_element_view(e)),
        Node::Text(c) => SpecNode::Text(c@),
        Node::Comment(c) => SpecNode::Comment(c@),
        Node::UnpaddedComment(c) => SpecNode::UnpaddedComment(c@),
        Node::Declaration(c) => SpecNode::Declaration(c@),
        Node::Instruction(c) => SpecNode::Instruction(c@),
    }
}

/// The view of one element.
pub closed spec fn spec_element_view(e: GenericElement) -> SpecElement
    decreases e,
{
    SpecElement {
        name: e.name@,
        attrs: e.attributes@,
        children: spec_children_view(e.children@),
    }
}

pub proof fn lemma_children_view(cs: Seq<Node>)
    ensures
        spec_children_view(cs).len() == cs.len(),
        forall|i: int| 0 <= i < cs.len() ==> #[trigger] spec_children_view(cs)[i]
            == spec_node_view(cs[i]),
    decreases cs,
{
    if cs.len() > 0 {
        lemma_children_view(cs.drop_first());
        assert forall|i: int| 0 <= i < cs.len() implies #[trigger] spec_children_view(cs)[i]
            == spec_node_view(cs[i]) by {
            if i > 0 {
                assert(cs.drop_first()[i - 1] == cs[i]);
                assert(spec_children_view(cs.drop_first())[i - 1] == spec_node_view(
                    cs.drop_first()[i - 1],
                ));
            }
        }
    }
}

pub proof fn lemma_children_view_push(cs: Seq<Node>, n: Node)
    ensures
        spec_children_view(cs.push(n)) == spec_children_view(cs).push(spec_node_view(n)),
    decreases cs,
{
    if cs.len() == 0 {
        assert(spec_children_view(cs) == Seq::<SpecNode>::empty());
        assert(cs.push(n)[0] == n);
        assert(cs.push(n).drop_first() =~= cs);
        assert(spec_children_view(cs.push(n)) =~= spec_children_view(cs).push(
            spec_node_view(n),
        ));
    } else {
        assert(cs.push(n).drop_first() =~= cs.drop_first().push(n));
        lemma_children_view_push(cs.drop_first(), n);
        assert(cs.push(n)[0] == cs[0]);
        assert(spec_children_view(cs.push(n)) =~= spec_children_view(cs).push(
            spec_node_view(n),
        ));
    }
}

impl View for GenericElement {
    type V = SpecElement;

    open spec fn view(&self) -> SpecElement {
        spec_element_view(*self)
    }
}

impl Clone for GenericElement {
    /// Copy the element and all it holds.
    #[verifier::loop_isolation(false)]
    fn clone(&self) -> (r: Self)
        ensures
            r@ == self@,
        decreases *self,
    {
        let n = self.children.len();
        let mut children: Vec<Node> = Vec::new();
        let mut i: usize = 0;
        while i < n
            invariant
                i <= n,
                children@.len() == i,
                forall|k: int| 0 <= k < i ==> #[trigger] spec_node_view(children@[k])
                    == spec_node_view(self.children@[k]),
            decreases n - i,
        {
            proof {
                assert(decreases_to!(*self => self.children));
                assert(decreases_to!(self.children => self.children@[i as int]));
            }
            children.push(self.children[i].clone());
            i = i + 1;
        }
        proof {
            lemma_children_view(children@);
            lemma_children_view(self.children@);
            assert(spec_children_view(children@) =~= spec_children_view(self.children@));
        }
        let r = GenericElement {
            name: self.name.clone(),
            attributes: self.attributes.clone(),
            children,
        };
        proof {
            assert(r@ =~= self@);
        }
        r
    }
}

impl GenericElement {
    /// Create an element without attributes or children.
    pub fn new(name: &str) -> (r: GenericElement)
        ensures
            r@ == (SpecElement {
                name: name@,
                attrs: Seq::<crate::node::SpecAttr>::empty(),
                children: Seq::<SpecNode>::empty(),
            }),
    {
        let r = GenericElement {
            name: name.to_owned(),
            attributes: Attributes::new(),
            children: Vec::new(),
        };
        proof {
            assert(spec_children_view(r.children@) =~= Seq::<SpecNode>::empty());
            assert(r@ =~= (SpecElement {
                name: name@,
                attrs: Seq::<crate::node::SpecAttr>::empty(),
                children: Seq::<SpecNode>::empty(),
            }));
        }
        r
    }

    /// Create an element from its parts.
    pub fn new_from(name: String, attributes: Attributes, children: Vec<Node>) -> (r:
        GenericElement)
        ensures
            r@ == (SpecElement {
                name: name@,
                attrs: attributes@,
                children: spec_children_view(children@),
            }),
    {
        let r = GenericElement { name, attributes, children };
        proof {
            assert(r@ =~= (SpecElement {
                name: r.name@,
                attrs: r.attributes@,
                children: spec_children_view(r.children@),
            }));
        }
        r
    }

    /// The element's name.
    pub fn get_name(&self) -> (r: &str)
        ensures
            r@ == self@.name,
    {
        self.name.as_str()
    }

    /// The element's attributes.
    pub fn get_attributes(&self) -> (r: &Attributes)
        ensures
            r@ == self@.attrs,
    {
        &self.attributes
    }

    /// The element's children, in order.
    pub fn get_children(&self) -> (r: &Vec<Node>)
        ensures
            spec_children_view(r@) == self@.children,
    {
        &self.children
    }

    /// Append a child node.
    pub fn append(&mut self, node: Node)
        ensures
            final(self)@ == (SpecElement {
                children: old(self)@.children.push(spec_node_view(node)),
                ..old(self)@
            }),
    {
        let ghost pre = self.children@;
        self.children.push(node);
        proof {
            lemma_children_view_push(pre, node);
            assert(final(self)@ =~= (SpecElement {
                children: old(self)@.children.push(spec_node_view(node)),
                ..old(self)@
            }));
        }
    }

    /// Assign an attribute; a present name takes the new value.
    pub fn assign(&mut self, name: &str, value: Value)
        requires
            attrs_unique(old(self)@.attrs),
        ensures
            final(self)@ == (SpecElement {
                attrs: spec_insert(old(self)@.attrs, name@, value@),
                ..old(self)@
            }),
            attrs_unique(final(self)@.attrs),
    {
        self.attributes.insert(name.to_owned(), value);
        proof {
            assert(final(self)@ =~= (SpecElement {
                attrs: spec_insert(old(self)@.attrs, name@, value@),
                ..old(self)@
            }));
        }
    }

    /// The element as composed text.
    pub fn to_text(&self) -> (r: String)
        ensures
            r@ == crate::events::composer::spec_render_events(spec_element_events(self@)),
    {
        let events = self.to_events();
        crate::events::composer::compose_events(&events)
    }

    /// The events this element stands for: one empty tag when it is
    /// childless, else a start tag, the children's events and an end tag.
    #[verifier::loop_isolation(false)]
    pub fn to_events(&self) -> (r: Vec<Event>)
        ensures
            spec_events_of(r@) == spec_element_events(self@),
        decreases *self,
    {
        let mut out: Vec<Event> = Vec::new();
        if self.children.len() == 0 {
            out.push(
                Event::Tag(self.name.clone(), Type::Empty, self.attributes.clone()),
            );
            proof {
                assert(spec_children_view(self.children@) =~= Seq::<SpecNode>::empty());
                assert(spec_events_of(out@) =~= spec_element_events(self@));
            }
            out
        } else {
            out.push(
                Event::Tag(self.name.clone(), Type::Start, self.attributes.clone()),
            );
            proof {
                lemma_children_view(self.children@);
                assert(spec_events_of(out@) =~= seq![
                    SpecEvent::Tag(self@.name, Type::Start, self@.attrs),
                ] + spec_nodes_events(self@.children.take(0)));
            }
            let n = self.children.len();
            let mut i: usize = 0;
            while i < n
                invariant
                    i <= n,
                    spec_events_of(out@) == seq![
                        SpecEvent::Tag(self@.name, Type::Start, self@.attrs),
                    ] + spec_nodes_events(self@.children.take(i as int)),
                decreases n - i,
            {
                proof {
                    assert(decreases_to!(*self => self.children));
                    assert(decreases_to!(self.children => self.children@[i as int]));
                }
                let mut child_events = self.children[i].to_events();
                let ghost cev = child_events@;
                let ghost pre = out@;
                out.append(&mut child_events);
                proof {
                    crate::events::lemma_spec_events_of_concat(pre, cev);
                    assert(self@.children.take(i as int + 1) =~= self@.children.take(
                        i as int,
                    ).push(self@.children[i as int]));
                    crate::node::lemma_nodes_events_push(
                        self@.children.take(i as int),
                        self@.children[i as int],
                    );
                    assert(spec_events_of(out@) =~= seq![
                        SpecEvent::Tag(self@.name, Type::Start, self@.attrs),
                    ] + spec_nodes_events(self@.children.take(i as int + 1)));
                }
                i = i + 1;
            }
            let empty_attrs = Attributes::new();
            let end_tag = Event::Tag(self.name.clone(), Type::End, empty_attrs);
            let ghost et = end_tag;
            let ghost pre = out@;
            out.push(end_tag);
            proof {
                crate::events::lemma_spec_events_of_push(pre, et);
                assert(self@.children.take(n as int) =~= self@.children);
                assert(et@ == SpecEvent::Tag(
                    self@.name,
                    Type::End,
                    Seq::<crate::node::SpecAttr>::empty(),
                ));
                assert(spec_events_of(out@) =~= spec_element_events(self@));
            }
            out
        }
    }
}

} // verus!
