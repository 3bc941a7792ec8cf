//! The tree builder: turns a linear event sequence into a document,
//! enforcing matching open/close tag discipline. Everything before the first
//! opening tag becomes the prolog, the first opening tag starts the root
//! element, and everything after the root's close becomes the trailing
//! nodes; a tag event there, or a close that does not match its open, fails
//! the whole build.

use vstd::prelude::*;
use vstd::pervasive::unreached;
use vstd::string::StringExecFns;

use crate::events::spec_events_of;
use crate::events::Event;
use crate::events::SpecEvent;
use crate::node::element::spec_children_view;
use crate::node::element::tag::Type;
use crate::node::element::GenericElement;
use crate::node::Document;
use crate::node::Node;
use crate::node::SpecElement;
use crate::node::SpecNode;

verus! {

broadcast use vstd::std_specs::vec::group_vec_axioms;

/// A tree-builder diagnostic.
#[derive(Debug)]
pub struct Error {
    message: String,
}

impl Error {
    /// The diagnostic text.
    pub closed spec fn spec_message(&self) -> Seq<char> {
        self.message@
    }

    /// Create a diagnostic.
    pub fn new(message: String) -> (r: Error)
        ensures
            r.spec_message() == message@,
    {
        Error { message }
    }

    /// The diagnostic text.
    pub fn message(&self) -> (r: &str)
        ensures
            r@ == self.spec_message(),
    {
        self.message.as_str()
    }
}

pub open spec fn msg_no_tags() -> Seq<char> {
    "no tags in document"@
}

pub open spec fn msg_end_before_open(name: Seq<char>) -> Seq<char> {
    "found </"@ + name + "> tag before <"@ + name + "> tag"@
}

pub open spec fn msg_second_top() -> Seq<char> {
    "unexpected second top-level tag"@
}

pub open spec fn msg_expected_more() -> Seq<char> {
    "expected more nodes"@
}

pub open spec fn msg_mismatch(open_name: Seq<char>, close_name: Seq<char>) -> Seq<char> {
    "expected </"@ + open_name + ">, found </"@ + close_name + ">"@
}

pub open spec fn msg_missing_close(name: Seq<char>) -> Seq<char> {
    "missing </"@ + name + ">"@
}

/// Whether an event is a tag of any kind.
pub open spec fn spec_is_tag(e: SpecEvent) -> bool {
    e matches SpecEvent::Tag(_, _, _)
}

/// Whether an event opens an element.
pub open spec fn spec_is_opening(e: SpecEvent) -> bool {
    e matches SpecEvent::Tag(_, k, _) && (k == Type::Start || k == Type::Empty)
}

/// Whether an event closes an element.
pub open spec fn spec_is_end(e: SpecEvent) -> bool {
    e matches SpecEvent::Tag(_, Type::End, _)
}

/// The leaf node a non-tag event becomes.
pub open spec fn spec_leaf(e: SpecEvent) -> SpecNode {
    match e {
        SpecEvent::Text(c) => SpecNode::Text(c),
        SpecEvent::Comment(c) => SpecNode::Comment(c),
        SpecEvent::UnpaddedComment(c) => SpecNode::UnpaddedComment(c),
        SpecEvent::Declaration(c) => SpecNode::Declaration(c),
        SpecEvent::Instruction(c) => SpecNode::Instruction(c),
        SpecEvent::Tag(_, _, _) => SpecNode::Text(Seq::empty()),
    }
}

/// The index of the first tag event, or the length when there is none.
pub open spec fn spec_first_tag(evs: Seq<SpecEvent>) -> int
    decreases evs.len(),
{
    if evs.len() == 0 {
        0
    } else if spec_is_tag(evs[0]) {
        0
    } else {
        1 + spec_first_tag(evs.drop_first())
    }
}

pub proof fn lemma_first_tag(evs: Seq<SpecEvent>)
    ensures
        0 <= spec_first_tag(evs) <= evs.len(),
        spec_first_tag(evs) < evs.len() ==> spec_is_tag(evs[spec_first_tag(evs)]),
        forall|k: int| 0 <= k < spec_first_tag(evs) ==> !spec_is_tag(#[trigger] evs[k]),
    decreases evs.len(),
{
    if evs.len() > 0 && !spec_is_tag(evs[0]) {
        lemma_first_tag(evs.drop_first());
        assert forall|k: int| 0 <= k < spec_first_tag(evs) implies !spec_is_tag(
            #[trigger] evs[k],
        ) by {
            if k > 0 {
                assert(evs.drop_first()[k - 1] == evs[k]);
            }
        }
    }
}

/// The leaf nodes a run of non-tag events becomes.
pub open spec fn spec_leaves(evs: Seq<SpecEvent>) -> Seq<SpecNode>
    decreases evs.len(),
{
    if evs.len() == 0 {
        Seq::empty()
    } else {
        seq![spec_leaf(evs[0])] + spec_leaves(evs.drop_first())
    }
}

pub proof fn lemma_leaves_push(evs: Seq<SpecEvent>, e: SpecEvent)
    ensures
        spec_leaves(evs.push(e)) == spec_leaves(evs).push(spec_leaf(e)),
    decreases evs.len(),
{
    if evs.len() == 0 {
        assert(spec_leaves(evs) == Seq::<SpecNode>::empty());
        assert(evs.push(e)[0] == e);
        assert(evs.push(e).drop_first() =~= evs);
        assert(spec_leaves(evs.push(e)) =~= spec_leaves(evs).push(spec_leaf(e)));
    } else {
        assert(evs.push(e).drop_first() =~= evs.drop_first().push(e));
        lemma_leaves_push(evs.drop_first(), e);
        assert(evs.push(e)[0] == evs[0]);
        assert(spec_leaves(evs.push(e)) =~= spec_leaves(evs).push(spec_leaf(e)));
    }
}

/// Parse one node from the front of the event sequence.
pub open spec fn spec_parse_node(evs: Seq<SpecEvent>) -> Result<
    (SpecNode, Seq<SpecEvent>),
    Seq<char>,
>
    decreases evs.len(), 1int,
{
    if evs.len() == 0 {
        Err(msg_expected_more())
    } else {
        match evs[0] {
            SpecEvent::Tag(name, kind, _) => {
                if kind == Type::End {
                    Err(msg_end_before_open(name))
                } else {
                    match spec_parse_tag_tree(evs) {
                        Ok((el, rest)) => Ok((SpecNode::Element(el), rest)),
                        Err(m) => Err(m),
                    }
                }
            },
            _ => Ok((spec_leaf(evs[0]), evs.drop_first())),
        }
    }
}

/// Parse one element from the front of the event sequence, whose first event
/// opens it.
pub open spec fn spec_parse_tag_tree(evs: Seq<SpecEvent>) -> Result<
    (SpecElement, Seq<SpecEvent>),
    Seq<char>,
>
    decreases evs.len(), 0int,
{
    if evs.len() == 0 {
        Err(msg_expected_more())
    } else {
        match evs[0] {
            SpecEvent::Tag(name, Type::Empty, attrs) => Ok(
                (
                    SpecElement { name, attrs, children: Seq::empty() },
                    evs.drop_first(),
                ),
            ),
            SpecEvent::Tag(name, Type::Start, attrs) => {
                match spec_parse_children(evs.drop_first()) {
                    Ok((children, rest)) => {
                        if rest.len() == 0 {
                            Err(msg_missing_close(name))
                        } else {
                            match rest[0] {
                                SpecEvent::Tag(cname, Type::End, _) => {
                                    if cname == name {
                                        Ok(
                                            (
                                                SpecElement { name, attrs, children },
                                                rest.drop_first(),
                                            ),
                                        )
                                    } else {
                                        Err(msg_mismatch(name, cname))
                                    }
                                },
                                _ => Err(msg_expected_more()),
                            }
                        }
                    },
                    Err(m) => Err(m),
                }
            },
            _ => Err(msg_expected_more()),
        }
    }
}

/// Parse child nodes until an end tag or the end of the sequence.
pub open spec fn spec_parse_children(evs: Seq<SpecEvent>) -> Result<
    (Seq<SpecNode>, Seq<SpecEvent>),
    Seq<char>,
>
    decreases evs.len(), 2int,
{
    if evs.len() == 0 {
        Ok((Seq::empty(), evs))
    } else if spec_is_end(evs[0]) {
        Ok((Seq::empty(), evs))
    } else {
        match spec_parse_node(evs) {
            Ok((node, rest)) => {
                if rest.len() < evs.len() {
                    match spec_parse_children(rest) {
                        Ok((more, rest2)) => Ok((seq![node] + more, rest2)),
                        Err(m) => Err(m),
                    }
                } else {
                    Ok((Seq::empty(), rest))
                }
            },
            Err(m) => Err(m),
        }
    }
}

/// A successful parse consumes at least the opening event, so the
/// remaining sequence shrinks.
proof fn lemma_parse_shrinks_node(evs: Seq<SpecEvent>)
    ensures
        spec_parse_node(evs) matches Ok((n, rest)) ==> rest.len() < evs.len(),
    decreases evs.len(), 1int,
{
    if evs.len() > 0 {
        if spec_is_opening(evs[0]) {
            lemma_parse_shrinks_tag(evs);
        }
    }
}

proof fn lemma_parse_shrinks_tag(evs: Seq<SpecEvent>)
    ensures
        spec_parse_tag_tree(evs) matches Ok((el, rest)) ==> rest.len() < evs.len(),
    decreases evs.len(), 0int,
{
    if evs.len() > 0 {
        match evs[0] {
            SpecEvent::Tag(name, Type::Start, attrs) => {
                lemma_parse_shrinks_children(evs.drop_first());
            },
            _ => {},
        }
    }
}

proof fn lemma_parse_shrinks_children(evs: Seq<SpecEvent>)
    ensures
        spec_parse_children(evs) matches Ok((cs, rest)) ==> rest.len() <= evs.len(),
    decreases evs.len(), 2int,
{
    if evs.len() > 0 && !spec_is_end(evs[0]) {
        lemma_parse_shrinks_node(evs);
        match spec_parse_node(evs) {
            Ok((node, rest)) => {
                if rest.len() < evs.len() {
                    lemma_parse_shrinks_children(rest);
                }
            },
            Err(_) => {},
        }
    }
}

/// Build a whole document from an event sequence.
pub open spec fn spec_build_document(evs: Seq<SpecEvent>) -> Result<
    crate::node::SpecDocument,
    Seq<char>,
> {
    let k = spec_first_tag(evs);
    if k == evs.len() {
        Err(msg_no_tags())
    } else {
        match evs[k] {
            SpecEvent::Tag(name, Type::End, _) => Err(msg_end_before_open(name)),
            _ => match spec_parse_tag_tree(evs.skip(k)) {
                Ok((el, rest)) => {
                    if spec_first_tag(rest) == rest.len() {
                        Ok(
                            crate::node::SpecDocument {
                                prolog: spec_leaves(evs.take(k)),
                                svg: el,
                                misc: spec_leaves(rest),
                            },
                        )
                    } else {
                        Err(msg_second_top())
                    }
                },
                Err(m) => Err(m),
            },
        }
    }
}

/// Turn a non-tag event into the leaf node it stands for.
fn leaf_of(ev: Event) -> (r: Node)
    requires
        !spec_is_tag(ev@),
    ensures
        r@ == spec_leaf(ev@),
{
    match ev {
        Event::Text(c) => Node::Text(c),
        Event::Comment(c) => Node::Comment(c),
        Event::UnpaddedComment(c) => Node::UnpaddedComment(c),
        Event::Declaration(c) => Node::Declaration(c),
        Event::Instruction(c) => Node::Instruction(c),
        Event::Tag(_, _, _) => unreached(),
    }
}

/// Build `found </name> tag before <name> tag`.
fn text_end_before_open(name: &str) -> (r: String)
    ensures
        r@ == msg_end_before_open(name@),
{
    let mut m = String::from_str("found </");
    m.append(name);
    m.append("> tag before <");
    m.append(name);
    m.append("> tag");
    m
}

/// Build `expected </open>, found </close>`.
fn text_mismatch(open_name: &str, close_name: &str) -> (r: String)
    ensures
        r@ == msg_mismatch(open_name@, close_name@),
{
    let mut m = String::from_str("expected </");
    m.append(open_name);
    m.append(">, found </");
    m.append(close_name);
    m.append(">");
    m
}

/// Build `missing </name>`.
fn text_missing_close(name: &str) -> (r: String)
    ensures
        r@ == msg_missing_close(name@),
{
    let mut m = String::from_str("missing </");
    m.append(name);
    m.append(">");
    m
}

/// A parser over an event sequence.
pub struct Parser {
    events: Vec<Event>,
}

impl Parser {
    /// The events still to be consumed.
    pub closed spec fn evs(&self) -> Seq<SpecEvent> {
        spec_events_of(self.events@)
    }

    /// Create a parser over an event sequence.
    pub fn new(events: Vec<Event>) -> (r: Parser)
        ensures
            r.evs() == spec_events_of(events@),
    {
        Parser { events }
    }

    /// Take the front event.
    fn take_first(&mut self) -> (r: Event)
        requires
            old(self).evs().len() > 0,
        ensures
            r@ == old(self).evs()[0],
            final(self).evs() == old(self).evs().drop_first(),
    {
        let ghost pre = self.events@;
        let ev = self.events.remove(0);
        proof {
            let lhs = spec_events_of(self.events@);
            let rhs = spec_events_of(pre).drop_first();
            assert forall|k: int| 0 <= k < lhs.len() implies #[trigger] lhs[k] == rhs[k] by {
                assert(self.events@[k] == pre[k + 1]);
                assert(spec_events_of(pre)[k + 1] == pre[k + 1]@);
            }
            assert(lhs =~= rhs);
        }
        ev
    }

    /// Collect the nodes before the first tag; fail when no tag ever comes,
    /// or when the first one closes an element nothing opened.
    #[verifier::loop_isolation(false)]
    fn process_prolog(&mut self) -> (r: Result<Vec<Node>, Error>)
        ensures
            ({
                let evs0 = old(self).evs();
                let k = spec_first_tag(evs0);
                if k == evs0.len() {
                    r matches Err(e) && e.spec_message() == msg_no_tags()
                } else if spec_is_end(evs0[k]) {
                    r matches Err(e) && e.spec_message() == msg_end_before_open(
                        evs0[k]->Tag_0,
                    )
                } else {
                    r matches Ok(nodes) && spec_children_view(nodes@) == spec_leaves(
                        evs0.take(k),
                    ) && final(self).evs() == evs0.skip(k) && spec_is_opening(evs0[k])
                }
            }),
    {
        let ghost evs0 = self.evs();
        proof {
            lemma_first_tag(evs0);
        }
        let mut prolog: Vec<Node> = Vec::new();
        let ghost mut cnt: int = 0;
        proof {
            assert(self.evs() =~= evs0.skip(0));
            assert(spec_children_view(prolog@) =~= spec_leaves(evs0.take(0)));
        }
        loop
            invariant
                0 <= cnt <= evs0.len(),
                self.evs() == evs0.skip(cnt),
                forall|k: int| 0 <= k < cnt ==> !spec_is_tag(#[trigger] evs0[k]),
                spec_children_view(prolog@) == spec_leaves(evs0.take(cnt)),
            decreases evs0.len() - cnt,
        {
            if self.events.len() == 0 {
                proof {
                    assert(cnt == evs0.len());
                }
                return Err(Error::new(String::from_str("no tags in document")));
            }
            proof {
                assert(self.evs()[0] == evs0[cnt]);
            }
            let is_tag_first = matches!(&self.events[0], Event::Tag(_, _, _));
            proof {
                assert(self.evs()[0] == self.events@[0]@);
            }
            if is_tag_first {
                proof {
                    assert(spec_first_tag(evs0) == cnt);
                }
                match &self.events[0] {
                    Event::Tag(name, kind, _) => {
                        match kind {
                            Type::End => {
                                let message = text_end_before_open(name.as_str());
                                return Err(Error::new(message));
                            },
                            _ => {
                                return Ok(prolog);
                            },
                        }
                    },
                    _ => {
                        return unreached();
                    },
                }
            }
            let ev = self.take_first();
            let node = leaf_of(ev);
            let ghost pre = prolog@;
            prolog.push(node);
            proof {
                crate::node::element::lemma_children_view_push(pre, node);
                assert(evs0.take(cnt + 1) =~= evs0.take(cnt).push(evs0[cnt]));
                lemma_leaves_push(evs0.take(cnt), evs0[cnt]);
                assert(self.evs() =~= evs0.skip(cnt + 1));
                cnt = cnt + 1;
            }
        }
    }

    /// Collect the nodes after the root element; any tag event there fails.
    #[verifier::loop_isolation(false)]
    fn process_misc_followers(&mut self) -> (r: Result<Vec<Node>, Error>)
        ensures
            ({
                let evs0 = old(self).evs();
                if spec_first_tag(evs0) == evs0.len() {
                    r matches Ok(nodes) && spec_children_view(nodes@) == spec_leaves(evs0)
                } else {
                    r matches Err(e) && e.spec_message() == msg_second_top()
                }
            }),
    {
        let ghost evs0 = self.evs();
        proof {
            lemma_first_tag(evs0);
        }
        let mut followers: Vec<Node> = Vec::new();
        let ghost mut cnt: int = 0;
        proof {
            assert(self.evs() =~= evs0.skip(0));
            assert(spec_children_view(followers@) =~= spec_leaves(evs0.take(0)));
        }
        loop
            invariant
                0 <= cnt <= evs0.len(),
                self.evs() == evs0.skip(cnt),
                forall|k: int| 0 <= k < cnt ==> !spec_is_tag(#[trigger] evs0[k]),
                spec_children_view(followers@) == spec_leaves(evs0.take(cnt)),
            decreases evs0.len() - cnt,
        {
            if self.events.len() == 0 {
                proof {
                    assert(cnt == evs0.len());
                    assert(evs0.take(cnt) =~= evs0);
                }
                return Ok(followers);
            }
            proof {
                assert(self.evs()[0] == self.events@[0]@);
                assert(self.evs()[0] == evs0[cnt]);
            }
            let is_tag_first = matches!(&self.events[0], Event::Tag(_, _, _));
            if is_tag_first {
                proof {
                    assert(spec_first_tag(evs0) == cnt);
                }
                return Err(Error::new(String::from_str("unexpected second top-level tag")));
            }
            let ev = self.take_first();
            let node = leaf_of(ev);
            let ghost pre = followers@;
            followers.push(node);
            proof {
                crate::node::element::lemma_children_view_push(pre, node);
                assert(evs0.take(cnt + 1) =~= evs0.take(cnt).push(evs0[cnt]));
                lemma_leaves_push(evs0.take(cnt), evs0[cnt]);
                assert(self.evs() =~= evs0.skip(cnt + 1));
                cnt = cnt + 1;
            }
        }
    }

    /// Parse one node: a leaf event directly, an opening tag as a whole
    /// element.
    fn process_node(&mut self) -> (r: Result<Node, Error>)
        ensures
            match spec_parse_node(old(self).evs()) {
                Ok((nv, rest)) => r matches Ok(node) && node@ == nv && final(self).evs()
                    == rest,
                Err(m) => r matches Err(e) && e.spec_message() == m,
            },
        decreases old(self).evs().len(), 1int,
    {
        if self.events.len() == 0 {
            return Err(Error::new(String::from_str("expected more nodes")));
        }
        proof {
            assert(self.evs()[0] == self.events@[0]@);
        }
        let (is_end_first, is_opening_first) = match &self.events[0] {
            Event::Tag(_, Type::End, _) => (true, false),
            Event::Tag(_, _, _) => (false, true),
            _ => (false, false),
        };
        if is_end_first {
            match &self.events[0] {
                Event::Tag(name, _, _) => {
                    let message = text_end_before_open(name.as_str());
                    return Err(Error::new(message));
                },
                _ => {
                    return unreached();
                },
            }
        }
        if is_opening_first {
            let element = self.process_tag();
            match element {
                Ok(element) => Ok(Node::Element(element)),
                Err(e) => Err(e),
            }
        } else {
            let ev = self.take_first();
            Ok(leaf_of(ev))
        }
    }

    /// Parse one element: its opening event, its children, and — unless the
    /// element opened as self-closing — the matching end tag.
    #[verifier::loop_isolation(false)]
    fn process_tag(&mut self) -> (r: Result<GenericElement, Error>)
        requires
            old(self).evs().len() > 0,
            spec_is_opening(old(self).evs()[0]),
        ensures
            match spec_parse_tag_tree(old(self).evs()) {
                Ok((elv, rest)) => r matches Ok(el) && el@ == elv && final(self).evs() == rest,
                Err(m) => r matches Err(e) && e.spec_message() == m,
            },
        decreases old(self).evs().len(), 0int,
    {
        let first = self.take_first();
        match first {
            Event::Tag(name, Type::Empty, attributes) => {
                let ghost nv = name@;
                let ghost av = attributes@;
                let element = GenericElement::new_from(name, attributes, Vec::new());
                proof {
                    assert(spec_children_view(Seq::<Node>::empty()) =~= Seq::<
                        SpecNode,
                    >::empty());
                    assert(element@ =~= (SpecElement {
                        name: nv,
                        attrs: av,
                        children: Seq::empty(),
                    }));
                }
                Ok(element)
            },
            Event::Tag(name, Type::Start, attributes) => {
                let ghost start_evs = self.evs();
                let mut children: Vec<Node> = Vec::new();
                proof {
                    assert(spec_children_view(children@) =~= Seq::<SpecNode>::empty());
                }
                loop
                    invariant
                        self.evs().len() <= start_evs.len(),
                        match spec_parse_children(self.evs()) {
                            Ok((more, rest)) => spec_parse_children(start_evs) == Ok::<
                                _,
                                Seq<char>,
                            >((spec_children_view(children@) + more, rest)),
                            Err(m) => spec_parse_children(start_evs) == Err::<
                                (Seq<SpecNode>, Seq<SpecEvent>),
                                _,
                            >(m),
                        },
                    decreases self.evs().len(),
                {
                    let stop = if self.events.len() == 0 {
                        true
                    } else {
                        proof {
                            assert(self.evs()[0] == self.events@[0]@);
                        }
                        matches!(&self.events[0], Event::Tag(_, Type::End, _))
                    };
                    if stop {
                        proof {
                            assert(spec_parse_children(self.evs()) == Ok::<_, Seq<char>>((
                                Seq::<SpecNode>::empty(),
                                self.evs(),
                            )));
                            assert(spec_children_view(children@) + Seq::<SpecNode>::empty()
                                =~= spec_children_view(children@));
                        }
                        if self.events.len() == 0 {
                            let message = text_missing_close(name.as_str());
                            return Err(Error::new(message));
                        }
                        let closing = self.take_first();
                        match closing {
                            Event::Tag(cname, Type::End, _) => {
                                if crate::text::str_eq(cname.as_str(), name.as_str()) {
                                    let ghost nv = name@;
                                    let ghost av = attributes@;
                                    let ghost cv = spec_children_view(children@);
                                    let element = GenericElement::new_from(
                                        name,
                                        attributes,
                                        children,
                                    );
                                    proof {
                                        assert(element@ =~= (SpecElement {
                                            name: nv,
                                            attrs: av,
                                            children: cv,
                                        }));
                                    }
                                    return Ok(element);
                                } else {
                                    let message = text_mismatch(
                                        name.as_str(),
                                        cname.as_str(),
                                    );
                                    return Err(Error::new(message));
                                }
                            },
                            _ => {
                                return unreached();
                            },
                        }
                    }
                    proof {
                        lemma_parse_shrinks_node(self.evs());
                    }
                    let parsed = self.process_node();
                    match parsed {
                        Ok(node) => {
                            let ghost pre = children@;
                            children.push(node);
                            proof {
                                crate::node::element::lemma_children_view_push(pre, node);
                                assert(match spec_parse_children(self.evs()) {
                                    Ok((more, rest)) => spec_children_view(pre).push(node@)
                                        + more =~= spec_children_view(pre) + (seq![node@]
                                        + more),
                                    Err(m) => true,
                                });
                            }
                        },
                        Err(e) => {
                            return Err(e);
                        },
                    }
                }
            },
            _ => unreached(),
        }
    }

    /// Build the document: prolog, root element, trailing nodes.
    pub fn process(&mut self) -> (r: Result<Document, Error>)
        ensures
            match spec_build_document(old(self).evs()) {
                Ok(d) => r matches Ok(doc) && doc@ == d,
                Err(m) => r matches Err(e) && e.spec_message() == m,
            },
    {
        proof {
            lemma_first_tag(old(self).evs());
        }
        let prolog = match self.process_prolog() {
            Ok(prolog) => prolog,
            Err(e) => {
                return Err(e);
            },
        };
        let svg = match self.process_tag() {
            Ok(svg) => svg,
            Err(e) => {
                return Err(e);
            },
        };
        let misc_followers = match self.process_misc_followers() {
            Ok(followers) => followers,
            Err(e) => {
                return Err(e);
            },
        };
        let document = Document::from_parts(prolog, svg, misc_followers);
        proof {
            lemma_parse_shrinks_tag(old(self).evs().skip(spec_first_tag(old(self).evs())));
        }
        Ok(document)
    }
}

} // verus!
