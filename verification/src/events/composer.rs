//! The composer: serializes events to text, one newline between consecutive
//! events, with deterministic formatting choices.
//!
//! Attributes are written in ascending name order, whatever their insertion
//! order was. A value without a double quote is wrapped in double quotes; one
//! with a double quote but no single quote is wrapped in single quotes; one
//! holding both cannot be written under this two-quote scheme and is silently
//! dropped, as the wire format's other implementations do.

use vstd::prelude::*;
use vstd::string::StringExecFns;

use crate::events::Event;
use crate::events::SpecEvent;
use crate::node::element::tag::Type;
use crate::node::Attr;
use crate::node::Attributes;
use crate::node::SpecAttr;
use crate::node::Value;
use crate::text::lex_leq;
use crate::text::lemma_lex_leq_total;
use crate::text::lemma_lex_leq_trans;
use crate::text::str_leq;

verus! {

broadcast use vstd::std_specs::vec::group_vec_axioms;

/// One rendered attribute: ` name="value"`, ` name='value'`, or nothing when
/// the value holds both quote characters.
pub open spec fn spec_quote_attr(a: SpecAttr) -> Seq<char> {
    if !a.value.contains('"') {
        seq![' '] + a.name + seq!['=', '"'] + a.value + seq!['"']
    } else if !a.value.contains('\'') {
        seq![' '] + a.name + seq!['=', '\''] + a.value + seq!['\'']
    } else {
        Seq::empty()
    }
}

/// The index among the first `k` attributes holding the smallest name; the
/// earliest such index when names repeat.
pub open spec fn min_name_upto(attrs: Seq<SpecAttr>, k: int) -> int
    recommends
        1 <= k <= attrs.len(),
    decreases k,
{
    if k <= 1 {
        0
    } else {
        let p = min_name_upto(attrs, k - 1);
        if lex_leq(attrs[p].name, attrs[k - 1].name) {
            p
        } else {
            k - 1
        }
    }
}

pub proof fn lemma_min_name_upto(attrs: Seq<SpecAttr>, k: int)
    requires
        1 <= k <= attrs.len(),
    ensures
        0 <= min_name_upto(attrs, k) < k,
        forall|i: int| 0 <= i < k ==> lex_leq(
            attrs[min_name_upto(attrs, k)].name,
            #[trigger] attrs[i].name,
        ),
    decreases k,
{
    if k > 1 {
        lemma_min_name_upto(attrs, k - 1);
        let p = min_name_upto(attrs, k - 1);
        let m = min_name_upto(attrs, k);
        lemma_lex_leq_total(attrs[p].name, attrs[k - 1].name);
        assert forall|i: int| 0 <= i < k implies lex_leq(attrs[m].name, #[trigger] attrs[i].name)
            by {
            lemma_lex_leq_total(attrs[m].name, attrs[m].name);
            if i < k - 1 {
                if !lex_leq(attrs[p].name, attrs[k - 1].name) {
                    lemma_lex_leq_trans(attrs[k - 1].name, attrs[p].name, attrs[i].name);
                }
            }
        }
    } else {
        lemma_lex_leq_total(attrs[0].name, attrs[0].name);
    }
}

/// All attributes, rendered in ascending name order: the smallest name is
/// written first, then the rest.
pub open spec fn spec_render_attrs(attrs: Seq<SpecAttr>) -> Seq<char>
    decreases attrs.len(),
    via spec_render_attrs_dec
{
    if attrs.len() == 0 {
        Seq::empty()
    } else {
        let m = min_name_upto(attrs, attrs.len() as int);
        spec_quote_attr(attrs[m]) + spec_render_attrs(attrs.remove(m))
    }
}

#[via_fn]
proof fn spec_render_attrs_dec(attrs: Seq<SpecAttr>) {
    if attrs.len() > 0 {
        lemma_min_name_upto(attrs, attrs.len() as int);
    }
}

/// Rendering attributes is blind to insertion order: two mappings holding
/// the same attributes, however arranged, are written as the same text —
/// ascending by name.
pub proof fn lemma_render_attrs_order_blind(a: Seq<SpecAttr>, b: Seq<SpecAttr>)
    requires
        crate::node::attrs_unique(a),
        a.to_multiset() == b.to_multiset(),
    ensures
        spec_render_attrs(a) == spec_render_attrs(b),
    decreases a.len(),
{
    broadcast use vstd::seq_lib::group_to_multiset_ensures;

    a.to_multiset_ensures();
    b.to_multiset_ensures();
    if a.len() == 0 {
        assert(b.len() == 0);
    } else {
        assert(b.len() == a.len());
        let ma = min_name_upto(a, a.len() as int);
        let mb = min_name_upto(b, b.len() as int);
        lemma_min_name_upto(a, a.len() as int);
        lemma_min_name_upto(b, b.len() as int);
        assert(a.contains(a[ma]));
        assert(b.to_multiset().contains(a[ma]));
        assert(b.contains(a[ma]));
        let ia = choose|ii: int| 0 <= ii < b.len() && b[ii] == a[ma];
        assert(b.contains(b[mb]));
        assert(a.to_multiset().contains(b[mb]));
        assert(a.contains(b[mb]));
        let ja = choose|jj: int| 0 <= jj < a.len() && a[jj] == b[mb];
        assert(lex_leq(a[ma].name, a[ja].name));
        assert(lex_leq(b[mb].name, b[ia].name));
        lemma_lex_leq_total(a[ma].name, b[mb].name);
        assert(a[ma].name =~= b[mb].name);
        if ja != ma {
            assert(a[ja].name != a[ma].name);
            assert(false);
        }
        assert(a[ma] == b[mb]);
        let a2 = a.remove(ma);
        let b2 = b.remove(mb);
        assert(crate::node::attrs_unique(a2)) by {
            assert forall|x: int, y: int| 0 <= x < y < a2.len() implies a2[x].name
                != a2[y].name by {
                let xa = if x < ma {
                    x
                } else {
                    x + 1
                };
                let ya = if y < ma {
                    y
                } else {
                    y + 1
                };
                assert(a2[x] == a[xa]);
                assert(a2[y] == a[ya]);
            }
        }
        assert(a2.to_multiset() == b2.to_multiset()) by {
            assert(a2.to_multiset() =~= a.to_multiset().remove(a[ma]));
            assert(b2.to_multiset() =~= b.to_multiset().remove(b[mb]));
        }
        lemma_render_attrs_order_blind(a2, b2);
        assert(spec_render_attrs(a) == spec_quote_attr(a[ma]) + spec_render_attrs(a2));
        assert(spec_render_attrs(b) == spec_quote_attr(b[mb]) + spec_render_attrs(b2));
    }
}

/// One rendered event, without any separator.
pub open spec fn spec_render_event(e: SpecEvent) -> Seq<char> {
    match e {
        SpecEvent::Tag(name, Type::Start, attrs) => seq!['<'] + name + spec_render_attrs(attrs)
            + seq!['>'],
        SpecEvent::Tag(name, Type::Empty, attrs) => seq!['<'] + name + spec_render_attrs(attrs)
            + seq!['/', '>'],
        SpecEvent::Tag(name, Type::End, _) => seq!['<', '/'] + name + seq!['>'],
        SpecEvent::Text(content) => content,
        SpecEvent::Comment(content) => seq!['<', '!', '-', '-', ' '] + content + seq![
            ' ',
            '-',
            '-',
            '>',
        ],
        SpecEvent::UnpaddedComment(content) => seq!['<', '!', '-', '-'] + content + seq![
            '-',
            '-',
            '>',
        ],
        SpecEvent::Declaration(content) => seq!['<', '!'] + content + seq!['>'],
        SpecEvent::Instruction(content) => seq!['<', '?'] + content + seq!['?', '>'],
    }
}

/// The separator written before an event: one newline, except before the
/// first event.
pub open spec fn spec_sep(started: bool) -> Seq<char> {
    if started {
        seq!['\n']
    } else {
        Seq::empty()
    }
}

/// A whole event sequence, rendered with one newline between consecutive
/// events: none before the first, none after the last.
pub open spec fn spec_render_events(evs: Seq<SpecEvent>) -> Seq<char>
    decreases evs.len(),
{
    if evs.len() == 0 {
        Seq::empty()
    } else if evs.len() == 1 {
        spec_render_event(evs[0])
    } else {
        spec_render_events(evs.drop_last()) + seq!['\n'] + spec_render_event(evs.last())
    }
}

/// The writer that renders events into an owned text buffer.
pub struct Writer {
    destination: String,
    initial_event_written: bool,
}

impl Writer {
    /// The text written so far.
    pub closed spec fn out(&self) -> Seq<char> {
        self.destination@
    }

    /// Whether an event has been written already.
    pub closed spec fn started(&self) -> bool {
        self.initial_event_written
    }

    /// Create a writer with an empty buffer.
    pub fn new() -> (r: Writer)
        ensures
            r.out() == Seq::<char>::empty(),
            !r.started(),
    {
        Writer { destination: String::new(), initial_event_written: false }
    }

    /// Give the written text away.
    pub fn into_string(self) -> (r: String)
        ensures
            r@ == self.out(),
    {
        self.destination
    }

    /// Write the separator owed before the coming event.
    fn initial_newline(&mut self)
        ensures
            final(self).out() == old(self).out() + spec_sep(old(self).started()),
            final(self).started(),
    {
        if self.initial_event_written {
            self.destination.append("\n");
            proof {
                reveal_strlit("\n");
                assert("\n"@ =~= seq!['\n']);
            }
        } else {
            self.initial_event_written = true;
            proof {
                assert(self.out() =~= old(self).out() + spec_sep(old(self).started()));
            }
        }
    }

    /// Write one attribute, picking the quote character from the value.
    fn write_attribute(&mut self, name: &str, value: &Value)
        ensures
            final(self).out() == old(self).out() + spec_quote_attr(
                SpecAttr { name: name@, value: value@ },
            ),
            final(self).started() == old(self).started(),
    {
        let has_single = value.contains('\'');
        let has_double = value.contains('"');
        if !has_double {
            self.destination.append(" ");
            self.destination.append(name);
            self.destination.append("=\"");
            self.destination.append(value.as_str());
            self.destination.append("\"");
            proof {
                reveal_strlit(" ");
                reveal_strlit("=\"");
                reveal_strlit("\"");
                assert(" "@ =~= seq![' ']);
                assert("=\""@ =~= seq!['=', '"']);
                assert("\""@ =~= seq!['"']);
                assert(self.out() =~= old(self).out() + spec_quote_attr(
                    SpecAttr { name: name@, value: value@ },
                ));
            }
        } else if !has_single {
            self.destination.append(" ");
            self.destination.append(name);
            self.destination.append("='");
            self.destination.append(value.as_str());
            self.destination.append("'");
            proof {
                reveal_strlit(" ");
                reveal_strlit("='");
                reveal_strlit("'");
                assert(" "@ =~= seq![' ']);
                assert("='"@ =~= seq!['=', '\'']);
                assert("'"@ =~= seq!['\'']);
                assert(self.out() =~= old(self).out() + spec_quote_attr(
                    SpecAttr { name: name@, value: value@ },
                ));
            }
        } else {
            proof {
                assert(self.out() =~= old(self).out() + spec_quote_attr(
                    SpecAttr { name: name@, value: value@ },
                ));
            }
        }
    }

    /// Write all attributes, sorted by name.
    #[verifier::loop_isolation(false)]
    fn write_attributes(&mut self, attributes: &Attributes)
        ensures
            final(self).out() == old(self).out() + spec_render_attrs(attributes@),
            final(self).started() == old(self).started(),
    {
        let total = attributes.len();
        let mut work: Vec<Attr> = Vec::new();
        let mut i: usize = 0;
        while i < total
            invariant
                i <= total,
                total == attributes@.len(),
                work@.len() == i,
                work@.map_values(|a: Attr| a@) =~= attributes@.take(i as int),
            decreases total - i,
        {
            let ghost pre = work@;
            work.push(attributes.pair_at(i).clone());
            proof {
                let mapped = work@.map_values(|a: Attr| a@);
                assert forall|k: int| 0 <= k < i as int + 1 implies #[trigger] mapped[k]
                    == attributes@.take(i as int + 1)[k] by {
                    if k < i as int {
                        assert(pre.map_values(|a: Attr| a@)[k] == attributes@.take(i as int)[k]);
                        assert(work@[k] == pre[k]);
                    }
                }
                assert(work@.map_values(|a: Attr| a@) =~= attributes@.take(i as int + 1));
            }
            i = i + 1;
        }
        proof {
            assert(attributes@.take(attributes@.len() as int) =~= attributes@);
        }
        while work.len() > 0
            invariant
                old(self).out() + spec_render_attrs(attributes@) == self.out()
                    + spec_render_attrs(work@.map_values(|a: Attr| a@)),
                self.started() == old(self).started(),
            decreases work@.len(),
        {
            let ghost wv = work@.map_values(|a: Attr| a@);
            let n = work.len();
            let mut best: usize = 0;
            let mut j: usize = 1;
            while j < n
                invariant
                    1 <= j <= n,
                    n == work@.len(),
                    best < j,
                    best as int == min_name_upto(work@.map_values(|a: Attr| a@), j as int),
                decreases n - j,
            {
                proof {
                    assert(wv[best as int] == work@[best as int]@);
                    assert(wv[j as int] == work@[j as int]@);
                }
                if !str_leq(work[best].name.as_str(), work[j].name.as_str()) {
                    best = j;
                }
                j = j + 1;
            }
            proof {
                lemma_min_name_upto(wv, wv.len() as int);
                assert(wv[best as int] == work@[best as int]@);
            }
            self.write_attribute(work[best].name.as_str(), &work[best].value);
            let ghost pre_work = work@;
            work.remove(best);
            proof {
                let rest = work@.map_values(|a: Attr| a@);
                let target = wv.remove(best as int);
                assert forall|k: int| 0 <= k < rest.len() implies #[trigger] rest[k] == target[k]
                    by {
                    if k < best as int {
                        assert(work@[k] == pre_work[k]);
                        assert(wv[k] == pre_work[k]@);
                    } else {
                        assert(work@[k] == pre_work[k + 1]);
                        assert(wv[k + 1] == pre_work[k + 1]@);
                    }
                }
                assert(rest =~= target);
                assert(spec_render_attrs(wv) == spec_quote_attr(wv[best as int])
                    + spec_render_attrs(target));
                assert((self.out() + spec_quote_attr(wv[best as int])) + spec_render_attrs(target)
                    =~= self.out() + (spec_quote_attr(wv[best as int]) + spec_render_attrs(
                    target,
                )));
            }
        }
        proof {
            assert(work@.map_values(|a: Attr| a@) =~= Seq::<SpecAttr>::empty());
            assert(spec_render_attrs(Seq::<SpecAttr>::empty()) == Seq::<char>::empty());
            assert(self.out() + Seq::<char>::empty() =~= self.out());
            assert(old(self).out() + spec_render_attrs(attributes@) =~= self.out());
        }
    }

    /// Write `<name …attributes…>`.
    fn write_start_tag(&mut self, name: &str, attributes: &Attributes)
        ensures
            final(self).out() == old(self).out() + spec_sep(old(self).started()) + (seq!['<']
                + name@ + spec_render_attrs(attributes@) + seq!['>']),
            final(self).started(),
    {
        self.initial_newline();
        self.destination.append("<");
        self.destination.append(name);
        self.write_attributes(attributes);
        self.destination.append(">");
        proof {
            reveal_strlit("<");
            reveal_strlit(">");
            assert("<"@ =~= seq!['<']);
            assert(">"@ =~= seq!['>']);
            assert(self.out() =~= old(self).out() + spec_sep(old(self).started()) + (seq!['<']
                + name@ + spec_render_attrs(attributes@) + seq!['>']));
        }
    }

    /// Write `<name …attributes…/>`.
    fn write_empty_tag(&mut self, name: &str, attributes: &Attributes)
        ensures
            final(self).out() == old(self).out() + spec_sep(old(self).started()) + (seq!['<']
                + name@ + spec_render_attrs(attributes@) + seq!['/', '>']),
            final(self).started(),
    {
        self.initial_newline();
        self.destination.append("<");
        self.destination.append(name);
        self.write_attributes(attributes);
        self.destination.append("/>");
        proof {
            reveal_strlit("<");
            reveal_strlit("/>");
            assert("<"@ =~= seq!['<']);
            assert("/>"@ =~= seq!['/', '>']);
            assert(self.out() =~= old(self).out() + spec_sep(old(self).started()) + (seq!['<']
                + name@ + spec_render_attrs(attributes@) + seq!['/', '>']));
        }
    }

    /// Write `</name>`; attributes on an end tag are never written.
    fn write_end_tag(&mut self, name: &str)
        ensures
            final(self).out() == old(self).out() + spec_sep(old(self).started()) + (seq!['<', '/']
                + name@ + seq!['>']),
            final(self).started(),
    {
        self.initial_newline();
        self.destination.append("</");
        self.destination.append(name);
        self.destination.append(">");
        proof {
            reveal_strlit("</");
            reveal_strlit(">");
            assert("</"@ =~= seq!['<', '/']);
            assert(">"@ =~= seq!['>']);
            assert(self.out() =~= old(self).out() + spec_sep(old(self).started()) + (seq![
                '<',
                '/',
            ] + name@ + seq!['>']));
        }
    }

    /// Write a text run verbatim.
    fn write_text(&mut self, content: &str)
        ensures
            final(self).out() == old(self).out() + spec_sep(old(self).started()) + content@,
            final(self).started(),
    {
        self.initial_newline();
        self.destination.append(content);
        proof {
            assert(self.out() =~= old(self).out() + spec_sep(old(self).started()) + content@);
        }
    }

    /// Write `<!-- content -->` when padded, `<!--content-->` when not.
    fn write_comment(&mut self, content: &str, padded: bool)
        ensures
            final(self).out() == old(self).out() + spec_sep(old(self).started()) + (if padded {
                seq!['<', '!', '-', '-', ' '] + content@ + seq![' ', '-', '-', '>']
            } else {
                seq!['<', '!', '-', '-'] + content@ + seq!['-', '-', '>']
            }),
            final(self).started(),
    {
        self.initial_newline();
        if padded {
            self.destination.append("<!-- ");
            self.destination.append(content);
            self.destination.append(" -->");
            proof {
                reveal_strlit("<!-- ");
                reveal_strlit(" -->");
                assert("<!-- "@ =~= seq!['<', '!', '-', '-', ' ']);
                assert(" -->"@ =~= seq![' ', '-', '-', '>']);
                assert(self.out() =~= old(self).out() + spec_sep(old(self).started()) + (seq![
                    '<',
                    '!',
                    '-',
                    '-',
                    ' ',
                ] + content@ + seq![' ', '-', '-', '>']));
            }
        } else {
            self.destination.append("<!--");
            self.destination.append(content);
            self.destination.append("-->");
            proof {
                reveal_strlit("<!--");
                reveal_strlit("-->");
                assert("<!--"@ =~= seq!['<', '!', '-', '-']);
                assert("-->"@ =~= seq!['-', '-', '>']);
                assert(self.out() =~= old(self).out() + spec_sep(old(self).started()) + (seq![
                    '<',
                    '!',
                    '-',
                    '-',
                ] + content@ + seq!['-', '-', '>']));
            }
        }
    }

    /// Write `<!content>`.
    fn write_declaration(&mut self, content: &str)
        ensures
            final(self).out() == old(self).out() + spec_sep(old(self).started()) + (seq!['<', '!']
                + content@ + seq!['>']),
            final(self).started(),
    {
        self.initial_newline();
        self.destination.append("<!");
        self.destination.append(content);
        self.destination.append(">");
        proof {
            reveal_strlit("<!");
            reveal_strlit(">");
            assert("<!"@ =~= seq!['<', '!']);
            assert(">"@ =~= seq!['>']);
            assert(self.out() =~= old(self).out() + spec_sep(old(self).started()) + (seq![
                '<',
                '!',
            ] + content@ + seq!['>']));
        }
    }

    /// Write `<?content?>`.
    fn write_instruction(&mut self, content: &str)
        ensures
            final(self).out() == old(self).out() + spec_sep(old(self).started()) + (seq!['<', '?']
                + content@ + seq!['?', '>']),
            final(self).started(),
    {
        self.initial_newline();
        self.destination.append("<?");
        self.destination.append(content);
        self.destination.append("?>");
        proof {
            reveal_strlit("<?");
            reveal_strlit("?>");
            assert("<?"@ =~= seq!['<', '?']);
            assert("?>"@ =~= seq!['?', '>']);
            assert(self.out() =~= old(self).out() + spec_sep(old(self).started()) + (seq![
                '<',
                '?',
            ] + content@ + seq!['?', '>']));
        }
    }

    /// Write one event, separated from the one before by a newline.
    pub fn write_event(&mut self, event: &Event)
        ensures
            final(self).out() == old(self).out() + spec_sep(old(self).started())
                + spec_render_event(event@),
            final(self).started(),
    {
        match event {
            Event::Tag(name, Type::Start, attributes) => self.write_start_tag(
                name.as_str(),
                attributes,
            ),
            Event::Tag(name, Type::Empty, attributes) => self.write_empty_tag(
                name.as_str(),
                attributes,
            ),
            Event::Tag(name, Type::End, _) => self.write_end_tag(name.as_str()),
            Event::Text(content) => self.write_text(content.as_str()),
            Event::Comment(content) => self.write_comment(content.as_str(), true),
            Event::UnpaddedComment(content) => self.write_comment(content.as_str(), false),
            Event::Declaration(content) => self.write_declaration(content.as_str()),
            Event::Instruction(content) => self.write_instruction(content.as_str()),
        }
    }
}

/// Compose a whole event sequence to text: one newline between consecutive
/// events, none before the first, none after the last.
#[verifier::loop_isolation(false)]
pub fn compose_events(events: &Vec<Event>) -> (r: String)
    ensures
        r@ == spec_render_events(crate::events::spec_events_of(events@)),
{
    let ghost evs = crate::events::spec_events_of(events@);
    let mut writer = Writer::new();
    let n = events.len();
    let mut i: usize = 0;
    proof {
        assert(evs.take(0) =~= Seq::<SpecEvent>::empty());
    }
    while i < n
        invariant
            i <= n,
            writer.out() == spec_render_events(evs.take(i as int)),
            writer.started() == (i > 0),
        decreases n - i,
    {
        writer.write_event(&events[i]);
        proof {
            assert(events@[i as int]@ == evs[i as int]);
            assert(evs.take(i as int + 1).drop_last() =~= evs.take(i as int));
            assert(evs.take(i as int + 1).last() == evs[i as int]);
            if i == 0 {
                assert(writer.out() =~= spec_render_events(evs.take(1)));
            } else {
                assert(writer.out() =~= spec_render_events(evs.take(i as int + 1)));
            }
        }
        i = i + 1;
    }
    proof {
        assert(evs.take(n as int) =~= evs);
    }
    writer.into_string()
}

/// The composer: the public face of the [`Writer`].
pub struct Composer {
    writer: Writer,
}

impl Composer {
    /// The text written so far.
    pub closed spec fn out(&self) -> Seq<char> {
        self.writer.out()
    }

    /// Whether an event has been written already.
    pub closed spec fn started(&self) -> bool {
        self.writer.started()
    }

    /// Create a composer with an empty buffer.
    pub fn new() -> (r: Composer)
        ensures
            r.out() == Seq::<char>::empty(),
            !r.started(),
    {
        Composer { writer: Writer::new() }
    }

    /// Write one event, separated from the one before by a newline.
    pub fn write_event(&mut self, event: &Event)
        ensures
            final(self).out() == old(self).out() + spec_sep(old(self).started())
                + spec_render_event(event@),
            final(self).started(),
    {
        self.writer.write_event(event)
    }

    /// Give the written text away.
    pub fn into_string(self) -> (r: String)
        ensures
            r@ == self.out(),
    {
        self.writer.into_string()
    }
}

} // verus!
