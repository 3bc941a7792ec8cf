//! The round-trip law: tokenizing what the composer wrote yields the events
//! that were written, so composing what was tokenized reproduces the text.
//!
//! The law holds for canonical event sequences: text runs that are trimmed,
//! non-empty, free of `<` and never adjacent to another text run; comment
//! contents without `-->`; instruction contents without `?>`; declaration
//! contents that hide every `>` inside quotes and close their quotes;
//! element names made of name characters; attributes with name-character
//! names, strictly ascending, whose values at least one quote character can
//! wrap; and end tags without attributes — composing discards those. A text
//! that is not canonical in this sense need not survive: `"foo <bar/>"`
//! comes back as `"foo\n<bar/>"`, the run's trailing space trimmed and the
//! separator normalized, and `<a y="1" x="2">` comes back with `x` first.

use vstd::prelude::*;

use crate::events::composer::spec_quote_attr;
use crate::events::composer::spec_render_event;
use crate::events::composer::spec_render_events;
use crate::events::parser::lit_comment_close;
use crate::events::parser::lit_comment_open;
use crate::events::parser::lit_instruction_close;
use crate::events::parser::spec_angle;
use crate::events::parser::spec_comment_event;
use crate::events::parser::spec_step;
use crate::events::parser::spec_tokenize;
use crate::events::parser::SpecStep;
use crate::events::SpecEvent;
use crate::node::element::tag::name_char;
use crate::node::element::tag::name_end;
use crate::node::element::tag::spec_attrs_from;
use crate::node::element::tag::spec_parse_attrs;
use crate::node::element::tag::spec_parse_tag;
use crate::node::element::tag::Type;
use crate::node::SpecAttr;
use crate::text::all_ws;
use crate::text::find_from;
use crate::text::find_gt_from;
use crate::text::is_ws;
use crate::text::lemma_find_from;
use crate::text::lemma_find_from_is;
use crate::text::lemma_find_gt_is;
use crate::text::lemma_quote_run_congruent;
use crate::text::lemma_quote_run_no_quotes;
use crate::text::lemma_scan_to_is;
use crate::text::lemma_skip_ws_fwd;
use crate::text::lemma_trim_pad;
use crate::text::lex_leq;
use crate::text::quote_run;
use crate::text::scan_to;
use crate::text::skip_ws_fwd;
use crate::text::starts_with_at;
use crate::text::trim_view;
use crate::text::Quoting;

verus! {

/// Whether an element name both parses back to itself and cannot be read as
/// the opening of a comment, declaration or instruction.
pub open spec fn name_rt_wf(name: Seq<char>) -> bool {
    &&& name.len() > 0
    &&& forall|i: int| 0 <= i < name.len() ==> name_char(#[trigger] name[i])
    &&& name[0] != '!'
    &&& name[0] != '?'
}

/// Whether one event survives composing and tokenizing unchanged.
pub open spec fn event_rt_wf(e: SpecEvent) -> bool {
    match e {
        SpecEvent::Text(c) => c.len() > 0 && trim_view(c) == c && !c.contains('<'),
        SpecEvent::Comment(c) => find_from(c, 0, lit_comment_close()) == -1,
        SpecEvent::UnpaddedComment(c) => find_from(c, 0, lit_comment_close()) == -1 && !(
        c.len() >= 2 && c[0] == ' ' && c.last() == ' '),
        SpecEvent::Declaration(c) => {
            &&& !(c.len() >= 2 && c[0] == '-' && c[1] == '-')
            &&& quote_run(c, 0, c.len() as int, Quoting::Outside) == Quoting::Outside
            &&& forall|m: int|
                0 <= m < c.len() ==> !(#[trigger] c[m] == '>' && quote_run(
                    c,
                    0,
                    m,
                    Quoting::Outside,
                ) == Quoting::Outside)
        },
        SpecEvent::Instruction(c) => find_from(c, 0, lit_instruction_close()) == -1,
        SpecEvent::Tag(name, kind, attrs) => {
            &&& name_rt_wf(name)
            &&& (kind == Type::End ==> attrs.len() == 0)
            &&& attrs_rt_wf(attrs)
        },
    }
}

/// Whether one attribute survives composing and parsing: a non-empty name
/// of name characters, and a value that at least one quote character can
/// wrap — one holding both quote characters is dropped on composing.
pub open spec fn attr_rt_wf(a: SpecAttr) -> bool {
    &&& a.name.len() > 0
    &&& forall|i: int| 0 <= i < a.name.len() ==> name_char(#[trigger] a.name[i])
    &&& !(a.value.contains('\'') && a.value.contains('"'))
}

/// Whether an attribute mapping survives composing and parsing: every
/// attribute does, and the names are strictly ascending — composing sorts
/// by name, so only a sorted mapping comes back in its own order.
pub open spec fn attrs_rt_wf(attrs: Seq<SpecAttr>) -> bool {
    &&& forall|i: int| 0 <= i < attrs.len() ==> attr_rt_wf(#[trigger] attrs[i])
    &&& forall|i: int|
        0 <= i && i + 1 < attrs.len() ==> lex_leq((#[trigger] attrs[i]).name, attrs[i + 1].name)
            && attrs[i].name != attrs[i + 1].name
}

/// Strictly ascending adjacent names order the whole sequence.
proof fn lemma_sorted_all(attrs: Seq<SpecAttr>)
    requires
        attrs_rt_wf(attrs),
    ensures
        forall|i: int, j: int|
            0 <= i < j < attrs.len() ==> lex_leq((#[trigger] attrs[i]).name, (#[trigger]
            attrs[j]).name) && attrs[i].name != attrs[j].name,
    decreases attrs.len(),
{
    if attrs.len() > 1 {
        lemma_sorted_all(attrs.drop_first());
        assert forall|i: int, j: int|
            0 <= i < j < attrs.len() implies lex_leq((#[trigger] attrs[i]).name, (#[trigger]
            attrs[j]).name) && attrs[i].name != attrs[j].name by {
            if i == 0 {
                if j > 1 {
                    assert(attrs.drop_first()[0] == attrs[1]);
                    assert(attrs.drop_first()[j - 1] == attrs[j]);
                    crate::text::lemma_lex_leq_trans(
                        attrs[0].name,
                        attrs[1].name,
                        attrs[j].name,
                    );
                    if attrs[0].name == attrs[j].name {
                        crate::text::lemma_lex_leq_total(attrs[1].name, attrs[j].name);
                        crate::text::lemma_lex_leq_total(attrs[0].name, attrs[1].name);
                        assert(lex_leq(attrs[j].name, attrs[1].name));
                        assert(attrs[1].name =~= attrs[0].name);
                        assert(false);
                    }
                }
            } else {
                assert(attrs.drop_first()[i - 1] == attrs[i]);
                assert(attrs.drop_first()[j - 1] == attrs[j]);
            }
        }
    }
}

/// In a strictly sorted mapping the first attribute holds the least name.
proof fn lemma_min_of_sorted(attrs: Seq<SpecAttr>, k: int)
    requires
        attrs_rt_wf(attrs),
        1 <= k <= attrs.len(),
    ensures
        crate::events::composer::min_name_upto(attrs, k) == 0,
    decreases k,
{
    if k > 1 {
        lemma_min_of_sorted(attrs, k - 1);
        lemma_sorted_all(attrs);
        assert(lex_leq(attrs[0].name, attrs[k - 1].name));
    }
}

/// Unfold the sorted rendering at its head.
proof fn lemma_render_attrs_cons(attrs: Seq<SpecAttr>)
    requires
        attrs_rt_wf(attrs),
        attrs.len() > 0,
    ensures
        crate::events::composer::spec_render_attrs(attrs) == spec_quote_attr(attrs[0])
            + crate::events::composer::spec_render_attrs(attrs.drop_first()),
        attrs_rt_wf(attrs.drop_first()),
{
    lemma_min_of_sorted(attrs, attrs.len() as int);
    assert(attrs.remove(0) =~= attrs.drop_first());
    assert forall|i: int| 0 <= i < attrs.drop_first().len() implies attr_rt_wf(#[trigger]
        attrs.drop_first()[i]) by {
        assert(attrs.drop_first()[i] == attrs[i + 1]);
    }
    assert forall|i: int|
        0 <= i && i + 1 < attrs.drop_first().len() implies lex_leq((#[trigger]
        attrs.drop_first()[i]).name, attrs.drop_first()[i + 1].name) && attrs.drop_first()[
        i].name != attrs.drop_first()[i + 1].name by {
        assert(attrs.drop_first()[i] == attrs[i + 1]);
        assert(attrs.drop_first()[i + 1] == attrs[i + 2]);
    }
}

/// Whether a whole event sequence survives composing and tokenizing: every
/// event does, and no two text runs are adjacent — composed side by side
/// they would fuse into one.
pub open spec fn events_rt_wf(evs: Seq<SpecEvent>) -> bool {
    &&& forall|i: int| 0 <= i < evs.len() ==> event_rt_wf(#[trigger] evs[i])
    &&& forall|i: int|
        0 <= i && i + 1 < evs.len() ==> !((#[trigger] evs[i]) matches SpecEvent::Text(_)
            && evs[i + 1] matches SpecEvent::Text(_))
}

/// Every composed event but a text run begins with `<`.
proof fn lemma_render_starts_lt(e: SpecEvent)
    requires
        !(e matches SpecEvent::Text(_)),
        event_rt_wf(e),
    ensures
        spec_render_event(e).len() > 0,
        spec_render_event(e)[0] == '<',
{
    match e {
        SpecEvent::Tag(name, kind, attrs) => {
            let ra = crate::events::composer::spec_render_attrs(attrs);
            match kind {
                Type::Start => {
                    assert((seq!['<'] + name)[0] == '<');
                    assert((seq!['<'] + name + ra)[0] == '<');
                    assert(spec_render_event(e)[0] == '<');
                },
                Type::Empty => {
                    assert((seq!['<'] + name)[0] == '<');
                    assert((seq!['<'] + name + ra)[0] == '<');
                    assert(spec_render_event(e)[0] == '<');
                },
                Type::End => {
                    assert((seq!['<', '/'] + name)[0] == '<');
                    assert(spec_render_event(e)[0] == '<');
                },
            }
        },
        _ => {},
    }
}

/// Unfold a composed sequence at its head rather than its tail.
proof fn lemma_render_events_cons(evs: Seq<SpecEvent>)
    requires
        evs.len() >= 2,
    ensures
        spec_render_events(evs) == spec_render_event(evs[0]) + seq!['\n'] + spec_render_events(
            evs.drop_first(),
        ),
    decreases evs.len(),
{
    let d = evs.drop_last();
    let f = evs.drop_first();
    if evs.len() == 2 {
        assert(d.len() == 1);
        assert(d[0] == evs[0]);
        assert(f.len() == 1);
        assert(f[0] == evs.last());
        assert(spec_render_events(d) == spec_render_event(d[0]));
        assert(spec_render_events(f) == spec_render_event(f[0]));
        assert(spec_render_events(evs) =~= spec_render_event(evs[0]) + seq!['\n']
            + spec_render_events(f));
    } else {
        lemma_render_events_cons(d);
        assert(d[0] == evs[0]);
        assert(f.drop_last() =~= d.drop_first());
        assert(f.last() == evs.last());
        assert(spec_render_events(f) == spec_render_events(f.drop_last()) + seq!['\n']
            + spec_render_event(f.last()));
        assert(spec_render_events(evs) =~= spec_render_event(evs[0]) + seq!['\n']
            + spec_render_events(f));
    }
}

/// Pointwise view of a suffix equation.
proof fn lemma_skip_points(s: Seq<char>, i: int, x: Seq<char>)
    requires
        0 <= i <= s.len(),
        s.skip(i) == x,
    ensures
        s.len() == i + x.len(),
        forall|k: int| 0 <= k < x.len() ==> s[i + k] == #[trigger] x[k],
{
    assert forall|k: int| 0 <= k < x.len() implies s[i + k] == #[trigger] x[k] by {
        assert(s.skip(i)[k] == s[i + k]);
    }
}

/// A step that begins before a composed non-text event swallows the
/// separator and classifies the construct at the `<`.
proof fn lemma_step_skips_sep(s: Seq<char>, i: int, sep: Seq<char>, r: Seq<char>, tail: Seq<
    char,
>)
    requires
        0 <= i <= s.len(),
        s.skip(i) == sep + r + tail,
        sep == Seq::<char>::empty() || sep == seq!['\n'],
        r.len() > 0,
        r[0] == '<',
    ensures
        s.len() == i + sep.len() + r.len() + tail.len(),
        spec_step(s, i) == spec_angle(s, i + sep.len()),
        forall|k: int| 0 <= k < r.len() ==> s[i + sep.len() + k] == #[trigger] r[k],
        forall|k: int| 0 <= k < tail.len() ==> s[i + sep.len() + r.len() + k] == #[trigger]
            tail[k],
{
    let x = sep + r + tail;
    lemma_skip_points(s, i, x);
    let j = i + sep.len() as int;
    assert(s[j] == x[sep.len() as int]);
    assert(s[j] == '<');
    assert forall|q: int| i <= q < j implies s[q] != '<' by {
        assert(s[q] == x[q - i]);
        assert(x[q - i] == sep[q - i]);
    }
    lemma_scan_to_is(s, i, s.len() as int, '<', j);
    assert(scan_to(s, i, s.len() as int, '<') == j);
    let run = s.subrange(i, j);
    assert(run =~= sep);
    if sep.len() == 0 {
        assert(skip_ws_fwd(run, 0, 0) == 0);
        assert(trim_view(run) =~= Seq::<char>::empty());
    } else {
        assert(is_ws(run[0]));
        assert(skip_ws_fwd(run, 1, 1) == 1);
        assert(skip_ws_fwd(run, 0, 1) == 1);
        assert(crate::text::skip_ws_back(run, 1, 1) == 1);
        assert(trim_view(run) =~= Seq::<char>::empty());
    }
    assert(spec_step(s, i) == spec_angle(s, j));
    assert forall|k: int| 0 <= k < r.len() implies s[i + sep.len() + k] == #[trigger] r[k] by {
        assert(s[i + sep.len() + k] == x[sep.len() + k]);
    }
    assert forall|k: int| 0 <= k < tail.len() implies s[i + sep.len() + r.len() + k]
        == #[trigger] tail[k] by {
        assert(s[i + sep.len() + r.len() + k] == x[sep.len() + r.len() + k]);
    }
}

/// One step over a composed text run.
proof fn lemma_step_text(s: Seq<char>, i: int, sep: Seq<char>, c: Seq<char>, tail: Seq<char>)
    requires
        0 <= i <= s.len(),
        s.skip(i) == sep + c + tail,
        sep == Seq::<char>::empty() || sep == seq!['\n'],
        c.len() > 0,
        trim_view(c) == c,
        !c.contains('<'),
        tail.len() == 0 || (tail.len() >= 2 && tail[0] == '\n' && tail[1] == '<'),
    ensures
        tail.len() == 0 ==> spec_step(s, i) == SpecStep::Lexed(
            SpecEvent::Text(c),
            i + sep.len() + c.len(),
        ),
        tail.len() > 0 ==> spec_step(s, i) == SpecStep::Lexed(
            SpecEvent::Text(c),
            i + sep.len() + c.len() + 1,
        ),
{
    let x = sep + c + tail;
    lemma_skip_points(s, i, x);
    let j = i + sep.len() + c.len() + if tail.len() > 0 {
        1int
    } else {
        0int
    };
    assert forall|q: int| i <= q < j implies s[q] != '<' by {
        assert(s[q] == x[q - i]);
        if q - i < sep.len() {
            assert(x[q - i] == sep[q - i]);
        } else if q - i < sep.len() + c.len() {
            assert(x[q - i] == c[q - i - sep.len()]);
            assert(!c.contains('<'));
            if c[q - i - sep.len()] == '<' {
                assert(c.contains('<'));
            }
        } else {
            assert(x[q - i] == tail[0]);
        }
    }
    if j < s.len() {
        assert(s[j] == x[j - i]);
        assert(s[j] == '<');
    }
    lemma_scan_to_is(s, i, s.len() as int, '<', j);
    let run = s.subrange(i, j);
    let w2: Seq<char> = if tail.len() > 0 {
        seq!['\n']
    } else {
        Seq::<char>::empty()
    };
    assert(run =~= sep + c + w2);
    assert(all_ws(sep));
    assert(all_ws(w2));
    lemma_trim_pad(sep, c, w2);
    assert(trim_view(run) == c);
}

/// One step over a composed padded comment.
proof fn lemma_step_comment(s: Seq<char>, i: int, sep: Seq<char>, c: Seq<char>, tail: Seq<
    char,
>)
    requires
        0 <= i <= s.len(),
        s.skip(i) == sep + spec_render_event(SpecEvent::Comment(c)) + tail,
        sep == Seq::<char>::empty() || sep == seq!['\n'],
        find_from(c, 0, lit_comment_close()) == -1,
    ensures
        spec_step(s, i) == SpecStep::Lexed(
            SpecEvent::Comment(c),
            i + sep.len() + spec_render_event(SpecEvent::Comment(c)).len(),
        ),
{
    let r = spec_render_event(SpecEvent::Comment(c));
    assert(r == seq!['<', '!', '-', '-', ' '] + c + seq![' ', '-', '-', '>']);
    assert(r.len() == c.len() + 9);
    assert(r[0] == '<');
    lemma_step_skips_sep(s, i, sep, r, tail);
    let j = i + sep.len() as int;
    assert(s.subrange(j, j + 4) =~= lit_comment_open()) by {
        assert forall|m: int| 0 <= m < 4 implies s.subrange(j, j + 4)[m]
            == lit_comment_open()[m] by {
            assert(s[i + sep.len() + m] == r[m]);
        }
    }
    assert(starts_with_at(s, j, lit_comment_open()));
    let close = j + 4 + c.len() + 2;
    assert(s.subrange(close, close + 3) =~= lit_comment_close()) by {
        assert forall|m: int| 0 <= m < 3 implies s.subrange(close, close + 3)[m]
            == lit_comment_close()[m] by {
            assert(s[i + sep.len() + (close - j + m)] == r[close - j + m]);
        }
    }
    assert(starts_with_at(s, close, lit_comment_close()));
    lemma_find_from(c, 0, lit_comment_close());
    assert forall|q: int| j + 4 <= q < close implies !starts_with_at(
        s,
        q,
        lit_comment_close(),
    ) by {
        if starts_with_at(s, q, lit_comment_close()) {
            assert(s.subrange(q, q + 3)[0] == '-');
            assert(s.subrange(q, q + 3)[1] == '-');
            assert(s.subrange(q, q + 3)[2] == '>');
            // the three characters sit inside ` c ` followed by ` -->`;
            // a `>` there can only come from `c` itself
            let mm = q - (j + 4);
            // positions j+4 .. close hold ' ' + c + ' '
            if q + 2 < close {
                // all three inside the padded body: m == 0 starts with ' ',
                // so the match lies inside c
                assert(s[i + sep.len() + (q - j)] == r[q - j]);
                assert(s[i + sep.len() + (q - j + 1)] == r[q - j + 1]);
                assert(s[i + sep.len() + (q - j + 2)] == r[q - j + 2]);
                if mm == 0 {
                    assert(r[4] == ' ');
                    assert(false);
                } else if mm + 2 <= c.len() {
                    assert(c.subrange(mm - 1, mm + 2) =~= lit_comment_close());
                    assert(starts_with_at(c, mm - 1, lit_comment_close()));
                    assert(false);
                } else {
                    // the third character is the trailing space
                    assert(r[q - j + 2] == ' ');
                    assert(false);
                }
            } else if q + 2 == close {
                assert(s[i + sep.len() + (q + 2 - j)] == r[q + 2 - j]);
                assert(r[close - j] == '-');
                assert(false);
            } else {
                assert(s[i + sep.len() + (q + 2 - j)] == r[q + 2 - j]);
                assert(r[close - j + 1] == '-');
                assert(false);
            }
        }
    }
    lemma_find_from_is(s, j + 4, lit_comment_close(), close);
    let body = s.subrange(j + 4, close);
    assert(body =~= seq![' '] + c + seq![' ']) by {
        assert forall|m: int| 0 <= m < body.len() implies body[m] == (seq![' '] + c + seq![
            ' ',
        ])[m] by {
            assert(s[i + sep.len() + (4 + m)] == r[4 + m]);
        }
    }
    assert(body.len() >= 2 && body[0] == ' ' && body.last() == ' ');
    assert(body.subrange(1, body.len() - 1) =~= c);
    assert(spec_comment_event(body) == SpecEvent::Comment(c));
    assert(spec_angle(s, j) == SpecStep::Lexed(SpecEvent::Comment(c), close + 3));
}

/// One step over a composed unpadded comment.
proof fn lemma_step_unpadded(s: Seq<char>, i: int, sep: Seq<char>, c: Seq<char>, tail: Seq<
    char,
>)
    requires
        0 <= i <= s.len(),
        s.skip(i) == sep + spec_render_event(SpecEvent::UnpaddedComment(c)) + tail,
        sep == Seq::<char>::empty() || sep == seq!['\n'],
        find_from(c, 0, lit_comment_close()) == -1,
        !(c.len() >= 2 && c[0] == ' ' && c.last() == ' '),
    ensures
        spec_step(s, i) == SpecStep::Lexed(
            SpecEvent::UnpaddedComment(c),
            i + sep.len() + spec_render_event(SpecEvent::UnpaddedComment(c)).len(),
        ),
{
    let r = spec_render_event(SpecEvent::UnpaddedComment(c));
    assert(r == seq!['<', '!', '-', '-'] + c + seq!['-', '-', '>']);
    assert(r.len() == c.len() + 7);
    assert(r[0] == '<');
    lemma_step_skips_sep(s, i, sep, r, tail);
    let j = i + sep.len() as int;
    assert(s.subrange(j, j + 4) =~= lit_comment_open()) by {
        assert forall|m: int| 0 <= m < 4 implies s.subrange(j, j + 4)[m]
            == lit_comment_open()[m] by {
            assert(s[i + sep.len() + m] == r[m]);
        }
    }
    assert(starts_with_at(s, j, lit_comment_open()));
    let close = j + 4 + c.len() as int;
    assert(s.subrange(close, close + 3) =~= lit_comment_close()) by {
        assert forall|m: int| 0 <= m < 3 implies s.subrange(close, close + 3)[m]
            == lit_comment_close()[m] by {
            assert(s[i + sep.len() + (close - j + m)] == r[close - j + m]);
        }
    }
    assert(starts_with_at(s, close, lit_comment_close()));
    lemma_find_from(c, 0, lit_comment_close());
    assert forall|q: int| j + 4 <= q < close implies !starts_with_at(
        s,
        q,
        lit_comment_close(),
    ) by {
        if starts_with_at(s, q, lit_comment_close()) {
            assert(s.subrange(q, q + 3)[0] == '-');
            assert(s.subrange(q, q + 3)[1] == '-');
            assert(s.subrange(q, q + 3)[2] == '>');
            assert(s[i + sep.len() + (q - j)] == r[q - j]);
            assert(s[i + sep.len() + (q - j + 1)] == r[q - j + 1]);
            assert(s[i + sep.len() + (q - j + 2)] == r[q - j + 2]);
            let m = q - (j + 4);
            if m + 2 < c.len() {
                assert(c.subrange(m, m + 3) =~= lit_comment_close());
                assert(starts_with_at(c, m, lit_comment_close()));
                assert(false);
            } else if m + 2 == c.len() {
                assert(r[q - j + 2] == '-');
                assert(false);
            } else {
                assert(r[q - j + 2] == '-');
                assert(false);
            }
        }
    }
    lemma_find_from_is(s, j + 4, lit_comment_close(), close);
    let body = s.subrange(j + 4, close);
    assert(body =~= c) by {
        assert forall|m: int| 0 <= m < body.len() implies body[m] == c[m] by {
            assert(s[i + sep.len() + (4 + m)] == r[4 + m]);
        }
    }
    assert(spec_comment_event(body) == SpecEvent::UnpaddedComment(c));
    assert(spec_angle(s, j) == SpecStep::Lexed(SpecEvent::UnpaddedComment(c), close + 3));
}

/// One step over a composed declaration.
proof fn lemma_step_declaration(s: Seq<char>, i: int, sep: Seq<char>, c: Seq<char>, tail: Seq<
    char,
>)
    requires
        0 <= i <= s.len(),
        s.skip(i) == sep + spec_render_event(SpecEvent::Declaration(c)) + tail,
        sep == Seq::<char>::empty() || sep == seq!['\n'],
        event_rt_wf(SpecEvent::Declaration(c)),
    ensures
        spec_step(s, i) == SpecStep::Lexed(
            SpecEvent::Declaration(c),
            i + sep.len() + spec_render_event(SpecEvent::Declaration(c)).len(),
        ),
{
    let r = spec_render_event(SpecEvent::Declaration(c));
    assert(r == seq!['<', '!'] + c + seq!['>']);
    assert(r.len() == c.len() + 3);
    assert(r[0] == '<');
    lemma_step_skips_sep(s, i, sep, r, tail);
    let j = i + sep.len() as int;
    // not a comment opening: the interior may not begin with `--`
    assert(!starts_with_at(s, j, lit_comment_open())) by {
        if starts_with_at(s, j, lit_comment_open()) {
            assert(s.subrange(j, j + 4)[2] == '-');
            assert(s.subrange(j, j + 4)[3] == '-');
            assert(s[i + sep.len() + 2] == r[2]);
            assert(s[i + sep.len() + 3] == r[3]);
            if c.len() == 0 {
                assert(r[2] == '>');
                assert(false);
            } else if c.len() == 1 {
                assert(r[3] == '>');
                assert(false);
            } else {
                assert(r[2] == c[0] && r[3] == c[1]);
                assert(false);
            }
        }
    }
    assert(s.subrange(j, j + 2) =~= seq!['<', '!']) by {
        assert forall|m: int| 0 <= m < 2 implies s.subrange(j, j + 2)[m] == seq!['<', '!'][m]
            by {
            assert(s[i + sep.len() + m] == r[m]);
        }
    }
    assert(starts_with_at(s, j, seq!['<', '!']));
    let k = j + 2 + c.len() as int;
    assert(s[i + sep.len() + (k - j)] == r[k - j]);
    assert(s[k] == '>');
    assert forall|m: int| j + 2 <= m < k implies s[m] == c[m - (j + 2)] by {
        assert(s[i + sep.len() + (m - j)] == r[m - j]);
    }
    lemma_quote_run_congruent(c, 0, c.len() as int, s, j + 2, Quoting::Outside);
    assert(quote_run(s, j + 2, k, Quoting::Outside) == Quoting::Outside);
    assert forall|m: int| j + 2 <= m < k implies !(s[m] == '>' && quote_run(
        s,
        j + 2,
        m,
        Quoting::Outside,
    ) == Quoting::Outside) by {
        lemma_quote_run_congruent(c, 0, m - (j + 2), s, j + 2, Quoting::Outside);
        assert(quote_run(s, j + 2, m, Quoting::Outside) == quote_run(
            c,
            0,
            m - (j + 2),
            Quoting::Outside,
        ));
        assert(s[m] == c[m - (j + 2)]);
    }
    lemma_find_gt_is(s, j + 2, Quoting::Outside, k);
    assert(s.subrange(j + 2, k) =~= c) by {
        assert forall|m: int| 0 <= m < c.len() implies s.subrange(j + 2, k)[m] == c[m] by {
            assert(s[j + 2 + m] == c[m]);
        }
    }
    assert(spec_angle(s, j) == SpecStep::Lexed(SpecEvent::Declaration(c), k + 1));
}

/// One step over a composed instruction.
proof fn lemma_step_instruction(s: Seq<char>, i: int, sep: Seq<char>, c: Seq<char>, tail: Seq<
    char,
>)
    requires
        0 <= i <= s.len(),
        s.skip(i) == sep + spec_render_event(SpecEvent::Instruction(c)) + tail,
        sep == Seq::<char>::empty() || sep == seq!['\n'],
        find_from(c, 0, lit_instruction_close()) == -1,
    ensures
        spec_step(s, i) == SpecStep::Lexed(
            SpecEvent::Instruction(c),
            i + sep.len() + spec_render_event(SpecEvent::Instruction(c)).len(),
        ),
{
    let r = spec_render_event(SpecEvent::Instruction(c));
    assert(r == seq!['<', '?'] + c + seq!['?', '>']);
    assert(r.len() == c.len() + 4);
    assert(r[0] == '<');
    lemma_step_skips_sep(s, i, sep, r, tail);
    let j = i + sep.len() as int;
    assert(!starts_with_at(s, j, lit_comment_open())) by {
        if starts_with_at(s, j, lit_comment_open()) {
            assert(s.subrange(j, j + 4)[1] == '!');
            assert(s[i + sep.len() + 1] == r[1]);
            assert(false);
        }
    }
    assert(!starts_with_at(s, j, seq!['<', '!'])) by {
        if starts_with_at(s, j, seq!['<', '!']) {
            assert(s.subrange(j, j + 2)[1] == '!');
            assert(s[i + sep.len() + 1] == r[1]);
            assert(false);
        }
    }
    assert(s.subrange(j, j + 2) =~= seq!['<', '?']) by {
        assert forall|m: int| 0 <= m < 2 implies s.subrange(j, j + 2)[m] == seq!['<', '?'][m]
            by {
            assert(s[i + sep.len() + m] == r[m]);
        }
    }
    assert(starts_with_at(s, j, seq!['<', '?']));
    let k = j + 2 + c.len() as int;
    assert(s.subrange(k, k + 2) =~= lit_instruction_close()) by {
        assert forall|m: int| 0 <= m < 2 implies s.subrange(k, k + 2)[m]
            == lit_instruction_close()[m] by {
            assert(s[i + sep.len() + (k - j + m)] == r[k - j + m]);
        }
    }
    assert(starts_with_at(s, k, lit_instruction_close()));
    lemma_find_from(c, 0, lit_instruction_close());
    assert forall|q: int| j + 2 <= q < k implies !starts_with_at(
        s,
        q,
        lit_instruction_close(),
    ) by {
        if starts_with_at(s, q, lit_instruction_close()) {
            assert(s.subrange(q, q + 2)[0] == '?');
            assert(s.subrange(q, q + 2)[1] == '>');
            assert(s[i + sep.len() + (q - j)] == r[q - j]);
            assert(s[i + sep.len() + (q - j + 1)] == r[q - j + 1]);
            let m = q - (j + 2);
            if m + 1 < c.len() {
                assert(c.subrange(m, m + 2) =~= lit_instruction_close());
                assert(starts_with_at(c, m, lit_instruction_close()));
                assert(false);
            } else {
                assert(r[q - j + 1] == '?');
                assert(false);
            }
        }
    }
    lemma_find_from_is(s, j + 2, lit_instruction_close(), k);
    assert(s.subrange(j + 2, k) =~= c) by {
        assert forall|m: int| 0 <= m < c.len() implies s.subrange(j + 2, k)[m] == c[m] by {
            assert(s[i + sep.len() + (2 + m)] == r[2 + m]);
        }
    }
    assert(spec_angle(s, j) == SpecStep::Lexed(SpecEvent::Instruction(c), k + 2));
}

/// The quote character that wraps a well-formed attribute's value.
pub open spec fn rt_quote_char(a: SpecAttr) -> char {
    if !a.value.contains('"') {
        '"'
    } else {
        '\''
    }
}

/// The shape of one composed attribute: a space, the name, `=`, the value
/// inside its quotes.
proof fn lemma_quote_attr_shape(a: SpecAttr)
    requires
        attr_rt_wf(a),
    ensures
        spec_quote_attr(a) == seq![' '] + a.name + seq!['=', rt_quote_char(a)] + a.value
            + seq![rt_quote_char(a)],
        !a.value.contains(rt_quote_char(a)),
        spec_quote_attr(a).len() == a.name.len() + a.value.len() + 4,
        rt_quote_char(a) == '"' || rt_quote_char(a) == '\'',
{
    if !a.value.contains('"') {
    } else {
        assert(!a.value.contains('\''));
        assert(spec_quote_attr(a) == seq![' '] + a.name + seq!['=', '\''] + a.value + seq![
            '\'',
        ]);
    }
}

/// Composed attributes begin with a space and end with a quote.
proof fn lemma_render_attrs_ends(attrs: Seq<SpecAttr>)
    requires
        attrs_rt_wf(attrs),
        attrs.len() > 0,
    ensures
        crate::events::composer::spec_render_attrs(attrs).len() >= 4,
        crate::events::composer::spec_render_attrs(attrs)[0] == ' ',
        crate::events::composer::spec_render_attrs(attrs).last() == '"'
            || crate::events::composer::spec_render_attrs(attrs).last() == '\'',
    decreases attrs.len(),
{
    lemma_render_attrs_cons(attrs);
    lemma_quote_attr_shape(attrs[0]);
    let q0 = spec_quote_attr(attrs[0]);
    let rest = crate::events::composer::spec_render_attrs(attrs.drop_first());
    assert(q0[0] == ' ');
    if attrs.len() == 1 {
        assert(crate::events::composer::spec_render_attrs(attrs.drop_first()) == Seq::<
            char,
        >::empty()) by {
            assert(attrs.drop_first().len() == 0);
        }
        assert(q0.last() == rt_quote_char(attrs[0]));
        assert((q0 + rest).last() == q0.last());
    } else {
        lemma_render_attrs_ends(attrs.drop_first());
        assert((q0 + rest).last() == rest.last());
    }
}

/// Scanning composed attributes never meets a `>` outside quotes and ends
/// outside quotes.
#[verifier::rlimit(100)]
#[verifier::spinoff_prover]
proof fn lemma_attrs_window_quotes(s: Seq<char>, pos: int, hi: int, attrs: Seq<SpecAttr>)
    requires
        attrs_rt_wf(attrs),
        0 <= pos <= hi <= s.len(),
        hi - pos == crate::events::composer::spec_render_attrs(attrs).len(),
        s.subrange(pos, hi) == crate::events::composer::spec_render_attrs(attrs),
    ensures
        quote_run(s, pos, hi, Quoting::Outside) == Quoting::Outside,
        forall|m: int|
            pos <= m < hi ==> !(s[m] == '>' && quote_run(s, pos, m, Quoting::Outside)
                == Quoting::Outside),
    decreases attrs.len(),
{
    let ra = crate::events::composer::spec_render_attrs(attrs);
    if attrs.len() == 0 {
        assert(ra =~= Seq::<char>::empty());
    } else {
        lemma_render_attrs_cons(attrs);
        lemma_quote_attr_shape(attrs[0]);
        let a0 = attrs[0];
        let q0 = spec_quote_attr(a0);
        let nlen = a0.name.len() as int;
        let vlen = a0.value.len() as int;
        let qc = rt_quote_char(a0);
        let mid = pos + q0.len();
        assert forall|k: int| 0 <= k < hi - pos implies s[pos + k] == #[trigger] ra[k] by {
            assert(s.subrange(pos, hi)[k] == s[pos + k]);
        }
        // lay the head attribute out in s
        assert forall|k: int| 0 <= k < q0.len() implies s[pos + k] == #[trigger] q0[k] by {
            assert(ra[k] == q0[k]);
        }
        let qpos = pos + 2 + nlen;
        let vend = qpos + 1 + vlen;
        assert(s[pos] == q0[0]);
        assert(s[pos] == ' ');
        assert(s[pos + 1 + nlen] == q0[1 + nlen]);
        assert(s[pos + 1 + nlen] == '=');
        assert(s[qpos] == q0[2 + nlen]);
        assert(s[qpos] == qc);
        assert(s[vend] == q0[3 + nlen + vlen]);
        assert(s[vend] == qc);
        assert(mid == vend + 1);
        // no quote characters before the opening quote
        assert forall|m: int| pos <= m < qpos implies s[m] != '\'' && s[m] != '"' by {
            if m == pos {
            } else if m < pos + 1 + nlen {
                assert(s[m] == q0[m - pos]);
                assert(q0[m - pos] == a0.name[m - pos - 1]);
                assert(name_char(a0.name[m - pos - 1]));
            } else {
                assert(s[m] == '=');
            }
        }
        lemma_quote_run_no_quotes(s, pos, qpos);
        // the value neither closes its quote nor is scanned outside
        let inq: Quoting = if qc == '"' {
            Quoting::Double
        } else {
            Quoting::Single
        };
        assert(crate::text::quote_step(Quoting::Outside, qc) == inq);
        assert forall|m: int| qpos + 1 <= m < vend implies (inq == Quoting::Single ==> s[m]
            != '\'') && (inq == Quoting::Double ==> s[m] != '"') by {
            assert(s[m] == q0[m - pos]);
            assert(q0[m - pos] == a0.value[m - pos - 3 - nlen]);
            if a0.value[m - pos - 3 - nlen] == qc {
                assert(a0.value.contains(qc));
            }
        }
        // the state at every prefix of the head attribute
        assert forall|m: int| pos <= m <= vend + 1 implies quote_run(
            s,
            pos,
            m,
            Quoting::Outside,
        ) == (if m <= qpos {
            Quoting::Outside
        } else if m <= vend {
            inq
        } else {
            Quoting::Outside
        }) by {
            if m <= qpos {
                lemma_quote_run_no_quotes(s, pos, m);
            } else {
                crate::text::lemma_quote_run_concat(s, pos, qpos, m, Quoting::Outside);
                crate::text::lemma_quote_run_concat(s, qpos, qpos + 1, m, Quoting::Outside);
                assert(quote_run(s, qpos + 1, qpos + 1, crate::text::quote_step(
                    Quoting::Outside,
                    s[qpos],
                )) == crate::text::quote_step(Quoting::Outside, s[qpos]));
                assert(quote_run(s, qpos, qpos + 1, Quoting::Outside)
                    == crate::text::quote_step(Quoting::Outside, s[qpos]));
                if m <= vend {
                    crate::text::lemma_quote_run_stuck(s, qpos + 1, m, inq);
                } else {
                    crate::text::lemma_quote_run_stuck(s, qpos + 1, vend, inq);
                    crate::text::lemma_quote_run_concat(s, qpos + 1, vend, m, inq);
                    assert(quote_run(s, vend + 1, vend + 1, crate::text::quote_step(
                        inq,
                        s[vend],
                    )) == crate::text::quote_step(inq, s[vend]));
                    assert(quote_run(s, vend, m, inq) == crate::text::quote_step(inq, s[vend]));
                }
            }
        }
        assert(quote_run(s, pos, mid, Quoting::Outside) == Quoting::Outside);
        // the rest of the attributes fill the rest of the window
        let rest = attrs.drop_first();
        let rrest = crate::events::composer::spec_render_attrs(rest);
        assert(s.subrange(mid, hi) =~= rrest) by {
            assert forall|k: int| 0 <= k < hi - mid implies s.subrange(mid, hi)[k] == rrest[k]
                by {
                assert(ra[q0.len() + k] == rrest[k]);
                assert(s[pos + (q0.len() + k)] == ra[q0.len() + k]);
            }
        }
        lemma_attrs_window_quotes(s, mid, hi, rest);
        crate::text::lemma_quote_run_concat(s, pos, mid, hi, Quoting::Outside);
        assert(quote_run(s, pos, hi, Quoting::Outside) == Quoting::Outside);
        assert forall|m: int| pos <= m < hi implies !(s[m] == '>' && quote_run(
            s,
            pos,
            m,
            Quoting::Outside,
        ) == Quoting::Outside) by {
            if m < mid {
                if m <= qpos {
                    assert(s[m] == q0[m - pos]);
                    if m == pos {
                    } else if m < pos + 1 + nlen {
                        assert(q0[m - pos] == a0.name[m - pos - 1]);
                        assert(name_char(a0.name[m - pos - 1]));
                    } else if m == pos + 1 + nlen {
                        assert(s[m] == '=');
                    } else {
                        assert(s[m] == qc);
                    }
                    assert(s[m] != '>');
                } else if m <= vend {
                    if m < vend {
                        assert(quote_run(s, pos, m, Quoting::Outside) == inq);
                    } else {
                        assert(s[m] == qc);
                    }
                }
            } else {
                crate::text::lemma_quote_run_concat(s, pos, mid, m, Quoting::Outside);
            }
        }
    }
}

/// Parsing composed attributes gives the attributes back, in their sorted
/// order.
#[verifier::rlimit(100)]
#[verifier::spinoff_prover]
proof fn lemma_parse_attrs_window(s: Seq<char>, pos: int, hi: int, attrs: Seq<SpecAttr>)
    requires
        attrs_rt_wf(attrs),
        0 <= pos <= hi <= s.len(),
        hi - pos == crate::events::composer::spec_render_attrs(attrs).len(),
        s.subrange(pos, hi) == crate::events::composer::spec_render_attrs(attrs),
    ensures
        spec_parse_attrs(s, pos, hi) == Ok::<_, (int, Seq<char>)>(attrs),
    decreases attrs.len(),
{
    let ra = crate::events::composer::spec_render_attrs(attrs);
    if attrs.len() == 0 {
        assert(ra =~= Seq::<char>::empty());
        assert(pos == hi);
        assert(skip_ws_fwd(s, pos, hi) == hi);
        assert(attrs =~= Seq::<SpecAttr>::empty());
    } else {
        lemma_render_attrs_cons(attrs);
        lemma_quote_attr_shape(attrs[0]);
        let a0 = attrs[0];
        let q0 = spec_quote_attr(a0);
        let nlen = a0.name.len() as int;
        let vlen = a0.value.len() as int;
        let qc = rt_quote_char(a0);
        let mid = pos + q0.len();
        assert forall|k: int| 0 <= k < hi - pos implies s[pos + k] == #[trigger] ra[k] by {
            assert(s.subrange(pos, hi)[k] == s[pos + k]);
        }
        assert forall|k: int| 0 <= k < q0.len() implies s[pos + k] == #[trigger] q0[k] by {
            assert(ra[k] == q0[k]);
        }
        assert(s[pos + 0] == q0[0]);
        assert(s[pos] == ' ');
        assert(s[pos + 1] == q0[1]);
        assert(q0[1] == a0.name[0]);
        assert(name_char(a0.name[0]));
        assert(!is_ws(s[pos + 1]));
        crate::text::lemma_skip_ws_fwd_is(s, pos, hi, pos + 1);
        let ne = pos + 1 + nlen;
        assert(s[pos + (1 + nlen)] == q0[1 + nlen]);
        assert(q0[1 + nlen] == '=');
        assert(s[ne] == '=');
        assert(!name_char(s[ne]));
        assert forall|q: int| pos + 1 <= q < ne implies name_char(s[q]) by {
            assert(s[q] == q0[q - pos]);
            assert(q0[q - pos] == a0.name[q - pos - 1]);
        }
        crate::node::element::tag::lemma_name_end_is(s, pos + 1, hi, ne);
        assert(ne != pos + 1);
        assert(!is_ws(s[ne]));
        crate::text::lemma_skip_ws_fwd_is(s, ne, hi, ne);
        let qpos = ne + 1;
        assert(s[pos + (2 + nlen)] == q0[2 + nlen]);
        assert(q0[2 + nlen] == qc);
        assert(s[qpos] == qc);
        assert(!is_ws(s[qpos]));
        crate::text::lemma_skip_ws_fwd_is(s, ne + 1, hi, qpos);
        assert(s[qpos] == '"' || s[qpos] == '\'');
        let close = qpos + 1 + vlen;
        assert(s[pos + (3 + nlen + vlen)] == q0[3 + nlen + vlen]);
        assert(q0[3 + nlen + vlen] == qc);
        assert(s[close] == qc);
        assert forall|q: int| qpos + 1 <= q < close implies s[q] != qc by {
            assert(s[q] == q0[q - pos]);
            assert(q0[q - pos] == a0.value[q - pos - 3 - nlen]);
            if a0.value[q - pos - 3 - nlen] == qc {
                assert(a0.value.contains(qc));
            }
        }
        crate::text::lemma_scan_to_is(s, qpos + 1, hi, qc, close);
        assert(close < hi);
        assert(s.subrange(pos + 1, ne) =~= a0.name) by {
            assert forall|k: int| 0 <= k < nlen implies s.subrange(pos + 1, ne)[k]
                == a0.name[k] by {
                assert(s[pos + (1 + k)] == q0[1 + k]);
            }
        }
        assert(s.subrange(qpos + 1, close) =~= a0.value) by {
            assert forall|k: int| 0 <= k < vlen implies s.subrange(qpos + 1, close)[k]
                == a0.value[k] by {
                assert(s[pos + (3 + nlen + k)] == q0[3 + nlen + k]);
            }
        }
        let rest = attrs.drop_first();
        let rrest = crate::events::composer::spec_render_attrs(rest);
        assert(close + 1 == mid);
        assert(s.subrange(mid, hi) =~= rrest) by {
            assert forall|k: int| 0 <= k < hi - mid implies s.subrange(mid, hi)[k] == rrest[k]
                by {
                assert(ra[q0.len() + k] == rrest[k]);
                assert(s[pos + (q0.len() + k)] == ra[q0.len() + k]);
            }
        }
        lemma_parse_attrs_window(s, mid, hi, rest);
        let parsed_attr = SpecAttr {
            name: s.subrange(pos + 1, ne),
            value: s.subrange(qpos + 1, close),
        };
        assert(parsed_attr =~= a0);
        assert(spec_parse_attrs(s, pos, hi) == Ok::<_, (int, Seq<char>)>(
            seq![parsed_attr] + rest,
        ));
        assert(seq![parsed_attr] + rest =~= attrs);
    }
}

/// Inserting strictly ascending attributes one after the other keeps them
/// exactly as they stand.
proof fn lemma_attrs_from_sorted(attrs: Seq<SpecAttr>)
    requires
        attrs_rt_wf(attrs),
    ensures
        spec_attrs_from(attrs) == attrs,
    decreases attrs.len(),
{
    if attrs.len() == 0 {
        assert(spec_attrs_from(attrs) =~= attrs);
    } else {
        let d = attrs.drop_last();
        assert(attrs_rt_wf(d)) by {
            assert forall|i: int| 0 <= i < d.len() implies attr_rt_wf(#[trigger] d[i]) by {
                assert(d[i] == attrs[i]);
            }
            assert forall|i: int|
                0 <= i && i + 1 < d.len() implies lex_leq((#[trigger] d[i]).name, d[i
                + 1].name) && d[i].name != d[i + 1].name by {
                assert(d[i] == attrs[i]);
                assert(d[i + 1] == attrs[i + 1]);
            }
        }
        lemma_attrs_from_sorted(d);
        lemma_sorted_all(attrs);
        crate::node::lemma_find_name(d, attrs.last().name);
        if crate::node::find_name(d, attrs.last().name) != -1 {
            let f = crate::node::find_name(d, attrs.last().name);
            assert(d[f] == attrs[f]);
            assert(attrs[f].name != attrs[attrs.len() - 1].name);
            assert(false);
        }
        assert(spec_attrs_from(attrs) == d.push(attrs.last()));
        assert(d.push(attrs.last()) =~= attrs);
    }
}

/// The interior of a composed tag parses back to its parts.
#[verifier::rlimit(100)]
#[verifier::spinoff_prover]
proof fn lemma_parse_tag_of_render(name: Seq<char>, kind: Type, attrs: Seq<SpecAttr>, interior: Seq<char>)
    requires
        event_rt_wf(SpecEvent::Tag(name, kind, attrs)),
        interior == (match kind {
            Type::Start => name + crate::events::composer::spec_render_attrs(attrs),
            Type::Empty => name + crate::events::composer::spec_render_attrs(attrs)
                + seq!['/'],
            Type::End => seq!['/'] + name,
        }),
    ensures
        spec_parse_tag(interior) == Ok::<_, (int, Seq<char>)>((name, kind, attrs)),
{
    let ra = crate::events::composer::spec_render_attrs(attrs);
    if kind == Type::End {
        assert(attrs =~= Seq::<SpecAttr>::empty());
        assert(ra == Seq::<char>::empty());
    }

        let is_end = interior.len() > 0 && interior[0] == '/';
        let is_empty = !is_end && interior.len() > 0 && interior.last() == '/';
        if attrs.len() > 0 {
            lemma_render_attrs_ends(attrs);
        }
        match kind {
            Type::Start => {
                assert(!is_end);
                if ra.len() > 0 {
                    assert(interior.last() == ra.last());
                    assert(!is_empty);
                } else {
                    assert(interior.last() == name.last());
                    assert(name_char(name[name.len() - 1]));
                    assert(!is_empty);
                }
                let hi = interior.len() as int;
                assert forall|q: int| 0 <= q < name.len() implies name_char(interior[q]) by {
                    assert(interior[q] == name[q]);
                }
                if name.len() < hi {
                    assert(interior[name.len() as int] == ra[0]);
                    assert(ra[0] == ' ');
                    assert(!name_char(interior[name.len() as int]));
                }
                crate::node::element::tag::lemma_name_end_is(
                    interior,
                    0,
                    hi,
                    name.len() as int,
                );
                assert(interior.subrange(name.len() as int, hi) =~= ra);
                lemma_parse_attrs_window(interior, name.len() as int, hi, attrs);
                lemma_attrs_from_sorted(attrs);
                assert(interior.subrange(0, name.len() as int) =~= name);
            },
            Type::Empty => {
                assert(interior[0] == name[0]);
                assert(!is_end);
                assert(interior.last() == '/');
                assert(is_empty);
                let hi = interior.len() - 1;
                assert(hi == name.len() + ra.len());
                assert forall|q: int| 0 <= q < name.len() implies name_char(interior[q]) by {
                    assert(interior[q] == name[q]);
                }
                if name.len() < hi {
                    assert(interior[name.len() as int] == ra[0]);
                    assert(ra[0] == ' ');
                    assert(!name_char(interior[name.len() as int]));
                }
                crate::node::element::tag::lemma_name_end_is(
                    interior,
                    0,
                    hi,
                    name.len() as int,
                );
                assert(interior.subrange(name.len() as int, hi) =~= ra);
                lemma_parse_attrs_window(interior, name.len() as int, hi, attrs);
                lemma_attrs_from_sorted(attrs);
                assert(interior.subrange(0, name.len() as int) =~= name);
            },
            Type::End => {
                assert(interior[0] == '/');
                assert(is_end);
                let hi = interior.len() as int;
                assert forall|q: int| 1 <= q < hi implies name_char(interior[q]) by {
                    assert(interior[q] == name[q - 1]);
                }
                crate::node::element::tag::lemma_name_end_is(interior, 1, hi, hi);
                assert(hi != 1);
                assert(skip_ws_fwd(interior, hi, hi) == hi);
                assert(spec_parse_attrs(interior, hi, hi) == Ok::<_, (int, Seq<char>)>(
                    Seq::<SpecAttr>::empty(),
                ));
                assert(spec_attrs_from(Seq::<SpecAttr>::empty()) == Seq::<SpecAttr>::empty());
                assert(interior.subrange(1, hi) =~= name);
            },
        }
    }

/// One step over a composed tag.
#[verifier::rlimit(100)]
#[verifier::spinoff_prover]
proof fn lemma_step_tag(s: Seq<char>, i: int, sep: Seq<char>, name: Seq<char>, kind: Type, attrs: Seq<SpecAttr>, tail: Seq<char>)
    requires
        0 <= i <= s.len(),
        s.skip(i) == sep + spec_render_event(SpecEvent::Tag(name, kind, attrs)) + tail,
        sep == Seq::<char>::empty() || sep == seq!['\n'],
        event_rt_wf(SpecEvent::Tag(name, kind, attrs)),
    ensures
        spec_step(s, i) == SpecStep::Lexed(
            SpecEvent::Tag(name, kind, attrs),
            i + sep.len() + spec_render_event(SpecEvent::Tag(name, kind, attrs)).len(),
        ),
{
    let r = spec_render_event(SpecEvent::Tag(name, kind, attrs));
    let ra = crate::events::composer::spec_render_attrs(attrs);
    let interior: Seq<char> = match kind {
        Type::Start => name + ra,
        Type::Empty => name + ra + seq!['/'],
        Type::End => seq!['/'] + name,
    };
    if kind == Type::End {
        assert(attrs =~= Seq::<SpecAttr>::empty());
        assert(ra == Seq::<char>::empty());
    }
    assert(r =~= seq!['<'] + interior + seq!['>']);
    assert(r.len() == interior.len() + 2);
    assert(r[0] == '<');
    lemma_step_skips_sep(s, i, sep, r, tail);
    let j = i + sep.len() as int;
    // the interior's characters, laid out in s
    assert forall|m: int| 0 <= m < interior.len() implies s[j + 1 + m] == #[trigger]
        interior[m] by {
        assert(s[i + sep.len() + (1 + m)] == r[1 + m]);
        assert(r[1 + m] == interior[m]);
    }
    // where the attributes sit
    let ra_start = j + 1 + name.len();
    let ra_end = ra_start + ra.len();
    assert forall|k: int| 0 <= k < ra.len() implies s[ra_start + k] == #[trigger] ra[k] by {
        match kind {
            Type::Start => {
                assert(interior[name.len() + k] == ra[k]);
                assert(s[j + 1 + (name.len() + k)] == interior[name.len() + k]);
            },
            Type::Empty => {
                assert(interior[name.len() + k] == ra[k]);
                assert(s[j + 1 + (name.len() + k)] == interior[name.len() + k]);
            },
            Type::End => {},
        }
    }
    assert(s.subrange(ra_start, ra_end) =~= ra);
    // the classification sees a plain tag
    assert(s[i + sep.len() + 1] == r[1]);
    assert(r[1] == interior[0]);
    match kind {
        Type::Start => {
            assert(interior[0] == name[0]);
        },
        Type::Empty => {
            assert(interior[0] == name[0]);
        },
        Type::End => {
            assert(interior[0] == '/');
        },
    }
    assert(interior[0] != '!' && interior[0] != '?');
    assert(!starts_with_at(s, j, lit_comment_open())) by {
        if starts_with_at(s, j, lit_comment_open()) {
            assert(s.subrange(j, j + 4)[1] == '!');
            assert(false);
        }
    }
    assert(!starts_with_at(s, j, seq!['<', '!'])) by {
        if starts_with_at(s, j, seq!['<', '!']) {
            assert(s.subrange(j, j + 2)[1] == '!');
            assert(false);
        }
    }
    assert(!starts_with_at(s, j, seq!['<', '?'])) by {
        if starts_with_at(s, j, seq!['<', '?']) {
            assert(s.subrange(j, j + 2)[1] == '?');
            assert(false);
        }
    }
    // the closing `>` of the tag
    let k = j + 1 + interior.len();
    assert(s[i + sep.len() + (k - j)] == r[k - j]);
    assert(s[k] == '>');
    // name characters sit between the `<` and the attributes
    assert forall|m: int| j + 1 <= m < ra_start implies name_char(s[m]) || s[m] == '/' by {
        assert(s[m] == interior[m - (j + 1)]);
        match kind {
            Type::Start => {
                assert(interior[m - (j + 1)] == name[m - (j + 1)]);
            },
            Type::Empty => {
                assert(interior[m - (j + 1)] == name[m - (j + 1)]);
            },
            Type::End => {
                if m > j + 1 {
                    assert(interior[m - (j + 1)] == name[m - (j + 1) - 1]);
                }
            },
        }
    }
    lemma_quote_run_no_quotes(s, j + 1, ra_start);
    lemma_attrs_window_quotes(s, ra_start, ra_end, attrs);
    crate::text::lemma_quote_run_concat(s, j + 1, ra_start, ra_end, Quoting::Outside);
    assert(quote_run(s, j + 1, ra_end, Quoting::Outside) == Quoting::Outside);
    assert(quote_run(s, j + 1, k, Quoting::Outside) == Quoting::Outside) by {
        if k > ra_end {
            // beyond the attributes lies only the `/` of a self-closing tag,
            // or the last name character of an end tag
            assert(k == ra_end + 1);
            assert(s[ra_end] == interior[ra_end - (j + 1)]);
            match kind {
                Type::Empty => {
                    assert(interior[ra_end - (j + 1)] == '/');
                },
                Type::End => {
                    assert(interior[ra_end - (j + 1)] == name[name.len() - 1]);
                    assert(name_char(name[name.len() - 1]));
                },
                Type::Start => {
                    assert(false);
                },
            }
            assert(s[ra_end] != '\'' && s[ra_end] != '"');
            crate::text::lemma_quote_run_concat(s, j + 1, ra_end, k, Quoting::Outside);
            assert(quote_run(s, ra_end + 1, ra_end + 1, crate::text::quote_step(
                Quoting::Outside,
                s[ra_end],
            )) == crate::text::quote_step(Quoting::Outside, s[ra_end]));
            assert(quote_run(s, ra_end, k, Quoting::Outside) == crate::text::quote_step(
                Quoting::Outside,
                s[ra_end],
            ));
        }
    }
    assert forall|m: int| j + 1 <= m < k implies !(s[m] == '>' && quote_run(
        s,
        j + 1,
        m,
        Quoting::Outside,
    ) == Quoting::Outside) by {
        if m < ra_start {
            assert(s[m] == interior[m - (j + 1)]);
        } else if m < ra_end {
            crate::text::lemma_quote_run_concat(s, j + 1, ra_start, m, Quoting::Outside);
        } else {
            assert(s[m] == interior[m - (j + 1)]);
            match kind {
                Type::Empty => {
                    assert(interior[m - (j + 1)] == '/');
                },
                Type::End => {
                    assert(interior[m - (j + 1)] == name[name.len() - 1]);
                    assert(name_char(name[name.len() - 1]));
                },
                Type::Start => {
                    assert(false);
                },
            }
        }
    }
    lemma_find_gt_is(s, j + 1, Quoting::Outside, k);
    let within = s.subrange(j + 1, k);
    assert(within =~= interior);
    // the interior parses back to the same name, kind and attributes
    lemma_parse_tag_of_render(name, kind, attrs, interior);
    assert(spec_angle(s, j) == SpecStep::Lexed(SpecEvent::Tag(name, kind, attrs), k + 1));
}

/// One tokenizer step over any composed, canonical event.
proof fn lemma_step_event(s: Seq<char>, i: int, sep: Seq<char>, e: SpecEvent, tail: Seq<char>)
    requires
        0 <= i <= s.len(),
        s.skip(i) == sep + spec_render_event(e) + tail,
        sep == Seq::<char>::empty() || sep == seq!['\n'],
        event_rt_wf(e),
        e matches SpecEvent::Text(_) ==> tail.len() == 0 || (tail.len() >= 2 && tail[0]
            == '\n' && tail[1] == '<'),
    ensures
        e matches SpecEvent::Text(_) && tail.len() > 0 ==> spec_step(s, i) == SpecStep::Lexed(
            e,
            i + sep.len() + spec_render_event(e).len() + 1,
        ),
        !(e matches SpecEvent::Text(_) && tail.len() > 0) ==> spec_step(s, i)
            == SpecStep::Lexed(e, i + sep.len() + spec_render_event(e).len()),
{
    match e {
        SpecEvent::Text(c) => {
            lemma_step_text(s, i, sep, c, tail);
        },
        SpecEvent::Comment(c) => {
            lemma_step_comment(s, i, sep, c, tail);
        },
        SpecEvent::UnpaddedComment(c) => {
            lemma_step_unpadded(s, i, sep, c, tail);
        },
        SpecEvent::Declaration(c) => {
            lemma_step_declaration(s, i, sep, c, tail);
        },
        SpecEvent::Instruction(c) => {
            lemma_step_instruction(s, i, sep, c, tail);
        },
        SpecEvent::Tag(name, kind, attrs) => {
            lemma_step_tag(s, i, sep, name, kind, attrs, tail);
        },
    }
}

/// Tokenizing a composed canonical sequence, starting at a suffix that may
/// carry one leading separator, yields exactly the composed events.
#[verifier::rlimit(100)]
#[verifier::spinoff_prover]
proof fn lemma_tokenize_render_from(s: Seq<char>, i: int, sep: Seq<char>, evs: Seq<SpecEvent>)
    requires
        0 <= i <= s.len(),
        events_rt_wf(evs),
        sep == Seq::<char>::empty() || (sep == seq!['\n'] && evs.len() > 0),
        s.skip(i) == sep + spec_render_events(evs),
    ensures
        spec_tokenize(s, i) == Ok::<_, (int, Seq<char>)>(evs),
    decreases evs.len(),
{
    if evs.len() == 0 {
        assert(s.skip(i) =~= Seq::<char>::empty());
        assert(s.len() == i);
        assert(scan_to(s, i, i, '<') == i);
        assert(s.subrange(i, i) =~= Seq::<char>::empty());
        assert(skip_ws_fwd(Seq::<char>::empty(), 0, 0) == 0);
        assert(trim_view(Seq::<char>::empty()) =~= Seq::<char>::empty());
        assert(spec_step(s, i) == SpecStep::Finished);
        assert(evs =~= Seq::<SpecEvent>::empty());
    } else {
        let e = evs[0];
        let rest = evs.drop_first();
        assert(event_rt_wf(e));
        let tail: Seq<char> = if evs.len() == 1 {
            Seq::<char>::empty()
        } else {
            seq!['\n'] + spec_render_events(rest)
        };
        if evs.len() == 1 {
            assert(spec_render_events(evs) == spec_render_event(e));
            assert(sep + spec_render_events(evs) =~= sep + spec_render_event(e) + tail);
        } else {
            lemma_render_events_cons(evs);
            assert(sep + spec_render_events(evs) =~= sep + spec_render_event(e) + tail);
        }
        if tail.len() > 0 && e matches SpecEvent::Text(_) {
            assert(!(evs[1] matches SpecEvent::Text(_)));
            assert(rest[0] == evs[1]);
            assert(event_rt_wf(evs[1]));
            lemma_render_starts_lt(evs[1]);
            if rest.len() == 1 {
                assert(spec_render_events(rest) == spec_render_event(rest[0]));
            } else {
                lemma_render_events_cons(rest);
            }
            assert(spec_render_events(rest)[0] == spec_render_event(rest[0])[0]);
            assert(tail[1] == '<');
        }
        lemma_step_event(s, i, sep, e, tail);
        let consumed_sep = e matches SpecEvent::Text(_) && tail.len() > 0;
        let p = if consumed_sep {
            i + sep.len() + spec_render_event(e).len() + 1
        } else {
            i + sep.len() + spec_render_event(e).len()
        };
        assert(spec_step(s, i) == SpecStep::Lexed(e, p));
        // the remaining text is the remaining events, with or without their
        // separator
        let x = sep + spec_render_event(e) + tail;
        lemma_skip_points(s, i, x);
        assert(i < p <= s.len());
        assert forall|ii: int| 0 <= ii < rest.len() implies event_rt_wf(#[trigger] rest[ii])
            by {
            assert(rest[ii] == evs[ii + 1]);
        }
        assert forall|ii: int|
            0 <= ii && ii + 1 < rest.len() implies !((#[trigger] rest[ii])
            matches SpecEvent::Text(_) && rest[ii + 1] matches SpecEvent::Text(_)) by {
            assert(rest[ii] == evs[ii + 1]);
            assert(rest[ii + 1] == evs[ii + 2]);
        }
        if evs.len() == 1 {
            assert(s.skip(p) =~= Seq::<char>::empty() + spec_render_events(rest)) by {
                assert(spec_render_events(rest) =~= Seq::<char>::empty());
                assert forall|k: int| 0 <= k < s.len() - p implies s.skip(p)[k] == Seq::<
                    char,
                >::empty()[k] by {}
            }
            lemma_tokenize_render_from(s, p, Seq::<char>::empty(), rest);
        } else if consumed_sep {
            assert(s.skip(p) =~= Seq::<char>::empty() + spec_render_events(rest)) by {
                assert forall|k: int| 0 <= k < s.len() - p implies s.skip(p)[k]
                    == spec_render_events(rest)[k] by {
                    assert(s.skip(p)[k] == s[p + k]);
                    assert(s[p + k] == x[p + k - i]);
                    assert(x[p + k - i] == tail[1 + k]);
                }
            }
            lemma_tokenize_render_from(s, p, Seq::<char>::empty(), rest);
        } else {
            assert(s.skip(p) =~= seq!['\n'] + spec_render_events(rest)) by {
                assert forall|k: int| 0 <= k < s.len() - p implies s.skip(p)[k] == (seq!['\n']
                    + spec_render_events(rest))[k] by {
                    assert(s.skip(p)[k] == s[p + k]);
                    assert(s[p + k] == x[p + k - i]);
                    assert(x[p + k - i] == tail[k]);
                }
            }
            lemma_tokenize_render_from(s, p, seq!['\n'], rest);
        }
        assert(spec_tokenize(s, p) == Ok::<_, (int, Seq<char>)>(rest));
        assert(spec_tokenize(s, i) == Ok::<_, (int, Seq<char>)>(seq![e] + rest));
        assert(seq![e] + rest =~= evs);
    }
}

/// The round-trip law: composing a canonical event sequence and tokenizing
/// the text gives the same events back. Composing is injective on such
/// sequences, and no formatting information is lost.
pub proof fn lemma_round_trip(evs: Seq<SpecEvent>)
    requires
        events_rt_wf(evs),
    ensures
        spec_tokenize(spec_render_events(evs), 0) == Ok::<_, (int, Seq<char>)>(evs),
{
    let s = spec_render_events(evs);
    assert(s.skip(0) =~= Seq::<char>::empty() + s);
    lemma_tokenize_render_from(s, 0, Seq::<char>::empty(), evs);
}

/// The text-level reading of the round-trip law: a text in the composer's
/// own format — the composition of some canonical event sequence — survives
/// tokenizing and re-composing byte for byte.
pub proof fn lemma_compose_of_tokenize(text: Seq<char>, evs: Seq<SpecEvent>)
    requires
        events_rt_wf(evs),
        text == spec_render_events(evs),
    ensures
        spec_tokenize(text, 0) == Ok::<_, (int, Seq<char>)>(evs),
        spec_render_events(spec_tokenize(text, 0)->Ok_0) == text,
{
    lemma_round_trip(evs);
}

/// The comment-padding round trip: a padded comment whose content does not
/// contain the close delimiter is composed as `<!-- content -->` and
/// tokenizes back to the same padded comment; an unpadded one composed as
/// `<!--content-->` comes back unpadded, provided its content does not
/// itself read as padded.
pub proof fn lemma_comment_round_trip(c: Seq<char>)
    requires
        find_from(c, 0, lit_comment_close()) == -1,
    ensures
        spec_tokenize(spec_render_event(SpecEvent::Comment(c)), 0) == Ok::<
            _,
            (int, Seq<char>),
        >(seq![SpecEvent::Comment(c)]),
        !(c.len() >= 2 && c[0] == ' ' && c.last() == ' ') ==> spec_tokenize(
            spec_render_event(SpecEvent::UnpaddedComment(c)),
            0,
        ) == Ok::<_, (int, Seq<char>)>(seq![SpecEvent::UnpaddedComment(c)]),
{
    let padded = seq![SpecEvent::Comment(c)];
    assert(padded[0] == SpecEvent::Comment(c));
    assert(events_rt_wf(padded));
    lemma_round_trip(padded);
    assert(spec_render_events(padded) == spec_render_event(SpecEvent::Comment(c)));
    if !(c.len() >= 2 && c[0] == ' ' && c.last() == ' ') {
        let unpadded = seq![SpecEvent::UnpaddedComment(c)];
        assert(unpadded[0] == SpecEvent::UnpaddedComment(c));
        assert(events_rt_wf(unpadded));
        lemma_round_trip(unpadded);
        assert(spec_render_events(unpadded) == spec_render_event(
            SpecEvent::UnpaddedComment(c),
        ));
    }
}

} // verus!
