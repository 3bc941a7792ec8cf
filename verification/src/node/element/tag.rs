//! Tags and the attribute grammar inside them.
//!
//! A tag's interior (the text between `<` and `>`) decides the kind — `End`
//! when it starts with `/`, `Empty` when it ends with `/`, `Start` otherwise —
//! followed by the element name and `name="value"` or `name='value'`
//! attributes. A name appearing twice keeps the last value. Error positions
//! are relative to the interior text.

use vstd::prelude::*;
use vstd::string::StrSliceExecFns;

use crate::events::parser::Error;
use crate::node::attrs_unique;
use crate::node::spec_insert;
use crate::node::Attributes;
use crate::node::SpecAttr;
use crate::node::Value;
use crate::text::is_ws;
use crate::text::scan_to;
use crate::text::scan_to_exec;
use crate::text::skip_ws_exec;
use crate::text::skip_ws_fwd;
use crate::text::ws_char;

verus! {

/// A [type](https://www.w3.org/TR/REC-xml/#sec-starttags) of a tag.
#[derive(Clone, Copy, Debug, PartialEq, Eq, Structural)]
pub enum Type {
    Start,
    End,
    Empty,
}

/// Whether a character may stand in an element or attribute name.
pub open spec fn name_char(c: char) -> bool {
    !is_ws(c) && c != '/' && c != '>' && c != '<' && c != '=' && c != '"' && c != '\''
}

/// First index in `[i, hi)` holding a character that cannot stand in a name,
/// or `hi`.
pub open spec fn name_end(s: Seq<char>, i: int, hi: int) -> int
    recommends
        0 <= i <= hi <= s.len(),
    decreases hi - i,
{
    if i < 0 || i >= hi {
        hi
    } else if name_char(s[i]) {
        name_end(s, i + 1, hi)
    } else {
        i
    }
}

pub proof fn lemma_name_end(s: Seq<char>, i: int, hi: int)
    requires
        0 <= i <= hi,
    ensures
        i <= name_end(s, i, hi) <= hi,
        name_end(s, i, hi) < hi ==> !name_char(s[name_end(s, i, hi)]),
        forall|k: int| i <= k < name_end(s, i, hi) ==> name_char(s[k]),
    decreases hi - i,
{
    if i < hi && name_char(s[i]) {
        lemma_name_end(s, i + 1, hi);
    }
}

/// Pin `name_end` down from an explicit witness.
pub proof fn lemma_name_end_is(s: Seq<char>, i: int, hi: int, k: int)
    requires
        0 <= i <= k <= hi,
        k < hi ==> !name_char(s[k]),
        forall|q: int| i <= q < k ==> name_char(s[q]),
    ensures
        name_end(s, i, hi) == k,
{
    lemma_name_end(s, i, hi);
}

/// Scan a name: the executable counterpart of [`name_end`].
fn name_end_exec(s: &str, from: usize, hi: usize) -> (r: usize)
    requires
        from <= hi <= s@.len(),
    ensures
        r == name_end(s@, from as int, hi as int),
        from <= r <= hi,
{
    let mut i: usize = from;
    while i < hi
        invariant
            from <= i <= hi <= s@.len(),
            name_end(s@, from as int, hi as int) == name_end(s@, i as int, hi as int),
        decreases hi - i,
    {
        let c = s.get_char(i);
        if ws_char(c) || c == '/' || c == '>' || c == '<' || c == '=' || c == '"' || c == '\'' {
            return i;
        }
        i = i + 1;
    }
    i
}

pub open spec fn msg_expected_name() -> Seq<char> {
    "expected a tag name"@
}

pub open spec fn msg_malformed_attribute() -> Seq<char> {
    "malformed attribute"@
}

pub open spec fn msg_expected_eq() -> Seq<char> {
    "expected an attribute value"@
}

pub open spec fn msg_expected_quote() -> Seq<char> {
    "expected a quoted attribute value"@
}

pub open spec fn msg_unterminated_value() -> Seq<char> {
    "unterminated attribute value"@
}

/// The attributes written between indexes `i` and `hi` of a tag interior, in
/// textual order and with duplicates kept, or the first syntax error.
pub open spec fn spec_parse_attrs(s: Seq<char>, i: int, hi: int) -> Result<
    Seq<SpecAttr>,
    (int, Seq<char>),
>
    recommends
        0 <= i <= hi <= s.len(),
    decreases hi - i,
        via spec_parse_attrs_dec
{
    let a = skip_ws_fwd(s, i, hi);
    if a >= hi {
        Ok(Seq::empty())
    } else {
        let ne = name_end(s, a, hi);
        if ne == a {
            Err((a, msg_malformed_attribute()))
        } else {
            let e = skip_ws_fwd(s, ne, hi);
            if e >= hi || s[e] != '=' {
                Err((e, msg_expected_eq()))
            } else {
                let q = skip_ws_fwd(s, e + 1, hi);
                if q >= hi || (s[q] != '"' && s[q] != '\'') {
                    Err((q, msg_expected_quote()))
                } else {
                    let close = scan_to(s, q + 1, hi, s[q]);
                    if close >= hi {
                        Err((q, msg_unterminated_value()))
                    } else {
                        let attr = SpecAttr {
                            name: s.subrange(a, ne),
                            value: s.subrange(q + 1, close),
                        };
                        match spec_parse_attrs(s, close + 1, hi) {
                            Ok(rest) => Ok(seq![attr] + rest),
                            Err(err) => Err(err),
                        }
                    }
                }
            }
        }
    }
}

#[via_fn]
proof fn spec_parse_attrs_dec(s: Seq<char>, i: int, hi: int) {
    if 0 <= i && i <= hi {
        crate::text::lemma_skip_ws_fwd(s, i, hi);
        let a = skip_ws_fwd(s, i, hi);
        if a < hi {
            lemma_name_end(s, a, hi);
            let ne = name_end(s, a, hi);
            if ne != a {
                crate::text::lemma_skip_ws_fwd(s, ne, hi);
                let e = skip_ws_fwd(s, ne, hi);
                if e < hi && s[e] == '=' {
                    crate::text::lemma_skip_ws_fwd(s, e + 1, hi);
                    let q = skip_ws_fwd(s, e + 1, hi);
                    if q < hi {
                        crate::text::lemma_scan_to(s, q + 1, hi, s[q]);
                    }
                }
            }
        }
    }
}

/// The mapping that a run of written attributes leaves behind: each one
/// inserted in textual order, so the last value under a name wins.
pub open spec fn spec_attrs_from(raw: Seq<SpecAttr>) -> Seq<SpecAttr>
    decreases raw.len(),
{
    if raw.len() == 0 {
        Seq::empty()
    } else {
        spec_insert(spec_attrs_from(raw.drop_last()), raw.last().name, raw.last().value)
    }
}

pub proof fn lemma_spec_attrs_from_unique(raw: Seq<SpecAttr>)
    ensures
        attrs_unique(spec_attrs_from(raw)),
    decreases raw.len(),
{
    if raw.len() > 0 {
        lemma_spec_attrs_from_unique(raw.drop_last());
        crate::node::attributes::lemma_spec_insert_unique(
            spec_attrs_from(raw.drop_last()),
            raw.last().name,
            raw.last().value,
        );
    }
}

/// What a tag interior means: the element name, the kind, and the attribute
/// mapping — or the first syntax error, positioned inside the interior.
pub open spec fn spec_parse_tag(s: Seq<char>) -> Result<
    (Seq<char>, Type, Seq<SpecAttr>),
    (int, Seq<char>),
> {
    let is_end = s.len() > 0 && s[0] == '/';
    let is_empty = !is_end && s.len() > 0 && s.last() == '/';
    let kind = if is_end {
        Type::End
    } else if is_empty {
        Type::Empty
    } else {
        Type::Start
    };
    let lo: int = if is_end {
        1
    } else {
        0
    };
    let hi: int = if is_empty {
        s.len() - 1
    } else {
        s.len() as int
    };
    let j = name_end(s, lo, hi);
    if j == lo {
        Err((lo, msg_expected_name()))
    } else {
        match spec_parse_attrs(s, j, hi) {
            Ok(raw) => Ok((s.subrange(lo, j), kind, spec_attrs_from(raw))),
            Err(err) => Err(err),
        }
    }
}

/// A tag: its name, kind and attributes.
#[derive(Debug)]
pub struct Tag(pub String, pub Type, pub Attributes);

/// Parse the attributes written between `from` and `hi`.
fn parse_attrs_exec(s: &str, from: usize, hi: usize) -> (r: Result<Attributes, Error>)
    requires
        from <= hi <= s@.len(),
    ensures
        match r {
            Ok(attributes) => spec_parse_attrs(s@, from as int, hi as int) is Ok && attributes@
                == spec_attrs_from(spec_parse_attrs(s@, from as int, hi as int)->Ok_0)
                && attributes.wf(),
            Err(err) => spec_parse_attrs(s@, from as int, hi as int) == Err::<Seq<SpecAttr>, _>(
                (err.spec_position(), err.spec_message()),
            ),
        },
{
    let mut attributes = Attributes::new();
    let mut i: usize = from;
    let ghost mut raw_done: Seq<SpecAttr> = Seq::empty();
    proof {
        assert(spec_attrs_from(raw_done) =~= attributes@);
    }
    loop
        invariant
            from <= i <= hi <= s@.len(),
            attributes@ == spec_attrs_from(raw_done),
            attributes.wf(),
            spec_parse_attrs(s@, from as int, hi as int) == (match spec_parse_attrs(
                s@,
                i as int,
                hi as int,
            ) {
                Ok(rest) => Ok::<_, (int, Seq<char>)>(raw_done + rest),
                Err(err) => Err(err),
            }),
        decreases hi - i,
    {
        let a = skip_ws_exec(s, i, hi);
        if a >= hi {
            proof {
                assert(spec_parse_attrs(s@, i as int, hi as int) == Ok::<_, (int, Seq<char>)>(
                    Seq::<SpecAttr>::empty(),
                ));
                assert(raw_done + Seq::<SpecAttr>::empty() =~= raw_done);
            }
            return Ok(attributes);
        }
        let ne = name_end_exec(s, a, hi);
        if ne == a {
            return Err(Error::new(a, "malformed attribute".to_owned()));
        }
        let e = skip_ws_exec(s, ne, hi);
        if e >= hi || s.get_char(e) != '=' {
            return Err(Error::new(e, "expected an attribute value".to_owned()));
        }
        let q = skip_ws_exec(s, e + 1, hi);
        if q >= hi {
            return Err(Error::new(q, "expected a quoted attribute value".to_owned()));
        }
        let quote = s.get_char(q);
        if quote != '"' && quote != '\'' {
            return Err(Error::new(q, "expected a quoted attribute value".to_owned()));
        }
        let close = scan_to_exec(s, q + 1, hi, quote);
        if close >= hi {
            return Err(Error::new(q, "unterminated attribute value".to_owned()));
        }
        let name = s.substring_char(a, ne).to_owned();
        let value = Value::new(s.substring_char(q + 1, close));
        let ghost attr = SpecAttr { name: s@.subrange(a as int, ne as int), value: s@.subrange(
            q as int + 1,
            close as int,
        ) };
        attributes.insert(name, value);
        proof {
            assert(spec_attrs_from(raw_done.push(attr)) == spec_insert(
                spec_attrs_from(raw_done.push(attr).drop_last()),
                attr.name,
                attr.value,
            ));
            assert(raw_done.push(attr).drop_last() =~= raw_done);
            raw_done = raw_done.push(attr);
            assert(match spec_parse_attrs(s@, close as int + 1, hi as int) {
                Ok(rest) => raw_done.drop_last() + (seq![attr] + rest) =~= raw_done + rest,
                Err(_) => true,
            });
        }
        i = close + 1;
    }
}

impl Tag {
    /// Parse a tag interior.
    pub fn parse(content: &str) -> (r: Result<Tag, Error>)
        ensures
            match r {
                Ok(tag) => spec_parse_tag(content@) == Ok::<_, (int, Seq<char>)>(
                    (tag.0@, tag.1, tag.2@),
                ) && tag.2.wf(),
                Err(err) => spec_parse_tag(content@) == Err::<(Seq<char>, Type, Seq<SpecAttr>), _>(
                    (err.spec_position(), err.spec_message()),
                ),
            },
    {
        let n = content.unicode_len();
        let is_end = n > 0 && content.get_char(0) == '/';
        let is_empty = !is_end && n > 0 && content.get_char(n - 1) == '/';
        let kind = if is_end {
            Type::End
        } else if is_empty {
            Type::Empty
        } else {
            Type::Start
        };
        let lo: usize = if is_end {
            1
        } else {
            0
        };
        let hi: usize = if is_empty {
            n - 1
        } else {
            n
        };
        let j = name_end_exec(content, lo, hi);
        if j == lo {
            return Err(Error::new(lo, "expected a tag name".to_owned()));
        }
        let attributes = parse_attrs_exec(content, j, hi);
        match attributes {
            Ok(attributes) => Ok(Tag(content.substring_char(lo, j).to_owned(), kind, attributes)),
            Err(err) => Err(err),
        }
    }
}

} // verus!
