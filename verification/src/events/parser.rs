//! The tokenizer: a forward-only pass that turns text into events.
//!
//! Each call to [`Parser::next`] tries a text run first — everything up to
//! the next `<`, trimmed of surrounding whitespace, skipped when nothing is
//! left — and otherwise classifies the construct at the cursor by its first
//! few characters: `<!--` a comment, `<!` a declaration, `<?` an
//! instruction, `<` a tag. A malformed construct yields a positioned error
//! and ends the sequence. Errors coming from the attribute grammar carry a
//! position relative to the tag's interior.

use vstd::prelude::*;
use vstd::string::StrSliceExecFns;
use vstd::string::StringExecFns;

use crate::events::Event;
use crate::events::SpecEvent;
use crate::node::element::tag::spec_parse_tag;
use crate::node::element::tag::Tag;
use crate::text::dec_rep;
use crate::text::find_from;
use crate::text::find_gt_from;
use crate::text::scan_to;
use crate::text::starts_with_at;
use crate::text::trim_view;
use crate::text::Quoting;

pub use self::reader::lit_comment_close;
pub use self::reader::lit_comment_open;
pub use self::reader::lit_instruction_close;
pub use self::reader::Reader;

mod reader;

verus! {

/// A positioned tokenizer diagnostic.
#[derive(Debug)]
pub struct Error {
    position: usize,
    message: String,
}

impl Error {
    /// The character offset the diagnostic points at.
    pub closed spec fn spec_position(&self) -> int {
        self.position as int
    }

    /// The diagnostic text.
    pub closed spec fn spec_message(&self) -> Seq<char> {
        self.message@
    }

    /// Create a diagnostic.
    pub fn new(position: usize, message: String) -> (r: Error)
        ensures
            r.spec_position() == position as int,
            r.spec_message() == message@,
    {
        Error { position, message }
    }

    /// The character offset the diagnostic points at.
    pub fn position(&self) -> (r: usize)
        ensures
            r as int == self.spec_position(),
    {
        self.position
    }

    /// The diagnostic text.
    pub fn message(&self) -> (r: &str)
        ensures
            r@ == self.spec_message(),
    {
        self.message.as_str()
    }

    /// The diagnostic and its position as one line of text.
    pub fn to_text(&self) -> (r: String)
        ensures
            r@ == self.spec_message() + " (position "@ + dec_rep(self.spec_position() as nat)
                + ")"@,
    {
        let mut r = self.message.clone();
        r.append(" (position ");
        let digits = crate::text::usize_to_text(self.position);
        r.append(digits.as_str());
        r.append(")");
        r
    }
}

pub open spec fn msg_malformed_comment() -> Seq<char> {
    "found a malformed comment"@
}

pub open spec fn msg_malformed_declaration() -> Seq<char> {
    "found a malformed declaration"@
}

pub open spec fn msg_malformed_instruction() -> Seq<char> {
    "found a malformed instruction"@
}

pub open spec fn msg_malformed_tag() -> Seq<char> {
    "found a malformed tag"@
}

pub open spec fn msg_unknown_sequence() -> Seq<char> {
    "found an unknown sequence"@
}

/// What one tokenizer step yields.
pub enum SpecStep {
    /// The input is exhausted.
    Finished,
    /// An event, and the cursor after it.
    Lexed(SpecEvent, int),
    /// An error position, its message, and the cursor after the failure.
    Failed(int, Seq<char>, int),
}

/// The event a comment body stands for: one leading and one trailing space
/// mark a padded comment and are stripped; anything else is kept verbatim.
pub open spec fn spec_comment_event(b: Seq<char>) -> SpecEvent {
    if b.len() >= 2 && b[0] == ' ' && b.last() == ' ' {
        SpecEvent::Comment(b.subrange(1, b.len() - 1))
    } else {
        SpecEvent::UnpaddedComment(b)
    }
}

/// Classify and read the construct at position `j`, which is either the
/// whole input's end or a `<`.
pub open spec fn spec_angle(s: Seq<char>, j: int) -> SpecStep {
    if j >= s.len() {
        SpecStep::Finished
    } else if starts_with_at(s, j, lit_comment_open()) {
        let k = find_from(s, j + 4, lit_comment_close());
        if k == -1 {
            SpecStep::Failed(j, msg_malformed_comment(), j)
        } else {
            SpecStep::Lexed(spec_comment_event(s.subrange(j + 4, k)), k + 3)
        }
    } else if starts_with_at(s, j, seq!['<', '!']) {
        let k = find_gt_from(s, j + 2, Quoting::Outside);
        if k == -1 {
            SpecStep::Failed(j, msg_malformed_declaration(), j)
        } else {
            SpecStep::Lexed(SpecEvent::Declaration(s.subrange(j + 2, k)), k + 1)
        }
    } else if starts_with_at(s, j, seq!['<', '?']) {
        let k = find_from(s, j + 2, lit_instruction_close());
        if k == -1 {
            SpecStep::Failed(j, msg_malformed_instruction(), j)
        } else {
            SpecStep::Lexed(SpecEvent::Instruction(s.subrange(j + 2, k)), k + 2)
        }
    } else if s[j] == '<' {
        let k = find_gt_from(s, j + 1, Quoting::Outside);
        if k == -1 {
            SpecStep::Failed(j, msg_malformed_tag(), j)
        } else {
            match spec_parse_tag(s.subrange(j + 1, k)) {
                Ok((name, kind, attrs)) => SpecStep::Lexed(
                    SpecEvent::Tag(name, kind, attrs),
                    k + 1,
                ),
                Err((p, m)) => SpecStep::Failed(p, m, k + 1),
            }
        }
    } else {
        SpecStep::Failed(j, msg_unknown_sequence(), j)
    }
}

/// One tokenizer step from position `i`: a text run up to the next `<` when
/// its trimmed content is not empty, else the construct at the `<`.
pub open spec fn spec_step(s: Seq<char>, i: int) -> SpecStep {
    let j = scan_to(s, i, s.len() as int, '<');
    let t = trim_view(s.subrange(i, j));
    if t.len() > 0 {
        SpecStep::Lexed(SpecEvent::Text(t), j)
    } else {
        spec_angle(s, j)
    }
}

pub proof fn lemma_spec_step_advances(s: Seq<char>, i: int)
    requires
        0 <= i <= s.len(),
    ensures
        match spec_step(s, i) {
            SpecStep::Finished => true,
            SpecStep::Lexed(ev, p) => i < p <= s.len(),
            SpecStep::Failed(ep, m, p) => i <= p <= s.len(),
        },
{
    let j = scan_to(s, i, s.len() as int, '<');
    crate::text::lemma_scan_to(s, i, s.len() as int, '<');
    let run = s.subrange(i, j);
    crate::text::lemma_skip_ws_fwd(run, 0, run.len() as int);
    let a = crate::text::skip_ws_fwd(run, 0, run.len() as int);
    crate::text::lemma_skip_ws_back(run, a, run.len() as int);
    let t = trim_view(run);
    if t.len() > 0 {
    } else if j >= s.len() {
    } else if starts_with_at(s, j, lit_comment_open()) {
        crate::text::lemma_find_from(s, j + 4, lit_comment_close());
    } else if starts_with_at(s, j, seq!['<', '!']) {
        crate::text::lemma_find_gt_from(s, j + 2, Quoting::Outside);
    } else if starts_with_at(s, j, seq!['<', '?']) {
        crate::text::lemma_find_from(s, j + 2, lit_instruction_close());
    } else if s[j] == '<' {
        crate::text::lemma_find_gt_from(s, j + 1, Quoting::Outside);
    }
}

/// All events from position `i` to the end of the input, or the first
/// tokenizer error, as its position and message.
pub open spec fn spec_tokenize(s: Seq<char>, i: int) -> Result<Seq<SpecEvent>, (int, Seq<char>)>
    recommends
        0 <= i <= s.len(),
    decreases s.len() - i,
{
    match spec_step(s, i) {
        SpecStep::Finished => Ok(Seq::empty()),
        SpecStep::Lexed(ev, p) => if i < p <= s.len() {
            match spec_tokenize(s, p) {
                Ok(rest) => Ok(seq![ev] + rest),
                Err(e) => Err(e),
            }
        } else {
            Ok(Seq::empty())
        },
        SpecStep::Failed(ep, m, p) => Err((ep, m)),
    }
}

/// A parser.
pub struct Parser {
    reader: Reader,
}

impl Parser {
    /// The text parsed.
    pub closed spec fn text(&self) -> Seq<char> {
        self.reader.text()
    }

    /// The cursor, as a character offset.
    pub closed spec fn pos(&self) -> int {
        self.reader.pos()
    }

    /// The cursor never leaves the text.
    pub closed spec fn wf(&self) -> bool {
        self.reader.wf()
    }

    /// A well-formed parser's cursor sits inside its text.
    pub proof fn lemma_wf_bounds(&self)
        requires
            self.wf(),
        ensures
            0 <= self.pos() <= self.text().len(),
    {
    }

    /// Create a parser at the start of the text.
    pub fn new(content: &str) -> (r: Parser)
        ensures
            r.wf(),
            r.text() == content@,
            r.pos() == 0,
    {
        Parser { reader: Reader::new(content) }
    }

    /// The comment body's event.
    fn parse_comment_body(body: &str) -> (r: Event)
        ensures
            r@ == spec_comment_event(body@),
    {
        let n = body.unicode_len();
        if n >= 2 && body.get_char(0) == ' ' && body.get_char(n - 1) == ' ' {
            Event::Comment(body.substring_char(1, n - 1).to_owned())
        } else {
            Event::UnpaddedComment(body.to_owned())
        }
    }

    /// Take the text run before the next `<`; the run is consumed even when
    /// nothing but whitespace is in it and no event comes out.
    fn next_text(&mut self) -> (r: Option<Result<Event, Error>>)
        requires
            old(self).wf(),
        ensures
            final(self).wf(),
            final(self).text() == old(self).text(),
            final(self).pos() == scan_to(
                old(self).text(),
                old(self).pos(),
                old(self).text().len() as int,
                '<',
            ),
            ({
                let t = trim_view(old(self).text().subrange(old(self).pos(), final(self).pos()));
                match r {
                    Some(res) => res matches Ok(e) && e@ == SpecEvent::Text(t) && t.len() > 0,
                    None => t.len() == 0,
                }
            }),
    {
        let run = self.reader.capture_until_char('<');
        match run {
            Some(content) => {
                let trimmed = crate::text::trim_str(content.as_str());
                if trimmed.as_str().is_empty() {
                    None
                } else {
                    Some(Ok(Event::Text(trimmed)))
                }
            },
            None => {
                proof {
                    let i = old(self).pos();
                    assert(old(self).text().subrange(i, i) =~= Seq::<char>::empty());
                    assert(trim_view(Seq::<char>::empty()) =~= Seq::<char>::empty());
                }
                None
            },
        }
    }

    /// Read the comment at the cursor.
    fn read_comment(&mut self) -> (r: Option<Result<Event, Error>>)
        requires
            old(self).wf(),
            starts_with_at(old(self).text(), old(self).pos(), lit_comment_open()),
        ensures
            final(self).wf(),
            final(self).text() == old(self).text(),
            ({
                let k = find_from(old(self).text(), old(self).pos() + 4, lit_comment_close());
                if k == -1 {
                    r matches Some(Err(e)) && final(self).pos() == old(self).pos()
                        && e.spec_position() == old(self).pos() && e.spec_message()
                        == msg_malformed_comment()
                } else {
                    r matches Some(Ok(e)) && final(self).pos() == k + 3 && e@
                        == spec_comment_event(
                        old(self).text().subrange(old(self).pos() + 4, k),
                    )
                }
            }),
    {
        let ghost start = self.pos();
        let captured = self.reader.capture_comment();
        match captured {
            None => Some(
                Err(Error::new(self.reader.position(), "found a malformed comment".to_owned())),
            ),
            Some(content) => {
                let n = content.as_str().unicode_len();
                proof {
                    let k = find_from(old(self).text(), start + 4, lit_comment_close());
                    crate::text::lemma_find_from(old(self).text(), start + 4, lit_comment_close());
                    assert(n >= 7);
                    assert(content@.subrange(4, n - 3) =~= old(self).text().subrange(
                        start + 4,
                        k,
                    ));
                }
                let body = content.as_str().substring_char(4, n - 3);
                Some(Ok(Self::parse_comment_body(body)))
            },
        }
    }

    /// Read the declaration at the cursor.
    fn read_declaration(&mut self) -> (r: Option<Result<Event, Error>>)
        requires
            old(self).wf(),
            starts_with_at(old(self).text(), old(self).pos(), seq!['<', '!']),
        ensures
            final(self).wf(),
            final(self).text() == old(self).text(),
            ({
                let k = find_gt_from(old(self).text(), old(self).pos() + 2, Quoting::Outside);
                if k == -1 {
                    r matches Some(Err(e)) && final(self).pos() == old(self).pos()
                        && e.spec_position() == old(self).pos() && e.spec_message()
                        == msg_malformed_declaration()
                } else {
                    r matches Some(Ok(e)) && final(self).pos() == k + 1 && e@
                        == SpecEvent::Declaration(
                        old(self).text().subrange(old(self).pos() + 2, k),
                    )
                }
            }),
    {
        let ghost start = self.pos();
        let captured = self.reader.capture_declaration();
        match captured {
            None => Some(
                Err(
                    Error::new(self.reader.position(), "found a malformed declaration".to_owned()),
                ),
            ),
            Some(content) => {
                let n = content.as_str().unicode_len();
                proof {
                    let k = find_gt_from(old(self).text(), start + 2, Quoting::Outside);
                    crate::text::lemma_find_gt_from(old(self).text(), start + 2, Quoting::Outside);
                    assert(n >= 3);
                    assert(content@.subrange(2, n - 1) =~= old(self).text().subrange(
                        start + 2,
                        k,
                    ));
                }
                let body = content.as_str().substring_char(2, n - 1);
                Some(Ok(Event::Declaration(body.to_owned())))
            },
        }
    }

    /// Read the instruction at the cursor.
    fn read_instruction(&mut self) -> (r: Option<Result<Event, Error>>)
        requires
            old(self).wf(),
            starts_with_at(old(self).text(), old(self).pos(), seq!['<', '?']),
        ensures
            final(self).wf(),
            final(self).text() == old(self).text(),
            ({
                let k = find_from(old(self).text(), old(self).pos() + 2, lit_instruction_close());
                if k == -1 {
                    r matches Some(Err(e)) && final(self).pos() == old(self).pos()
                        && e.spec_position() == old(self).pos() && e.spec_message()
                        == msg_malformed_instruction()
                } else {
                    r matches Some(Ok(e)) && final(self).pos() == k + 2 && e@
                        == SpecEvent::Instruction(
                        old(self).text().subrange(old(self).pos() + 2, k),
                    )
                }
            }),
    {
        let ghost start = self.pos();
        let captured = self.reader.capture_instruction();
        match captured {
            None => Some(
                Err(
                    Error::new(self.reader.position(), "found a malformed instruction".to_owned()),
                ),
            ),
            Some(content) => {
                let n = content.as_str().unicode_len();
                proof {
                    let k = find_from(old(self).text(), start + 2, lit_instruction_close());
                    crate::text::lemma_find_from(
                        old(self).text(),
                        start + 2,
                        lit_instruction_close(),
                    );
                    assert(n >= 4);
                    assert(content@.subrange(2, n - 2) =~= old(self).text().subrange(
                        start + 2,
                        k,
                    ));
                }
                let body = content.as_str().substring_char(2, n - 2);
                Some(Ok(Event::Instruction(body.to_owned())))
            },
        }
    }

    /// Read the tag at the cursor.
    fn read_tag(&mut self) -> (r: Option<Result<Event, Error>>)
        requires
            old(self).wf(),
            old(self).pos() < old(self).text().len(),
            old(self).text()[old(self).pos()] == '<',
        ensures
            final(self).wf(),
            final(self).text() == old(self).text(),
            ({
                let k = find_gt_from(old(self).text(), old(self).pos() + 1, Quoting::Outside);
                if k == -1 {
                    r matches Some(Err(e)) && final(self).pos() == old(self).pos()
                        && e.spec_position() == old(self).pos() && e.spec_message()
                        == msg_malformed_tag()
                } else {
                    final(self).pos() == k + 1 && match spec_parse_tag(
                        old(self).text().subrange(old(self).pos() + 1, k),
                    ) {
                        Ok((name, kind, attrs)) => r matches Some(Ok(e)) && e@ == SpecEvent::Tag(
                            name,
                            kind,
                            attrs,
                        ),
                        Err((p, m)) => r matches Some(Err(e)) && e.spec_position() == p
                            && e.spec_message() == m,
                    }
                }
            }),
    {
        let ghost start = self.pos();
        let captured = self.reader.capture_tag();
        match captured {
            None => Some(
                Err(Error::new(self.reader.position(), "found a malformed tag".to_owned())),
            ),
            Some(content) => {
                let n = content.as_str().unicode_len();
                proof {
                    let k = find_gt_from(old(self).text(), start + 1, Quoting::Outside);
                    assert(k != -1);
                    assert(content@ == old(self).text().subrange(start, k + 1));
                    crate::text::lemma_find_gt_from(old(self).text(), start + 1, Quoting::Outside);
                    assert(k >= start + 1);
                    assert(k < old(self).text().len());
                    assert(content@.len() == k + 1 - start);
                    assert(n >= 2);
                    assert(content@.subrange(1, n - 1) =~= old(self).text().subrange(
                        start + 1,
                        k,
                    ));
                }
                let interior = content.as_str().substring_char(1, n - 1);
                match Tag::parse(interior) {
                    Ok(tag) => {
                        let Tag(name, kind, attributes) = tag;
                        Some(Ok(Event::Tag(name, kind, attributes)))
                    },
                    Err(err) => Some(Err(err)),
                }
            },
        }
    }

    /// Classify and read the construct at the cursor by its first characters.
    fn next_angle(&mut self) -> (r: Option<Result<Event, Error>>)
        requires
            old(self).wf(),
        ensures
            final(self).wf(),
            final(self).text() == old(self).text(),
            match spec_angle(old(self).text(), old(self).pos()) {
                SpecStep::Finished => r is None && final(self).pos() == old(self).pos(),
                SpecStep::Lexed(ev, p) => r matches Some(Ok(e)) && final(self).pos() == p && e@
                    == ev,
                SpecStep::Failed(ep, m, p) => r matches Some(Err(e)) && final(self).pos() == p
                    && e.spec_position() == ep && e.spec_message() == m,
            },
    {
        let c0 = self.reader.peek_at(0);
        let c1 = self.reader.peek_at(1);
        let c2 = self.reader.peek_at(2);
        let c3 = self.reader.peek_at(3);
        proof {
            let s = self.text();
            let j = self.pos();
            if starts_with_at(s, j, lit_comment_open()) {
                assert(s.subrange(j, j + 4)[0] == '<');
                assert(s.subrange(j, j + 4)[1] == '!');
                assert(s.subrange(j, j + 4)[2] == '-');
                assert(s.subrange(j, j + 4)[3] == '-');
            }
            if starts_with_at(s, j, seq!['<', '!']) {
                assert(s.subrange(j, j + 2)[0] == '<');
                assert(s.subrange(j, j + 2)[1] == '!');
            }
            if starts_with_at(s, j, seq!['<', '?']) {
                assert(s.subrange(j, j + 2)[0] == '<');
                assert(s.subrange(j, j + 2)[1] == '?');
            }
        }
        match c0 {
            None => None,
            Some(first) => {
                let comment_open = match (first, c1, c2, c3) {
                    ('<', Some('!'), Some('-'), Some('-')) => true,
                    _ => false,
                };
                let declaration_open = match (first, c1) {
                    ('<', Some('!')) => true,
                    _ => false,
                };
                let instruction_open = match (first, c1) {
                    ('<', Some('?')) => true,
                    _ => false,
                };
                proof {
                    let s = self.text();
                    let j = self.pos();
                    if comment_open {
                        assert(first == '<');
                        assert(c1 == Some('!'));
                        assert(c2 == Some('-'));
                        assert(c3 == Some('-'));
                        assert(j + 4 <= s.len());
                        assert(s[j] == '<');
                        assert(s[j + 1] == '!');
                        assert(s[j + 2] == '-');
                        assert(s[j + 3] == '-');
                        assert(lit_comment_open().len() == 4);
                        assert(lit_comment_open()[0] == '<');
                        assert(lit_comment_open()[1] == '!');
                        assert(lit_comment_open()[2] == '-');
                        assert(lit_comment_open()[3] == '-');
                        assert(s.subrange(j, j + 4) =~= lit_comment_open());
                    }
                    if declaration_open {
                        assert(seq!['<', '!'].len() == 2);
                        assert(seq!['<', '!'][0] == '<');
                        assert(seq!['<', '!'][1] == '!');
                        assert(s.subrange(j, j + 2) =~= seq!['<', '!']);
                    }
                    if instruction_open {
                        assert(seq!['<', '?'].len() == 2);
                        assert(seq!['<', '?'][0] == '<');
                        assert(seq!['<', '?'][1] == '?');
                        assert(s.subrange(j, j + 2) =~= seq!['<', '?']);
                    }
                }
                if comment_open {
                    self.read_comment()
                } else if declaration_open {
                    self.read_declaration()
                } else if instruction_open {
                    self.read_instruction()
                } else if first == '<' {
                    self.read_tag()
                } else {
                    Some(
                        Err(
                            Error::new(
                                self.reader.position(),
                                "found an unknown sequence".to_owned(),
                            ),
                        ),
                    )
                }
            },
        }
    }

    /// The next event: a text run when one is pending, otherwise the
    /// construct at the cursor; `None` at the end of the input.
    pub fn next(&mut self) -> (r: Option<Result<Event, Error>>)
        requires
            old(self).wf(),
        ensures
            final(self).wf(),
            final(self).text() == old(self).text(),
            match spec_step(old(self).text(), old(self).pos()) {
                SpecStep::Finished => r is None && final(self).pos() == old(self).text().len(),
                SpecStep::Lexed(ev, p) => r matches Some(Ok(e)) && final(self).pos() == p && e@
                    == ev,
                SpecStep::Failed(ep, m, p) => r matches Some(Err(e)) && final(self).pos() == p
                    && e.spec_position() == ep && e.spec_message() == m,
            },
    {
        proof {
            crate::text::lemma_scan_to(
                self.text(),
                self.pos(),
                self.text().len() as int,
                '<',
            );
        }
        let pending = self.next_text();
        match pending {
            Some(event) => Some(event),
            None => self.next_angle(),
        }
    }
}

} // verus!
