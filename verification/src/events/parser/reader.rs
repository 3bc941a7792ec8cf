//! The scanner: a cursor over an immutable text buffer. Each capture either
//! consumes one complete construct and returns its text, or consumes nothing
//! and returns nothing.

use vstd::prelude::*;
use vstd::string::StrSliceExecFns;

use crate::text::find_from;
use crate::text::find_gt_from;
use crate::text::find_pair;
use crate::text::find_triple;
use crate::text::find_gt_exec;
use crate::text::scan_to;
use crate::text::scan_to_exec;
use crate::text::starts_with_at;
use crate::text::Quoting;

verus! {

/// The four-character opening of a comment.
pub open spec fn lit_comment_open() -> Seq<char> {
    seq!['<', '!', '-', '-']
}

/// The three-character close of a comment.
pub open spec fn lit_comment_close() -> Seq<char> {
    seq!['-', '-', '>']
}

/// The two-character close of an instruction.
pub open spec fn lit_instruction_close() -> Seq<char> {
    seq!['?', '>']
}

/// A scanner over a text buffer.
pub struct Reader {
    content: String,
    length: usize,
    offset: usize,
}

impl Reader {
    /// The text scanned.
    pub closed spec fn text(&self) -> Seq<char> {
        self.content@
    }

    /// The cursor, as a character offset.
    pub closed spec fn pos(&self) -> int {
        self.offset as int
    }

    /// The cached length matches the buffer.
    pub closed spec fn cache_ok(&self) -> bool {
        self.length == self.content@.len()
    }

    /// The cursor never leaves the buffer.
    pub open spec fn wf(&self) -> bool {
        self.cache_ok() && 0 <= self.pos() <= self.text().len()
    }

    /// Create a scanner at the start of the text.
    pub fn new(content: &str) -> (r: Reader)
        ensures
            r.wf(),
            r.text() == content@,
            r.pos() == 0,
    {
        let length = content.unicode_len();
        Reader { content: content.to_owned(), length, offset: 0 }
    }

    /// The current character offset, for diagnostics.
    pub fn position(&self) -> (r: usize)
        ensures
            r as int == self.pos(),
    {
        self.offset
    }

    /// The character `k` places ahead of the cursor, if the buffer still
    /// holds one.
    pub fn peek_at(&self, k: usize) -> (r: Option<char>)
        requires
            self.wf(),
        ensures
            match r {
                Some(c) => self.pos() + k < self.text().len() && c == self.text()[self.pos()
                    + k],
                None => self.pos() + k >= self.text().len(),
            },
    {
        if k < self.length - self.offset {
            Some(self.content.as_str().get_char(self.offset + k))
        } else {
            None
        }
    }

    /// Consume up to the next occurrence of `target` (or the end) and return
    /// the consumed text; nothing is returned when the cursor did not move.
    pub fn capture_until_char(&mut self, target: char) -> (r: Option<String>)
        requires
            old(self).wf(),
        ensures
            final(self).wf(),
            final(self).text() == old(self).text(),
            final(self).pos() == scan_to(
                old(self).text(),
                old(self).pos(),
                old(self).text().len() as int,
                target,
            ),
            match r {
                Some(s) => old(self).pos() < final(self).pos() && s@ == old(self).text().subrange(
                    old(self).pos(),
                    final(self).pos(),
                ),
                None => final(self).pos() == old(self).pos(),
            },
    {
        let j = scan_to_exec(self.content.as_str(), self.offset, self.length, target);
        if j > self.offset {
            let piece = self.content.as_str().substring_char(self.offset, j).to_owned();
            self.offset = j;
            Some(piece)
        } else {
            None
        }
    }

    /// Consume one complete comment, `<!--` through the first following
    /// `-->`.
    pub fn capture_comment(&mut self) -> (r: Option<String>)
        requires
            old(self).wf(),
        ensures
            final(self).wf(),
            final(self).text() == old(self).text(),
            match r {
                Some(s) => {
                    let k = find_from(old(self).text(), old(self).pos() + 4, lit_comment_close());
                    &&& starts_with_at(old(self).text(), old(self).pos(), lit_comment_open())
                    &&& k != -1
                    &&& final(self).pos() == k + 3
                    &&& s@ == old(self).text().subrange(old(self).pos(), k + 3)
                },
                None => {
                    &&& final(self).pos() == old(self).pos()
                    &&& !(starts_with_at(old(self).text(), old(self).pos(), lit_comment_open())
                        && find_from(old(self).text(), old(self).pos() + 4, lit_comment_close())
                        != -1)
                },
            },
    {
        let c0 = self.peek_at(0);
        let c1 = self.peek_at(1);
        let c2 = self.peek_at(2);
        let c3 = self.peek_at(3);
        let opened = match (c0, c1, c2, c3) {
            (Some('<'), Some('!'), Some('-'), Some('-')) => true,
            _ => false,
        };
        if !opened {
            proof {
                if starts_with_at(self.text(), self.pos(), lit_comment_open()) {
                    assert(self.text().subrange(self.pos(), self.pos() + 4)[0] == '<');
                    assert(self.text().subrange(self.pos(), self.pos() + 4)[1] == '!');
                    assert(self.text().subrange(self.pos(), self.pos() + 4)[2] == '-');
                    assert(self.text().subrange(self.pos(), self.pos() + 4)[3] == '-');
                    assert(false);
                }
            }
            return None;
        }
        proof {
            assert(self.text().subrange(self.pos(), self.pos() + 4) =~= lit_comment_open());
        }
        let close = find_triple(self.content.as_str(), self.offset + 4, '-', '-', '>');
        match close {
            Some(k) => {
                let piece = self.content.as_str().substring_char(self.offset, k + 3).to_owned();
                self.offset = k + 3;
                Some(piece)
            },
            None => None,
        }
    }

    /// Consume one complete declaration, `<!` through the next `>` that is
    /// not inside a quoted region.
    pub fn capture_declaration(&mut self) -> (r: Option<String>)
        requires
            old(self).wf(),
        ensures
            final(self).wf(),
            final(self).text() == old(self).text(),
            match r {
                Some(s) => {
                    let k = find_gt_from(old(self).text(), old(self).pos() + 2, Quoting::Outside);
                    &&& starts_with_at(old(self).text(), old(self).pos(), seq!['<', '!'])
                    &&& k != -1
                    &&& final(self).pos() == k + 1
                    &&& s@ == old(self).text().subrange(old(self).pos(), k + 1)
                },
                None => {
                    &&& final(self).pos() == old(self).pos()
                    &&& !(starts_with_at(old(self).text(), old(self).pos(), seq!['<', '!'])
                        && find_gt_from(old(self).text(), old(self).pos() + 2, Quoting::Outside)
                        != -1)
                },
            },
    {
        let c0 = self.peek_at(0);
        let c1 = self.peek_at(1);
        let opened = match (c0, c1) {
            (Some('<'), Some('!')) => true,
            _ => false,
        };
        if !opened {
            proof {
                if starts_with_at(self.text(), self.pos(), seq!['<', '!']) {
                    assert(self.text().subrange(self.pos(), self.pos() + 2)[0] == '<');
                    assert(self.text().subrange(self.pos(), self.pos() + 2)[1] == '!');
                    assert(false);
                }
            }
            return None;
        }
        proof {
            assert(self.text().subrange(self.pos(), self.pos() + 2) =~= seq!['<', '!']);
        }
        let close = find_gt_exec(self.content.as_str(), self.offset + 2);
        match close {
            Some(k) => {
                let piece = self.content.as_str().substring_char(self.offset, k + 1).to_owned();
                self.offset = k + 1;
                Some(piece)
            },
            None => None,
        }
    }

    /// Consume one complete instruction, `<?` through the next `?>`.
    pub fn capture_instruction(&mut self) -> (r: Option<String>)
        requires
            old(self).wf(),
        ensures
            final(self).wf(),
            final(self).text() == old(self).text(),
            match r {
                Some(s) => {
                    let k = find_from(
                        old(self).text(),
                        old(self).pos() + 2,
                        lit_instruction_close(),
                    );
                    &&& starts_with_at(old(self).text(), old(self).pos(), seq!['<', '?'])
                    &&& k != -1
                    &&& final(self).pos() == k + 2
                    &&& s@ == old(self).text().subrange(old(self).pos(), k + 2)
                },
                None => {
                    &&& final(self).pos() == old(self).pos()
                    &&& !(starts_with_at(old(self).text(), old(self).pos(), seq!['<', '?'])
                        && find_from(old(self).text(), old(self).pos() + 2, lit_instruction_close())
                        != -1)
                },
            },
    {
        let c0 = self.peek_at(0);
        let c1 = self.peek_at(1);
        let opened = match (c0, c1) {
            (Some('<'), Some('?')) => true,
            _ => false,
        };
        if !opened {
            proof {
                if starts_with_at(self.text(), self.pos(), seq!['<', '?']) {
                    assert(self.text().subrange(self.pos(), self.pos() + 2)[0] == '<');
                    assert(self.text().subrange(self.pos(), self.pos() + 2)[1] == '?');
                    assert(false);
                }
            }
            return None;
        }
        proof {
            assert(self.text().subrange(self.pos(), self.pos() + 2) =~= seq!['<', '?']);
        }
        let close = find_pair(self.content.as_str(), self.offset + 2, '?', '>');
        match close {
            Some(k) => {
                let piece = self.content.as_str().substring_char(self.offset, k + 2).to_owned();
                self.offset = k + 2;
                Some(piece)
            },
            None => None,
        }
    }

    /// Consume one complete tag, `<` through the next `>` that is not inside
    /// a quoted attribute value.
    pub fn capture_tag(&mut self) -> (r: Option<String>)
        requires
            old(self).wf(),
        ensures
            final(self).wf(),
            final(self).text() == old(self).text(),
            match r {
                Some(s) => {
                    let k = find_gt_from(old(self).text(), old(self).pos() + 1, Quoting::Outside);
                    &&& old(self).pos() < old(self).text().len()
                    &&& old(self).text()[old(self).pos()] == '<'
                    &&& k != -1
                    &&& final(self).pos() == k + 1
                    &&& s@ == old(self).text().subrange(old(self).pos(), k + 1)
                },
                None => {
                    &&& final(self).pos() == old(self).pos()
                    &&& !(old(self).pos() < old(self).text().len() && old(self).text()[old(
                        self,
                    ).pos()] == '<' && find_gt_from(
                        old(self).text(),
                        old(self).pos() + 1,
                        Quoting::Outside,
                    ) != -1)
                },
            },
    {
        let c0 = self.peek_at(0);
        let opened = match c0 {
            Some('<') => true,
            _ => false,
        };
        if !opened {
            return None;
        }
        let close = find_gt_exec(self.content.as_str(), self.offset + 1);
        match close {
            Some(k) => {
                let piece = self.content.as_str().substring_char(self.offset, k + 1).to_owned();
                self.offset = k + 1;
                Some(piece)
            },
            None => None,
        }
    }
}

} // verus!
