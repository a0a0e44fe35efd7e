//! The mathematical model of the lexer: its phases, with positions as
//! unbounded integers, and the transition that one byte causes.

use crate::ascii::{
    BACKSLASH, CARRIAGE_RETURN, EQUALS, FORM_FEED, LINE_FEED, LOWER_D, LOWER_E, LOWER_I, LOWER_N,
    LOWER_O, LOWER_T, QUOTE, SLASH, SPACE, STAR, TAB,
};
use vstd::prelude::*;

verus! {

/// Tells whether a byte is ASCII whitespace: space, tab, line feed, form feed
/// or carriage return.
pub open spec fn is_space(ch: u8) -> bool {
    ch == SPACE || ch == TAB || ch == LINE_FEED || ch == FORM_FEED || ch == CARRIAGE_RETURN
}

/// The keyword that opens the declaration to be replaced, `edition`.
pub open spec fn keyword() -> Seq<u8> {
    seq![LOWER_E, LOWER_D, LOWER_I, LOWER_T, LOWER_I, LOWER_O, LOWER_N]
}

/// The phase to which the lexer returns when a comment ends. The integer is
/// the offset at which the pending declaration began.
pub enum Resume {
    Idle,
    EditionWhitespacePost(int),
    EditionEqual(int),
    EditionEqualWhitespacePost(int),
}

/// The phase of the lexer. Every phase but `Idle` and `Complete` carries the
/// offset at which the token in progress began; `Edition` also counts the
/// keyword bytes matched after the first, and a comment phase carries the
/// phase to resume.
pub enum Phase {
    Idle,
    CommentPending(int, Resume),
    CommentSingleLine(int, Resume),
    CommentMultiLine(int, Resume),
    CommentMultiLineEndPending(int, Resume),
    Edition(int, int),
    EditionWhitespacePost(int),
    EditionEqual(int),
    EditionEqualWhitespacePost(int),
    EditionOpenQuote(int),
    EditionValueEscape(int),
    EditionValue(int),
    EditionCloseQuote(int),
    Complete(Option<(int, int)>),
}

impl Resume {
    /// The phase that a comment hands control back to.
    pub open spec fn resume(self) -> Phase {
        match self {
            Resume::Idle => Phase::Idle,
            Resume::EditionWhitespacePost(at) => Phase::EditionWhitespacePost(at),
            Resume::EditionEqual(at) => Phase::EditionEqual(at),
            Resume::EditionEqualWhitespacePost(at) => Phase::EditionEqualWhitespacePost(at),
        }
    }
}

impl Phase {
    /// The phase that a comment opened in this phase will resume, if a
    /// comment may open here at all.
    pub open spec fn suspend(self) -> Option<Resume> {
        match self {
            Phase::Idle => Some(Resume::Idle),
            Phase::EditionWhitespacePost(at) => Some(Resume::EditionWhitespacePost(at)),
            Phase::EditionEqual(at) => Some(Resume::EditionEqual(at)),
            Phase::EditionEqualWhitespacePost(at) => Some(
                Resume::EditionEqualWhitespacePost(at),
            ),
            Phase::Edition(at, idx) if idx == 6 => Some(Resume::EditionWhitespacePost(at)),
            _ => None,
        }
    }

    /// The phase after the byte `ch`, read at offset `pos`.
    pub open spec fn step(self, ch: u8, pos: int) -> Phase {
        match self {
            Phase::Complete(_) => self,
            Phase::Idle => if ch == LOWER_E {
                Phase::Edition(pos, 0)
            } else if ch == SLASH {
                Phase::CommentPending(pos, Resume::Idle)
            } else if is_space(ch) {
                Phase::Idle
            } else {
                Phase::Complete(None)
            },
            Phase::CommentPending(at, ctx) => if ch == SLASH {
                Phase::CommentSingleLine(at, ctx)
            } else if ch == STAR {
                Phase::CommentMultiLine(at, ctx)
            } else {
                Phase::Complete(None)
            },
            Phase::CommentSingleLine(at, ctx) => if ch == LINE_FEED {
                ctx.resume()
            } else {
                self
            },
            Phase::CommentMultiLine(at, ctx) => if ch == STAR {
                Phase::CommentMultiLineEndPending(at, ctx)
            } else {
                self
            },
            Phase::CommentMultiLineEndPending(at, ctx) => if ch == SLASH {
                ctx.resume()
            } else if ch == STAR {
                self
            } else {
                Phase::CommentMultiLine(at, ctx)
            },
            Phase::Edition(at, idx) => if 0 <= idx < 6 && ch == keyword()[idx + 1] {
                Phase::Edition(at, idx + 1)
            } else if idx == 6 && ch == EQUALS {
                Phase::EditionEqual(at)
            } else if idx == 6 && ch == SLASH {
                Phase::CommentPending(at, Resume::EditionWhitespacePost(at))
            } else if idx == 6 && is_space(ch) {
                Phase::EditionWhitespacePost(at)
            } else {
                Phase::Complete(None)
            },
            Phase::EditionWhitespacePost(at) => if ch == EQUALS {
                Phase::EditionEqual(at)
            } else if ch == SLASH {
                Phase::CommentPending(at, Resume::EditionWhitespacePost(at))
            } else if is_space(ch) {
                self
            } else {
                Phase::Complete(None)
            },
            Phase::EditionEqual(at) => if ch == QUOTE {
                Phase::EditionOpenQuote(at)
            } else if ch == SLASH {
                Phase::CommentPending(at, Resume::EditionEqual(at))
            } else if is_space(ch) {
                Phase::EditionEqualWhitespacePost(at)
            } else {
                Phase::Complete(None)
            },
            Phase::EditionEqualWhitespacePost(at) => if ch == QUOTE {
                Phase::EditionOpenQuote(at)
            } else if ch == SLASH {
                Phase::CommentPending(at, Resume::EditionEqualWhitespacePost(at))
            } else if is_space(ch) {
                self
            } else {
                Phase::Complete(None)
            },
            Phase::EditionOpenQuote(at) | Phase::EditionValue(at) => if ch == QUOTE {
                Phase::EditionCloseQuote(at)
            } else if ch == BACKSLASH {
                Phase::EditionValueEscape(at)
            } else {
                Phase::EditionValue(at)
            },
            Phase::EditionValueEscape(at) => Phase::EditionValue(at),
            Phase::EditionCloseQuote(at) => Phase::Complete(Some((at, pos))),
        }
    }

    /// The phase after the bytes of `s` from offset `from` up to, not
    /// including, offset `to`, read one after the other.
    pub open spec fn run(self, s: Seq<u8>, from: int, to: int) -> Phase
        decreases to - from,
    {
        if from >= to {
            self
        } else {
            self.step(s[from], from).run(s, from + 1, to)
        }
    }
}

} // verus!
