//! The edition patcher: a lexer that finds the top-level `edition`
//! declaration of a source file and rewrites it into a `syntax` declaration.

use crate::ascii::{
    BACKSLASH, CARRIAGE_RETURN, EQUALS, FORM_FEED, LINE_FEED, LOWER_D, LOWER_E, LOWER_I, LOWER_N,
    LOWER_O, LOWER_T, QUOTE, SLASH, SPACE, STAR, TAB,
};
use crate::grammar::{declaration, fed, held, patched, replacement, scan, settled};
use crate::lexer::{is_space, Phase, Resume};
use crate::path::append;
use crate::scanning::{lemma_lexer_scans, lemma_run_last};
use crate::streaming::{lemma_fed, lemma_scan_empty};
use vstd::prelude::*;
use vstd::std_specs::convert::{FromSpecImpl, TryFromSpecImpl};

verus! {

/// The ways in which patching can fail.
#[derive(Debug, PartialEq, Eq)]
pub enum Error {
    /// The lexer was asked to suspend a phase in which no comment can open.
    InvalidState,
}

/// What patching one file did to it.
#[derive(Clone, Copy, Debug, PartialEq, Eq)]
pub enum Outcome {
    /// The file held no declaration to replace, and was copied.
    Untouched,
    /// The declaration of the file was replaced.
    Replaced,
}

/// The phase to resume once a comment ends: idle, or a place between the
/// keyword and the value of the declaration that began at the given offset.
#[derive(Clone, Copy, Debug, PartialEq, Eq)]
pub enum CommentContext {
    Idle,
    EditionWhitespacePost(usize),
    EditionEqual(usize),
    EditionEqualWhitespacePost(usize),
}

/// The cursor of the lexer. Every state but the first and the last carries
/// the offset at which the comment or the declaration in progress began.
#[derive(Clone, Copy, Debug, PartialEq, Eq)]
pub enum State {
    /// Between tokens, before any declaration.
    Idle,
    /// After a `/` that may open a comment.
    CommentPending(usize, CommentContext),
    /// Inside a comment that runs to the end of the line.
    CommentSingleLine(usize, CommentContext),
    /// Inside a comment that runs to the next `*/`.
    CommentMultiLine(usize, CommentContext),
    /// Inside such a comment, after a `*`.
    CommentMultiLineEndPending(usize, CommentContext),
    /// Inside the keyword, with the number of its bytes matched after the
    /// first.
    Edition(usize, usize),
    /// After the keyword and whitespace or a comment.
    EditionWhitespacePost(usize),
    /// After the `=`.
    EditionEqual(usize),
    /// After the `=` and whitespace.
    EditionEqualWhitespacePost(usize),
    /// After the quote that opens the value.
    EditionOpenQuote(usize),
    /// Inside the value, after a backslash.
    EditionValueEscape(usize),
    /// Inside the value.
    EditionValue(usize),
    /// After the quote that closes the value.
    EditionCloseQuote(usize),
    /// The scan is over: with the offsets of a declaration, from its first
    /// byte to the byte after its closing quote, or without one.
    Complete(Option<(usize, usize)>),
}

impl View for CommentContext {
    type V = Resume;

    open spec fn view(&self) -> Resume {
        match *self {
            CommentContext::Idle => Resume::Idle,
            CommentContext::EditionWhitespacePost(at) => Resume::EditionWhitespacePost(at as int),
            CommentContext::EditionEqual(at) => Resume::EditionEqual(at as int),
            CommentContext::EditionEqualWhitespacePost(at) => Resume::EditionEqualWhitespacePost(
                at as int,
            ),
        }
    }
}

impl View for State {
    type V = Phase;

    open spec fn view(&self) -> Phase {
        match *self {
            State::Idle => Phase::Idle,
            State::CommentPending(at, ctx) => Phase::CommentPending(at as int, ctx@),
            State::CommentSingleLine(at, ctx) => Phase::CommentSingleLine(at as int, ctx@),
            State::CommentMultiLine(at, ctx) => Phase::CommentMultiLine(at as int, ctx@),
            State::CommentMultiLineEndPending(at, ctx) => Phase::CommentMultiLineEndPending(
                at as int,
                ctx@,
            ),
            State::Edition(at, idx) => Phase::Edition(at as int, idx as int),
            State::EditionWhitespacePost(at) => Phase::EditionWhitespacePost(at as int),
            State::EditionEqual(at) => Phase::EditionEqual(at as int),
            State::EditionEqualWhitespacePost(at) => Phase::EditionEqualWhitespacePost(at as int),
            State::EditionOpenQuote(at) => Phase::EditionOpenQuote(at as int),
            State::EditionValueEscape(at) => Phase::EditionValueEscape(at as int),
            State::EditionValue(at) => Phase::EditionValue(at as int),
            State::EditionCloseQuote(at) => Phase::EditionCloseQuote(at as int),
            State::Complete(None) => Phase::Complete(None),
            State::Complete(Some((from, to))) => Phase::Complete(Some((from as int, to as int))),
        }
    }
}

impl From<CommentContext> for State {
    fn from(value: CommentContext) -> (state: State) {
        match value {
            CommentContext::Idle => State::Idle,
            CommentContext::EditionWhitespacePost(pos) => State::EditionWhitespacePost(pos),
            CommentContext::EditionEqual(pos) => State::EditionEqual(pos),
            CommentContext::EditionEqualWhitespacePost(pos) => State::EditionEqualWhitespacePost(
                pos,
            ),
        }
    }
}

impl FromSpecImpl<CommentContext> for State {
    open spec fn obeys_from_spec() -> bool {
        true
    }

    open spec fn from_spec(value: CommentContext) -> State {
        match value {
            CommentContext::Idle => State::Idle,
            CommentContext::EditionWhitespacePost(pos) => State::EditionWhitespacePost(pos),
            CommentContext::EditionEqual(pos) => State::EditionEqual(pos),
            CommentContext::EditionEqualWhitespacePost(pos) => State::EditionEqualWhitespacePost(
                pos,
            ),
        }
    }
}

impl TryFrom<State> for CommentContext {
    type Error = Error;

    fn try_from(value: State) -> (ctx: Result<CommentContext, Error>) {
        match value {
            State::Idle => Ok(CommentContext::Idle),
            State::EditionWhitespacePost(pos) => Ok(CommentContext::EditionWhitespacePost(pos)),
            State::EditionEqual(pos) => Ok(CommentContext::EditionEqual(pos)),
            State::EditionEqualWhitespacePost(pos) => Ok(
                CommentContext::EditionEqualWhitespacePost(pos),
            ),
            State::Edition(pos, idx) => if idx == 6 {
                Ok(CommentContext::EditionWhitespacePost(pos))
            } else {
                Err(Error::InvalidState)
            },
            _ => Err(Error::InvalidState),
        }
    }
}

impl TryFromSpecImpl<State> for CommentContext {
    open spec fn obeys_try_from_spec() -> bool {
        true
    }

    open spec fn try_from_spec(value: State) -> Result<CommentContext, Error> {
        match value {
            State::Idle => Ok(CommentContext::Idle),
            State::EditionWhitespacePost(pos) => Ok(CommentContext::EditionWhitespacePost(pos)),
            State::EditionEqual(pos) => Ok(CommentContext::EditionEqual(pos)),
            State::EditionEqualWhitespacePost(pos) => Ok(
                CommentContext::EditionEqualWhitespacePost(pos),
            ),
            State::Edition(pos, idx) => if idx == 6 {
                Ok(CommentContext::EditionWhitespacePost(pos))
            } else {
                Err(Error::InvalidState)
            },
            _ => Err(Error::InvalidState),
        }
    }
}

impl State {
    /// The offsets that bound what the lexer holds back: nothing in the idle
    /// and the terminal phase, the start and the end of a completed match,
    /// or the start alone of a token still in progress.
    pub open spec fn bounds(self) -> Option<(usize, Option<usize>)> {
        match self {
            State::Complete(None) | State::Idle => None,
            State::Complete(Some((to, from))) => Some((to, Some(from))),
            State::CommentPending(to, _)
            | State::CommentSingleLine(to, _)
            | State::CommentMultiLine(to, _)
            | State::CommentMultiLineEndPending(to, _)
            | State::Edition(to, _)
            | State::EditionWhitespacePost(to)
            | State::EditionEqual(to)
            | State::EditionEqualWhitespacePost(to)
            | State::EditionOpenQuote(to)
            | State::EditionValueEscape(to)
            | State::EditionValue(to)
            | State::EditionCloseQuote(to) => Some((to, None)),
        }
    }

    /// Advances the cursor over the byte `ch`, found at offset `pos`. The
    /// lexer never asks to suspend a phase that cannot be suspended, so the
    /// call always succeeds.
    pub fn next_token(self, ch: u8, pos: usize) -> (next: Result<State, Error>)
        ensures
            next is Ok,
            next->Ok_0@ == self@.step(ch, pos as int),
    {
        Ok(
            match self {
                State::Complete(_) => self,
                State::Idle => if ch == LOWER_E {
                    State::Edition(pos, 0)
                } else if ch == SLASH {
                    match CommentContext::try_from(self) {
                        Ok(ctx) => State::CommentPending(pos, ctx),
                        Err(e) => { return Err(e); },
                    }
                } else if is_whitespace(ch) {
                    State::Idle
                } else {
                    State::Complete(None)
                },
                State::CommentPending(start_at, ctx) => if ch == SLASH {
                    State::CommentSingleLine(start_at, ctx)
                } else if ch == STAR {
                    State::CommentMultiLine(start_at, ctx)
                } else {
                    State::Complete(None)
                },
                State::CommentSingleLine(start_at, ctx) => if ch == LINE_FEED {
                    State::from(ctx)
                } else {
                    State::CommentSingleLine(start_at, ctx)
                },
                State::CommentMultiLine(start_at, ctx) => if ch == STAR {
                    State::CommentMultiLineEndPending(start_at, ctx)
                } else {
                    State::CommentMultiLine(start_at, ctx)
                },
                State::CommentMultiLineEndPending(start_at, ctx) => if ch == SLASH {
                    State::from(ctx)
                } else if ch == STAR {
                    State::CommentMultiLineEndPending(start_at, ctx)
                } else {
                    State::CommentMultiLine(start_at, ctx)
                },
                State::Edition(start_at, idx) => if (idx == 0 && ch == LOWER_D)
                    || (idx == 1 && ch == LOWER_I)
                    || (idx == 2 && ch == LOWER_T)
                    || (idx == 3 && ch == LOWER_I)
                    || (idx == 4 && ch == LOWER_O)
                    || (idx == 5 && ch == LOWER_N) {
                    State::Edition(start_at, idx + 1)
                } else if idx == 6 && ch == EQUALS {
                    State::EditionEqual(start_at)
                } else if idx == 6 && ch == SLASH {
                    match CommentContext::try_from(self) {
                        Ok(ctx) => State::CommentPending(start_at, ctx),
                        Err(e) => { return Err(e); },
                    }
                } else if idx == 6 && is_whitespace(ch) {
                    State::EditionWhitespacePost(start_at)
                } else {
                    State::Complete(None)
                },
                State::EditionWhitespacePost(start_at) => if ch == EQUALS {
                    State::EditionEqual(start_at)
                } else if ch == SLASH {
                    match CommentContext::try_from(self) {
                        Ok(ctx) => State::CommentPending(start_at, ctx),
                        Err(e) => { return Err(e); },
                    }
                } else if is_whitespace(ch) {
                    State::EditionWhitespacePost(start_at)
                } else {
                    State::Complete(None)
                },
                State::EditionEqual(start_at)
                | State::EditionEqualWhitespacePost(start_at) => if ch == QUOTE {
                    State::EditionOpenQuote(start_at)
                } else if ch == SLASH {
                    match CommentContext::try_from(self) {
                        Ok(ctx) => State::CommentPending(start_at, ctx),
                        Err(e) => { return Err(e); },
                    }
                } else if is_whitespace(ch) {
                    State::EditionEqualWhitespacePost(start_at)
                } else {
                    State::Complete(None)
                },
                State::EditionOpenQuote(start_at)
                | State::EditionValue(start_at) => if ch == QUOTE {
                    State::EditionCloseQuote(start_at)
                } else if ch == BACKSLASH {
                    State::EditionValueEscape(start_at)
                } else {
                    State::EditionValue(start_at)
                },
                State::EditionValueEscape(start_at) => State::EditionValue(start_at),
                State::EditionCloseQuote(start_at) => State::Complete(Some((start_at, pos))),
            },
        )
    }

    /// The offsets that bound what the lexer holds back.
    pub fn get_bounds(&self) -> (bounds: Option<(usize, Option<usize>)>)
        ensures
            bounds == self.bounds(),
    {
        match *self {
            State::Complete(None) | State::Idle => None,
            State::Complete(Some((to, from))) => Some((to, Some(from))),
            State::CommentPending(to, _)
            | State::CommentSingleLine(to, _)
            | State::CommentMultiLine(to, _)
            | State::CommentMultiLineEndPending(to, _)
            | State::Edition(to, _)
            | State::EditionWhitespacePost(to)
            | State::EditionEqual(to)
            | State::EditionEqualWhitespacePost(to)
            | State::EditionOpenQuote(to)
            | State::EditionValueEscape(to)
            | State::EditionValue(to)
            | State::EditionCloseQuote(to) => Some((to, None)),
        }
    }
}

/// Tells whether a byte is ASCII whitespace.
pub fn is_whitespace(ch: u8) -> (r: bool)
    ensures
        r == is_space(ch),
{
    ch == SPACE || ch == TAB || ch == LINE_FEED || ch == FORM_FEED || ch == CARRIAGE_RETURN
}

/// Appends `syntax = "proto3"`.
fn append_replacement(dst: &mut Vec<u8>)
    ensures
        final(dst)@ == old(dst)@ + replacement(),
{
    dst.push(0x73);
    dst.push(0x79);
    dst.push(0x6e);
    dst.push(0x74);
    dst.push(0x61);
    dst.push(0x78);
    dst.push(0x20);
    dst.push(0x3d);
    dst.push(0x20);
    dst.push(0x22);
    dst.push(0x70);
    dst.push(0x72);
    dst.push(0x6f);
    dst.push(0x74);
    dst.push(0x6f);
    dst.push(0x33);
    dst.push(0x22);
}

/// Runs the lexer over `line` from its first byte, and returns the cursor
/// that it ends in.
pub fn scan_line(line: &[u8]) -> (end: Result<State, Error>)
    ensures
        end is Ok,
        end->Ok_0@ == Phase::Idle.run(line@, 0, line@.len() as int),
        end->Ok_0@.outcome(line@.len() as int) == scan(line@),
{
    let n = line.len();
    let mut state = State::Idle;
    let mut pos: usize = 0;
    while pos < n
        invariant
            pos <= n,
            n == line@.len(),
            state@ == Phase::Idle.run(line@, 0, pos as int),
        decreases n - pos,
    {
        proof {
            lemma_run_last(Phase::Idle, line@, 0, pos as int);
        }
        match state.next_token(line[pos], pos) {
            Ok(next) => {
                state = next;
            },
            Err(e) => {
                return Err(e);
            },
        }
        pos += 1;
    }
    proof {
        lemma_lexer_scans(line@);
    }
    Ok(state)
}

/// A patcher for one file, which takes the file in parts. It writes what is
/// settled as soon as it can, and holds back a comment or a declaration that
/// is still in progress.
pub struct Patcher {
    line: Vec<u8>,
    done: bool,
    outcome: Outcome,
    seen: Ghost<Seq<u8>>,
}

impl Patcher {
    #[verifier::type_invariant]
    spec fn inv(self) -> bool {
        &&& self.line@ == held(self.seen@)
        &&& self.done == settled(self.seen@)
        &&& self.outcome == Outcome::Replaced <==> scan(self.seen@) is Found
    }

    /// All the bytes that the patcher has read.
    pub closed spec fn seen(self) -> Seq<u8> {
        self.seen@
    }

    /// A patcher that has read nothing.
    pub fn new() -> (patcher: Patcher)
        ensures
            patcher.seen() == Seq::<u8>::empty(),
    {
        proof {
            lemma_scan_empty();
        }
        Patcher {
            line: Vec::new(),
            done: false,
            outcome: Outcome::Untouched,
            seen: Ghost(Seq::empty()),
        }
    }

    /// Reads the next part of the file, and appends to `dst` what this
    /// settles.
    pub fn feed(self, chunk: &[u8], dst: &mut Vec<u8>) -> (next: Result<Patcher, Error>)
        ensures
            next is Ok,
            next->Ok_0.seen() == self.seen() + chunk@,
            final(dst)@ == old(dst)@ + fed(self.seen(), chunk@),
    {
        proof {
            use_type_invariant(&self);
        }
        let Patcher { mut line, done, outcome, seen } = self;
        let ghost after = seen@ + chunk@;
        proof {
            lemma_fed(seen@, chunk@);
            assert(chunk@.subrange(0, chunk@.len() as int) =~= chunk@);
        }
        if done {
            append(dst, chunk, 0, chunk.len());
            return Ok(Patcher { line, done, outcome, seen: Ghost(after) });
        }
        append(&mut line, chunk, 0, chunk.len());
        let state = match scan_line(line.as_slice()) {
            Ok(state) => state,
            Err(e) => {
                return Err(e);
            },
        };
        let n = line.len();
        match state.get_bounds() {
            Some((to, Some(from))) => {
                append(dst, line.as_slice(), 0, to);
                append_replacement(dst);
                append(dst, line.as_slice(), from, n);
                line.clear();
                Ok(Patcher { line, done: true, outcome: Outcome::Replaced, seen: Ghost(after) })
            },
            Some((to, None)) => {
                append(dst, line.as_slice(), 0, to);
                if matches!(state, State::EditionCloseQuote(_)) {
                    append_replacement(dst);
                    line.clear();
                    Ok(
                        Patcher {
                            line,
                            done: true,
                            outcome: Outcome::Replaced,
                            seen: Ghost(after),
                        },
                    )
                } else {
                    let rest = line.split_off(to);
                    Ok(Patcher { line: rest, done, outcome, seen: Ghost(after) })
                }
            },
            None => {
                append(dst, line.as_slice(), 0, n);
                line.clear();
                let done = matches!(state, State::Complete(_));
                Ok(Patcher { line, done, outcome, seen: Ghost(after) })
            },
        }
    }

    /// Ends the file: appends to `dst` what was held back, and tells whether
    /// the declaration was replaced.
    pub fn finish(self, dst: &mut Vec<u8>) -> (outcome: Outcome)
        ensures
            final(dst)@ == old(dst)@ + held(self.seen()),
            outcome == Outcome::Replaced <==> declaration(self.seen()) is Some,
    {
        proof {
            use_type_invariant(&self);
        }
        let n = self.line.len();
        append(dst, self.line.as_slice(), 0, n);
        self.outcome
    }
}

/// Copies the file `src` to the end of `dst`, with its top-level `edition`
/// declaration, if it has one, replaced by `syntax = "proto3"`.
pub fn patch_edition(src: &[u8], dst: &mut Vec<u8>) -> (outcome: Result<Outcome, Error>)
    ensures
        outcome is Ok,
        final(dst)@ == old(dst)@ + patched(src@),
        outcome->Ok_0 == Outcome::Replaced <==> declaration(src@) is Some,
{
    let patcher = Patcher::new();
    proof {
        lemma_scan_empty();
        lemma_fed(Seq::<u8>::empty(), src@);
    }
    match patcher.feed(src, dst) {
        Ok(patcher) => Ok(patcher.finish(dst)),
        Err(e) => Err(e),
    }
}

} // verus!
