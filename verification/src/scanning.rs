//! The lexer against the grammar: what the phase reached at the end of some
//! bytes says about them, and the proof that it says what a scan of the bytes
//! comes to.

use crate::ascii::{BACKSLASH, EQUALS, LINE_FEED, LOWER_E, QUOTE, SLASH, STAR};
use crate::grammar::{
    block_comment_end, comment_end, comment_opens, gap, keyword_prefix, lemma_comment_end_bounds,
    line_comment_end, scan, scan_declaration, string_end, Gap, Scan,
};
use crate::lexer::{is_space, keyword, Phase, Resume};
use vstd::prelude::*;

verus! {

impl Phase {
    /// What this phase, reached at the end of `len` bytes, says about them.
    pub open spec fn outcome(self, len: int) -> Scan {
        match self {
            Phase::Idle => Scan::Idle,
            Phase::Complete(None) => Scan::Dead,
            Phase::Complete(Some((start, end))) => Scan::Found(start, end),
            Phase::EditionCloseQuote(at) => Scan::Found(at, len),
            Phase::CommentPending(at, _)
            | Phase::CommentSingleLine(at, _)
            | Phase::CommentMultiLine(at, _)
            | Phase::CommentMultiLineEndPending(at, _)
            | Phase::Edition(at, _)
            | Phase::EditionWhitespacePost(at)
            | Phase::EditionEqual(at)
            | Phase::EditionEqualWhitespacePost(at)
            | Phase::EditionOpenQuote(at)
            | Phase::EditionValueEscape(at)
            | Phase::EditionValue(at) => Scan::Pending(at),
        }
    }

    /// Tells whether this is a phase inside a comment that began at `at` and
    /// resumes `ctx`.
    pub open spec fn in_comment(self, at: int, ctx: Resume) -> bool {
        self == Phase::CommentPending(at, ctx) || self == Phase::CommentSingleLine(at, ctx) || self
            == Phase::CommentMultiLine(at, ctx) || self == Phase::CommentMultiLineEndPending(
            at,
            ctx,
        )
    }

    /// The place in the grammar at which a gap may stand: before the keyword
    /// (0), between the keyword and `=` (1), or between `=` and the value
    /// (2), with the offset at which the declaration began.
    pub open spec fn slot(self) -> Option<(int, int)> {
        match self {
            Phase::Idle => Some((0, 0)),
            Phase::Edition(at, idx) if idx == 6 => Some((1, at)),
            Phase::EditionWhitespacePost(at) => Some((1, at)),
            Phase::EditionEqual(at) => Some((2, at)),
            Phase::EditionEqualWhitespacePost(at) => Some((2, at)),
            _ => None,
        }
    }
}

/// A run over some bytes is a run over the first of them, then a run over
/// the rest.
pub proof fn lemma_run_split(p: Phase, s: Seq<u8>, a: int, b: int, c: int)
    requires
        a <= b <= c,
    ensures
        p.run(s, a, c) == p.run(s, a, b).run(s, b, c),
    decreases b - a,
{
    if a < b {
        lemma_run_split(p.step(s[a], a), s, a + 1, b, c);
    }
}

/// A run over one byte more ends with the step that this byte causes.
pub proof fn lemma_run_last(p: Phase, s: Seq<u8>, a: int, c: int)
    requires
        a <= c,
    ensures
        p.run(s, a, c + 1) == p.run(s, a, c).step(s[c], c),
{
    lemma_run_split(p, s, a, c, c + 1);
    let q = p.run(s, a, c);
    assert(q.run(s, c, c + 1) == q.step(s[c], c).run(s, c + 1, c + 1));
}

/// Once the scan is complete, no byte changes the phase.
pub proof fn lemma_complete_stays(p: Phase, s: Seq<u8>, a: int, b: int)
    requires
        p is Complete,
    ensures
        p.run(s, a, b) == p,
    decreases b - a,
{
    if a < b {
        lemma_complete_stays(p, s, a + 1, b);
    }
}

/// Inside a single-line comment the lexer runs to the line feed and
/// resumes, or stays inside the comment to the end of the bytes.
proof fn lemma_line_comment(s: Seq<u8>, at: int, ctx: Resume, i: int)
    requires
        0 <= i <= s.len(),
    ensures
        match line_comment_end(s, i) {
            Some(j) => Phase::CommentSingleLine(at, ctx).run(s, i, j) == ctx.resume(),
            None => Phase::CommentSingleLine(at, ctx).run(s, i, s.len() as int)
                == Phase::CommentSingleLine(at, ctx),
        },
    decreases s.len() - i,
{
    let p = Phase::CommentSingleLine(at, ctx);
    if i < s.len() {
        if s[i] == LINE_FEED {
            assert(p.run(s, i, i + 1) == p.step(s[i], i).run(s, i + 1, i + 1));
        } else {
            lemma_line_comment(s, at, ctx, i + 1);
        }
    }
}

/// Inside a multi-line comment, after a `*` or not, the lexer runs to the
/// first `*/` and resumes, or stays inside the comment to the end of the
/// bytes.
proof fn lemma_block_comment(s: Seq<u8>, at: int, ctx: Resume, i: int, star: bool)
    requires
        0 <= i <= s.len(),
        star ==> i >= 1 && s[i - 1] == STAR,
    ensures
        ({
            let p = if star {
                Phase::CommentMultiLineEndPending(at, ctx)
            } else {
                Phase::CommentMultiLine(at, ctx)
            };
            let end = if star {
                block_comment_end(s, i - 1)
            } else {
                block_comment_end(s, i)
            };
            match end {
                Some(j) => i <= j <= s.len() && p.run(s, i, j) == ctx.resume(),
                None => {
                    let q = p.run(s, i, s.len() as int);
                    q == Phase::CommentMultiLine(at, ctx) || q == Phase::CommentMultiLineEndPending(
                        at,
                        ctx,
                    )
                },
            }
        }),
    decreases s.len() - i,
{
    let p = if star {
        Phase::CommentMultiLineEndPending(at, ctx)
    } else {
        Phase::CommentMultiLine(at, ctx)
    };
    if i < s.len() {
        if star && s[i] == SLASH {
            assert(p.run(s, i, i + 1) == p.step(s[i], i).run(s, i + 1, i + 1));
        } else if s[i] == STAR {
            lemma_block_comment(s, at, ctx, i + 1, true);
        } else {
            lemma_block_comment(s, at, ctx, i + 1, false);
        }
    }
}

/// A comment that opens in a phase that can be suspended: the lexer runs to
/// its end and resumes, or stays inside it to the end of the bytes; a `/`
/// that opens no comment ends the scan.
proof fn lemma_comment(s: Seq<u8>, p: Phase, i: int)
    requires
        0 <= i < s.len(),
        s[i] == SLASH,
        p.slot() is Some,
    ensures
        ({
            let ctx = p.suspend()->Some_0;
            let at = if p is Idle {
                i
            } else {
                p.slot()->Some_0.1
            };
            if !comment_opens(s, i) {
                p.run(s, i, s.len() as int) == Phase::Complete(None)
            } else {
                match comment_end(s, i) {
                    Some(j) => i < j <= s.len() && p.run(s, i, j) == ctx.resume(),
                    None => p.run(s, i, s.len() as int).in_comment(at, ctx),
                }
            }
        }),
{
    let ctx = p.suspend()->Some_0;
    let at = if p is Idle {
        i
    } else {
        p.slot()->Some_0.1
    };
    let len = s.len() as int;
    let q = Phase::CommentPending(at, ctx);
    assert(p.run(s, i, len) == q.run(s, i + 1, len));
    lemma_comment_end_bounds(s, i);
    if i + 1 == len {
        // the bytes end with the `/`
    } else if s[i + 1] == SLASH {
        let r = Phase::CommentSingleLine(at, ctx);
        lemma_line_comment(s, at, ctx, i + 2);
        match comment_end(s, i) {
            Some(j) => {
                assert(q.run(s, i + 1, j) == r.run(s, i + 2, j));
            },
            None => {},
        }
    } else if s[i + 1] == STAR {
        let r = Phase::CommentMultiLine(at, ctx);
        lemma_block_comment(s, at, ctx, i + 2, false);
        match comment_end(s, i) {
            Some(j) => {
                assert(q.run(s, i + 1, j) == r.run(s, i + 2, j));
            },
            None => {},
        }
    } else {
        let r = Phase::Complete(None);
        lemma_complete_stays(r, s, i + 2, len);
    }
}

/// Where a gap ends, and what stands there.
pub proof fn lemma_gap_bounds(s: Seq<u8>, i: int)
    requires
        0 <= i <= s.len(),
    ensures
        match gap(s, i) {
            Gap::At(j) => i <= j <= s.len() && (j < s.len() ==> s[j] != SLASH && !is_space(s[j])),
            Gap::Open(at) => i <= at < s.len() && s[at] == SLASH,
            Gap::Bad => true,
        },
    decreases s.len() - i,
{
    if i < s.len() {
        if s[i] == SLASH {
            if comment_opens(s, i) {
                lemma_comment_end_bounds(s, i);
                match comment_end(s, i) {
                    Some(j) => lemma_gap_bounds(s, j),
                    None => {},
                }
            }
        } else if is_space(s[i]) {
            lemma_gap_bounds(s, i + 1);
        }
    }
}

/// Across a gap the lexer stays at its place in the grammar.
proof fn lemma_gap(s: Seq<u8>, p: Phase, i: int)
    requires
        0 <= i <= s.len(),
        p.slot() is Some,
    ensures
        match gap(s, i) {
            Gap::At(j) => i <= j <= s.len() && p.run(s, i, j).slot() == p.slot(),
            Gap::Open(at) => p.run(s, i, s.len() as int).outcome(s.len() as int) == Scan::Pending(
                if p is Idle {
                    at
                } else {
                    p.slot()->Some_0.1
                },
            ),
            Gap::Bad => p.run(s, i, s.len() as int) == Phase::Complete(None),
        },
    decreases s.len() - i,
{
    let len = s.len() as int;
    if i < len {
        if s[i] == SLASH {
            lemma_comment(s, p, i);
            if comment_opens(s, i) {
                match comment_end(s, i) {
                    Some(j) => {
                        let q = p.run(s, i, j);
                        lemma_gap(s, q, j);
                        match gap(s, j) {
                            Gap::At(k) => lemma_run_split(p, s, i, j, k),
                            _ => lemma_run_split(p, s, i, j, len),
                        }
                    },
                    None => {},
                }
            }
        } else if is_space(s[i]) {
            let q = p.step(s[i], i);
            lemma_gap(s, q, i + 1);
        }
    }
}

/// Over the keyword: the lexer counts the bytes that match, and gives up at
/// the first that does not.
proof fn lemma_keyword(s: Seq<u8>, at: int, n: int)
    requires
        0 <= at,
        1 <= n <= 7,
        at + n <= s.len(),
    ensures
        ({
            let m = keyword_prefix(s, at, n);
            let p = Phase::Edition(at, n - 1);
            &&& n <= m <= 7
            &&& at + m <= s.len()
            &&& m == 7 ==> p.run(s, at + n, at + 7) == Phase::Edition(at, 6)
            &&& m < 7 && at + m == s.len() ==> p.run(s, at + n, s.len() as int) == Phase::Edition(
                at,
                m - 1,
            )
            &&& m < 7 && at + m < s.len() ==> p.run(s, at + n, s.len() as int) == Phase::Complete(
                None,
            )
        }),
    decreases 7 - n,
{
    let len = s.len() as int;
    let p = Phase::Edition(at, n - 1);
    if n < 7 && at + n < len {
        let q = p.step(s[at + n], at + n);
        if s[at + n] == keyword()[n] {
            lemma_keyword(s, at, n + 1);
        } else {
            lemma_complete_stays(q, s, at + n + 1, len);
        }
    }
}

/// Over the quoted value: the lexer reaches the closing quote, or stays
/// inside the value to the end of the bytes.
proof fn lemma_string(s: Seq<u8>, at: int, p: Phase, i: int)
    requires
        0 <= i <= s.len(),
        p == Phase::EditionOpenQuote(at) || p == Phase::EditionValue(at),
    ensures
        match string_end(s, i) {
            Some(end) => i < end <= s.len() && p.run(s, i, end) == Phase::EditionCloseQuote(at),
            None => p.run(s, i, s.len() as int).outcome(s.len() as int) == Scan::Pending(at),
        },
    decreases s.len() - i,
{
    let len = s.len() as int;
    if i < len {
        let q = p.step(s[i], i);
        if s[i] == QUOTE {
            assert(p.run(s, i, i + 1) == q.run(s, i + 1, i + 1));
        } else if s[i] == BACKSLASH {
            if i + 1 < len {
                let r = q.step(s[i + 1], i + 1);
                lemma_string(s, at, r, i + 2);
                match string_end(s, i + 2) {
                    Some(end) => {
                        assert(p.run(s, i, end) == q.run(s, i + 1, end));
                    },
                    None => {},
                }
            }
        } else {
            lemma_string(s, at, q, i + 1);
        }
    }
}

/// After the keyword the lexer agrees with the grammar.
proof fn lemma_declaration(s: Seq<u8>, at: int, i: int)
    requires
        0 <= i <= s.len(),
    ensures
        Phase::Edition(at, 6).run(s, i, s.len() as int).outcome(s.len() as int)
            == scan_declaration(s, at, i),
{
    let len = s.len() as int;
    let p = Phase::Edition(at, 6);
    lemma_gap(s, p, i);
    lemma_gap_bounds(s, i);
    match gap(s, i) {
        Gap::At(j) => {
            let q = p.run(s, i, j);
            lemma_run_split(p, s, i, j, len);
            if j < len {
                let r = q.step(s[j], j);
                if s[j] != EQUALS {
                    lemma_complete_stays(r, s, j + 1, len);
                } else {
                    lemma_gap(s, r, j + 1);
                    lemma_gap_bounds(s, j + 1);
                    match gap(s, j + 1) {
                        Gap::At(k) => {
                            let t = r.run(s, j + 1, k);
                            lemma_run_split(r, s, j + 1, k, len);
                            if k < len {
                                let u = t.step(s[k], k);
                                if s[k] != QUOTE {
                                    lemma_complete_stays(u, s, k + 1, len);
                                } else {
                                    lemma_string(s, at, u, k + 1);
                                    match string_end(s, k + 1) {
                                        Some(end) => {
                                            let v = Phase::EditionCloseQuote(at);
                                            lemma_run_split(u, s, k + 1, end, len);
                                            if end < len {
                                                let w = v.step(s[end], end);
                                                assert(v.run(s, end, len) == w.run(
                                                    s,
                                                    end + 1,
                                                    len,
                                                ));
                                                lemma_complete_stays(w, s, end + 1, len);
                                            }
                                        },
                                        None => {},
                                    }
                                }
                            }
                        },
                        _ => {},
                    }
                }
            }
        },
        _ => {},
    }
}

/// The lexer agrees with the grammar: the phase that it reaches at the end
/// of a file says what a scan of the file comes to.
pub proof fn lemma_lexer_scans(s: Seq<u8>)
    ensures
        Phase::Idle.run(s, 0, s.len() as int).outcome(s.len() as int) == scan(s),
{
    reveal(scan);
    let len = s.len() as int;
    let p = Phase::Idle;
    lemma_gap(s, p, 0);
    lemma_gap_bounds(s, 0);
    match gap(s, 0) {
        Gap::At(at) => {
            let q = p.run(s, 0, at);
            lemma_run_split(p, s, 0, at, len);
            if at < len {
                let r = q.step(s[at], at);
                if s[at] == LOWER_E {
                    lemma_keyword(s, at, 1);
                    if keyword_prefix(s, at, 0) == 7 {
                        lemma_run_split(r, s, at + 1, at + 7, len);
                        lemma_declaration(s, at, at + 7);
                    }
                } else {
                    lemma_complete_stays(r, s, at + 1, len);
                }
            }
        },
        _ => {},
    }
}

} // verus!
