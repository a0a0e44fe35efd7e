//! What the patcher recognises, stated over the bytes of a file: the gaps of
//! whitespace and comments, the `edition` declaration, and the patched file.

use crate::ascii::{BACKSLASH, EQUALS, LINE_FEED, QUOTE, SLASH, STAR};
use crate::lexer::{is_space, keyword};
use vstd::prelude::*;

verus! {

/// The offset just after the first line feed at or after offset `i`: where a
/// single-line comment whose text begins at `i` ends.
pub open spec fn line_comment_end(s: Seq<u8>, i: int) -> Option<int>
    decreases s.len() - i,
{
    if i < 0 || i >= s.len() {
        None
    } else if s[i] == LINE_FEED {
        Some(i + 1)
    } else {
        line_comment_end(s, i + 1)
    }
}

/// The offset just after the first `*/` at or after offset `i`: where a
/// multi-line comment whose text begins at `i` ends.
pub open spec fn block_comment_end(s: Seq<u8>, i: int) -> Option<int>
    decreases s.len() - i,
{
    if i < 0 || i + 1 >= s.len() {
        None
    } else if s[i] == STAR && s[i + 1] == SLASH {
        Some(i + 2)
    } else {
        block_comment_end(s, i + 1)
    }
}

/// Where the comment that opens with the `/` at offset `i` ends, if these
/// bytes hold a whole comment there.
pub open spec fn comment_end(s: Seq<u8>, i: int) -> Option<int> {
    if 0 <= i && i + 1 < s.len() && s[i] == SLASH && s[i + 1] == SLASH {
        line_comment_end(s, i + 2)
    } else if 0 <= i && i + 1 < s.len() && s[i] == SLASH && s[i + 1] == STAR {
        block_comment_end(s, i + 2)
    } else {
        None
    }
}

/// Tells whether the `/` at offset `i` can still open a comment: it is the
/// last byte, or `/` or `*` follows it.
pub open spec fn comment_opens(s: Seq<u8>, i: int) -> bool {
    0 <= i < s.len() && s[i] == SLASH && (i + 1 == s.len() || s[i + 1] == SLASH || s[i + 1] == STAR)
}

/// A comment ends after it began, within the bytes.
pub proof fn lemma_comment_end_bounds(s: Seq<u8>, i: int)
    ensures
        line_comment_end(s, i) matches Some(j) ==> i < j <= s.len() && 0 <= i,
        block_comment_end(s, i) matches Some(j) ==> i + 1 < j <= s.len() && 0 <= i,
        comment_end(s, i) matches Some(j) ==> i + 2 < j <= s.len() && 0 <= i,
    decreases s.len() - i,
{
    if 0 <= i < s.len() {
        lemma_comment_end_bounds(s, i + 1);
        if i + 1 < s.len() {
            lemma_comment_end_bounds(s, i + 2);
        }
    }
}

/// How a run of whitespace and comments ends.
pub enum Gap {
    /// It ends before the byte at this offset, which is neither whitespace
    /// nor the start of a comment; or at the end of the bytes.
    At(int),
    /// The bytes end inside the comment that opens at this offset.
    Open(int),
    /// A `/` that opens no comment stands in the way.
    Bad,
}

/// Skips whitespace and whole comments from offset `i` on.
pub open spec fn gap(s: Seq<u8>, i: int) -> Gap
    decreases s.len() - i,
{
    if i < 0 || i >= s.len() {
        Gap::At(i)
    } else if s[i] == SLASH {
        if !comment_opens(s, i) {
            Gap::Bad
        } else {
            match comment_end(s, i) {
                Some(j) => {
                    proof {
                        lemma_comment_end_bounds(s, i);
                    }
                    gap(s, j)
                },
                None => Gap::Open(i),
            }
        }
    } else if is_space(s[i]) {
        gap(s, i + 1)
    } else {
        Gap::At(i)
    }
}

/// Where the quoted value whose text begins at offset `i` ends: just after
/// the first `"` that no backslash escapes.
pub open spec fn string_end(s: Seq<u8>, i: int) -> Option<int>
    decreases s.len() - i,
{
    if i < 0 || i >= s.len() {
        None
    } else if s[i] == QUOTE {
        Some(i + 1)
    } else if s[i] == BACKSLASH {
        if i + 1 < s.len() {
            string_end(s, i + 2)
        } else {
            None
        }
    } else {
        string_end(s, i + 1)
    }
}

/// The number of leading bytes of the keyword that stand at offset `i`.
pub open spec fn keyword_prefix(s: Seq<u8>, i: int, n: int) -> int
    decreases 7 - n,
{
    if 0 <= n < 7 && 0 <= i && i + n < s.len() && s[i + n] == keyword()[n] {
        keyword_prefix(s, i, n + 1)
    } else {
        n
    }
}

/// What a scan of some bytes comes to.
pub enum Scan {
    /// A declaration stands at these offsets: from the first byte of the
    /// keyword up to, not including, the byte after the closing quote.
    Found(int, int),
    /// The bytes end inside a comment or a declaration that begins at this
    /// offset.
    Pending(int),
    /// The bytes hold whitespace and whole comments only.
    Idle,
    /// The first byte that is neither whitespace nor part of a comment does
    /// not begin a declaration.
    Dead,
}

/// After the keyword that began at offset `at`, from offset `i` on: a gap,
/// `=`, a gap and the quoted value.
pub open spec fn scan_declaration(s: Seq<u8>, at: int, i: int) -> Scan {
    match gap(s, i) {
        Gap::Bad => Scan::Dead,
        Gap::Open(_) => Scan::Pending(at),
        Gap::At(j) => if j >= s.len() {
            Scan::Pending(at)
        } else if s[j] != EQUALS {
            Scan::Dead
        } else {
            match gap(s, j + 1) {
                Gap::Bad => Scan::Dead,
                Gap::Open(_) => Scan::Pending(at),
                Gap::At(k) => if k >= s.len() {
                    Scan::Pending(at)
                } else if s[k] != QUOTE {
                    Scan::Dead
                } else {
                    match string_end(s, k + 1) {
                        Some(end) => Scan::Found(at, end),
                        None => Scan::Pending(at),
                    }
                },
            }
        },
    }
}

/// Scans a file from its first byte.
#[verifier::opaque]
pub open spec fn scan(s: Seq<u8>) -> Scan {
    match gap(s, 0) {
        Gap::Bad => Scan::Dead,
        Gap::Open(at) => Scan::Pending(at),
        Gap::At(at) => if at >= s.len() {
            Scan::Idle
        } else if keyword_prefix(s, at, 0) == 7 {
            scan_declaration(s, at, at + 7)
        } else if keyword_prefix(s, at, 0) > 0 && at + keyword_prefix(s, at, 0) == s.len() {
            Scan::Pending(at)
        } else {
            Scan::Dead
        },
    }
}

impl Scan {
    /// The same result with every offset moved by `d`.
    pub open spec fn shift(self, d: int) -> Scan {
        match self {
            Scan::Found(start, end) => Scan::Found(start + d, end + d),
            Scan::Pending(at) => Scan::Pending(at + d),
            Scan::Idle => Scan::Idle,
            Scan::Dead => Scan::Dead,
        }
    }
}

/// The top-level `edition` declaration of a file, if it has one: the offset
/// of the keyword's first byte and the offset just after the closing quote.
pub open spec fn declaration(s: Seq<u8>) -> Option<(int, int)> {
    match scan(s) {
        Scan::Found(start, end) => Some((start, end)),
        _ => None,
    }
}

/// The bytes that take the place of the declaration: `syntax = "proto3"`.
pub open spec fn replacement() -> Seq<u8> {
    seq![
        0x73u8, 0x79u8, 0x6eu8, 0x74u8, 0x61u8, 0x78u8, 0x20u8, 0x3du8, 0x20u8, 0x22u8, 0x70u8,
        0x72u8, 0x6fu8, 0x74u8, 0x6fu8, 0x33u8, 0x22u8,
    ]
}

/// The patched file: the declaration gives way to the replacement, and
/// every other byte stays.
pub open spec fn patched(s: Seq<u8>) -> Seq<u8> {
    match declaration(s) {
        Some((start, end)) => s.subrange(0, start) + replacement() + s.subrange(
            end,
            s.len() as int,
        ),
        None => s,
    }
}

/// Tells whether the bytes read so far settle what the patcher does with
/// every byte that follows: a declaration was found and replaced, or none can
/// come any more.
pub open spec fn settled(s: Seq<u8>) -> bool {
    scan(s) is Found || scan(s) is Dead
}

/// What a patcher that has read `s`, and may read more, has written: all of
/// it, with the declaration replaced; but nothing of a comment or a
/// declaration that is still in progress at the end of `s`.
pub open spec fn emitted(s: Seq<u8>) -> Seq<u8> {
    match scan(s) {
        Scan::Found(start, end) => s.subrange(0, start) + replacement() + s.subrange(
            end,
            s.len() as int,
        ),
        Scan::Pending(at) => s.subrange(0, at),
        _ => s,
    }
}

/// What a patcher that has read `s` holds back: the bytes of the comment or
/// the declaration in progress at the end of `s`.
pub open spec fn held(s: Seq<u8>) -> Seq<u8> {
    match scan(s) {
        Scan::Pending(at) => s.subrange(at, s.len() as int),
        _ => Seq::empty(),
    }
}

/// What a patcher that has read `s` writes when it then reads `t`.
pub open spec fn fed(s: Seq<u8>, t: Seq<u8>) -> Seq<u8> {
    emitted(s + t).skip(emitted(s).len() as int)
}

} // verus!
