//! What holds of every file that the patcher is given.

use crate::ascii::{BACKSLASH, LOWER_E, QUOTE};
use crate::grammar::{
    comment_end, declaration, gap, keyword_prefix, patched, replacement, scan, string_end, Gap,
    Scan,
};
use crate::lexer::{keyword, Phase};
use crate::scanning::{lemma_complete_stays, lemma_gap_bounds, lemma_lexer_scans, lemma_run_split};
use crate::streaming::{lemma_anchored, lemma_run_local, lemma_scan_bounds, lemma_scan_resumes};
use vstd::prelude::*;

verus! {

/// A file whose first byte after leading whitespace and comments is not the
/// `e` of the keyword, such as a file that declares its `syntax`, holds no
/// declaration to replace: it is patched into itself.
pub proof fn lemma_other_first_token(s: Seq<u8>)
    requires
        gap(s, 0) matches Gap::At(at) && at < s.len() && s[at] != LOWER_E,
    ensures
        declaration(s) is None,
        patched(s) == s,
{
    reveal(scan);
}

proof fn lemma_string_end(s: Seq<u8>, i: int)
    requires
        0 <= i,
    ensures
        string_end(s, i) matches Some(end) ==> i < end <= s.len() && s[end - 1] == QUOTE,
    decreases s.len() - i,
{
    if i < s.len() && s[i] != QUOTE {
        if s[i] == BACKSLASH {
            if i + 1 < s.len() {
                lemma_string_end(s, i + 2);
            }
        } else {
            lemma_string_end(s, i + 1);
        }
    }
}

/// The declaration is the first thing in the file that is neither
/// whitespace nor comment: it begins with the keyword, right after the
/// leading gap, and ends with a quote. The same text anywhere else, in a
/// comment, in a quoted value or after another statement, is no declaration.
pub proof fn lemma_declaration_shape(s: Seq<u8>)
    ensures
        declaration(s) matches Some((start, end)) ==> {
            &&& gap(s, 0) == Gap::At(start)
            &&& 0 <= start
            &&& start + keyword().len() < end <= s.len()
            &&& s.subrange(start, start + keyword().len()) == keyword()
            &&& s[end - 1] == QUOTE
        },
{
    reveal(scan);
    match declaration(s) {
        Some((start, end)) => {
            reveal_with_fuel(keyword_prefix, 8);
            lemma_gap_bounds(s, start + 7);
            match gap(s, start + 7) {
                Gap::At(j) => {
                    lemma_gap_bounds(s, j + 1);
                    match gap(s, j + 1) {
                        Gap::At(k) => {
                            lemma_string_end(s, k + 1);
                        },
                        _ => {},
                    }
                },
                _ => {},
            }
        },
        None => {},
    }
}

/// Where the declaration is replaced: the bytes before it and the bytes
/// after it stand as they were, around the replacement, and nothing else
/// changes.
pub proof fn lemma_patched_shape(s: Seq<u8>)
    ensures
        match declaration(s) {
            Some((start, end)) => {
                &&& 0 <= start < end <= s.len()
                &&& patched(s).len() == s.len() - (end - start) + replacement().len()
                &&& patched(s).subrange(0, start) == s.subrange(0, start)
                &&& patched(s).subrange(start, start + replacement().len()) == replacement()
                &&& patched(s).subrange(start + replacement().len(), patched(s).len() as int)
                    == s.subrange(end, s.len() as int)
            },
            None => patched(s) == s,
        },
{
    lemma_scan_bounds(s);
}

/// Every stretch of the file that lies outside the declaration, a comment
/// before the keyword or after the value among them, stands byte for byte in
/// the patched file: where it stood, if it comes before the declaration, and
/// moved by the difference in length, if it comes after.
pub proof fn lemma_outside_preserved(s: Seq<u8>, i: int, j: int)
    requires
        0 <= i <= j <= s.len(),
    ensures
        match declaration(s) {
            Some((start, end)) => {
                &&& j <= start ==> patched(s).subrange(i, j) == s.subrange(i, j)
                &&& end <= i ==> patched(s).subrange(
                    i - end + start + replacement().len(),
                    j - end + start + replacement().len(),
                ) == s.subrange(i, j)
            },
            None => patched(s).subrange(i, j) == s.subrange(i, j),
        },
{
    lemma_scan_bounds(s);
    match declaration(s) {
        Some((start, end)) => {
            let n = replacement().len() as int;
            if end <= i {
                assert(patched(s).subrange(i - end + start + n, j - end + start + n) =~= s.subrange(
                    i,
                    j,
                ));
            }
        },
        None => {},
    }
}

/// A comment in a gap is passed over, whatever it holds: the gap goes on
/// after it.
pub proof fn lemma_comment_skipped(s: Seq<u8>, i: int)
    requires
        0 <= i,
        comment_end(s, i) is Some,
    ensures
        gap(s, i) == gap(s, comment_end(s, i)->Some_0),
{}

/// Leading whitespace and comments do not count: a file that begins with
/// them is scanned as the rest of it is, whatever the comments hold.
pub proof fn lemma_leading_gap_skipped(lead: Seq<u8>, rest: Seq<u8>)
    requires
        scan(lead) == Scan::Idle,
    ensures
        scan(lead + rest) == scan(rest).shift(lead.len() as int),
        patched(lead + rest) == lead + patched(rest),
{
    lemma_scan_resumes(lead, rest);
    lemma_scan_bounds(rest);
}

/// A file that is one whole comment is all gap.
pub proof fn lemma_comment_is_gap(c: Seq<u8>)
    requires
        comment_end(c, 0) == Some(c.len() as int),
    ensures
        scan(c) == Scan::Idle,
{
    reveal(scan);
    assert(gap(c, c.len() as int) == Gap::At(c.len() as int));
}

/// Patching twice is patching once: the patched file holds no declaration
/// to replace.
pub proof fn lemma_patch_idempotent(s: Seq<u8>)
    ensures
        declaration(patched(s)) is None,
        patched(patched(s)) == patched(s),
{
    match declaration(s) {
        Some((start, end)) => {
            let t = patched(s);
            let len = t.len() as int;
            lemma_lexer_scans(s);
            lemma_lexer_scans(t);
            lemma_anchored(s, s.len() as int);
            lemma_run_local(Phase::Idle, s, t, 0, start);
            lemma_run_split(Phase::Idle, t, 0, start, len);
            let q = Phase::Idle.step(t[start], start);
            lemma_complete_stays(q, t, start + 1, len);
        },
        None => {},
    }
}

} // verus!
