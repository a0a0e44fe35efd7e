//! Reading a file in parts: what the bytes read so far settle, and how the
//! scan of a longer file follows from the scan of what was held back.

use crate::grammar::{emitted, fed, held, patched, replacement, scan, settled, Scan};
use crate::lexer::{Phase, Resume};
use crate::scanning::{lemma_complete_stays, lemma_lexer_scans, lemma_run_last, lemma_run_split};
use vstd::prelude::*;

verus! {

impl Resume {
    /// The same phase with its offset moved by `d`.
    pub open spec fn shift(self, d: int) -> Resume {
        match self {
            Resume::Idle => Resume::Idle,
            Resume::EditionWhitespacePost(at) => Resume::EditionWhitespacePost(at + d),
            Resume::EditionEqual(at) => Resume::EditionEqual(at + d),
            Resume::EditionEqualWhitespacePost(at) => Resume::EditionEqualWhitespacePost(at + d),
        }
    }

    /// The offset that the phase carries, if it is not this one.
    pub open spec fn anchored_at(self, at: int) -> bool {
        match self {
            Resume::Idle => true,
            Resume::EditionWhitespacePost(a) => a == at,
            Resume::EditionEqual(a) => a == at,
            Resume::EditionEqualWhitespacePost(a) => a == at,
        }
    }
}

impl Phase {
    /// The same phase with every offset moved by `d`.
    pub open spec fn shift(self, d: int) -> Phase {
        match self {
            Phase::Idle => Phase::Idle,
            Phase::CommentPending(at, ctx) => Phase::CommentPending(at + d, ctx.shift(d)),
            Phase::CommentSingleLine(at, ctx) => Phase::CommentSingleLine(at + d, ctx.shift(d)),
            Phase::CommentMultiLine(at, ctx) => Phase::CommentMultiLine(at + d, ctx.shift(d)),
            Phase::CommentMultiLineEndPending(at, ctx) => Phase::CommentMultiLineEndPending(
                at + d,
                ctx.shift(d),
            ),
            Phase::Edition(at, idx) => Phase::Edition(at + d, idx),
            Phase::EditionWhitespacePost(at) => Phase::EditionWhitespacePost(at + d),
            Phase::EditionEqual(at) => Phase::EditionEqual(at + d),
            Phase::EditionEqualWhitespacePost(at) => Phase::EditionEqualWhitespacePost(at + d),
            Phase::EditionOpenQuote(at) => Phase::EditionOpenQuote(at + d),
            Phase::EditionValueEscape(at) => Phase::EditionValueEscape(at + d),
            Phase::EditionValue(at) => Phase::EditionValue(at + d),
            Phase::EditionCloseQuote(at) => Phase::EditionCloseQuote(at + d),
            Phase::Complete(None) => Phase::Complete(None),
            Phase::Complete(Some((start, end))) => Phase::Complete(Some((start + d, end + d))),
        }
    }

    /// Tells whether the token in progress began at an offset before `k` at
    /// which the lexer, reading `s` from its first byte, was idle.
    pub open spec fn anchored(self, s: Seq<u8>, k: int) -> bool {
        match self {
            Phase::Idle | Phase::Complete(None) => true,
            Phase::Complete(Some((start, end))) => 0 <= start < end <= k && Phase::Idle.run(
                s,
                0,
                start,
            ) == Phase::Idle,
            Phase::CommentPending(at, ctx)
            | Phase::CommentSingleLine(at, ctx)
            | Phase::CommentMultiLine(at, ctx)
            | Phase::CommentMultiLineEndPending(at, ctx) => 0 <= at < k && Phase::Idle.run(
                s,
                0,
                at,
            ) == Phase::Idle && ctx.anchored_at(at),
            Phase::Edition(at, _)
            | Phase::EditionWhitespacePost(at)
            | Phase::EditionEqual(at)
            | Phase::EditionEqualWhitespacePost(at)
            | Phase::EditionOpenQuote(at)
            | Phase::EditionValueEscape(at)
            | Phase::EditionValue(at)
            | Phase::EditionCloseQuote(at) => 0 <= at < k && Phase::Idle.run(s, 0, at)
                == Phase::Idle,
        }
    }
}

/// Moving every offset by `d` moves the lexer's phases by `d`.
pub proof fn lemma_run_shift(p: Phase, s: Seq<u8>, t: Seq<u8>, a: int, b: int, d: int)
    requires
        0 <= a,
        b <= s.len(),
        0 <= a + d,
        b + d <= t.len(),
        forall|i: int| a <= i < b ==> s[i] == #[trigger] t[i + d],
    ensures
        p.shift(d).run(t, a + d, b + d) == p.run(s, a, b).shift(d),
    decreases b - a,
{
    if a < b {
        lemma_run_shift(p.step(s[a], a), s, t, a + 1, b, d);
    }
}

/// The token in progress began where the lexer was idle.
pub proof fn lemma_anchored(s: Seq<u8>, k: int)
    requires
        0 <= k <= s.len(),
    ensures
        Phase::Idle.run(s, 0, k).anchored(s, k),
    decreases k,
{
    if k > 0 {
        lemma_anchored(s, k - 1);
        lemma_run_last(Phase::Idle, s, 0, k - 1);
    }
}

/// The phases of the lexer over some bytes depend on those bytes alone.
pub proof fn lemma_run_local(p: Phase, s: Seq<u8>, t: Seq<u8>, a: int, b: int)
    requires
        0 <= a,
        b <= s.len(),
        b <= t.len(),
        forall|i: int| a <= i < b ==> s[i] == t[i],
    ensures
        p.run(t, a, b) == p.run(s, a, b),
    decreases b - a,
{
    if a < b {
        lemma_run_local(p.step(s[a], a), s, t, a + 1, b);
    }
}

/// The phase at the end of `s`, the lexer having read `s` from its first
/// byte.
pub open spec fn phase_of(s: Seq<u8>) -> Phase {
    Phase::Idle.run(s, 0, s.len() as int)
}

/// Moving a phase moves what it says about the bytes.
pub proof fn lemma_outcome_shift(p: Phase, len: int, d: int)
    ensures
        p.shift(d).outcome(len + d) == p.outcome(len).shift(d),
{}

/// A declaration that was found lies within the bytes, and the bytes held
/// back begin within them.
pub proof fn lemma_scan_bounds(s: Seq<u8>)
    ensures
        match scan(s) {
            Scan::Found(start, end) => 0 <= start < end <= s.len(),
            Scan::Pending(at) => 0 <= at < s.len(),
            _ => true,
        },
{
    lemma_lexer_scans(s);
    lemma_anchored(s, s.len() as int);
}

/// Once the bytes read settle the scan, no byte that follows changes it.
pub proof fn lemma_settled_stays(s: Seq<u8>, t: Seq<u8>)
    requires
        settled(s),
    ensures
        scan(s + t) == scan(s),
{
    let u = s + t;
    let n = s.len() as int;
    let m = u.len() as int;
    lemma_lexer_scans(s);
    lemma_lexer_scans(u);
    lemma_run_local(Phase::Idle, s, u, 0, n);
    let p = phase_of(s);
    lemma_run_split(Phase::Idle, u, 0, n, m);
    if p is Complete {
        lemma_complete_stays(p, u, n, m);
    } else {
        if t.len() > 0 {
            let q = p.step(u[n], n);
            lemma_complete_stays(q, u, n + 1, m);
        }
    }
}

/// Where the lexer was idle, it goes on as if the file began there.
proof fn lemma_phase_resumes(u: Seq<u8>, x: Seq<u8>, d: int)
    requires
        0 <= d,
        u.len() == d + x.len(),
        forall|i: int| 0 <= i < x.len() ==> x[i] == #[trigger] u[i + d],
        Phase::Idle.run(u, 0, d) == Phase::Idle,
    ensures
        phase_of(u) == phase_of(x).shift(d),
{
    lemma_run_split(Phase::Idle, u, 0, d, u.len() as int);
    lemma_run_shift(Phase::Idle, x, u, 0, x.len() as int, d);
}

/// What was written ends where the lexer was idle.
proof fn lemma_idle_at_emitted(s: Seq<u8>)
    requires
        !settled(s),
    ensures
        s == emitted(s) + held(s),
        Phase::Idle.run(s, 0, emitted(s).len() as int) == Phase::Idle,
{
    lemma_lexer_scans(s);
    lemma_anchored(s, s.len() as int);
}

/// Until the bytes read settle the scan, the scan of a longer file is the
/// scan of what was held back and what follows, moved by the length of what
/// was written.
pub proof fn lemma_scan_resumes(s: Seq<u8>, t: Seq<u8>)
    requires
        !settled(s),
    ensures
        s == emitted(s) + held(s),
        scan(emitted(s)) == Scan::Idle,
        scan(s + t) == scan(held(s) + t).shift(emitted(s).len() as int),
{
    let u = s + t;
    let f = emitted(s);
    let x = held(s) + t;
    let d = f.len() as int;
    lemma_idle_at_emitted(s);
    lemma_run_local(Phase::Idle, s, f, 0, d);
    lemma_lexer_scans(f);
    lemma_run_local(Phase::Idle, s, u, 0, d);
    lemma_phase_resumes(u, x, d);
    lemma_lexer_scans(u);
    lemma_lexer_scans(x);
}

/// A file without bytes holds neither a declaration nor anything to hold
/// back.
pub proof fn lemma_scan_empty()
    ensures
        scan(Seq::<u8>::empty()) == Scan::Idle,
{
    lemma_lexer_scans(Seq::<u8>::empty());
}

/// What a patcher writes when it reads on, by what it had read before and
/// what the bytes held back and the bytes that follow come to.
pub proof fn lemma_fed(s: Seq<u8>, t: Seq<u8>)
    ensures
        emitted(s + t) == emitted(s) + fed(s, t),
        settled(s) ==> fed(s, t) == t && scan(s + t) == scan(s),
        !settled(s) ==> ({
            let x = held(s) + t;
            match scan(x) {
                Scan::Found(start, end) => {
                    &&& 0 <= start < end <= x.len()
                    &&& scan(s + t) is Found
                    &&& fed(s, t) == x.subrange(0, start) + replacement() + x.subrange(
                        end,
                        x.len() as int,
                    )
                },
                Scan::Pending(at) => {
                    &&& 0 <= at < x.len()
                    &&& scan(s + t) is Pending
                    &&& fed(s, t) == x.subrange(0, at)
                    &&& held(s + t) == x.subrange(at, x.len() as int)
                },
                other => scan(s + t) == other && fed(s, t) == x,
            }
        }),
{
    lemma_scan_bounds(s);
    if settled(s) {
        lemma_settled_stays(s, t);
    } else {
        lemma_scan_resumes(s, t);
        lemma_scan_bounds(held(s) + t);
    }
}

/// Reading in parts writes what reading at once writes: the parts of a file
/// can be cut anywhere.
pub proof fn lemma_fed_in_parts(s: Seq<u8>, a: Seq<u8>, b: Seq<u8>)
    ensures
        fed(s, a + b) == fed(s, a) + fed(s + a, b),
{
    lemma_fed(s, a + b);
    lemma_fed(s, a);
    lemma_fed(s + a, b);
    assert(s + (a + b) =~= (s + a) + b);
    let whole = emitted(s) + fed(s, a + b);
    let parts = emitted(s) + (fed(s, a) + fed(s + a, b));
    assert(whole =~= parts);
    assert(fed(s, a + b) =~= whole.skip(emitted(s).len() as int));
    assert(fed(s, a) + fed(s + a, b) =~= parts.skip(emitted(s).len() as int));
}

/// What was written and what is held back make up the patched file.
pub proof fn lemma_patched_parts(s: Seq<u8>)
    ensures
        patched(s) == emitted(s) + held(s),
{
    lemma_scan_bounds(s);
}

} // verus!
